//! Calendar values as the scheduling logic reads them: a day number and a time of day

use vstd::prelude::*;

verus! {

#[verifier::external_type_specification]
#[verifier::external_body]
pub struct ExOffsetDateTime(time::OffsetDateTime);

/// Relies on `time::OffsetDateTime::to_julian_day`: the Julian day of the value's date, in
/// the value's own offset
#[verifier::external_body]
fn julian_day_of(t: &time::OffsetDateTime) -> (r: i32) {
    t.to_julian_day()
}

/// Relies on `time::OffsetDateTime::to_hms_nano`: the clock time, in the value's own offset,
/// as hour below 24, minute below 60, second below 60 and nanosecond below 10^9
#[verifier::external_body]
fn clock_of(t: &time::OffsetDateTime) -> (r: (u8, u8, u8, u32))
    ensures
        r.0 < 24,
        r.1 < 60,
        r.2 < 60,
        r.3 < NANOS_PER_SECOND,
{
    t.to_hms_nano()
}

/// Nanoseconds in one day
pub const NANOS_PER_DAY: u64 = 86_400_000_000_000;

/// Nanoseconds in one second
pub const NANOS_PER_SECOND: u64 = 1_000_000_000;

/// Nanoseconds in one week
pub const NANOS_PER_WEEK: u64 = 604_800_000_000_000;

/// Day of the week, starting on Monday
#[derive(Clone, Copy, Debug, PartialEq, Eq, Structural, Hash)]
pub enum Weekday {
    Monday,
    Tuesday,
    Wednesday,
    Thursday,
    Friday,
    Saturday,
    Sunday,
}

impl Weekday {
    /// Position of the day in the week, Monday being 0
    pub open spec fn index_spec(self) -> int {
        match self {
            Weekday::Monday => 0,
            Weekday::Tuesday => 1,
            Weekday::Wednesday => 2,
            Weekday::Thursday => 3,
            Weekday::Friday => 4,
            Weekday::Saturday => 5,
            Weekday::Sunday => 6,
        }
    }

    /// The day at the given position in the week, Monday being 0
    pub open spec fn from_index_spec(i: int) -> Weekday {
        if i == 0 {
            Weekday::Monday
        } else if i == 1 {
            Weekday::Tuesday
        } else if i == 2 {
            Weekday::Wednesday
        } else if i == 3 {
            Weekday::Thursday
        } else if i == 4 {
            Weekday::Friday
        } else if i == 5 {
            Weekday::Saturday
        } else {
            Weekday::Sunday
        }
    }

    /// Position of the day in the week, Monday being 0
    pub fn index(&self) -> (r: usize)
        ensures
            r as int == self.index_spec(),
            r < 7,
    {
        match self {
            Weekday::Monday => 0,
            Weekday::Tuesday => 1,
            Weekday::Wednesday => 2,
            Weekday::Thursday => 3,
            Weekday::Friday => 4,
            Weekday::Saturday => 5,
            Weekday::Sunday => 6,
        }
    }

    /// Number of the day in the week, Monday being 1 and Sunday 7
    pub fn number_from_monday(&self) -> (r: u8)
        ensures
            r as int == self.index_spec() + 1,
    {
        (self.index() + 1) as u8
    }

    /// The day at the given position in the week, Monday being 0
    pub fn from_index(i: usize) -> (r: Weekday)
        requires
            i < 7,
        ensures
            r == Weekday::from_index_spec(i as int),
            r.index_spec() == i as int,
    {
        if i == 0 {
            Weekday::Monday
        } else if i == 1 {
            Weekday::Tuesday
        } else if i == 2 {
            Weekday::Wednesday
        } else if i == 3 {
            Weekday::Thursday
        } else if i == 4 {
            Weekday::Friday
        } else if i == 5 {
            Weekday::Saturday
        } else {
            Weekday::Sunday
        }
    }
}

/// An instant in UTC: the Julian day number of its date, and the nanoseconds elapsed
/// since midnight on that date
#[derive(Clone, Copy, Debug, PartialEq, Eq, Structural, Hash)]
pub struct DateTime {
    /// Julian day number of the date
    pub day: i32,
    /// Nanoseconds since midnight, below `NANOS_PER_DAY`
    pub nanos: u64,
}

/// Position in the week of a Julian day, Monday being 0: Julian day 0 is a Monday
pub open spec fn weekday_index_of(day: int) -> int {
    day % 7
}

impl DateTime {
    /// The time of day is within the day
    pub open spec fn wf(self) -> bool {
        self.nanos < NANOS_PER_DAY
    }

    /// Position of the instant's weekday in the week, Monday being 0
    pub open spec fn weekday_index(self) -> int {
        weekday_index_of(self.day as int)
    }

    /// Nanoseconds from the start of Julian day 0 up to this instant
    pub open spec fn timeline(self) -> int {
        self.day as int * NANOS_PER_DAY as int + self.nanos as int
    }

    /// The instant at `nanos` nanoseconds past midnight of the given Julian day
    pub fn new(day: i32, nanos: u64) -> (r: Option<DateTime>)
        ensures
            nanos < NANOS_PER_DAY ==> r == Some(DateTime { day, nanos }),
            nanos >= NANOS_PER_DAY ==> r is None,
    {
        if nanos < NANOS_PER_DAY {
            Some(DateTime { day, nanos })
        } else {
            None
        }
    }

    /// The instant on the given Julian day at the given clock time
    pub fn from_day_and_clock(day: i32, hour: u8, minute: u8, second: u8, nanosecond: u32) -> (r:
        Option<DateTime>)
        ensures
            (hour < 24 && minute < 60 && second < 60 && nanosecond < NANOS_PER_SECOND) ==> r
                == Some(
                DateTime {
                    day,
                    nanos: (((hour as int * 60 + minute as int) * 60 + second as int)
                        * NANOS_PER_SECOND as int + nanosecond as int) as u64,
                },
            ),
            !(hour < 24 && minute < 60 && second < 60 && nanosecond < NANOS_PER_SECOND) ==> r
                is None,
    {
        if hour < 24 && minute < 60 && second < 60 && (nanosecond as u64) < NANOS_PER_SECOND {
            let seconds: u64 = ((hour as u64) * 60 + minute as u64) * 60 + second as u64;
            let nanos: u64 = seconds * NANOS_PER_SECOND + nanosecond as u64;
            Some(DateTime { day, nanos })
        } else {
            None
        }
    }

    /// The instant that a `time` value reads, as the date and clock time in its own offset
    pub fn from_offset_date_time(t: &time::OffsetDateTime) -> (r: DateTime)
        ensures
            r.wf(),
    {
        let day = julian_day_of(t);
        let (hour, minute, second, nanosecond) = clock_of(t);
        match DateTime::from_day_and_clock(day, hour, minute, second, nanosecond) {
            Some(r) => r,
            None => DateTime { day, nanos: 0 },
        }
    }

    /// Midnight on the Monday of the week of this instant
    pub fn start_of_week(&self) -> (r: DateTime)
        requires
            self.day >= i32::MIN + 6,
        ensures
            r.day == self.day - self.weekday_index(),
            r.nanos == 0,
            r.weekday_index() == 0,
    {
        let back = self.weekday().index() as i32;
        DateTime { day: self.day - back, nanos: 0 }
    }

    /// Day of the week of this instant
    pub fn weekday(&self) -> (r: Weekday)
        ensures
            r.index_spec() == self.weekday_index(),
    {
        let i: i32 = self.day % 7;
        let i: i32 = if i < 0 {
            i + 7
        } else {
            i
        };
        assert(i as int == weekday_index_of(self.day as int)) by {
            assert(self.day % 7 == (self.day as int) % 7 || self.day < 0);
        }
        Weekday::from_index(i as usize)
    }
}

} // verus!
