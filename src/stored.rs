//! Schedule data in the shape persistent storage holds it: a start week as year and week
//! number, and assignees as JSON text

use crate::datetime::DateTime;
use crate::schedule::{Error, Schedule, WeeklyTimes};
use vstd::prelude::*;

verus! {

/// Weekday of 31 December of `year`, Monday being 1 and Sunday 0
pub open spec fn december_31_weekday(year: int) -> int {
    (year + year / 4 - year / 100 + year / 400) % 7
}

/// Number of ISO weeks in the year: 53 when the year ends on a Thursday or the year before
/// ends on a Wednesday, else 52
pub open spec fn iso_weeks_in_year(year: i32) -> u8 {
    if december_31_weekday(year as int) == 4 || december_31_weekday(year - 1) == 3 {
        53
    } else {
        52
    }
}

/// Julian day of the Monday of ISO week `week` of `year`, where that week exists
pub uninterp spec fn iso_week_monday(year: i32, week: u8) -> Option<i32>;

/// ISO week number of the date with the given Julian day, where `time` represents that date
pub uninterp spec fn iso_week_of_day(day: i32) -> Option<u8>;

/// Calendar year of the date with the given Julian day, where `time` represents that date
pub uninterp spec fn calendar_year_of_day(day: i32) -> Option<i32>;

/// JSON text of a list of ids, where it can be written
pub uninterp spec fn ids_json(ids: Seq<i32>) -> Option<Seq<char>>;

/// List of ids that a JSON text holds, where it holds one
pub uninterp spec fn ids_from_json(text: Seq<char>) -> Option<Seq<i32>>;

/// Relies on `time::util::weeks_in_year`: the number of ISO weeks in the year, which is
/// always 52 or 53
#[verifier::external_body]
fn weeks_in_year(year: i32) -> (r: u8)
    ensures
        r == iso_weeks_in_year(year),
        52 <= r <= 53,
{
    time::util::weeks_in_year(year)
}

/// Relies on `time::Date::from_iso_week_date` with `Weekday::Monday`, read back through
/// `Date::to_julian_day`: the Monday of the ISO week, where the year and week are in range
#[verifier::external_body]
fn monday_of_iso_week(year: i32, week: u8) -> (r: Option<i32>)
    ensures
        r == iso_week_monday(year, week),
{
    match time::Date::from_iso_week_date(year, week, time::Weekday::Monday) {
        Ok(date) => Some(date.to_julian_day()),
        Err(_) => None,
    }
}

/// Relies on `time::Date::from_julian_day` and `Date::iso_week`: the ISO week of the date,
/// which is always from 1 to 53
#[verifier::external_body]
fn iso_week_of(day: i32) -> (r: Option<u8>)
    ensures
        r == iso_week_of_day(day),
        r matches Some(w) ==> 1 <= w <= 53,
{
    match time::Date::from_julian_day(day) {
        Ok(date) => Some(date.iso_week()),
        Err(_) => None,
    }
}

/// Relies on `time::Date::from_julian_day` and `Date::year`: the calendar year of the date
#[verifier::external_body]
fn calendar_year_of(day: i32) -> (r: Option<i32>)
    ensures
        r == calendar_year_of_day(day),
{
    match time::Date::from_julian_day(day) {
        Ok(date) => Some(date.year()),
        Err(_) => None,
    }
}

/// Relies on `serde_json::to_string`: the JSON array of the ids, which cannot fail for a
/// list of integers
#[verifier::external_body]
fn ids_to_json_text(ids: &Vec<i32>) -> (r: Option<String>)
    ensures
        r is Some,
        match r {
            Some(t) => ids_json(ids@) == Some(t@),
            None => ids_json(ids@) is None,
        },
{
    serde_json::to_string(ids).ok()
}

/// Relies on `serde_json::from_str`: the list of ids in a JSON array of numbers
#[verifier::external_body]
fn ids_from_json_text(text: &str) -> (r: Option<Vec<i32>>)
    ensures
        match r {
            Some(v) => ids_from_json(text@) == Some(v@),
            None => ids_from_json(text@) is None,
        },
{
    serde_json::from_str::<Vec<i32>>(text).ok()
}

/// Model for ISO weeks in persistent storage
#[derive(Clone, Copy, Debug, PartialEq, Eq, Structural)]
pub struct StoredIsoWeek {
    /// Year of the ISO week
    pub year: i32,
    /// Week of the year, between 1 and 53 inclusive
    pub week: i32,
}

/// Quotient of `v` by 100, rounded toward zero
pub open spec fn div_toward_zero_100(v: int) -> int {
    if v >= 0 {
        v / 100
    } else {
        -((-v) / 100)
    }
}

impl StoredIsoWeek {
    /// The week is a week number that the year has
    pub open spec fn week_in_range(self) -> bool {
        0 <= self.week <= iso_weeks_in_year(self.year)
    }

    /// Encodes the week as one number: year 2020 week 33 is 202033
    pub fn to_stored(&self) -> (r: Result<i32, Error>)
        ensures
            self.year * 100 < i32::MIN || self.year * 100 > i32::MAX ==> r == Err::<i32, Error>(
                Error::YearTooLarge(self.year),
            ),
            i32::MIN <= self.year * 100 <= i32::MAX ==> {
                if i32::MIN <= self.year * 100 + self.week <= i32::MAX {
                    r == Ok::<i32, Error>((self.year * 100 + self.week) as i32)
                } else {
                    r == Err::<i32, Error>(Error::WeekTooLarge(self.week))
                }
            },
    {
        let shifted_year = match self.year.checked_mul(100) {
            Some(y) => y,
            None => return Err(Error::YearTooLarge(self.year)),
        };
        match shifted_year.checked_add(self.week) {
            Some(v) => Ok(v),
            None => Err(Error::WeekTooLarge(self.week)),
        }
    }

    /// Decodes a week encoded as one number: 202033 is year 2020 week 33
    pub fn from_stored(v: i32) -> (r: StoredIsoWeek)
        ensures
            r.year == div_toward_zero_100(v as int),
            r.week == v - 100 * div_toward_zero_100(v as int),
    {
        let year: i32 = if v >= 0 {
            v / 100
        } else {
            -((-(v as i64)) / 100) as i32
        };
        let week: i32 = v - 100 * year;
        StoredIsoWeek { year, week }
    }

    /// Midnight UTC on the Monday of the week; an error where the week number is not one of
    /// the year's, or the week is beyond the dates `time` represents
    pub open spec fn start_date(self) -> Result<DateTime, Error> {
        if !self.week_in_range() {
            Err(Error::WeekTooLarge(self.week))
        } else {
            match iso_week_monday(self.year, self.week as u8) {
                Some(day) => Ok(DateTime { day, nanos: 0 }),
                None => Err(Error::InvalidStartWeek { week: self.week as u32, year: self.year }),
            }
        }
    }

    /// The start of the week: midnight UTC on its Monday
    pub fn to_start_date(&self) -> (r: Result<DateTime, Error>)
        ensures
            r == self.start_date(),
    {
        if self.week < 0 || self.week > 255 {
            return Err(Error::WeekTooLarge(self.week));
        }
        let week = self.week as u8;
        if week > weeks_in_year(self.year) {
            return Err(Error::WeekTooLarge(self.week));
        }
        match monday_of_iso_week(self.year, week) {
            Some(day) => Ok(DateTime { day, nanos: 0 }),
            None => Err(Error::InvalidStartWeek { week: week as u32, year: self.year }),
        }
    }
}

/// A schedule in the shape persistent storage holds it
#[derive(Debug, PartialEq, Eq)]
pub struct Provider {
    /// Scheduled times of day throughout the week
    pub weekly_times: WeeklyTimes,
    /// Week in which the schedule started
    pub start_week: StoredIsoWeek,
    /// Assignee ids in order of assignment
    pub assignees: StoredAssignees,
}

impl Provider {
    /// The stored form of a schedule: its start date as the ISO week number and calendar year
    /// of that date; none where `time` does not represent the date
    pub fn from_schedule(schedule: Schedule) -> (r: Option<Provider>)
        ensures
            match (
                iso_week_of_day(schedule.start_date.day),
                calendar_year_of_day(schedule.start_date.day),
            ) {
                (Some(week), Some(year)) => r matches Some(p) && p.weekly_times@
                    == schedule.weekly_times@ && p.start_week == (StoredIsoWeek {
                    year,
                    week: week as i32,
                }) && p.assignees.0@ == schedule.assignees@,
                _ => r is None,
            },
    {
        let Schedule { weekly_times, start_date, assignees } = schedule;
        let week = match iso_week_of(start_date.day) {
            Some(week) => week,
            None => return None,
        };
        let year = match calendar_year_of(start_date.day) {
            Some(year) => year,
            None => return None,
        };
        Some(
            Provider {
                weekly_times,
                start_week: StoredIsoWeek { year, week: week as i32 },
                assignees: StoredAssignees(assignees),
            },
        )
    }

    /// The schedule that is stored; an error where the start week is not a valid week
    pub fn to_schedule(self) -> (r: Result<Schedule, Error>)
        ensures
            match self.start_week.start_date() {
                Ok(start) => r matches Ok(s) && s.weekly_times@ == self.weekly_times@
                    && s.start_date == start && s.assignees@ == self.assignees.0@,
                Err(e) => r == Err::<Schedule, Error>(e),
            },
    {
        let Provider { weekly_times, start_week, assignees } = self;
        match start_week.to_start_date() {
            Ok(start_date) => Ok(Schedule::new(weekly_times, start_date, assignees.0)),
            Err(e) => Err(e),
        }
    }
}

/// Decoding the number that a week encodes to gives the week back, for years from 0 on and
/// week numbers below 100
pub proof fn lemma_stored_week_round_trip(w: StoredIsoWeek)
    requires
        w.year >= 0,
        0 <= w.week < 100,
        w.year * 100 + w.week <= i32::MAX,
    ensures
        div_toward_zero_100(w.year * 100 + w.week) == w.year,
        (w.year * 100 + w.week) - 100 * div_toward_zero_100(w.year * 100 + w.week) == w.week,
{
    let v = w.year * 100 + w.week;
    assert(v / 100 == w.year) by (nonlinear_arith)
        requires
            v == w.year * 100 + w.week,
            0 <= w.week < 100,
            w.year >= 0,
    ;
}

/// Model for scheduled assignees in persistent storage
#[derive(Clone, Debug, PartialEq, Eq)]
pub struct StoredAssignees(pub Vec<i32>);

impl StoredAssignees {
    /// The assignees as a JSON array of numbers
    pub fn to_json(&self) -> (r: Option<String>)
        ensures
            r is Some,
            match r {
                Some(t) => ids_json(self.0@) == Some(t@),
                None => ids_json(self.0@) is None,
            },
    {
        ids_to_json_text(&self.0)
    }

    /// The assignees in a JSON array of numbers; none where the text holds no such array
    pub fn from_json(text: &str) -> (r: Option<StoredAssignees>)
        ensures
            match r {
                Some(a) => ids_from_json(text@) == Some(a.0@),
                None => ids_from_json(text@) is None,
            },
    {
        match ids_from_json_text(text) {
            Some(ids) => Some(StoredAssignees(ids)),
            None => None,
        }
    }
}

} // verus!
