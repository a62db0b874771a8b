//! A stateless weekly schedule with a rotating list of assignees

use crate::datetime::{weekday_index_of, DateTime, Weekday, NANOS_PER_DAY, NANOS_PER_WEEK};
use vstd::prelude::*;

verus! {

/// Scheduling errors
#[derive(Clone, Copy, Debug, PartialEq, Eq, Structural)]
pub enum Error {
    /// The starting week for a schedule is invalid
    InvalidStartWeek {
        /// The week number of the invalid starting week
        week: u32,
        /// The year of the invalid starting week
        year: i32,
    },
    /// The year for a schedule's starting week is too large
    YearTooLarge(i32),
    /// The week of the year for a schedule's starting week is too large
    WeekTooLarge(i32),
}

/// Number of times in `s` at or before `x`
pub open spec fn count_le(s: Seq<u64>, x: u64) -> nat
    decreases s.len(),
{
    if s.len() == 0 {
        0
    } else {
        count_le(s.drop_last(), x) + if s.last() <= x {
            1nat
        } else {
            0nat
        }
    }
}

/// Number of scheduled times on the days before day `d` of the week
pub open spec fn times_before_day(w: Seq<Seq<u64>>, d: int) -> nat
    decreases d,
{
    if d <= 0 {
        0
    } else {
        times_before_day(w, d - 1) + w[d - 1].len()
    }
}

/// Number of scheduled times in a full week
pub open spec fn times_in_week(w: Seq<Seq<u64>>) -> nat {
    times_before_day(w, 7)
}

/// Number of scheduled times of the week that are at or before `now`
pub open spec fn times_so_far(w: Seq<Seq<u64>>, now: DateTime) -> nat {
    times_before_day(w, now.weekday_index()) + count_le(w[now.weekday_index()], now.nanos)
}

/// Whole weeks from the date of `start` to the date of `now`; the largest `usize` where
/// `now` falls on an earlier date than `start`
pub open spec fn elapsed_weeks(start: DateTime, now: DateTime) -> int {
    if now.day < start.day {
        usize::MAX as int
    } else {
        (now.day - start.day) / 7
    }
}

/// The first time in `s`, in list order, that is at or after `x`
pub open spec fn first_at_or_after(s: Seq<u64>, x: u64) -> Option<u64>
    decreases s.len(),
{
    if s.len() == 0 {
        None
    } else if s[0] >= x {
        Some(s[0])
    } else {
        first_at_or_after(s.drop_first(), x)
    }
}

/// Day `d` can hold the next occurrence without wrapping into the following week
pub open spec fn day_qualifies(w: Seq<Seq<u64>>, today: int, x: u64, d: int) -> bool {
    (d > today && w[d].len() > 0) || (d == today && first_at_or_after(w[d], x) is Some)
}

/// The first day from `d` on, up to Sunday, that qualifies
pub open spec fn scan_week(w: Seq<Seq<u64>>, today: int, x: u64, d: int) -> Option<int>
    decreases 7 - d,
{
    if d < 0 || d >= 7 {
        None
    } else if day_qualifies(w, today, x, d) {
        Some(d)
    } else {
        scan_week(w, today, x, d + 1)
    }
}

/// The first day from `d` on, up to Sunday, with any scheduled time
pub open spec fn first_scheduled_day(w: Seq<Seq<u64>>, d: int) -> Option<int>
    decreases 7 - d,
{
    if d < 0 || d >= 7 {
        None
    } else if w[d].len() > 0 {
        Some(d)
    } else {
        first_scheduled_day(w, d + 1)
    }
}

/// The day of the next occurrence: the first qualifying day from today to Sunday, else the
/// first scheduled day of the following week
pub open spec fn next_day(w: Seq<Seq<u64>>, today: int, x: u64) -> Option<int> {
    match scan_week(w, today, x, today) {
        Some(d) => Some(d),
        None => first_scheduled_day(w, 0),
    }
}

/// Nanoseconds from `now` until the next scheduled time at or after it
pub open spec fn next_duration(w: Seq<Seq<u64>>, now: DateTime) -> Option<int> {
    let today = now.weekday_index();
    let x = now.nanos;
    match next_day(w, today, x) {
        None => None,
        Some(d) => {
            let days = (d - today) % 7;
            if days == 0 {
                match first_at_or_after(w[d], x) {
                    Some(t) => Some(t - x),
                    None => Some(NANOS_PER_WEEK - (x - w[d][0])),
                }
            } else {
                Some(days * NANOS_PER_DAY - (x - w[d][0]))
            }
        }
    }
}

/// Scheduled times of day, in nanoseconds since midnight, for each day of the week
#[derive(Debug, PartialEq, Eq)]
pub struct WeeklyTimes {
    days: Vec<Vec<u64>>,
}

impl View for WeeklyTimes {
    type V = Seq<Seq<u64>>;

    closed spec fn view(&self) -> Seq<Seq<u64>> {
        self.days@.map_values(|v: Vec<u64>| v@)
    }
}

/// Times that can stand for one day: within the day and in ascending order
pub open spec fn valid_day_times(s: Seq<u64>) -> bool {
    &&& forall|i: int| 0 <= i < s.len() ==> s[i] < NANOS_PER_DAY
    &&& forall|i: int, j: int| 0 <= i <= j < s.len() ==> s[i] <= s[j]
}

/// Seven days of valid times, with a total count that fits in `usize`
pub open spec fn valid_week(w: Seq<Seq<u64>>) -> bool {
    &&& w.len() == 7
    &&& forall|d: int| 0 <= d < 7 ==> valid_day_times(#[trigger] w[d])
    &&& times_in_week(w) <= usize::MAX
}

proof fn lemma_times_before_day_mono(w: Seq<Seq<u64>>, a: int, b: int)
    requires
        0 <= a <= b,
    ensures
        times_before_day(w, a) <= times_before_day(w, b),
    decreases b,
{
    if a < b {
        lemma_times_before_day_mono(w, a, b - 1);
    }
}

proof fn lemma_count_le_len(s: Seq<u64>, x: u64)
    ensures
        count_le(s, x) <= s.len(),
    decreases s.len(),
{
    if s.len() > 0 {
        lemma_count_le_len(s.drop_last(), x);
    }
}

impl WeeklyTimes {
    /// Seven days of valid times, with a total count that fits in `usize`
    #[verifier::type_invariant]
    closed spec fn inv(&self) -> bool {
        valid_week(self@)
    }

    proof fn lemma_view_index(&self, d: int)
        requires
            0 <= d < self.days@.len(),
        ensures
            self@[d] == self.days@[d]@,
            self@.len() == self.days@.len(),
    {
    }

    /// A week with no scheduled times
    pub fn new() -> (r: WeeklyTimes)
        ensures
            r@ == Seq::new(7, |d: int| Seq::<u64>::empty()),
            valid_week(r@),
    {
        let mut days: Vec<Vec<u64>> = Vec::new();
        let mut i: usize = 0;
        while i < 7
            invariant
                i <= 7,
                days@.len() == i,
                forall|d: int| 0 <= d < i ==> (#[trigger] days@[d])@.len() == 0,
            decreases 7 - i,
        {
            days.push(Vec::new());
            i += 1;
        }
        let ghost w = days@.map_values(|v: Vec<u64>| v@);
        assert forall|d: int| 0 <= d < 7 implies w[d] == Seq::<u64>::empty() by {
            assert(days@[d]@ =~= Seq::<u64>::empty());
        }
        assert(w =~= Seq::new(7, |d: int| Seq::<u64>::empty()));
        assert(times_in_week(w) == 0) by {
            reveal_with_fuel(times_before_day, 8);
        }
        let r = WeeklyTimes { days };
        r
    }

    /// Sets the times of day for one day of the week, replacing what was there
    pub fn insert(&mut self, day: Weekday, times: Vec<u64>)
        requires
            valid_day_times(times@),
            times_in_week(old(self)@.update(day.index_spec(), times@)) <= usize::MAX,
        ensures
            final(self)@ == old(self)@.update(day.index_spec(), times@),
            valid_week(final(self)@),
    {
        proof {
            use_type_invariant(&*self);
        }
        let i = day.index();
        let mut current = WeeklyTimes::new();
        std::mem::swap(&mut current, self);
        let WeeklyTimes { mut days } = current;
        days.set(i, times);
        assert(days@.map_values(|v: Vec<u64>| v@) =~= old(self)@.update(day.index_spec(), times@));
        let updated = WeeklyTimes { days };
        *self = updated;
    }

    /// The times of day scheduled on the given day
    pub fn get(&self, day: Weekday) -> (r: &Vec<u64>)
        ensures
            r@ == self@[day.index_spec()],
    {
        proof {
            use_type_invariant(self);
        }
        &self.days[day.index()]
    }

    /// Number of scheduled times in a full week
    pub fn len(&self) -> (r: usize)
        ensures
            r == times_in_week(self@),
    {
        proof {
            use_type_invariant(self);
        }
        self.count_before(7)
    }

    /// The first day from `today` on, up to Sunday, that has a time at or after `x` on
    /// `today` or any time on a later day
    fn scan_week(&self, today: usize, x: u64) -> (r: Option<usize>)
        requires
            valid_week(self@),
            today < 7,
        ensures
            match r {
                Some(d) => scan_week(self@, today as int, x, today as int) == Some(d as int)
                    && today <= d < 7 && day_qualifies(self@, today as int, x, d as int),
                None => scan_week(self@, today as int, x, today as int) is None,
            },
    {
        let mut d: usize = today;
        while d < 7
            invariant
                valid_week(self@),
                today <= d <= 7,
                scan_week(self@, today as int, x, today as int) == scan_week(
                    self@,
                    today as int,
                    x,
                    d as int,
                ),
            decreases 7 - d,
        {
            proof {
                self.lemma_view_index(d as int);
            }
            let qualifies = if d > today {
                self.days[d].len() > 0
            } else {
                find_at_or_after(&self.days[d], x).is_some()
            };
            if qualifies {
                return Some(d);
            }
            d += 1;
        }
        None
    }

    /// The first day of the week with any scheduled time
    fn first_scheduled_day(&self) -> (r: Option<usize>)
        requires
            valid_week(self@),
        ensures
            match r {
                Some(d) => first_scheduled_day(self@, 0) == Some(d as int) && d < 7
                    && self@[d as int].len() > 0,
                None => first_scheduled_day(self@, 0) is None,
            },
    {
        let mut e: usize = 0;
        while e < 7
            invariant
                valid_week(self@),
                e <= 7,
                first_scheduled_day(self@, 0) == first_scheduled_day(self@, e as int),
            decreases 7 - e,
        {
            proof {
                self.lemma_view_index(e as int);
            }
            if self.days[e].len() > 0 {
                return Some(e);
            }
            e += 1;
        }
        None
    }

    /// Number of scheduled times on the days before day `d` of the week
    fn count_before(&self, d: usize) -> (r: usize)
        requires
            valid_week(self@),
            d <= 7,
        ensures
            r == times_before_day(self@, d as int),
    {
        let mut sum: usize = 0;
        let mut i: usize = 0;
        while i < d
            invariant
                valid_week(self@),
                i <= d <= 7,
                sum == times_before_day(self@, i as int),
            decreases d - i,
        {
            proof {
                self.lemma_view_index(i as int);
                lemma_times_before_day_mono(self@, i + 1, 7);
            }
            sum = sum + self.days[i].len();
            i += 1;
        }
        sum
    }
}

/// Number of times in `v` at or before `x`
fn count_at_or_before(v: &Vec<u64>, x: u64) -> (r: usize)
    ensures
        r == count_le(v@, x),
{
    let mut c: usize = 0;
    let mut i: usize = 0;
    while i < v.len()
        invariant
            i <= v.len(),
            c == count_le(v@.subrange(0, i as int), x),
            c <= i,
        decreases v.len() - i,
    {
        proof {
            assert(v@.subrange(0, i + 1).drop_last() =~= v@.subrange(0, i as int));
        }
        if v[i] <= x {
            c += 1;
        }
        i += 1;
    }
    assert(v@.subrange(0, v.len() as int) =~= v@);
    c
}

/// Index of the first time in `v`, in list order, that is at or after `x`, if any
fn find_at_or_after(v: &Vec<u64>, x: u64) -> (r: Option<usize>)
    ensures
        match r {
            Some(i) => i < v@.len() && v@[i as int] >= x && first_at_or_after(v@, x) == Some(
                v@[i as int],
            ),
            None => first_at_or_after(v@, x) is None && forall|j: int|
                0 <= j < v@.len() ==> v@[j] < x,
        },
{
    let mut i: usize = 0;
    assert(v@.skip(0) =~= v@);
    while i < v.len()
        invariant
            i <= v.len(),
            first_at_or_after(v@, x) == first_at_or_after(v@.skip(i as int), x),
            forall|j: int| 0 <= j < i ==> v@[j] < x,
        decreases v.len() - i,
    {
        if v[i] >= x {
            return Some(i);
        }
        assert(v@.skip(i as int).drop_first() =~= v@.skip(i + 1));
        i += 1;
    }
    None
}

/// Stateless weekly schedule with support for rotating assignees
#[derive(Debug, PartialEq, Eq)]
pub struct Schedule {
    /// Scheduled times of day throughout the week
    pub weekly_times: WeeklyTimes,
    /// Beginning of the week in which the schedule started
    pub start_date: DateTime,
    /// Assignee ids in order of assignment
    pub assignees: Vec<i32>,
}

impl Schedule {
    /// Number of occurrences from the start of the schedule up to `now`, counting whole weeks
    /// since the start week and the times of the current week at or before `now`; the largest
    /// `usize` where the count does not fit
    pub open spec fn occurrences(&self, now: DateTime) -> int {
        let n = elapsed_weeks(self.start_date, now) * times_in_week(self.weekly_times@)
            + times_so_far(self.weekly_times@, now);
        if n > usize::MAX {
            usize::MAX as int
        } else {
            n
        }
    }

    /// Position in the rotation of the occurrence at `now`, counting from 0
    pub open spec fn rotation_index(&self, now: DateTime) -> int {
        let n = self.occurrences(now);
        if n == 0 {
            0
        } else {
            n - 1
        }
    }

    /// The assignee on duty at `now`
    pub open spec fn assignee_at(&self, now: DateTime) -> i32 {
        self.assignees@[self.rotation_index(now) % self.assignees@.len() as int]
    }

    /// Creates a new stateless schedule starting from the given week
    pub fn new(weekly_times: WeeklyTimes, start_date: DateTime, assignees: Vec<i32>) -> (r:
        Schedule)
        ensures
            r.weekly_times@ == weekly_times@,
            r.start_date == start_date,
            r.assignees@ == assignees@,
    {
        Schedule { weekly_times, start_date, assignees }
    }

    /// Determines the scheduled assignee for the given instant
    pub fn get_assignee(&self, now: DateTime) -> (r: i32)
        requires
            self.assignees@.len() > 0,
        ensures
            r == self.assignee_at(now),
    {
        proof {
            use_type_invariant(&self.weekly_times);
        }
        let w = Ghost(self.weekly_times@);
        // Number of fully elapsed weeks since the start week, capped at `usize::MAX`
        let elapsed_weeks: usize = if now.day < self.start_date.day {
            usize::MAX
        } else {
            ((now.day as i64 - self.start_date.day as i64) / 7) as usize
        };

        // Number of scheduled times in a full week
        let times_in_full_week = self.weekly_times.len();

        // Number of scheduled times elapsed in this week
        let today = now.weekday().index();
        let before_today = self.weekly_times.count_before(today);
        proof {
            self.weekly_times.lemma_view_index(today as int);
            lemma_count_le_len(w@[today as int], now.nanos);
            lemma_times_before_day_mono(w@, today + 1, 7);
        }
        let times_in_this_week = before_today + count_at_or_before(
            &self.weekly_times.days[today],
            now.nanos,
        );

        let occurrences = match elapsed_weeks.checked_mul(times_in_full_week) {
            Some(n) => n.saturating_add(times_in_this_week),
            None => usize::MAX,
        };
        proof {
            let e = elapsed_weeks as int;
            let f = times_in_full_week as int;
            let t = times_in_this_week as int;
            if e * f > usize::MAX {
                assert(e * f + t > usize::MAX) by (nonlinear_arith)
                    requires
                        e * f > usize::MAX,
                        t >= 0,
                ;
            }
        }
        let index = occurrences.saturating_sub(1);
        self.assignees[index % self.assignees.len()]
    }

    /// Calculates the duration, in nanoseconds, until the next time on the schedule
    pub fn get_next_duration(&self, now: DateTime) -> (r: Option<u64>)
        requires
            now.wf(),
        ensures
            match r {
                Some(n) => next_duration(self.weekly_times@, now) == Some(n as int),
                None => next_duration(self.weekly_times@, now) is None,
            },
            r is None <==> times_in_week(self.weekly_times@) == 0,
            r matches Some(n) ==> n < NANOS_PER_WEEK,
            r matches Some(n) ==> exists|d: int, k: int|
                is_slot(self.weekly_times@, d, k) && forward_to(
                    now,
                    d,
                    #[trigger] self.weekly_times@[d][k],
                ) == n,
            r matches Some(n) ==> forall|d: int, k: int|
                is_slot(self.weekly_times@, d, k) ==> n <= forward_to(
                    now,
                    d,
                    #[trigger] self.weekly_times@[d][k],
                ),
    {
        let r = self.next_duration_of(now);
        proof {
            use_type_invariant(&self.weekly_times);
            lemma_next_duration_none_iff_empty(self.weekly_times@, now);
            if times_in_week(self.weekly_times@) > 0 {
                lemma_next_duration_is_nearest(self.weekly_times@, now);
            }
        }
        r
    }

    /// The duration until the next time on the schedule, found day by day
    fn next_duration_of(&self, now: DateTime) -> (r: Option<u64>)
        requires
            now.wf(),
        ensures
            match r {
                Some(n) => next_duration(self.weekly_times@, now) == Some(n as int),
                None => next_duration(self.weekly_times@, now) is None,
            },
    {
        proof {
            use_type_invariant(&self.weekly_times);
        }
        let today = now.weekday().index();
        let x = now.nanos;

        // The first day from today on that has a time left this week, otherwise the first
        // scheduled day of the following week
        let found = match self.weekly_times.scan_week(today, x) {
            Some(d) => Some(d),
            None => self.weekly_times.first_scheduled_day(),
        };
        match found {
            None => None,
            Some(d) => {
                proof {
                    self.weekly_times.lemma_view_index(d as int);
                }
                let times = &self.weekly_times.days[d];
                if d == today {
                    match find_at_or_after(times, x) {
                        Some(i) => Some(times[i] - x),
                        None => Some(NANOS_PER_WEEK - (x - times[0])),
                    }
                } else {
                    let days: u64 = if d > today {
                        (d - today) as u64
                    } else {
                        (d + 7 - today) as u64
                    };
                    Some(days * NANOS_PER_DAY + times[0] - x)
                }
            }
        }
    }
}

proof fn lemma_times_before_day_zero(w: Seq<Seq<u64>>, d: int)
    requires
        0 <= d <= 7,
    ensures
        times_before_day(w, d) == 0 <==> forall|e: int| 0 <= e < d ==> #[trigger] w[e].len() == 0,
    decreases d,
{
    if d > 0 {
        lemma_times_before_day_zero(w, d - 1);
    }
}

proof fn lemma_first_scheduled_day_none(w: Seq<Seq<u64>>, d: int)
    requires
        0 <= d <= 7,
    ensures
        first_scheduled_day(w, d) is None <==> forall|e: int| d <= e < 7 ==> #[trigger] w[e].len()
            == 0,
    decreases 7 - d,
{
    if d < 7 {
        lemma_first_scheduled_day_none(w, d + 1);
    }
}

proof fn lemma_scan_week_empty(w: Seq<Seq<u64>>, today: int, x: u64, d: int)
    requires
        0 <= d <= 7,
        forall|e: int| 0 <= e < 7 ==> #[trigger] w[e].len() == 0,
    ensures
        scan_week(w, today, x, d) is None,
    decreases 7 - d,
{
    if d < 7 {
        assert(w[d].len() == 0);
        assert(first_at_or_after(w[d], x) is None);
        lemma_scan_week_empty(w, today, x, d + 1);
    }
}

/// In ascending times that hold `x`, the first time at or after `x` is `x` itself
proof fn lemma_first_at_or_after_member(s: Seq<u64>, x: u64, k: int)
    requires
        0 <= k < s.len(),
        s[k] == x,
        forall|i: int, j: int| 0 <= i <= j < s.len() ==> s[i] <= s[j],
    ensures
        first_at_or_after(s, x) == Some(x),
    decreases s.len(),
{
    if s[0] < x {
        lemma_first_at_or_after_member(s.drop_first(), x, k - 1);
    }
}

/// The next duration is absent exactly when no day of the week has a scheduled time,
/// whatever the instant
pub proof fn lemma_next_duration_none_iff_empty(w: Seq<Seq<u64>>, now: DateTime)
    requires
        valid_week(w),
        now.wf(),
    ensures
        next_duration(w, now) is None <==> times_in_week(w) == 0,
{
    lemma_times_before_day_zero(w, 7);
    lemma_first_scheduled_day_none(w, 0);
    if times_in_week(w) == 0 {
        lemma_scan_week_empty(w, now.weekday_index(), now.nanos, now.weekday_index());
    }
}

/// At an instant that is itself on the schedule, the next occurrence is due at once
pub proof fn lemma_next_duration_zero_at_occurrence(w: Seq<Seq<u64>>, now: DateTime, k: int)
    requires
        valid_week(w),
        now.wf(),
        0 <= k < w[now.weekday_index()].len(),
        w[now.weekday_index()][k] == now.nanos,
    ensures
        next_duration(w, now) == Some(0int),
{
    let today = now.weekday_index();
    assert(valid_day_times(w[today]));
    lemma_first_at_or_after_member(w[today], now.nanos, k);
    assert(day_qualifies(w, today, now.nanos, today));
    assert(scan_week(w, today, now.nanos, today) == Some(today));
}

/// Nanoseconds forward from `now` to time `t` on day `d` of a week: this week if it has not
/// passed, else the following week
pub open spec fn forward_to(now: DateTime, d: int, t: u64) -> int {
    let a = (d - now.weekday_index()) * NANOS_PER_DAY + t - now.nanos;
    if a >= 0 {
        a
    } else {
        a + NANOS_PER_WEEK
    }
}

/// Time `k` of day `d` is on the schedule
pub open spec fn is_slot(w: Seq<Seq<u64>>, d: int, k: int) -> bool {
    0 <= d < 7 && 0 <= k < w[d].len()
}

/// Index of the first time in `s` at or after `x`, or the length of `s` where there is none
proof fn lemma_first_at_or_after_index(s: Seq<u64>, x: u64) -> (i: int)
    ensures
        0 <= i <= s.len(),
        forall|j: int| 0 <= j < i ==> s[j] < x,
        i < s.len() ==> s[i] >= x && first_at_or_after(s, x) == Some(s[i]),
        i == s.len() ==> first_at_or_after(s, x) is None,
    decreases s.len(),
{
    if s.len() == 0 {
        0
    } else if s[0] >= x {
        0
    } else {
        let i = lemma_first_at_or_after_index(s.drop_first(), x);
        assert forall|j: int| 0 <= j < i + 1 implies s[j] < x by {
            if j > 0 {
                assert(s[j] == s.drop_first()[j - 1]);
            }
        }
        i + 1
    }
}

proof fn lemma_scan_week_result(w: Seq<Seq<u64>>, today: int, x: u64, d0: int)
    requires
        0 <= d0 <= 7,
    ensures
        match scan_week(w, today, x, d0) {
            Some(d) => d0 <= d < 7 && day_qualifies(w, today, x, d) && forall|e: int|
                d0 <= e < d ==> !#[trigger] day_qualifies(w, today, x, e),
            None => forall|e: int| d0 <= e < 7 ==> !#[trigger] day_qualifies(w, today, x, e),
        },
    decreases 7 - d0,
{
    if d0 < 7 && !day_qualifies(w, today, x, d0) {
        lemma_scan_week_result(w, today, x, d0 + 1);
    }
}

proof fn lemma_first_scheduled_day_result(w: Seq<Seq<u64>>, d0: int)
    requires
        0 <= d0 <= 7,
    ensures
        match first_scheduled_day(w, d0) {
            Some(d) => d0 <= d < 7 && w[d].len() > 0 && forall|e: int|
                d0 <= e < d ==> #[trigger] w[e].len() == 0,
            None => forall|e: int| d0 <= e < 7 ==> #[trigger] w[e].len() == 0,
        },
    decreases 7 - d0,
{
    if d0 < 7 && w[d0].len() == 0 {
        lemma_first_scheduled_day_result(w, d0 + 1);
    }
}

/// The next duration is the distance forward to the nearest time on the schedule: it
/// reaches one scheduled time, and no scheduled time is closer
pub proof fn lemma_next_duration_is_nearest(w: Seq<Seq<u64>>, now: DateTime)
    requires
        valid_week(w),
        now.wf(),
        times_in_week(w) > 0,
    ensures
        next_duration(w, now) is Some,
        0 <= next_duration(w, now)->0 < NANOS_PER_WEEK,
        exists|d: int, k: int|
            is_slot(w, d, k) && forward_to(now, d, #[trigger] w[d][k]) == next_duration(w, now)->0,
        forall|d: int, k: int|
            is_slot(w, d, k) ==> next_duration(w, now)->0 <= forward_to(now, d, #[trigger] w[d][k]),
{
    let today = now.weekday_index();
    let x = now.nanos;
    let day = NANOS_PER_DAY as int;
    lemma_next_duration_none_iff_empty(w, now);
    let r = next_duration(w, now)->0;
    lemma_scan_week_result(w, today, x, today);
    lemma_first_scheduled_day_result(w, 0);
    let i = lemma_first_at_or_after_index(w[today], x);
    assert(valid_day_times(w[today]));
    match scan_week(w, today, x, today) {
        Some(d) => {
            if d == today {
                // A time is left today: the first one at or after now
                assert(is_slot(w, today, i) && forward_to(now, today, w[today][i]) == r);
                assert forall|e: int, k: int| is_slot(w, e, k) implies r <= forward_to(
                    now,
                    e,
                    #[trigger] w[e][k],
                ) by {
                    assert(valid_day_times(w[e]));
                    if e == today && w[e][k] >= x {
                        assert(k >= i);
                    }
                }
            } else {
                // Nothing is left today, and the days in between have no times
                assert(valid_day_times(w[d]));
                assert(is_slot(w, d, 0) && forward_to(now, d, w[d][0]) == r);
                assert forall|e: int, k: int| is_slot(w, e, k) implies r <= forward_to(
                    now,
                    e,
                    #[trigger] w[e][k],
                ) by {
                    assert(valid_day_times(w[e]));
                    if today < e < d {
                        assert(!day_qualifies(w, today, x, e));
                    }
                    if e == today {
                        assert(!day_qualifies(w, today, x, today));
                        assert(w[e][k] < x);
                    }
                }
            }
        },
        None => {
            // Nothing is left this week: the first time of the first scheduled day, next week
            let d = first_scheduled_day(w, 0)->0;
            assert(!day_qualifies(w, today, x, today));
            assert(valid_day_times(w[d]));
            assert(is_slot(w, d, 0) && forward_to(now, d, w[d][0]) == r);
            assert forall|e: int, k: int| is_slot(w, e, k) implies r <= forward_to(
                now,
                e,
                #[trigger] w[e][k],
            ) by {
                assert(valid_day_times(w[e]));
                if e > today {
                    assert(!day_qualifies(w, today, x, e));
                }
                if e == today {
                    assert(w[e][k] < x);
                }
            }
        },
    }
}

/// Over successive occurrences the assignees take their turns in list order: the occurrence
/// that follows the one at `t1` goes to the next assignee in the list, and the first one
/// follows the last
pub proof fn lemma_rotation_in_order(s: &Schedule, t1: DateTime, t2: DateTime)
    requires
        s.assignees@.len() > 0,
        s.occurrences(t1) >= 1,
        s.occurrences(t2) == s.occurrences(t1) + 1,
    ensures
        s.rotation_index(t2) % (s.assignees@.len() as int) == (s.rotation_index(t1) % (
        s.assignees@.len() as int) + 1) % (s.assignees@.len() as int),
        s.assignee_at(t2) == s.assignees@[(s.rotation_index(t1) % (s.assignees@.len() as int) + 1)
            % (s.assignees@.len() as int)],
{
    let n = s.assignees@.len() as int;
    let a = s.rotation_index(t1);
    vstd::arithmetic::div_mod::lemma_add_mod_noop_right(1, a, n);
}

/// The rotation repeats with the length of the assignee list: occurrences that are that many
/// apart go to the same assignee
pub proof fn lemma_rotation_periodic(s: &Schedule, t1: DateTime, t2: DateTime)
    requires
        s.assignees@.len() > 0,
        s.occurrences(t1) >= 1,
        s.occurrences(t2) == s.occurrences(t1) + s.assignees@.len(),
    ensures
        s.assignee_at(t2) == s.assignee_at(t1),
{
    let n = s.assignees@.len() as int;
    vstd::arithmetic::div_mod::lemma_mod_add_multiples_vanish(s.rotation_index(t1), n);
}

/// The assignee depends on the instant alone: two readings of the same instant give the
/// same assignee
pub proof fn lemma_assignee_same_instant(s: &Schedule, t1: DateTime, t2: DateTime)
    requires
        t1.wf(),
        t2.wf(),
        t1.timeline() == t2.timeline(),
    ensures
        s.assignee_at(t1) == s.assignee_at(t2),
{
    let d = NANOS_PER_DAY as int;
    let (a, b) = (t1.day as int, t2.day as int);
    let (x, y) = (t1.nanos as int, t2.nanos as int);
    assert(a == b) by (nonlinear_arith)
        requires
            a * d + x == b * d + y,
            0 <= x < d,
            0 <= y < d,
    ;
}

/// Number of scheduled times on the whole days from Julian day `first` up to, not including,
/// Julian day `last`
pub open spec fn times_on_days(w: Seq<Seq<u64>>, first: int, last: int) -> nat
    decreases last - first,
{
    if last <= first {
        0
    } else {
        times_on_days(w, first, last - 1) + w[weekday_index_of(last - 1)].len()
    }
}

/// Number of scheduled instants from midnight on the day of `start` up to and including `now`
pub open spec fn instants_through(w: Seq<Seq<u64>>, start: DateTime, now: DateTime) -> nat {
    times_on_days(w, start.day as int, now.day as int) + count_le(
        w[now.weekday_index()],
        now.nanos,
    )
}

proof fn lemma_times_on_days_weeks(w: Seq<Seq<u64>>, first: int, n: int)
    requires
        first % 7 == 0,
        n >= 0,
    ensures
        times_on_days(w, first, first + n) == (n / 7) * times_in_week(w) + times_before_day(
            w,
            n % 7,
        ),
    decreases n,
{
    if n > 0 {
        lemma_times_on_days_weeks(w, first, n - 1);
        let m = n - 1;
        assert(weekday_index_of(first + m) == m % 7) by {
            vstd::arithmetic::div_mod::lemma_add_mod_noop(first, m, 7);
        }
        if m % 7 == 6 {
            assert(n / 7 == m / 7 + 1 && n % 7 == 0) by {
                vstd::arithmetic::div_mod::lemma_fundamental_div_mod(m, 7);
                vstd::arithmetic::div_mod::lemma_fundamental_div_mod(n, 7);
                vstd::arithmetic::div_mod::lemma_mod_pos_bound(n, 7);
            }
            assert((m / 7 + 1) * times_in_week(w) == (m / 7) * times_in_week(w) + times_in_week(w))
                by (nonlinear_arith);
        } else {
            assert(n / 7 == m / 7 && n % 7 == m % 7 + 1) by {
                vstd::arithmetic::div_mod::lemma_fundamental_div_mod(m, 7);
                vstd::arithmetic::div_mod::lemma_fundamental_div_mod(n, 7);
                vstd::arithmetic::div_mod::lemma_mod_pos_bound(m, 7);
                vstd::arithmetic::div_mod::lemma_mod_pos_bound(n, 7);
            }
        }
    }
}

/// For a schedule that starts at midnight on a Monday, the occurrence count at `now` is the
/// number of scheduled instants from the start up to and including `now`, where that fits
pub proof fn lemma_occurrences_count_instants(s: &Schedule, now: DateTime)
    requires
        s.start_date.nanos == 0,
        s.start_date.weekday_index() == 0,
        now.day >= s.start_date.day,
        instants_through(s.weekly_times@, s.start_date, now) <= usize::MAX,
    ensures
        s.occurrences(now) == instants_through(s.weekly_times@, s.start_date, now),
{
    let w = s.weekly_times@;
    let first = s.start_date.day as int;
    let n = now.day - first;
    lemma_times_on_days_weeks(w, first, n);
    assert(now.weekday_index() == n % 7) by {
        vstd::arithmetic::div_mod::lemma_add_mod_noop(first, n, 7);
    }
}

/// For a schedule that starts at midnight on a Monday, the k-th scheduled instant from the
/// start, and every instant before the next one, go to assignee k - 1 of the list, counting
/// round it: the ids come in list order and repeat with its length
pub proof fn lemma_rotation_by_instants(s: &Schedule, now: DateTime)
    requires
        s.assignees@.len() > 0,
        s.start_date.nanos == 0,
        s.start_date.weekday_index() == 0,
        now.day >= s.start_date.day,
        1 <= instants_through(s.weekly_times@, s.start_date, now) <= usize::MAX,
    ensures
        s.assignee_at(now) == s.assignees@[(instants_through(s.weekly_times@, s.start_date, now)
            - 1) % (s.assignees@.len() as int)],
{
    lemma_occurrences_count_instants(s, now);
}

} // verus!
