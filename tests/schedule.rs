use remembear::datetime::{DateTime, Weekday, NANOS_PER_DAY, NANOS_PER_SECOND};
use remembear::schedule::{Schedule, WeeklyTimes};
use time::{Date, Month, OffsetDateTime};

fn week(year: i32, week: u8) -> DateTime {
    let start = Date::from_iso_week_date(year, week, time::Weekday::Monday)
        .unwrap()
        .midnight()
        .assume_utc();
    DateTime::from_offset_date_time(&start)
}

fn at(year: i32, month: u8, day: u8, hour: u8, minute: u8, second: u8) -> DateTime {
    let t = Date::from_calendar_date(year, Month::try_from(month).unwrap(), day)
        .unwrap()
        .with_hms(hour, minute, second)
        .unwrap()
        .assume_utc();
    DateTime::from_offset_date_time(&t)
}

fn hm(hour: u64, minute: u64) -> u64 {
    (hour * 60 + minute) * 60 * NANOS_PER_SECOND
}

fn seconds(n: u64) -> u64 {
    n * NANOS_PER_SECOND
}

fn weekly(days: Vec<(Weekday, Vec<u64>)>) -> WeeklyTimes {
    let mut times = WeeklyTimes::new();
    for (day, list) in days {
        times.insert(day, list);
    }
    times
}

fn mon_wed_fri() -> WeeklyTimes {
    weekly(vec![
        (Weekday::Monday, vec![hm(12, 30)]),
        (Weekday::Wednesday, vec![hm(12, 30)]),
        (Weekday::Friday, vec![hm(12, 30)]),
    ])
}

#[test]
fn it_caps_elapsed_weeks() {
    let schedule = Schedule::new(
        weekly(vec![(Weekday::Monday, vec![hm(0, 0)])]),
        week(2020, 3),
        vec![1, 2],
    );

    // Times before the start week count as the largest number of weeks
    assert_eq!(1, schedule.get_assignee(week(2020, 1)));
    assert_eq!(1, schedule.get_assignee(week(2020, 2)));
    // 0 elapsed weeks starts with the first assignee
    assert_eq!(1, schedule.get_assignee(week(2020, 3)));
    // 1 elapsed week continues as normal
    assert_eq!(2, schedule.get_assignee(week(2020, 4)));
}

#[test]
fn it_assigns_days_correctly_without_rollover() {
    let schedule = Schedule::new(mon_wed_fri(), week(2020, 3), vec![1, 2, 3]);

    assert_eq!(1, schedule.get_assignee(at(2020, 1, 13, 12, 30, 0)));
    assert_eq!(1, schedule.get_assignee(at(2020, 1, 15, 12, 29, 59)));
    assert_eq!(2, schedule.get_assignee(at(2020, 1, 15, 12, 30, 0)));
    assert_eq!(2, schedule.get_assignee(at(2020, 1, 17, 12, 29, 59)));
    assert_eq!(3, schedule.get_assignee(at(2020, 1, 17, 12, 30, 0)));
}

#[test]
fn it_assigns_days_correctly_with_rollover() {
    let schedule = Schedule::new(mon_wed_fri(), week(2020, 3), vec![1, 2]);

    // First week
    assert_eq!(1, schedule.get_assignee(at(2020, 1, 13, 12, 30, 0)));
    assert_eq!(1, schedule.get_assignee(at(2020, 1, 15, 12, 29, 59)));
    assert_eq!(2, schedule.get_assignee(at(2020, 1, 15, 12, 30, 0)));
    assert_eq!(2, schedule.get_assignee(at(2020, 1, 17, 12, 29, 59)));
    assert_eq!(1, schedule.get_assignee(at(2020, 1, 17, 12, 30, 0)));

    // Second week
    assert_eq!(1, schedule.get_assignee(at(2020, 1, 20, 12, 29, 59)));
    assert_eq!(2, schedule.get_assignee(at(2020, 1, 20, 12, 30, 0)));
    assert_eq!(2, schedule.get_assignee(at(2020, 1, 22, 12, 29, 59)));
    assert_eq!(1, schedule.get_assignee(at(2020, 1, 22, 12, 30, 0)));
    assert_eq!(1, schedule.get_assignee(at(2020, 1, 24, 12, 29, 59)));
    assert_eq!(2, schedule.get_assignee(at(2020, 1, 24, 12, 30, 0)));

    // Start of third week
    assert_eq!(2, schedule.get_assignee(at(2020, 1, 27, 12, 29, 59)));
    assert_eq!(1, schedule.get_assignee(at(2020, 1, 27, 12, 30, 0)));
}

#[test]
fn it_assigns_times_correctly_without_rollover() {
    let schedule = Schedule::new(
        weekly(vec![(Weekday::Monday, vec![hm(10, 30), hm(11, 30), hm(12, 30)])]),
        week(2020, 3),
        vec![1, 2, 3],
    );

    assert_eq!(1, schedule.get_assignee(at(2020, 1, 13, 10, 30, 0)));
    assert_eq!(1, schedule.get_assignee(at(2020, 1, 13, 11, 29, 59)));
    assert_eq!(2, schedule.get_assignee(at(2020, 1, 13, 11, 30, 0)));
    assert_eq!(2, schedule.get_assignee(at(2020, 1, 13, 12, 29, 59)));
    assert_eq!(3, schedule.get_assignee(at(2020, 1, 13, 12, 30, 0)));
}

#[test]
fn it_assigns_times_correctly_with_rollover() {
    let schedule = Schedule::new(
        weekly(vec![
            (Weekday::Monday, vec![hm(10, 30), hm(11, 30)]),
            (Weekday::Friday, vec![hm(12, 30)]),
        ]),
        week(2020, 3),
        vec![1, 2],
    );

    // First week
    assert_eq!(1, schedule.get_assignee(at(2020, 1, 13, 10, 30, 0)));
    assert_eq!(1, schedule.get_assignee(at(2020, 1, 13, 11, 29, 59)));
    assert_eq!(2, schedule.get_assignee(at(2020, 1, 13, 11, 30, 0)));
    assert_eq!(2, schedule.get_assignee(at(2020, 1, 17, 12, 29, 59)));
    assert_eq!(1, schedule.get_assignee(at(2020, 1, 17, 12, 30, 0)));

    // Second week
    assert_eq!(1, schedule.get_assignee(at(2020, 1, 20, 10, 29, 59)));
    assert_eq!(2, schedule.get_assignee(at(2020, 1, 20, 10, 30, 0)));
    assert_eq!(2, schedule.get_assignee(at(2020, 1, 20, 11, 29, 59)));
    assert_eq!(1, schedule.get_assignee(at(2020, 1, 20, 11, 30, 0)));
    assert_eq!(1, schedule.get_assignee(at(2020, 1, 24, 12, 29, 59)));
    assert_eq!(2, schedule.get_assignee(at(2020, 1, 24, 12, 30, 0)));

    // Start of third week
    assert_eq!(2, schedule.get_assignee(at(2020, 1, 27, 10, 29, 59)));
    assert_eq!(1, schedule.get_assignee(at(2020, 1, 27, 10, 30, 0)));
}

#[test]
fn it_returns_none_without_next_duration() {
    let schedule = Schedule::new(WeeklyTimes::new(), week(2020, 1), vec![]);

    let now = DateTime::from_offset_date_time(&OffsetDateTime::now_utc());
    assert_eq!(None, schedule.get_next_duration(now));
}

fn monday_1230() -> Schedule {
    Schedule::new(
        weekly(vec![(Weekday::Monday, vec![hm(12, 30)])]),
        week(2020, 1),
        vec![1],
    )
}

#[test]
fn it_returns_0_when_next_duration_is_now() {
    assert_eq!(
        Some(0),
        monday_1230().get_next_duration(at(2020, 1, 6, 12, 30, 0))
    );
}

#[test]
fn it_returns_remaining_time_when_next_duration_is_same_day() {
    assert_eq!(
        Some(hm(12, 30)),
        monday_1230().get_next_duration(at(2020, 1, 6, 0, 0, 0))
    );
}

#[test]
fn it_returns_1_day_when_next_duration_is_next_day_at_same_time() {
    assert_eq!(
        Some(NANOS_PER_DAY),
        monday_1230().get_next_duration(at(2020, 1, 5, 12, 30, 0))
    );
}

#[test]
fn it_returns_time_gap_when_next_duration_is_less_than_24h() {
    assert_eq!(
        Some(seconds(60 * 60 * 24 - 1)),
        monday_1230().get_next_duration(at(2020, 1, 5, 12, 30, 1))
    );
}

#[test]
fn it_returns_time_gap_when_next_duration_wraps_to_next_week() {
    assert_eq!(
        Some(seconds(60 * 60 * 24 * 7 - 1)),
        monday_1230().get_next_duration(at(2020, 1, 6, 12, 30, 1))
    );
}

fn monday_friday() -> Schedule {
    Schedule::new(
        weekly(vec![
            (Weekday::Monday, vec![hm(10, 30)]),
            (Weekday::Friday, vec![hm(20, 30)]),
        ]),
        week(2020, 1),
        vec![1],
    )
}

#[test]
fn it_returns_time_gap_when_next_duration_is_a_future_day_of_the_week() {
    // Next time is 4 days and 10 hours minus 1 second
    assert_eq!(
        Some(seconds(60 * 60 * 24 * 4 + 60 * 60 * 10 - 1)),
        monday_friday().get_next_duration(at(2020, 1, 6, 10, 30, 1))
    );
}

#[test]
fn it_returns_time_gap_when_next_duration_is_a_past_day_of_the_week() {
    // Next time is 2 days and 14 hours minus 1 second
    assert_eq!(
        Some(seconds(60 * 60 * 24 * 2 + 60 * 60 * 14 - 1)),
        monday_friday().get_next_duration(at(2020, 1, 10, 20, 30, 1))
    );
}

#[test]
fn rotation_cycles_through_assignees_in_order() {
    // Four assignees over three weekly slots: successive occurrences take turns in order
    let schedule = Schedule::new(mon_wed_fri(), week(2020, 3), vec![7, 8, 9, 10]);
    let occurrences = [
        at(2020, 1, 13, 12, 30, 0),
        at(2020, 1, 15, 12, 30, 0),
        at(2020, 1, 17, 12, 30, 0),
        at(2020, 1, 20, 12, 30, 0),
        at(2020, 1, 22, 12, 30, 0),
        at(2020, 1, 24, 12, 30, 0),
        at(2020, 1, 27, 12, 30, 0),
        at(2020, 1, 29, 12, 30, 0),
    ];
    let got: Vec<i32> = occurrences.iter().map(|t| schedule.get_assignee(*t)).collect();
    assert_eq!(vec![7, 8, 9, 10, 7, 8, 9, 10], got);
}

#[test]
fn assignee_is_the_same_when_asked_twice() {
    let schedule = Schedule::new(mon_wed_fri(), week(2020, 3), vec![1, 2, 3]);
    let now = at(2020, 1, 22, 9, 0, 0);
    let first = schedule.get_assignee(now);
    let second = schedule.get_assignee(now);
    assert_eq!(first, second);
    assert_eq!(1, first);
}

#[test]
fn rotation_of_two_wraps_within_a_week_of_three() {
    let schedule = Schedule::new(mon_wed_fri(), week(2020, 3), vec![1, 2]);
    assert_eq!(1, schedule.get_assignee(at(2020, 1, 13, 12, 30, 0)));
    assert_eq!(2, schedule.get_assignee(at(2020, 1, 15, 12, 30, 0)));
    assert_eq!(1, schedule.get_assignee(at(2020, 1, 17, 12, 30, 0)));
    assert_eq!(2, schedule.get_assignee(at(2020, 1, 20, 12, 30, 0)));
}

#[test]
fn next_duration_is_none_for_an_empty_week_at_any_instant() {
    let schedule = Schedule::new(WeeklyTimes::new(), week(2020, 1), vec![1]);
    assert_eq!(None, schedule.get_next_duration(at(2020, 1, 6, 0, 0, 0)));
    assert_eq!(None, schedule.get_next_duration(at(1999, 12, 31, 23, 59, 59)));
}

#[test]
fn next_duration_is_zero_at_each_scheduled_instant() {
    let schedule = monday_friday();
    assert_eq!(Some(0), schedule.get_next_duration(at(2020, 1, 6, 10, 30, 0)));
    assert_eq!(Some(0), schedule.get_next_duration(at(2020, 1, 10, 20, 30, 0)));
}

#[test]
fn next_duration_takes_the_earliest_remaining_time_of_the_day() {
    let schedule = Schedule::new(
        weekly(vec![(Weekday::Wednesday, vec![hm(8, 0), hm(13, 0), hm(18, 0)])]),
        week(2020, 1),
        vec![1],
    );
    // Wednesday 2020-01-08 at 12:00: the 13:00 slot is one hour away
    assert_eq!(Some(hm(1, 0)), schedule.get_next_duration(at(2020, 1, 8, 12, 0, 0)));
    // After the last slot it wraps to next Wednesday at 08:00
    assert_eq!(
        Some(6 * NANOS_PER_DAY + hm(24 - 19 + 8, 0)),
        schedule.get_next_duration(at(2020, 1, 8, 19, 0, 0))
    );
}

#[test]
fn weekly_times_count_and_replace() {
    let mut times = WeeklyTimes::new();
    assert_eq!(0, times.len());
    times.insert(Weekday::Sunday, vec![hm(1, 0), hm(2, 0)]);
    times.insert(Weekday::Tuesday, vec![hm(3, 0)]);
    assert_eq!(3, times.len());
    times.insert(Weekday::Sunday, vec![hm(4, 0)]);
    assert_eq!(2, times.len());
    assert_eq!(&vec![hm(4, 0)], times.get(Weekday::Sunday));
    assert!(times.get(Weekday::Monday).is_empty());
}
