use remembear::datetime::{DateTime, Weekday, NANOS_PER_SECOND};
use remembear::schedule::{Error, Schedule, WeeklyTimes};
use remembear::stored::{Provider, StoredAssignees, StoredIsoWeek};
use time::{Date, Month};

fn midnight(year: i32, month: Month, day: u8) -> DateTime {
    DateTime::from_offset_date_time(
        &Date::from_calendar_date(year, month, day).unwrap().midnight().assume_utc(),
    )
}

#[test]
fn it_converts_to_utc_datetime() {
    let iso_week = StoredIsoWeek { year: 2020, week: 2 };

    let expected_datetime = midnight(2020, Month::January, 6);

    assert_eq!(Ok(expected_datetime), iso_week.to_start_date());
}

#[test]
fn it_fails_to_convert_to_invalid_utc_datetime() {
    let iso_week = StoredIsoWeek { year: 2020, week: 256 };

    assert_eq!(Err(Error::WeekTooLarge(256)), iso_week.to_start_date());
}

#[test]
fn week_53_exists_only_in_long_years() {
    // 2020 has 53 ISO weeks, 2019 has 52
    assert_eq!(
        Ok(midnight(2020, Month::December, 28)),
        StoredIsoWeek { year: 2020, week: 53 }.to_start_date()
    );
    assert_eq!(
        Err(Error::WeekTooLarge(53)),
        StoredIsoWeek { year: 2019, week: 53 }.to_start_date()
    );
    assert_eq!(
        Err(Error::WeekTooLarge(-1)),
        StoredIsoWeek { year: 2019, week: -1 }.to_start_date()
    );
}

#[test]
fn week_zero_and_far_years_are_invalid_start_weeks() {
    assert_eq!(
        Err(Error::InvalidStartWeek { week: 0, year: 2020 }),
        StoredIsoWeek { year: 2020, week: 0 }.to_start_date()
    );
    assert_eq!(
        Err(Error::InvalidStartWeek { week: 1, year: 20000 }),
        StoredIsoWeek { year: 20000, week: 1 }.to_start_date()
    );
}

#[test]
fn iso_weeks_encode_as_one_number() {
    assert_eq!(Ok(202033), StoredIsoWeek { year: 2020, week: 33 }.to_stored());
    assert_eq!(StoredIsoWeek { year: 2020, week: 33 }, StoredIsoWeek::from_stored(202033));
    assert_eq!(StoredIsoWeek { year: -5, week: -7 }, StoredIsoWeek::from_stored(-507));
    assert_eq!(
        Err(Error::YearTooLarge(30_000_000)),
        StoredIsoWeek { year: 30_000_000, week: 1 }.to_stored()
    );
    assert_eq!(
        Err(Error::WeekTooLarge(i32::MAX)),
        StoredIsoWeek { year: 1, week: i32::MAX }.to_stored()
    );
}

#[test]
fn assignees_round_trip_through_json() {
    let assignees = StoredAssignees(vec![1, 2, 3]);
    let text = assignees.to_json().unwrap();
    assert_eq!("[1,2,3]", text);
    assert_eq!(Some(StoredAssignees(vec![3, 2])), StoredAssignees::from_json("[3, 2]"));
    assert_eq!(None, StoredAssignees::from_json("{\"mon\":[\"12:34:56\"]}"));
}

fn hm(hour: u64, minute: u64) -> u64 {
    (hour * 60 + minute) * 60 * NANOS_PER_SECOND
}

fn monday_times() -> WeeklyTimes {
    let mut times = WeeklyTimes::new();
    times.insert(Weekday::Monday, vec![hm(10, 30), hm(22, 30)]);
    times
}

fn week_2_of_2020() -> DateTime {
    DateTime::from_offset_date_time(
        &Date::from_iso_week_date(2020, 2, time::Weekday::Monday)
            .unwrap()
            .midnight()
            .assume_utc(),
    )
}

#[test]
fn it_converts_from_schedule() {
    let schedule = Schedule::new(monday_times(), week_2_of_2020(), vec![1, 2, 3]);

    let expected_provider = Provider {
        weekly_times: monday_times(),
        start_week: StoredIsoWeek { week: 2, year: 2020 },
        assignees: StoredAssignees(vec![1, 2, 3]),
    };

    assert_eq!(Some(expected_provider), Provider::from_schedule(schedule));
}

#[test]
fn it_converts_to_schedule() {
    let provider = Provider {
        weekly_times: monday_times(),
        start_week: StoredIsoWeek { week: 2, year: 2020 },
        assignees: StoredAssignees(vec![1, 2, 3]),
    };

    let expected_schedule = Schedule::new(monday_times(), week_2_of_2020(), vec![1, 2, 3]);

    assert_eq!(Ok(expected_schedule), provider.to_schedule());
}

#[test]
fn it_fails_to_convert_to_schedule_with_invalid_iso_week() {
    let provider = Provider {
        weekly_times: monday_times(),
        start_week: StoredIsoWeek { week: 256, year: 2020 },
        assignees: StoredAssignees(vec![1, 2, 3]),
    };

    assert_eq!(Err(Error::WeekTooLarge(256)), provider.to_schedule());
}

#[test]
fn a_start_date_that_time_cannot_hold_has_no_stored_form() {
    let far = DateTime::new(i32::MAX, 0).unwrap();
    let schedule = Schedule::new(monday_times(), far, vec![1]);
    assert_eq!(None, Provider::from_schedule(schedule));
}
