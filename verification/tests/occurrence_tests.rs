use grape_timer::errors::TErrorKind;
use grape_timer::occurrence::next_occurrence;
use grape_timer::parsers::DateParser;
use grape_timer::wallclock::NowParts;

// 2021-02-10 12:00:00 UTC, a Wednesday.
fn feb_10_noon() -> NowParts {
    NowParts {
        year: 2021,
        month: 2,
        day: 10,
        hour: 12,
        minute: 0,
        second: 0,
        weekday: 3,
        timestamp: 1_612_958_400,
        offset: 0,
    }
}

// 2021-01-31 23:00:00 UTC, a Sunday.
fn jan_31_late() -> NowParts {
    NowParts {
        year: 2021,
        month: 1,
        day: 31,
        hour: 23,
        minute: 0,
        second: 0,
        weekday: 0,
        timestamp: 1_612_134_000,
        offset: 0,
    }
}

// 2021-03-31 23:30:00 UTC, a Wednesday.
fn mar_31_late() -> NowParts {
    NowParts {
        year: 2021,
        month: 3,
        day: 31,
        hour: 23,
        minute: 30,
        second: 0,
        weekday: 3,
        timestamp: 1_617_233_400,
        offset: 0,
    }
}

fn parsed(action: &str, clock: &str, day_time: i8) -> DateParser {
    DateParser { action: action.to_string(), clock: clock.to_string(), day_time }
}

#[test]
fn daily_time_ahead_fires_today() {
    let now = feb_10_noon();
    let n = next_occurrence(&parsed("day", "13:00:00", 0), &now).unwrap();
    assert_eq!((n.year, n.month, n.day), (2021, 2, 10));
    assert_eq!((n.hour, n.minute, n.second), (13, 0, 0));
    assert_eq!(n.timestamp, 1_612_958_400 + 3600);
}

#[test]
fn daily_time_passed_fires_tomorrow() {
    let now = feb_10_noon();
    let n = next_occurrence(&parsed("day", "05:00:00", 0), &now).unwrap();
    assert_eq!((n.year, n.month, n.day), (2021, 2, 11));
    assert_eq!(n.timestamp, 1_613_019_600);
    assert_eq!(n.weekday, 4);
}

#[test]
fn daily_equal_instant_advances_a_day() {
    // equality is not "in the future": the next firing is tomorrow
    let now = feb_10_noon();
    let n = next_occurrence(&parsed("day", "12:00:00", 0), &now).unwrap();
    assert_eq!((n.year, n.month, n.day), (2021, 2, 11));
    assert_eq!(n.timestamp, 1_612_958_400 + 86400);
    assert!(n.timestamp > now.timestamp);
}

#[test]
fn weekly_lands_on_requested_weekday() {
    let now = feb_10_noon();
    let n = next_occurrence(&parsed("week", "06:00:00", 2), &now).unwrap();
    assert_eq!(n.weekday, 2);
    assert_eq!((n.year, n.month, n.day), (2021, 2, 16));
    assert_eq!(n.timestamp, 1_613_455_200);
}

#[test]
fn weekly_same_day_time_passed_advances_full_week() {
    // today is the requested weekday but the time has passed: a naive
    // zero-day offset would return a past instant
    let now = feb_10_noon();
    let n = next_occurrence(&parsed("week", "05:00:00", 3), &now).unwrap();
    assert_eq!(n.weekday, 3);
    assert_eq!((n.year, n.month, n.day), (2021, 2, 17));
    assert_eq!(n.timestamp, 1_613_538_000);
    assert!(n.timestamp > now.timestamp);
}

#[test]
fn weekly_same_day_time_ahead_fires_today() {
    let now = feb_10_noon();
    let n = next_occurrence(&parsed("week", "22:00:00", 3), &now).unwrap();
    assert_eq!((n.year, n.month, n.day), (2021, 2, 10));
    assert_eq!(n.timestamp, 1_612_958_400 + 10 * 3600);
}

#[test]
fn monthly_fires_on_requested_day() {
    let now = feb_10_noon();
    let n = next_occurrence(&parsed("month", "06:00:00", 2), &now).unwrap();
    assert_eq!(n.day, 2);
    assert_eq!((n.year, n.month), (2021, 3));
    assert_eq!(n.timestamp, 1_614_664_800);
}

#[test]
fn monthly_day_31_in_february_overflows() {
    let now = feb_10_noon();
    let e = next_occurrence(&parsed("month", "00:00:00", 31), &now).unwrap_err();
    assert!(matches!(e.kind(), TErrorKind::DateOverflow));
    assert_eq!(e.last_error(), "error,Date overflow...");
}

#[test]
fn monthly_rollover_revalidates_target_month() {
    // January 31st late evening: the 31st at midnight has passed, and
    // February has no 31st, so rolling over must fail, not build a bad date
    let now = jan_31_late();
    let e = next_occurrence(&parsed("month", "00:00:00", 31), &now).unwrap_err();
    assert!(matches!(e.kind(), TErrorKind::DateOverflow));

    // March 31st: April has only 30 days
    let now2 = mar_31_late();
    let e2 = next_occurrence(&parsed("month", "23:00:00", 31), &now2).unwrap_err();
    assert!(matches!(e2.kind(), TErrorKind::DateOverflow));
}

#[test]
fn monthly_rollover_into_next_month() {
    // January 31st late evening, day 5: this month's firing has passed
    let now = jan_31_late();
    let n = next_occurrence(&parsed("month", "06:30:00", 5), &now).unwrap();
    assert_eq!((n.year, n.month, n.day), (2021, 2, 5));
    assert!(n.timestamp > now.timestamp);
}

#[test]
fn monthly_day_out_of_range_overflows() {
    let now = feb_10_noon();
    for d in [0i8, -5, 32] {
        let e = next_occurrence(&parsed("month", "00:00:00", d), &now).unwrap_err();
        assert!(matches!(e.kind(), TErrorKind::DateOverflow), "{}", d);
    }
}

#[test]
fn unknown_action_is_bad_format() {
    let now = feb_10_noon();
    let e = next_occurrence(&parsed("hourly", "00:00:00", 0), &now).unwrap_err();
    assert!(matches!(e.kind(), TErrorKind::BadFormat));
}

#[test]
fn local_and_utc_frames_differ_by_offset() {
    // the same wall-clock reading in two frames: an offset frame one hour
    // east, whose instant is one hour earlier
    let utc = feb_10_noon();
    let mut local = feb_10_noon();
    local.offset = 3600;
    local.timestamp = utc.timestamp - 3600;

    for (action, clock, day_time) in
        [("day", "05:00:00", 0i8), ("week", "06:00:00", 2), ("month", "06:00:00", 2)]
    {
        let a = next_occurrence(&parsed(action, clock, day_time), &utc).unwrap();
        let b = next_occurrence(&parsed(action, clock, day_time), &local).unwrap();
        assert_eq!((a.year, a.month, a.day), (b.year, b.month, b.day));
        assert_eq!((a.hour, a.minute, a.second), (b.hour, b.minute, b.second));
        assert_eq!(b.timestamp - a.timestamp, utc.offset as i64 - local.offset as i64);
    }
}

#[test]
fn year_rollover_in_december() {
    // 2021-12-31 23:00:00 UTC, a Friday: daily cadence crosses into January
    let now = NowParts {
        year: 2021,
        month: 12,
        day: 31,
        hour: 23,
        minute: 0,
        second: 0,
        weekday: 5,
        timestamp: 1_640_991_600,
        offset: 0,
    };
    let n = next_occurrence(&parsed("day", "05:00:00", 0), &now).unwrap();
    assert_eq!((n.year, n.month, n.day), (2022, 1, 1));
    let m = next_occurrence(&parsed("month", "15:00:00", 10), &now).unwrap();
    assert_eq!((m.year, m.month, m.day), (2022, 1, 10));
}
