use chrono::{Datelike, TimeZone};
use grape_timer::calendar::getMonthDay;
use grape_timer::errors::TErrorKind;
use grape_timer::parsers::{
    parse_clock, parser_next, parser_nextUtc, parser_timestamp, parser_timestampUtc, DateParser,
};

#[test]
fn test_parser_date() {
    let mut datep = DateParser::new();
    let _ = datep.parser("Day 00:00:00");
    assert_eq!(datep.action, "day");
    assert_eq!(datep.clock, "00:00:00");

    let _ = datep.parser("Week 1 00:00:00");
    assert_eq!(datep.action, "week");
    assert_eq!(datep.day_time, 1);
    assert_eq!(datep.clock, "00:00:00");
}

#[test]
fn test_utils() {
    let g_day = getMonthDay(2009, 1);
    let time_ftm = parser_next("Day 05:00:00").unwrap();

    println!("day:{}", g_day.unwrap());
    println!(
        "fmt:{:04}-{:02}-{:02} {:02}:{:02}:{:02}",
        time_ftm.year, time_ftm.month, time_ftm.day, time_ftm.hour, time_ftm.minute,
        time_ftm.second
    );
    println!("unix time:{}", time_ftm.timestamp)
}

#[test]
fn test_parser_next() {
    let next_date = parser_next("Day 05:00:00").unwrap();
    let next_tick = parser_timestamp("Day 05:00:00").unwrap();

    let next_week_day = parser_next("WEEK 2 06:00:00").unwrap();
    let next_week_tick = parser_timestamp("WEEK 2 06:00:00").unwrap();

    let next_month_day = parser_next("Month 2 06:00:00").unwrap();
    let next_month_tick = parser_timestamp("Month 2 06:00:00").unwrap();

    println!("day {} -  unix:{}", next_date.day, next_tick);
    println!("week {} -  unix:{}", next_week_day.weekday, next_week_tick);
    println!("month {} -  unix:{}", next_month_day.day, next_month_tick);
}

#[test]
fn test_parser_utc() {
    let next_date = parser_nextUtc("Day 05:00:00").unwrap();
    let next_tick = parser_timestampUtc("Day 05:00:00").unwrap();

    let next_week_day = parser_nextUtc("WEEK 2 06:00:00").unwrap();
    let next_week_tick = parser_timestampUtc("WEEK 2 06:00:00").unwrap();

    let next_month_day = parser_nextUtc("Month 2 06:00:00").unwrap();
    let next_month_tick = parser_timestampUtc("Month 2 06:00:00").unwrap();

    println!("utc day {} -  unix:{}", next_date.day, next_tick);
    println!("utc week {} -  unix:{}", next_week_day.weekday, next_week_tick);
    println!("utc month {} -  unix:{}", next_month_day.day, next_month_tick);
}

#[test]
fn parse_day_concrete() {
    let mut p = DateParser::new();
    let r = p.parser("Day 05:00:00");
    assert!(r.is_ok());
    assert_eq!(p.action, "day");
    assert_eq!(p.clock, "05:00:00");
    let c = parse_clock(&p.clock).unwrap();
    assert_eq!((c.hour, c.minute, c.second), (5, 0, 0));
}

#[test]
fn parse_week_concrete() {
    let mut p = DateParser::new();
    let r = p.parser("Week 1 00:00:00");
    assert!(r.is_ok());
    assert_eq!(p.action, "week");
    assert_eq!(p.day_time, 1);
    let c = parse_clock(&p.clock).unwrap();
    assert_eq!((c.hour, c.minute, c.second), (0, 0, 0));
}

#[test]
fn parse_bogus_is_bad_format() {
    let e = parser_next("bogus").unwrap_err();
    assert!(matches!(e.kind(), TErrorKind::BadFormat));
    assert_eq!(e.last_error(), "error,bad date format...");
}

#[test]
fn parse_unknown_keyword_is_bad_format() {
    let e = parser_next("fortnight 05:00:00").unwrap_err();
    assert!(matches!(e.kind(), TErrorKind::BadFormat));
}

#[test]
fn parse_week_missing_token_is_bad_format() {
    let mut p = DateParser::new();
    let e = p.parser("Week 05:00:00").unwrap_err();
    assert!(matches!(e.kind(), TErrorKind::BadFormat));
    let mut p2 = DateParser::new();
    let e2 = p2.parser("Week").unwrap_err();
    assert!(matches!(e2.kind(), TErrorKind::BadFormat));
}

#[test]
fn parse_week_bad_number_is_other() {
    // the conversion failure's message is surfaced, as str::parse shows it
    let e = parser_next("Week x 00:00:00").unwrap_err();
    match e.kind() {
        TErrorKind::Other(m) => assert_eq!(m, "invalid digit found in string"),
        _ => panic!("a non-integer day token must be an Other error"),
    }
    let e2 = parser_next("Week 999 00:00:00").unwrap_err();
    match e2.kind() {
        TErrorKind::Other(m) => assert_eq!(m, "number too large to fit in target type"),
        _ => panic!("an overflowing day token must be an Other error"),
    }
    let e3 = parser_next("Week -999 00:00:00").unwrap_err();
    match e3.kind() {
        TErrorKind::Other(m) => assert_eq!(m, "number too small to fit in target type"),
        _ => panic!("an underflowing day token must be an Other error"),
    }
}

#[test]
fn parse_week_out_of_range_weekday() {
    let e = parser_next("Week 7 00:00:00").unwrap_err();
    assert!(matches!(e.kind(), TErrorKind::WeekDay));
    assert_eq!(e.last_error(), "error,bad week day...");
    let e2 = parser_next("Week -1 00:00:00").unwrap_err();
    assert!(matches!(e2.kind(), TErrorKind::WeekDay));
}

#[test]
fn parse_bad_clock_is_other() {
    for s in ["Day 25:00:00", "Day 05:60:00", "Day 05:00", "Day 05:00:00:00", "Day 0500:00"] {
        let e = parser_next(s).unwrap_err();
        assert!(matches!(e.kind(), TErrorKind::Other(_)), "{}", s);
        assert_eq!(e.last_error(), "invalid clock string, expected HH:MM:SS");
    }
}

#[test]
fn parse_double_space_is_bad_format() {
    // str::split keeps empty pieces, so a doubled space gives a daily
    // cadence three tokens, one too many
    let e = parser_next("Day  05:00:00").unwrap_err();
    assert!(matches!(e.kind(), TErrorKind::BadFormat));
    // for a weekly cadence the empty piece becomes the day token, which is
    // not an integer
    let e2 = parser_next("Week  1 00:00:00").unwrap_err();
    match e2.kind() {
        TErrorKind::Other(m) => assert_eq!(m, "cannot parse integer from empty string"),
        _ => panic!("empty day token must surface the conversion failure"),
    }
}

#[test]
fn parse_day_with_extra_tokens_is_bad_format() {
    let e = parser_next("Day 05:00:00 extra").unwrap_err();
    assert!(matches!(e.kind(), TErrorKind::BadFormat));
}

#[test]
fn parser_rejects_unknown_keyword() {
    let mut p = DateParser::new();
    let e = p.parser("bogus 05:00:00").unwrap_err();
    assert!(matches!(e.kind(), TErrorKind::BadFormat));
    assert_eq!(p.action, "");
    assert_eq!(p.clock, "");
    assert_eq!(p.day_time, 0);
}

#[test]
fn failed_parse_leaves_parser_unchanged() {
    // a failure never leaves a partially-populated value behind
    let mut p = DateParser::new();
    assert!(p.parser("Week x 00:00:00").is_err());
    assert_eq!(p.action, "");
    assert_eq!(p.clock, "");
    assert_eq!(p.day_time, 0);

    assert!(p.parser("Week 3 09:30:00").is_ok());
    assert!(p.parser("Month 99:00").is_err());
    assert_eq!(p.action, "week");
    assert_eq!(p.clock, "09:30:00");
    assert_eq!(p.day_time, 3);
}

#[test]
fn parse_clock_fields() {
    let c = parse_clock("5:3:7").unwrap();
    assert_eq!((c.hour, c.minute, c.second), (5, 3, 7));
    assert!(parse_clock("24:00:00").is_none());
    assert!(parse_clock("23:59:59").is_some());
    assert!(parse_clock("00:00:60").is_none());
    assert!(parse_clock("").is_none());
    assert!(parse_clock("::").is_none());
    assert!(parse_clock("+5:00:00").is_none());
}

#[test]
fn parse_is_idempotent() {
    for s in ["Day 05:00:00", "Week 1 00:00:00", "Month 31 00:00:00", "bogus extra"] {
        let mut p1 = DateParser::new();
        let mut p2 = DateParser::new();
        let r1 = p1.parser(s);
        let r2 = p2.parser(s);
        assert_eq!(r1.is_ok(), r2.is_ok());
        assert_eq!(p1.action, p2.action);
        assert_eq!(p1.clock, p2.clock);
        assert_eq!(p1.day_time, p2.day_time);
    }
}

#[test]
fn month_days_table() {
    assert_eq!(getMonthDay(2009, 1), Some(31));
    assert_eq!(getMonthDay(2009, 2), Some(28));
    assert_eq!(getMonthDay(2000, 2), Some(29));
    assert_eq!(getMonthDay(1900, 2), Some(28));
    assert_eq!(getMonthDay(2024, 2), Some(29));
    assert_eq!(getMonthDay(2021, 4), Some(30));
    assert_eq!(getMonthDay(2021, 12), Some(31));
    assert_eq!(getMonthDay(2021, 0), None);
    assert_eq!(getMonthDay(2021, 13), None);
    assert_eq!(getMonthDay(2021, -3), None);
}

#[test]
fn next_is_strictly_future() {
    let now = chrono::Local::now().timestamp();
    for s in ["Day 05:00:00", "Week 2 06:00:00", "Month 2 06:00:00"] {
        let t = parser_timestamp(s).unwrap();
        assert!(t > now - 2, "{}", s);
    }
    let now_utc = chrono::Utc::now().timestamp();
    for s in ["Day 05:00:00", "Week 2 06:00:00", "Month 2 06:00:00"] {
        let t = parser_timestampUtc(s).unwrap();
        assert!(t > now_utc - 2, "{}", s);
    }
}

#[test]
fn utc_result_matches_chrono() {
    for s in ["Day 05:00:00", "WEEK 2 06:00:00", "Month 2 06:00:00", "Month 28 23:59:59"] {
        let n = parser_nextUtc(s).unwrap();
        assert_eq!(n.offset, 0, "{}", s);
        let rebuilt = chrono::Utc
            .with_ymd_and_hms(
                n.year,
                n.month as u32,
                n.day as u32,
                n.hour as u32,
                n.minute as u32,
                n.second as u32,
            )
            .unwrap();
        assert_eq!(rebuilt.timestamp(), n.timestamp, "{}", s);
        assert_eq!(rebuilt.weekday().num_days_from_sunday(), n.weekday as u32, "{}", s);
    }
}
