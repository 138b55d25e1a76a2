use chrono::{Datelike, NaiveDate};
use metrix::clock::{day_label, day_long, parse_date, parse_datetime, seconds_between, Timestamp, MAX_DAY, MIN_DAY};

#[test]
fn day_range_matches_chrono() {
    assert_eq!(NaiveDate::MIN.num_days_from_ce(), MIN_DAY);
    assert_eq!(NaiveDate::MAX.num_days_from_ce(), MAX_DAY);
    assert!(NaiveDate::from_num_days_from_ce_opt(MIN_DAY).is_some());
    assert!(NaiveDate::from_num_days_from_ce_opt(MAX_DAY).is_some());
    assert!(NaiveDate::from_num_days_from_ce_opt(MIN_DAY - 1).is_none());
    assert!(NaiveDate::from_num_days_from_ce_opt(MAX_DAY + 1).is_none());
}

fn day(y: i32, m: u32, d: u32) -> i32 {
    NaiveDate::from_ymd_opt(y, m, d).unwrap().num_days_from_ce()
}

#[test]
fn parses_fractional_timestamps() {
    let t = parse_datetime("2026-03-10T14:47:23.886Z").unwrap();
    assert_eq!(t.day, day(2026, 3, 10));
    assert_eq!(t.hour, 14);
    assert_eq!(t.secs, 14 * 3600 + 47 * 60 + 23);
    assert_eq!(t.nanos, 886_000_000);
}

#[test]
fn parses_whole_second_timestamps() {
    let t = parse_datetime("2026-03-10T01:02:03Z").unwrap();
    assert_eq!(t.day, day(2026, 3, 10));
    assert_eq!(t.hour, 1);
    assert_eq!(t.secs, 3723);
    assert_eq!(t.nanos, 0);
}

#[test]
fn rejects_other_timestamps() {
    assert!(parse_datetime("").is_none());
    assert!(parse_datetime("2026-03-10").is_none());
    assert!(parse_datetime("2026-03-10 14:47:23Z").is_none());
    assert!(parse_datetime("2026-03-10T14:47:23+01:00").is_none());
}

#[test]
fn dates_come_from_the_first_ten_bytes() {
    assert_eq!(parse_date("2026-03-10T14:47:23.886Z"), Some(day(2026, 3, 10)));
    assert_eq!(parse_date("2026-03-10"), Some(day(2026, 3, 10)));
    assert_eq!(parse_date("2026-03-1"), None);
    assert_eq!(parse_date("not a date at all"), None);
    assert_eq!(parse_date(""), None);
}

#[test]
fn seconds_between_timestamps() {
    let a = parse_datetime("2026-03-10T14:00:00.900Z").unwrap();
    let b = parse_datetime("2026-03-10T14:00:10.100Z").unwrap();
    assert_eq!(seconds_between(&a, &b), 9);
    assert_eq!(seconds_between(&b, &a), -9);
    let c = parse_datetime("2026-03-11T00:00:00Z").unwrap();
    let d = parse_datetime("2026-03-10T23:00:00Z").unwrap();
    assert_eq!(seconds_between(&d, &c), 3600);
    let leap = Timestamp { day: day(2016, 12, 31), secs: 86399, nanos: 1_000_000_000, hour: 23 };
    let next = parse_datetime("2017-01-01T00:00:00Z").unwrap();
    assert_eq!(seconds_between(&leap, &next), 0);
}

#[test]
fn order_of_timestamps() {
    let a = parse_datetime("2026-03-10T14:00:00.900Z").unwrap();
    let b = parse_datetime("2026-03-10T14:00:10.100Z").unwrap();
    assert!(a.is_before(&b));
    assert!(!b.is_before(&a));
    assert!(!a.is_before(&a));
}

#[test]
fn day_labels() {
    assert_eq!(day_label(day(2026, 3, 10)), "Mar 10");
    assert_eq!(day_long(day(2026, 3, 10)), "Mar 10, 2026");
    assert_eq!(day_label(day(2025, 12, 1)), "Dec 01");
}
