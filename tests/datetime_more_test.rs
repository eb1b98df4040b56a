use huturs_core::datetime::{days_in_month, format_at_offset, from_parsed};
use huturs_core::{
    after, before, between, equal, equal_different_timezone, offset, parse, reformat,
    DateTimeError, DateTimeOffsetUnit, LocalDateTime,
};

fn at(text: &str) -> LocalDateTime {
    parse(&String::from(text), &String::from("%Y-%m-%d %H:%M:%S")).unwrap()
}

#[test]
fn parse_errors() {
    let fmt = String::from("%Y-%m-%d %H:%M:%S");
    assert_eq!(parse(&String::from("not a date"), &fmt), Err(DateTimeError::Parse));
    assert_eq!(parse(&String::from("2023-13-01 00:00:00"), &fmt), Err(DateTimeError::Parse));
    assert_eq!(from_parsed(None, 0), Err(DateTimeError::Parse));
    let fields = (2024, 3, 31, 2, 30, 0, 0);
    assert_eq!(from_parsed(Some(fields), 0), Err(DateTimeError::InvalidDateTime));
    assert_eq!(from_parsed(Some(fields), 2), Err(DateTimeError::InvalidDateTime));
    assert_eq!(
        from_parsed(Some(fields), 1),
        Ok(LocalDateTime::new(2024, 3, 31, 2, 30, 0, 0).unwrap())
    );
}

#[test]
fn leap_seconds() {
    let fmt = String::from("%Y-%m-%d %H:%M:%S");
    let leap = parse(&String::from("2016-12-31 23:59:60"), &fmt).unwrap();
    assert_eq!(leap.second(), 59);
    assert_eq!(leap.nanosecond(), 1_000_000_000);
    assert_eq!(offset(leap, 1, DateTimeOffsetUnit::SECOND), Some(at("2017-01-01 00:00:01")));
    assert!(LocalDateTime::new(2016, 12, 31, 23, 59, 59, 1_500_000_000).is_some());
    assert_eq!(LocalDateTime::new(2016, 12, 31, 23, 59, 58, 1_500_000_000), None);
}

#[test]
fn formatting() {
    let t = at("2024-06-15 10:30:05");
    assert_eq!(huturs_core::datetime::format(&t, "%Y/%m/%d %H-%M-%S"), Some(String::from("2024/06/15 10-30-05")));
    assert_eq!(huturs_core::datetime::format(&t, "%z"), None);
    assert_eq!(
        format_at_offset(&t, 8 * 3600, "%F %T %z"),
        Some(String::from("2024-06-15 10:30:05 +0800"))
    );
    assert_eq!(format_at_offset(&t, -5400, "%H:%M %:z"), Some(String::from("10:30 -01:30")));
    let unparseable = reformat(
        &String::from("2023/04/01"),
        &String::from("%F %T"),
        &String::from("%F"),
    );
    assert_eq!(unparseable, None);
}

#[test]
fn offsets() {
    let t = at("2024-03-01 00:30:00");
    assert_eq!(offset(t, -1, DateTimeOffsetUnit::DAYS), Some(at("2024-02-29 00:30:00")));
    assert_eq!(offset(t, -1, DateTimeOffsetUnit::HOURS), Some(at("2024-02-29 23:30:00")));
    assert_eq!(offset(t, 90, DateTimeOffsetUnit::SECOND), Some(at("2024-03-01 00:31:30")));
    assert_eq!(offset(t, 24 * 60 + 1, DateTimeOffsetUnit::MINUTES), Some(at("2024-03-02 00:31:00")));
    assert_eq!(offset(t, i64::MAX, DateTimeOffsetUnit::DAYS), None);
}

#[test]
fn ordering_and_differences() {
    let a = at("2024-06-15 10:30:00");
    let b = at("2024-06-15 10:31:00");
    assert!(before(a, b));
    assert!(!before(b, a));
    assert!(after(b, a));
    assert!(!after(a, a));
    assert!(equal(&a, &a));
    assert!(!equal(&a, &b));
    assert_eq!(between(&b, &a), -60);
    assert_eq!(between(&at("2023-12-31 23:59:59"), &at("2024-01-01 00:00:00")), 1);
    let half = LocalDateTime::new(2024, 6, 15, 10, 30, 0, 500_000_000).unwrap();
    assert_eq!(between(&a, &half), 0);
    assert_eq!(between(&half, &a), 0);
    assert_eq!(
        between(&at("0001-01-01 00:00:00"), &at("1970-01-01 00:00:00")),
        719_162 * 86_400
    );
    assert_eq!(
        between(&at("-0001-03-01 00:00:00"), &at("0001-03-01 00:00:00")),
        (366 + 365) * 86_400
    );
}

#[test]
fn zones() {
    let noon = at("2024-06-15 12:00:00");
    let four = at("2024-06-15 04:00:00");
    assert!(equal_different_timezone(&noon, 8 * 3600, &four, 0));
    assert!(!equal_different_timezone(&noon, 0, &four, 0));
}

#[test]
fn calendar() {
    assert_eq!(days_in_month(2000, 2), 29);
    assert_eq!(days_in_month(1900, 2), 28);
    assert_eq!(days_in_month(-4, 2), 29);
    assert_eq!(days_in_month(2023, 11), 30);
    assert_eq!(LocalDateTime::new(2023, 2, 29, 0, 0, 0, 0), None);
    assert!(LocalDateTime::new(2024, 2, 29, 23, 59, 59, 999_999_999).is_some());
}
