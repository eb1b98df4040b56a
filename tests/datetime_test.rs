use chrono::{Datelike, Local, Timelike};
use huturs_core::{
    between, end_time_of_day, end_time_of_month, end_time_of_week, end_time_of_year, is_am,
    is_pm, offset, parse, reformat, start_time_of_day, start_time_of_month, start_time_of_week,
    start_time_of_year, DateTimeOffsetUnit, LocalDateTime,
};

fn at(text: &str, fmt: &str) -> LocalDateTime {
    parse(&String::from(text), &String::from(fmt)).unwrap()
}

fn local_now() -> LocalDateTime {
    let now = Local::now().naive_local();
    LocalDateTime::new(
        now.year(),
        now.month(),
        now.day(),
        now.hour(),
        now.minute(),
        now.second(),
        now.nanosecond() % 1_000_000_000,
    )
    .unwrap()
}

#[test]
pub fn datetime_test_test_reformat() {
    let content = String::from("2023-04-01 12:00:00");
    let original_fmt = String::from("%F %T");
    let new_fmt = String::from("%F");

    assert_eq!(
        reformat(&content, &original_fmt, &new_fmt),
        Some(String::from("2023-04-01"))
    );
    assert_ne!(
        reformat(&content, &original_fmt, &new_fmt),
        Some(String::from("2023-04-02"))
    );

    let empty_original_fmt = String::from("%F %T");
    assert_ne!(reformat(&content, &empty_original_fmt, &new_fmt), None);
}

#[test]
pub fn datetime_test_test_datetime_offset() {
    let date_time = local_now();
    let value = 1;
    let unit = DateTimeOffsetUnit::MINUTES;
    let result = offset(date_time, value, unit);
    assert_ne!(result, Some(date_time));
}

#[test]
pub fn datetime_test_test_between() {
    let date_time1 = local_now();
    let date_time2 = offset(date_time1, 1, DateTimeOffsetUnit::MINUTES).unwrap();
    assert_ne!(between(&date_time1, &date_time2), 59);
    assert_eq!(between(&date_time1, &date_time2), 60);

    let date_time3 = offset(date_time1, 10, DateTimeOffsetUnit::MINUTES).unwrap();
    assert_eq!(between(&date_time1, &date_time3), 600);
}

#[test]
pub fn test_parse() {
    let content = String::from("2023-04-01 12:34:56");
    let fmt = String::from("%F %T");
    let result = parse(&content, &fmt);
    assert_eq!(result.is_ok(), true);
    let result = result.unwrap();
    assert_eq!(result.year(), 2023);
    assert_eq!(result.month(), 4);
    assert_eq!(result.day(), 1);
    assert_eq!(result.hour(), 12);
    assert_eq!(result.minute(), 34);
    assert_eq!(result.second(), 56);

    let content = String::from("2023-02-29 12:34:56");
    let fmt = String::from("%F %T");
    let result = parse(&content, &fmt);
    assert_eq!(result.is_err(), true);

    let content = String::from("2024-02-29 12:34:56");
    let fmt = String::from("%F %T");
    let result = parse(&content, &fmt);
    assert_eq!(result.is_err(), false);
    assert_eq!(result.is_ok(), true);

    let content = String::from("2024-02-29 00:00:00");
    let fmt = String::from("%Y-%m-%d %H:%M:%S");
    let result = parse(&content, &fmt);
    assert_eq!(result.is_err(), false);
    assert_eq!(result.is_ok(), true);
}

#[test]
pub fn test_end_time_of_day() {
    let date_time = at("2024-06-15 10:30:00", "%Y-%m-%d %H:%M:%S");
    let end = end_time_of_day(&date_time).unwrap();
    assert_eq!(end.year(), 2024);
    assert_eq!(end.month(), 6);
    assert_eq!(end.day(), 15);
    assert_eq!(end.hour(), 23);
    assert_eq!(end.minute(), 59);
    assert_eq!(end.second(), 59);
    assert_eq!(end.nanosecond(), 999_999_999);
}

#[test]
pub fn test_start_time_of_day() {
    let date_time = at("2024-06-15 10:30:45", "%Y-%m-%d %H:%M:%S");
    let start = start_time_of_day(&date_time);
    assert!(start.is_some());
    let start = start.unwrap();
    assert_eq!(start.year(), 2024);
    assert_eq!(start.month(), 6);
    assert_eq!(start.day(), 15);
    assert_eq!(start.hour(), 0);
    assert_eq!(start.minute(), 0);
    assert_eq!(start.second(), 0);
    assert_eq!(start.nanosecond(), 0);
}

#[test]
pub fn test_end_time_of_month() {
    let date_time = at("2024-02-15 10:30:00", "%Y-%m-%d %H:%M:%S");
    let end = end_time_of_month(&date_time);
    assert!(end.is_some());
    let end = end.unwrap();
    assert_eq!(end.year(), 2024);
    assert_eq!(end.month(), 2);
    assert_eq!(end.day(), 29);
    assert_eq!(end.hour(), 23);
    assert_eq!(end.minute(), 59);
    assert_eq!(end.second(), 59);
    assert_eq!(end.nanosecond(), 999_999_999);
    let date_time = at("2023-02-15 10:30:00", "%Y-%m-%d %H:%M:%S");
    let end = end_time_of_month(&date_time);
    assert!(end.is_some());
    let end = end.unwrap();
    assert_eq!(end.day(), 28);
}

#[test]
pub fn test_start_time_of_month() {
    let date_time = at("2024-06-15 10:30:45", "%Y-%m-%d %H:%M:%S");
    let start = start_time_of_month(&date_time);
    assert!(start.is_some());
    let start = start.unwrap();
    assert_eq!(start.year(), 2024);
    assert_eq!(start.month(), 6);
    assert_eq!(start.day(), 1);
    assert_eq!(start.hour(), 0);
    assert_eq!(start.minute(), 0);
    assert_eq!(start.second(), 0);
    assert_eq!(start.nanosecond(), 0);
}

#[test]
pub fn test_end_time_of_year() {
    let date_time = at("2024-06-15 10:30:00", "%Y-%m-%d %H:%M:%S");
    let end = end_time_of_year(&date_time);
    assert_eq!(end.year(), 2024);
    assert_eq!(end.month(), 12);
    assert_eq!(end.day(), 31);
    assert_eq!(end.hour(), 23);
    assert_eq!(end.minute(), 59);
    assert_eq!(end.second(), 59);
    assert_eq!(end.nanosecond(), 999_999_999);
}

#[test]
pub fn test_start_time_of_year() {
    let date_time = at("2024-06-15 10:30:45", "%Y-%m-%d %H:%M:%S");
    let start = start_time_of_year(&date_time);
    assert_eq!(start.year(), 2024);
    assert_eq!(start.month(), 1);
    assert_eq!(start.day(), 1);
    assert_eq!(start.hour(), 0);
    assert_eq!(start.minute(), 0);
    assert_eq!(start.second(), 0);
    assert_eq!(start.nanosecond(), 0);
}

#[test]
pub fn test_start_time_of_week() {
    let date_time = at("2024-06-12 10:30:45", "%Y-%m-%d %H:%M:%S");
    let start = start_time_of_week(&date_time);
    assert!(start.is_some());
    let start = start.unwrap();
    assert_eq!(start.year(), 2024);
    assert_eq!(start.month(), 6);
    assert_eq!(start.day(), 10);
    assert_eq!(start.hour(), 0);
    assert_eq!(start.minute(), 0);
    assert_eq!(start.second(), 0);
    assert_eq!(start.nanosecond(), 0);
    let date_time = at("2024-06-10 15:30:45", "%Y-%m-%d %H:%M:%S");
    let start = start_time_of_week(&date_time);
    assert!(start.is_some());
    let start = start.unwrap();
    assert_eq!(start.year(), 2024);
    assert_eq!(start.month(), 6);
    assert_eq!(start.day(), 10);
    assert_eq!(start.hour(), 0);
    assert_eq!(start.minute(), 0);
    assert_eq!(start.second(), 0);
    let date_time = at("2024-06-16 23:59:59", "%Y-%m-%d %H:%M:%S");
    let start = start_time_of_week(&date_time);
    assert!(start.is_some());
    let start = start.unwrap();
    assert_eq!(start.year(), 2024);
    assert_eq!(start.month(), 6);
    assert_eq!(start.day(), 10);
    assert_eq!(start.hour(), 0);
    assert_eq!(start.minute(), 0);
    assert_eq!(start.second(), 0);
    let date_time = at("2024-06-30 12:00:00", "%Y-%m-%d %H:%M:%S");
    let start = start_time_of_week(&date_time);
    assert!(start.is_some());
    let start = start.unwrap();
    assert_eq!(start.year(), 2024);
    assert_eq!(start.month(), 6);
    assert_eq!(start.day(), 24);
    assert_eq!(start.hour(), 0);
    assert_eq!(start.minute(), 0);
    let date_time = at("2024-01-01 12:00:00", "%Y-%m-%d %H:%M:%S");
    let start = start_time_of_week(&date_time);
    assert!(start.is_some());
    let start = start.unwrap();
    assert_eq!(start.year(), 2024);
    assert_eq!(start.month(), 1);
    assert_eq!(start.day(), 1);
    assert_eq!(start.hour(), 0);
    assert_eq!(start.minute(), 0);
    let date_time = at("2023-12-31 23:59:59", "%Y-%m-%d %H:%M:%S");
    let start = start_time_of_week(&date_time);
    assert!(start.is_some());
    let start = start.unwrap();
    assert_eq!(start.year(), 2023);
    assert_eq!(start.month(), 12);
    assert_eq!(start.day(), 25);
    assert_eq!(start.hour(), 0);
    assert_eq!(start.minute(), 0);
    let date_time = at("2024-02-29 10:00:00", "%Y-%m-%d %H:%M:%S");
    let start = start_time_of_week(&date_time);
    assert!(start.is_some());
    let start = start.unwrap();
    assert_eq!(start.year(), 2024);
    assert_eq!(start.month(), 2);
    assert_eq!(start.day(), 26);
    assert_eq!(start.hour(), 0);
    assert_eq!(start.minute(), 0);
}

#[test]
pub fn test_end_time_of_week() {
    let date_time = at("2024-06-12 10:30:45", "%Y-%m-%d %H:%M:%S");
    let end = end_time_of_week(&date_time);
    assert!(end.is_some());
    let end = end.unwrap();
    assert_eq!(end.year(), 2024);
    assert_eq!(end.month(), 6);
    assert_eq!(end.day(), 16);
    assert_eq!(end.hour(), 23);
    assert_eq!(end.minute(), 59);
    assert_eq!(end.second(), 59);
    assert_eq!(end.nanosecond(), 999_999_999);
    let date_time = at("2024-06-10 00:00:00", "%Y-%m-%d %H:%M:%S");
    let end = end_time_of_week(&date_time);
    assert!(end.is_some());
    let end = end.unwrap();
    assert_eq!(end.year(), 2024);
    assert_eq!(end.month(), 6);
    assert_eq!(end.day(), 16);
    assert_eq!(end.hour(), 23);
    assert_eq!(end.minute(), 59);
    assert_eq!(end.second(), 59);
    let date_time = at("2024-06-16 00:00:00", "%Y-%m-%d %H:%M:%S");
    let end = end_time_of_week(&date_time);
    assert!(end.is_some());
    let end = end.unwrap();
    assert_eq!(end.year(), 2024);
    assert_eq!(end.month(), 6);
    assert_eq!(end.day(), 16);
    assert_eq!(end.hour(), 23);
    assert_eq!(end.minute(), 59);
    assert_eq!(end.second(), 59);
    let date_time = at("2024-05-31 10:00:00", "%Y-%m-%d %H:%M:%S");
    let end = end_time_of_week(&date_time);
    assert!(end.is_some());
    let end = end.unwrap();
    assert_eq!(end.year(), 2024);
    assert_eq!(end.month(), 6);
    assert_eq!(end.day(), 2);
    assert_eq!(end.hour(), 23);
    assert_eq!(end.minute(), 59);
    let date_time = at("2024-01-01 00:00:00", "%Y-%m-%d %H:%M:%S");
    let end = end_time_of_week(&date_time);
    assert!(end.is_some());
    let end = end.unwrap();
    assert_eq!(end.year(), 2024);
    assert_eq!(end.month(), 1);
    assert_eq!(end.day(), 7);
    assert_eq!(end.hour(), 23);
    assert_eq!(end.minute(), 59);
    let date_time = at("2023-12-30 10:00:00", "%Y-%m-%d %H:%M:%S");
    let end = end_time_of_week(&date_time);
    assert!(end.is_some());
    let end = end.unwrap();
    assert_eq!(end.year(), 2023);
    assert_eq!(end.month(), 12);
    assert_eq!(end.day(), 31);
    assert_eq!(end.hour(), 23);
    assert_eq!(end.minute(), 59);
    let date_time = at("2023-12-29 10:00:00", "%Y-%m-%d %H:%M:%S");
    let end = end_time_of_week(&date_time);
    assert!(end.is_some());
    let end = end.unwrap();
    assert_eq!(end.year(), 2023);
    assert_eq!(end.month(), 12);
    assert_eq!(end.day(), 31);
    assert_eq!(end.hour(), 23);
    assert_eq!(end.minute(), 59);
    let date_time = at("2023-02-27 10:00:00", "%Y-%m-%d %H:%M:%S");
    let end = end_time_of_week(&date_time);
    assert!(end.is_some());
    let end = end.unwrap();
    assert_eq!(end.year(), 2023);
    assert_eq!(end.month(), 3);
    assert_eq!(end.day(), 5);
    assert_eq!(end.hour(), 23);
    assert_eq!(end.minute(), 59);
}

#[test]
pub fn test_is_am() {
    let date_time = at("2024-06-15 00:00:00", "%Y-%m-%d %H:%M:%S");
    assert_eq!(is_am(&date_time), true);

    let date_time = at("2024-06-15 10:30:00", "%Y-%m-%d %H:%M:%S");
    assert_eq!(is_am(&date_time), true);

    let date_time = at("2024-06-15 11:59:59", "%Y-%m-%d %H:%M:%S");
    assert_eq!(is_am(&date_time), true);
    let date_time = at("2024-06-15 12:00:00", "%Y-%m-%d %H:%M:%S");
    assert_eq!(is_am(&date_time), false);

    let date_time = at("2024-06-15 15:30:00", "%Y-%m-%d %H:%M:%S");
    assert_eq!(is_am(&date_time), false);

    let date_time = at("2024-06-15 23:59:59", "%Y-%m-%d %H:%M:%S");
    assert_eq!(is_am(&date_time), false);
}

#[test]
pub fn test_is_pm() {
    let date_time = at("2024-06-15 00:00:00", "%Y-%m-%d %H:%M:%S");
    assert_eq!(is_pm(&date_time), false);

    let date_time = at("2024-06-15 10:30:00", "%Y-%m-%d %H:%M:%S");
    assert_eq!(is_pm(&date_time), false);

    let date_time = at("2024-06-15 11:59:59", "%Y-%m-%d %H:%M:%S");
    assert_eq!(is_pm(&date_time), false);
    let date_time = at("2024-06-15 12:00:00", "%Y-%m-%d %H:%M:%S");
    assert_eq!(is_pm(&date_time), true);

    let date_time = at("2024-06-15 15:30:00", "%Y-%m-%d %H:%M:%S");
    assert_eq!(is_pm(&date_time), true);

    let date_time = at("2024-06-15 23:59:59", "%Y-%m-%d %H:%M:%S");
    assert_eq!(is_pm(&date_time), true);
}
