//! Small helpers: strings, timestamps, calendar date-times, integer math,
//! a stopwatch, a hex codec and pagination.

pub mod datetime;
pub mod math;
pub mod stopwatch;
pub mod strings;
pub mod timestamp;
pub mod util;

pub use datetime::{
    after, before, between, end_time_of_day, end_time_of_month, end_time_of_week, end_time_of_year,
    equal, equal_different_timezone, format_current, offset, parse, reformat, is_am, is_pm,
    start_time_of_day, start_time_of_month, start_time_of_week, start_time_of_year,
    DateTimeError, DateTimeOffsetUnit, LocalDateTime,
};
pub use stopwatch::StopWatch;
pub use strings::{
    contains, ends_with, is_blank, is_empty, is_empty_str, is_not_empty, join, length, repeat,
    replace, reverse, split, starts_with, substring, to_lowercase, to_uppercase, trim, trim_end,
    trim_start,
};
pub use timestamp::{
    add_seconds, current_date, current_timestamp, current_timestamp_millis, diff_seconds,
    format_timestamp, get_days, get_hours, get_minutes, is_future, is_past, subtract_seconds,
};
pub use util::{hex_decoding, hex_encoding, page_rainbow, page_totalPage, page_transToStartEnd};
