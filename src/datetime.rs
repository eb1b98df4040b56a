use vstd::prelude::*;

use chrono::{DateTime, Datelike, FixedOffset, Local, LocalResult, NaiveDate, NaiveDateTime, TimeZone, Timelike};
use std::fmt::Write;

use crate::timestamp::{nanos_since_epoch, system_now};

verus! {

/// Earliest year the calendar functions accept.
pub const MIN_YEAR: i32 = -262143;

/// Latest year the calendar functions accept.
pub const MAX_YEAR: i32 = 262142;

/// Seconds in one day.
pub const SECS_PER_DAY: i64 = 86400;

/// A date and a time of day as plain fields: year, month, day, hour,
/// minute, second, nanosecond.
pub type DateTimeFields = (i32, u32, u32, u32, u32, u32, u32);

/// Leap years of the proleptic Gregorian calendar.
pub open spec fn is_leap_year(y: int) -> bool {
    (y % 4 == 0 && y % 100 != 0) || y % 400 == 0
}

/// Number of days in month `m` of year `y`.
pub open spec fn month_days(y: int, m: int) -> int {
    if m == 2 {
        if is_leap_year(y) {
            29
        } else {
            28
        }
    } else if m == 4 || m == 6 || m == 9 || m == 11 {
        30
    } else {
        31
    }
}

/// A calendar date within the supported years.
pub open spec fn valid_date(y: int, m: int, d: int) -> bool {
    &&& MIN_YEAR <= y <= MAX_YEAR
    &&& 1 <= m <= 12
    &&& 1 <= d <= month_days(y, m)
}

/// Fields that the calendar library can hold: a valid date and a valid
/// time of day, where the nanoseconds may run into a second second to mark
/// a leap second after second 59.
pub open spec fn calendar_fields(f: DateTimeFields) -> bool {
    &&& valid_date(f.0 as int, f.1 as int, f.2 as int)
    &&& f.3 < 24
    &&& f.4 < 60
    &&& f.5 < 60
    &&& (f.6 < 1_000_000_000 || (f.5 == 59 && f.6 < 2_000_000_000))
}

/// Days of the proleptic Gregorian calendar before January 1 of year `y`,
/// counted from January 1 of year 1.
pub open spec fn days_before_year(y: int) -> int {
    365 * (y - 1) + (y - 1) / 4 - (y - 1) / 100 + (y - 1) / 400
}

/// Days of year `y` before the first of month `m`.
pub open spec fn days_before_month(y: int, m: int) -> int {
    let common: int = if m == 1 {
        0
    } else if m == 2 {
        31
    } else if m == 3 {
        59
    } else if m == 4 {
        90
    } else if m == 5 {
        120
    } else if m == 6 {
        151
    } else if m == 7 {
        181
    } else if m == 8 {
        212
    } else if m == 9 {
        243
    } else if m == 10 {
        273
    } else if m == 11 {
        304
    } else {
        334
    };
    if m > 2 && is_leap_year(y) {
        common + 1
    } else {
        common
    }
}

/// The day number of a date, January 1 of year 1 being day 1.
pub open spec fn ce_day(year: int, month: int, day: int) -> int {
    days_before_year(year) + days_before_month(year, month) + day
}

/// What parsing `content` against the pattern `fmt` yields, if it matches.
pub uninterp spec fn parsed_fields(content: Seq<char>, fmt: Seq<char>) -> Option<DateTimeFields>;

/// The text of the fields written with the pattern `fmt`, if the pattern
/// can be applied.
pub uninterp spec fn formatted_fields(f: DateTimeFields, fmt: Seq<char>) -> Option<Seq<char>>;

/// The text of the fields, taken as local time at `offset` seconds east of
/// UTC, written with the pattern `fmt`, if the pattern can be applied.
pub uninterp spec fn formatted_with_offset(f: DateTimeFields, offset: int, fmt: Seq<char>) -> Option<
    Seq<char>,
>;

/// An offset from UTC in seconds that a fixed time zone can have.
pub open spec fn valid_offset(offset: int) -> bool {
    -86400 < offset < 86400
}

/// Whether no supported date carries the day number `n`.
pub open spec fn unnumbered(n: int) -> bool {
    forall|y: i32, m: u32, d: u32|
        valid_date(y as int, m as int, d as int) ==> #[trigger] ce_day(y as int, m as int, d as int)
            != n
}

/// The day number of a valid date, January 1 of year 1 being day 1.
fn days_from_ce(year: i32, month: u32, day: u32) -> (r: i32)
    requires
        valid_date(year as int, month as int, day as int),
    ensures
        r == ce_day(year as int, month as int, day as int),
{
    // Shifting the year by a multiple of 400 keeps every rounding the same
    // and makes it positive, so the divisions below round down.
    let y = (year as i64 - 1) + 400_000;
    let ghost yy = year as int - 1;
    assert(y / 4 == yy / 4 + 100_000 && y / 100 == yy / 100 + 4_000 && y / 400 == yy / 400
        + 1_000);
    let before_year = 365 * (year as i64 - 1) + (y / 4 - 100_000) - (y / 100 - 4_000) + (y / 400
        - 1_000);
    let common: i64 = if month == 1 {
        0
    } else if month == 2 {
        31
    } else if month == 3 {
        59
    } else if month == 4 {
        90
    } else if month == 5 {
        120
    } else if month == 6 {
        151
    } else if month == 7 {
        181
    } else if month == 8 {
        212
    } else if month == 9 {
        243
    } else if month == 10 {
        273
    } else if month == 11 {
        304
    } else {
        334
    };
    let leap_day: i64 = if month > 2 && days_in_month(year, 2) == 29 {
        1
    } else {
        0
    };
    (before_year + common + leap_day + day as i64) as i32
}

/// Relies on `NaiveDate::from_num_days_from_ce_opt`: the date with day
/// number `n`, or `None` when no supported date has it.
#[verifier::external_body]
fn date_from_ce_days(n: i32) -> (r: Option<(i32, u32, u32)>)
    ensures
        r matches Some(t) ==> valid_date(t.0 as int, t.1 as int, t.2 as int) && ce_day(
            t.0 as int,
            t.1 as int,
            t.2 as int,
        ) == n,
        r is None ==> unnumbered(n as int),
{
    match NaiveDate::from_num_days_from_ce_opt(n) {
        Some(d) => Some((d.year(), d.month(), d.day())),
        None => None,
    }
}

/// Relies on `NaiveDateTime::parse_from_str`: the fields of the date and
/// time that `content` spells in the pattern `fmt`, or `None` when it does
/// not match or names no valid date and time.
#[verifier::external_body]
fn parse_naive(content: &str, fmt: &str) -> (r: Option<DateTimeFields>)
    ensures
        r == parsed_fields(content@, fmt@),
        r matches Some(f) ==> calendar_fields(f),
{
    match NaiveDateTime::parse_from_str(content, fmt) {
        Ok(t) => Some((t.year(), t.month(), t.day(), t.hour(), t.minute(), t.second(), t.nanosecond())),
        Err(_) => None,
    }
}

/// The view of an optional string.
pub open spec fn opt_view(o: Option<String>) -> Option<Seq<char>> {
    match o {
        Some(s) => Some(s@),
        None => None,
    }
}

/// Relies on `NaiveDateTime::format`: the date and time written with the
/// pattern `fmt`, or `None` when the pattern holds an unknown or
/// inapplicable specifier (the value is built with `NaiveDate::from_ymd_opt`
/// and `NaiveDate::and_hms_nano_opt`, which accept all such fields).
#[verifier::external_body]
fn format_naive(f: DateTimeFields, fmt: &str) -> (r: Option<String>)
    requires
        calendar_fields(f),
    ensures
        opt_view(r) == formatted_fields(f, fmt@),
{
    let date = NaiveDate::from_ymd_opt(f.0, f.1, f.2).unwrap();
    let t = date.and_hms_nano_opt(f.3, f.4, f.5, f.6).unwrap();
    let mut out = String::new();
    match write!(out, "{}", t.format(fmt)) {
        Ok(()) => Some(out),
        Err(_) => None,
    }
}

/// Latest second after the Unix epoch at which the current time is read:
/// early in year 255 000, so that the local date stays within the
/// supported years whatever the offset.
pub const MAX_CLOCK_SECS: i64 = 8_000_000_000_000;

/// Relies on `DateTime::from_timestamp` and `DateTime::with_timezone` for
/// `Local`: the local date and time `secs` seconds and `nanos` nanoseconds
/// after the Unix epoch, as fields, and its offset from UTC in seconds
/// (`FixedOffset::local_minus_utc`).
#[verifier::external_body]
fn local_at(secs: i64, nanos: u32) -> (r: Option<(DateTimeFields, i32)>)
    requires
        0 <= secs <= MAX_CLOCK_SECS,
        nanos < 1_000_000_000,
    ensures
        r matches Some(p) ==> calendar_fields(p.0) && valid_offset(p.1 as int),
{
    match DateTime::from_timestamp(secs, nanos) {
        Some(u) => {
            let t = u.with_timezone(&Local);
            let f = (t.year(), t.month(), t.day(), t.hour(), t.minute(), t.second(), t.nanosecond());
            Some((f, t.offset().local_minus_utc()))
        },
        None => None,
    }
}

/// Relies on `DateTime::format`: the fields, as local time at `offset`
/// seconds east of UTC (`FixedOffset::east_opt`, `NaiveDateTime::and_local_timezone`),
/// written with the pattern `fmt`, or `None` when the pattern holds an
/// unknown specifier or the instant falls outside the supported range.
#[verifier::external_body]
fn format_zoned(f: DateTimeFields, offset: i32, fmt: &str) -> (r: Option<String>)
    requires
        calendar_fields(f),
        valid_offset(offset as int),
    ensures
        opt_view(r) == formatted_with_offset(f, offset as int, fmt@),
{
    let zone = FixedOffset::east_opt(offset).unwrap();
    let date = NaiveDate::from_ymd_opt(f.0, f.1, f.2).unwrap();
    let t = date.and_hms_nano_opt(f.3, f.4, f.5, f.6).unwrap();
    match t.and_local_timezone(zone).single() {
        Some(z) => {
            let mut out = String::new();
            match write!(out, "{}", z.format(fmt)) {
                Ok(()) => Some(out),
                Err(_) => None,
            }
        },
        None => None,
    }
}

/// Relies on `TimeZone::offset_from_local_datetime` for `Local`: the offsets
/// from UTC, in seconds, at which the local time zone shows these fields:
/// one, or two around a change of clock, or none when the clock skips them.
#[verifier::external_body]
fn local_offsets(f: DateTimeFields) -> (r: Vec<i32>)
    requires
        calendar_fields(f),
    ensures
        r@.len() <= 2,
{
    let date = NaiveDate::from_ymd_opt(f.0, f.1, f.2).unwrap();
    let t = date.and_hms_nano_opt(f.3, f.4, f.5, f.6).unwrap();
    match Local.offset_from_local_datetime(&t) {
        LocalResult::Single(o) => vec![o.local_minus_utc()],
        LocalResult::Ambiguous(a, b) => vec![a.local_minus_utc(), b.local_minus_utc()],
        LocalResult::None => Vec::new(),
    }
}

/// Number of days in `month` of `year`.
pub fn days_in_month(year: i32, month: u32) -> (r: u32)
    requires
        MIN_YEAR <= year <= MAX_YEAR,
        1 <= month <= 12,
    ensures
        r == month_days(year as int, month as int),
{
    if month == 2 {
        // Shifting by a multiple of 400 keeps the leap-year rule and makes
        // the year positive.
        let y = (year as i64 + 400_000) as u64;
        assert(y % 4 == (year as int) % 4 && y % 100 == (year as int) % 100 && y % 400 == (
        year as int) % 400);
        if (y % 4 == 0 && y % 100 != 0) || y % 400 == 0 {
            29
        } else {
            28
        }
    } else if month == 4 || month == 6 || month == 9 || month == 11 {
        30
    } else {
        31
    }
}

/// The unit of a date-time offset.
#[allow(non_camel_case_types)]
pub enum DateTimeOffsetUnit {
    SECOND,
    MINUTES,
    HOURS,
    DAYS,
}

/// Seconds in one unit.
pub open spec fn unit_seconds(unit: DateTimeOffsetUnit) -> int {
    match unit {
        DateTimeOffsetUnit::SECOND => 1,
        DateTimeOffsetUnit::MINUTES => 60,
        DateTimeOffsetUnit::HOURS => 3600,
        DateTimeOffsetUnit::DAYS => 86400,
    }
}

/// Why text could not be read as a date and time.
#[derive(Debug, Clone, Copy, PartialEq, Eq, Structural)]
pub enum DateTimeError {
    /// The text does not match the pattern.
    Parse,
    /// The local time does not exist in the local time zone, or exists
    /// twice, around a change of clock.
    InvalidDateTime,
}

/// A wall-clock date and time, without a time zone.
#[derive(Debug, Clone, Copy, PartialEq, Eq, Structural)]
pub struct LocalDateTime {
    pub year: i32,
    pub month: u32,
    pub day: u32,
    pub hour: u32,
    pub minute: u32,
    pub second: u32,
    pub nanosecond: u32,
}

impl LocalDateTime {
    /// A valid date within the supported years and a valid time of day,
    /// where a leap second shows as second 59 with a second second of
    /// nanoseconds.
    pub open spec fn wf(&self) -> bool {
        calendar_fields(self.field_tuple())
    }

    /// The fields as a tuple.
    pub open spec fn field_tuple(&self) -> DateTimeFields {
        (self.year, self.month, self.day, self.hour, self.minute, self.second, self.nanosecond)
    }

    /// Day number of the date.
    pub open spec fn day_number(&self) -> int {
        ce_day(self.year as int, self.month as int, self.day as int)
    }

    /// Seconds since midnight.
    pub open spec fn second_of_day(&self) -> int {
        self.hour * 3600 + self.minute * 60 + self.second
    }

    /// Seconds since midnight at the start of day number zero.
    pub open spec fn seconds(&self) -> int {
        self.day_number() * 86400 + self.second_of_day()
    }

    /// Nanoseconds since midnight at the start of day number zero.
    pub open spec fn nanos(&self) -> int {
        self.seconds() * 1_000_000_000 + self.nanosecond
    }

    /// The date and time from its fields, or `None` when they name no
    /// valid date within the supported years or no valid time of day (a
    /// leap second is written as second 59 with nanoseconds from one
    /// billion).
    pub fn new(
        year: i32,
        month: u32,
        day: u32,
        hour: u32,
        minute: u32,
        second: u32,
        nanosecond: u32,
    ) -> (r: Option<Self>)
        ensures
            r matches Some(t) ==> t.wf() && t.field_tuple() == (
                year,
                month,
                day,
                hour,
                minute,
                second,
                nanosecond,
            ),
            r is None ==> !calendar_fields((year, month, day, hour, minute, second, nanosecond)),
    {
        if year < MIN_YEAR || year > MAX_YEAR || month < 1 || month > 12 || day < 1 {
            return None;
        }
        if day > days_in_month(year, month) || hour >= 24 || minute >= 60 || second >= 60 {
            return None;
        }
        if nanosecond >= 1_000_000_000 && (second != 59 || nanosecond >= 2_000_000_000) {
            return None;
        }
        Some(LocalDateTime { year, month, day, hour, minute, second, nanosecond })
    }

    pub fn year(&self) -> (r: i32)
        ensures
            r == self.year,
    {
        self.year
    }

    pub fn month(&self) -> (r: u32)
        ensures
            r == self.month,
    {
        self.month
    }

    pub fn day(&self) -> (r: u32)
        ensures
            r == self.day,
    {
        self.day
    }

    pub fn hour(&self) -> (r: u32)
        ensures
            r == self.hour,
    {
        self.hour
    }

    pub fn minute(&self) -> (r: u32)
        ensures
            r == self.minute,
    {
        self.minute
    }

    pub fn second(&self) -> (r: u32)
        ensures
            r == self.second,
    {
        self.second
    }

    pub fn nanosecond(&self) -> (r: u32)
        ensures
            r == self.nanosecond,
    {
        self.nanosecond
    }
}

/// The outcome of reading parsed fields, given how many offsets the local
/// time zone has for them: an error when nothing was parsed, or when the
/// local time is skipped or repeated by a change of clock; else the date and
/// time.
pub open spec fn parse_outcome(f: Option<DateTimeFields>, offsets: int) -> Result<
    LocalDateTime,
    DateTimeError,
> {
    match f {
        None => Err(DateTimeError::Parse),
        Some(t) => if offsets != 1 {
            Err(DateTimeError::InvalidDateTime)
        } else {
            Ok(
                LocalDateTime {
                    year: t.0,
                    month: t.1,
                    day: t.2,
                    hour: t.3,
                    minute: t.4,
                    second: t.5,
                    nanosecond: t.6,
                },
            )
        },
    }
}

/// Turns the fields a parse produced, and the number of offsets the local
/// time zone has for them, into a date and time.
pub fn from_parsed(f: Option<DateTimeFields>, offsets: usize) -> (r: Result<
    LocalDateTime,
    DateTimeError,
>)
    requires
        f matches Some(t) ==> calendar_fields(t),
    ensures
        r == parse_outcome(f, offsets as int),
        r matches Ok(t) ==> t.wf(),
{
    match f {
        None => Err(DateTimeError::Parse),
        Some(t) => {
            if offsets != 1 {
                Err(DateTimeError::InvalidDateTime)
            } else {
                Ok(
                    LocalDateTime {
                        year: t.0,
                        month: t.1,
                        day: t.2,
                        hour: t.3,
                        minute: t.4,
                        second: t.5,
                        nanosecond: t.6,
                    },
                )
            }
        },
    }
}

/// Reads `content` as a date and time written in the pattern `fmt`, as a
/// time of the local time zone; a time that the zone skips or repeats at a
/// change of clock is refused.
pub fn parse(content: &String, fmt: &String) -> (r: Result<LocalDateTime, DateTimeError>)
    ensures
        parsed_fields(content@, fmt@) is None ==> r == Err::<LocalDateTime, DateTimeError>(
            DateTimeError::Parse,
        ),
        exists|k: int| 0 <= k <= 2 && r == parse_outcome(parsed_fields(content@, fmt@), k),
        r matches Ok(t) ==> t.wf(),
{
    let f = parse_naive(content.as_str(), fmt.as_str());
    match f {
        None => from_parsed(None, 0),
        Some(t) => {
            let offsets = local_offsets(t);
            from_parsed(f, offsets.len())
        },
    }
}

/// Writes the date and time with the pattern `fmt`; `None` when the pattern
/// cannot be applied.
pub fn format(date: &LocalDateTime, fmt: &str) -> (r: Option<String>)
    requires
        date.wf(),
    ensures
        opt_view(r) == formatted_fields(date.field_tuple(), fmt@),
{
    let f: DateTimeFields = (
        date.year,
        date.month,
        date.day,
        date.hour,
        date.minute,
        date.second,
        date.nanosecond,
    );
    format_naive(f, fmt)
}

/// Writes the date and time, as local time at `offset` seconds east of UTC,
/// with the pattern `fmt`; `None` when the pattern cannot be applied.
pub fn format_at_offset(date: &LocalDateTime, offset: i32, fmt: &str) -> (r: Option<String>)
    requires
        date.wf(),
        valid_offset(offset as int),
    ensures
        opt_view(r) == formatted_with_offset(date.field_tuple(), offset as int, fmt@),
{
    let f: DateTimeFields = (
        date.year,
        date.month,
        date.day,
        date.hour,
        date.minute,
        date.second,
        date.nanosecond,
    );
    format_zoned(f, offset, fmt)
}

/// Writes the current local date and time, with its offset from UTC, in
/// the pattern `fmt`; `None` when the pattern cannot be applied, or when the
/// system clock reads before 1970 or past `MAX_CLOCK_SECS`.
pub fn format_current(fmt: &str) -> (r: Option<String>)
    ensures
        r is Some ==> exists|f: DateTimeFields, offset: int|
            calendar_fields(f) && valid_offset(offset) && opt_view(r) == formatted_with_offset(
                f,
                offset,
                fmt@,
            ),
{
    let now = system_now();
    let n = match nanos_since_epoch(&now) {
        Some(n) => n,
        None => return None,
    };
    let secs = n / 1_000_000_000;
    if secs > MAX_CLOCK_SECS as u128 {
        return None;
    }
    match local_at(secs as i64, (n % 1_000_000_000) as u32) {
        Some((f, offset)) => {
            let local = LocalDateTime {
                year: f.0,
                month: f.1,
                day: f.2,
                hour: f.3,
                minute: f.4,
                second: f.5,
                nanosecond: f.6,
            };
            format_at_offset(&local, offset, fmt)
        },
        None => None,
    }
}

/// What reformatting yields: the parsed date and time written with the new
/// pattern, or nothing when the text does not parse.
pub open spec fn reformatted(content: Seq<char>, original_fmt: Seq<char>, new_fmt: Seq<char>) -> Option<
    Seq<char>,
> {
    match parsed_fields(content, original_fmt) {
        Some(f) => formatted_fields(f, new_fmt),
        None => None,
    }
}

/// Reads `content` in the pattern `original_fmt` and writes it again in
/// `new_fmt`; `None` when it does not parse or the new pattern cannot be
/// applied.
pub fn reformat(content: &String, original_fmt: &String, new_fmt: &String) -> (r: Option<String>)
    ensures
        opt_view(r) == reformatted(content@, original_fmt@, new_fmt@),
        parsed_fields(content@, original_fmt@) is None ==> r is None,
{
    match parse_naive(content.as_str(), original_fmt.as_str()) {
        Some(f) => format_naive(f, new_fmt.as_str()),
        None => None,
    }
}

/// Whether the time lies before noon.
pub fn is_am(date_time: &LocalDateTime) -> (r: bool)
    ensures
        r == (date_time.hour < 12),
{
    date_time.hour < 12
}

/// Whether the time lies at or after noon.
pub fn is_pm(date_time: &LocalDateTime) -> (r: bool)
    ensures
        r == (date_time.hour >= 12),
{
    date_time.hour >= 12
}

/// The given date at `h:m:s.n`.
pub open spec fn at_time(d: LocalDateTime, h: u32, m: u32, s: u32, n: u32) -> LocalDateTime {
    LocalDateTime { hour: h, minute: m, second: s, nanosecond: n, ..d }
}

/// The last nanosecond of the day.
pub fn end_time_of_day(date_time: &LocalDateTime) -> (r: Option<LocalDateTime>)
    ensures
        r == Some(at_time(*date_time, 23, 59, 59, 999_999_999)),
{
    Some(LocalDateTime { hour: 23, minute: 59, second: 59, nanosecond: 999_999_999, ..*date_time })
}

/// Midnight at the start of the day.
pub fn start_time_of_day(date_time: &LocalDateTime) -> (r: Option<LocalDateTime>)
    ensures
        r == Some(at_time(*date_time, 0, 0, 0, 0)),
{
    Some(LocalDateTime { hour: 0, minute: 0, second: 0, nanosecond: 0, ..*date_time })
}

/// The last nanosecond of the last day of the month.
pub fn end_time_of_month(date: &LocalDateTime) -> (r: Option<LocalDateTime>)
    requires
        date.wf(),
    ensures
        r == Some(
            at_time(
                LocalDateTime { day: month_days(date.year as int, date.month as int) as u32, ..*date },
                23,
                59,
                59,
                999_999_999,
            ),
        ),
        r matches Some(t) ==> t.wf(),
{
    let last = days_in_month(date.year, date.month);
    Some(
        LocalDateTime {
            day: last,
            hour: 23,
            minute: 59,
            second: 59,
            nanosecond: 999_999_999,
            ..*date
        },
    )
}

/// Midnight at the start of the first day of the month.
pub fn start_time_of_month(date: &LocalDateTime) -> (r: Option<LocalDateTime>)
    requires
        date.wf(),
    ensures
        r == Some(at_time(LocalDateTime { day: 1, ..*date }, 0, 0, 0, 0)),
        r matches Some(t) ==> t.wf(),
{
    Some(LocalDateTime { day: 1, hour: 0, minute: 0, second: 0, nanosecond: 0, ..*date })
}

/// The last nanosecond of December 31 of the year.
pub fn end_time_of_year(date_time: &LocalDateTime) -> (r: LocalDateTime)
    requires
        date_time.wf(),
    ensures
        r == at_time(LocalDateTime { month: 12, day: 31, ..*date_time }, 23, 59, 59, 999_999_999),
        r.wf(),
{
    LocalDateTime {
        month: 12,
        day: 31,
        hour: 23,
        minute: 59,
        second: 59,
        nanosecond: 999_999_999,
        ..*date_time
    }
}

/// Midnight at the start of January 1 of the year.
pub fn start_time_of_year(date_time: &LocalDateTime) -> (r: LocalDateTime)
    requires
        date_time.wf(),
    ensures
        r == at_time(LocalDateTime { month: 1, day: 1, ..*date_time }, 0, 0, 0, 0),
        r.wf(),
{
    LocalDateTime { month: 1, day: 1, hour: 0, minute: 0, second: 0, nanosecond: 0, ..*date_time }
}

/// Day of the week counted from Monday as zero, for day number `n`
/// (day 1, January 1 of year 1, was a Monday).
pub open spec fn weekday_from_monday(n: int) -> int {
    (n - 1) % 7
}

/// Whether no supported date can carry day number `n`: it lies outside the
/// range of an `i32`, or no date has it.
pub open spec fn no_date_at(n: int) -> bool {
    !(i32::MIN <= n <= i32::MAX) || unnumbered(n)
}

/// The date with day number `n`, if any.
fn date_at_day(n: i128) -> (r: Option<(i32, u32, u32)>)
    ensures
        r matches Some(t) ==> valid_date(t.0 as int, t.1 as int, t.2 as int) && ce_day(
            t.0 as int,
            t.1 as int,
            t.2 as int,
        ) == n,
        r is None ==> no_date_at(n as int),
{
    if n < i32::MIN as i128 || n > i32::MAX as i128 {
        return None;
    }
    date_from_ce_days(n as i32)
}

/// Day number of the date of `d`.
fn day_number_of(d: &LocalDateTime) -> (r: i32)
    requires
        d.wf(),
    ensures
        r == d.day_number(),
{
    days_from_ce(d.year, d.month, d.day)
}

/// Weekday of day number `n`, counted from Monday as zero.
fn weekday_of_day(n: i32) -> (r: i64)
    ensures
        r == weekday_from_monday(n as int),
        0 <= r < 7,
{
    // Adding a multiple of seven keeps the weekday and makes the value positive.
    let shifted = n as i64 - 1 + 7 * 400_000_000;
    shifted % 7
}

/// Midnight at the start of the Monday of the week; `None` when that day
/// lies outside the supported dates.
pub fn start_time_of_week(date_time: &LocalDateTime) -> (r: Option<LocalDateTime>)
    requires
        date_time.wf(),
    ensures
        r matches Some(t) ==> {
            &&& t.wf()
            &&& t.day_number() == date_time.day_number() - weekday_from_monday(
                date_time.day_number(),
            )
            &&& t.hour == 0 && t.minute == 0 && t.second == 0 && t.nanosecond == 0
        },
        r is None ==> no_date_at(
            date_time.day_number() - weekday_from_monday(date_time.day_number()),
        ),
{
    let n = day_number_of(date_time);
    let w = weekday_of_day(n);
    match date_at_day(n as i128 - w as i128) {
        Some((year, month, day)) => Some(
            LocalDateTime { year, month, day, hour: 0, minute: 0, second: 0, nanosecond: 0 },
        ),
        None => None,
    }
}

/// The last nanosecond of the Sunday of the week; `None` when that day lies
/// outside the supported dates.
pub fn end_time_of_week(date_time: &LocalDateTime) -> (r: Option<LocalDateTime>)
    requires
        date_time.wf(),
    ensures
        r matches Some(t) ==> {
            &&& t.wf()
            &&& t.day_number() == date_time.day_number() + 6 - weekday_from_monday(
                date_time.day_number(),
            )
            &&& t.hour == 23 && t.minute == 59 && t.second == 59 && t.nanosecond == 999_999_999
        },
        r is None ==> no_date_at(
            date_time.day_number() + 6 - weekday_from_monday(date_time.day_number()),
        ),
{
    let n = day_number_of(date_time);
    let w = weekday_of_day(n);
    match date_at_day(n as i128 + 6 - w as i128) {
        Some((year, month, day)) => Some(
            LocalDateTime {
                year,
                month,
                day,
                hour: 23,
                minute: 59,
                second: 59,
                nanosecond: 999_999_999,
            },
        ),
        None => None,
    }
}

fn unit_secs(unit: &DateTimeOffsetUnit) -> (r: i128)
    ensures
        r == unit_seconds(*unit),
{
    match unit {
        DateTimeOffsetUnit::SECOND => 1,
        DateTimeOffsetUnit::MINUTES => 60,
        DateTimeOffsetUnit::HOURS => 3600,
        DateTimeOffsetUnit::DAYS => 86400,
    }
}

/// Nanoseconds in one day.
pub open spec fn nanos_per_day() -> int {
    86_400_000_000_000int
}

/// The date and time moved by `value` units (backwards when negative); a
/// leap second counts as the second after it. `None` when the result lies
/// outside the supported dates.
pub fn offset(date_time: LocalDateTime, value: i64, unit: DateTimeOffsetUnit) -> (r: Option<
    LocalDateTime,
>)
    requires
        date_time.wf(),
    ensures
        r matches Some(t) ==> {
            &&& t.wf()
            &&& t.nanosecond < 1_000_000_000
            &&& t.nanos() == date_time.nanos() + value * unit_seconds(unit) * 1_000_000_000
        },
        r is None ==> no_date_at(
            (date_time.nanos() + value * unit_seconds(unit) * 1_000_000_000) / nanos_per_day(),
        ),
{
    let n = day_number_of(&date_time) as i128;
    let u = unit_secs(&unit);
    let shift = value as i128 * u;
    assert(-0x8000_0000_0000_0000 * 86400 <= shift <= 0x7fff_ffff_ffff_ffff * 86400) by (
    nonlinear_arith)
        requires
            shift == value * u,
            1 <= u <= 86400,
            -0x8000_0000_0000_0000 <= value <= 0x7fff_ffff_ffff_ffff,
    ;
    // A leap second is carried into the following second.
    let (carry, nano): (i128, u32) = if date_time.nanosecond >= 1_000_000_000 {
        (1, date_time.nanosecond - 1_000_000_000)
    } else {
        (0, date_time.nanosecond)
    };
    let sod = (date_time.hour * 3600 + date_time.minute * 60 + date_time.second) as i128;
    let total = sod + carry + shift;
    let q: i128 = if total >= 0 {
        total / 86400
    } else {
        -((-total + 86399) / 86400)
    };
    let rest = total - q * 86400;
    assert(0 <= rest < 86400) by (nonlinear_arith)
        requires
            rest == total - q * 86400,
            total >= 0 ==> q == total / 86400,
            total < 0 ==> q == -((-total + 86399) / 86400),
    ;
    let ghost target = date_time.nanos() + value * unit_seconds(unit) * 1_000_000_000;
    assert(target == ((n + q) * 86400 + rest) * 1_000_000_000 + nano) by (nonlinear_arith)
        requires
            target == (n * 86400 + sod) * 1_000_000_000 + date_time.nanosecond + shift
                * 1_000_000_000,
            date_time.nanosecond == carry * 1_000_000_000 + nano,
            total == sod + carry + shift,
            rest == total - q * 86400,
    ;
    assert(target / nanos_per_day() == n + q) by (nonlinear_arith)
        requires
            target == ((n + q) * 86400 + rest) * 1_000_000_000 + nano,
            0 <= rest < 86400,
            0 <= nano < 1_000_000_000,
    ;
    match date_at_day(n + q) {
        Some((year, month, day)) => {
            let hour = (rest / 3600) as u32;
            let minute = ((rest % 3600) / 60) as u32;
            let second = (rest % 60) as u32;
            assert(hour * 3600 + minute * 60 + second == rest);
            Some(LocalDateTime { year, month, day, hour, minute, second, nanosecond: nano })
        },
        None => None,
    }
}

/// Nanoseconds since day zero, from a day number that fits an `i32`.
fn nanos_of(d: &LocalDateTime, day: i32) -> (r: i128)
    requires
        d.wf(),
        day == d.day_number(),
    ensures
        r == d.nanos(),
        -0x8000_0000 * 86400_000_000_000 <= r <= 0x8000_0001 * 86400_000_000_000,
{
    let sod = (d.hour * 3600 + d.minute * 60 + d.second) as i128;
    let r = (day as i128 * 86400 + sod) * 1_000_000_000 + d.nanosecond as i128;
    assert(-0x8000_0000 * 86400_000_000_000 <= r <= 0x8000_0001 * 86400_000_000_000) by (
    nonlinear_arith)
        requires
            r == (day * 86400 + sod) * 1_000_000_000 + d.nanosecond,
            0 <= sod < 86400,
            0 <= d.nanosecond < 2_000_000_000,
            -0x8000_0000 <= day < 0x8000_0000,
    ;
    r
}

/// Whole seconds from the first date and time to the second, rounded
/// toward zero; negative when the second comes first.
pub fn between(date_time1: &LocalDateTime, date_time2: &LocalDateTime) -> (r: i64)
    requires
        date_time1.wf(),
        date_time2.wf(),
    ensures
        r == crate::math::div_toward_zero(date_time2.nanos() - date_time1.nanos(), 1_000_000_000),
{
    let n1 = nanos_of(date_time1, day_number_of(date_time1));
    let n2 = nanos_of(date_time2, day_number_of(date_time2));
    let diff = n2 - n1;
    if diff >= 0 {
        let q = diff / 1_000_000_000;
        assert(q <= 0x8000_0001 * 86400 * 2) by (nonlinear_arith)
            requires
                q == diff / 1_000_000_000,
                0 <= diff <= 0x8000_0001 * 86400_000_000_000 * 2,
        ;
        q as i64
    } else {
        let q = (-diff) / 1_000_000_000;
        assert(q <= 0x8000_0001 * 86400 * 2) by (nonlinear_arith)
            requires
                q == (-diff) / 1_000_000_000,
                0 <= -diff <= 0x8000_0001 * 86400_000_000_000 * 2,
        ;
        -(q as i64)
    }
}

/// Strict chronological order of two dates and times: by year, then month,
/// day, hour, minute, second and nanosecond.
pub open spec fn earlier(a: LocalDateTime, b: LocalDateTime) -> bool {
    if a.year != b.year {
        a.year < b.year
    } else if a.month != b.month {
        a.month < b.month
    } else if a.day != b.day {
        a.day < b.day
    } else if a.hour != b.hour {
        a.hour < b.hour
    } else if a.minute != b.minute {
        a.minute < b.minute
    } else if a.second != b.second {
        a.second < b.second
    } else {
        a.nanosecond < b.nanosecond
    }
}

fn earlier_exec(a: &LocalDateTime, b: &LocalDateTime) -> (r: bool)
    ensures
        r == earlier(*a, *b),
{
    if a.year != b.year {
        a.year < b.year
    } else if a.month != b.month {
        a.month < b.month
    } else if a.day != b.day {
        a.day < b.day
    } else if a.hour != b.hour {
        a.hour < b.hour
    } else if a.minute != b.minute {
        a.minute < b.minute
    } else if a.second != b.second {
        a.second < b.second
    } else {
        a.nanosecond < b.nanosecond
    }
}

/// Whether `dt1` comes strictly before `dt2`.
pub fn before(dt1: LocalDateTime, dt2: LocalDateTime) -> (r: bool)
    ensures
        r == earlier(dt1, dt2),
{
    earlier_exec(&dt1, &dt2)
}

/// Whether `dt1` comes strictly after `dt2`.
pub fn after(dt1: LocalDateTime, dt2: LocalDateTime) -> (r: bool)
    ensures
        r == earlier(dt2, dt1),
{
    earlier_exec(&dt2, &dt1)
}

/// Whether the two are the same date and time.
pub fn equal(dt1: &LocalDateTime, dt2: &LocalDateTime) -> (r: bool)
    ensures
        r == (*dt1 == *dt2),
{
    *dt1 == *dt2
}

/// Whether two local dates and times, at the given offsets east of UTC in
/// seconds, fall in the same UTC second.
pub fn equal_different_timezone(
    dt1: &LocalDateTime,
    offset1: i32,
    dt2: &LocalDateTime,
    offset2: i32,
) -> (r: bool)
    requires
        dt1.wf(),
        dt2.wf(),
    ensures
        r == (dt1.seconds() - offset1 == dt2.seconds() - offset2),
{
    let d1 = day_number_of(dt1) as i64;
    let d2 = day_number_of(dt2) as i64;
    let s1 = d1 * 86400 + (dt1.hour * 3600 + dt1.minute * 60 + dt1.second) as i64 - offset1 as i64;
    let s2 = d2 * 86400 + (dt2.hour * 3600 + dt2.minute * 60 + dt2.second) as i64 - offset2 as i64;
    s1 == s2
}

} // verus!
