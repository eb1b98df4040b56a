use vstd::prelude::*;

use std::time::{SystemTime, UNIX_EPOCH};

verus! {

#[verifier::external_type_specification]
#[verifier::external_body]
pub struct ExSystemTime(SystemTime);

/// Relies on `SystemTime::now`: a reading of the system clock.
#[verifier::external_body]
pub(crate) fn system_now() -> SystemTime {
    SystemTime::now()
}

/// Relies on `SystemTime::duration_since`: whole seconds from the Unix epoch
/// to `t`, or `None` when `t` lies before the epoch.
#[verifier::external_body]
fn secs_since_epoch(t: &SystemTime) -> Option<u64> {
    t.duration_since(UNIX_EPOCH).ok().map(|d| d.as_secs())
}

/// Relies on `SystemTime::duration_since`: nanoseconds from the Unix epoch
/// to `t`, or `None` when `t` lies before the epoch.
#[verifier::external_body]
pub(crate) fn nanos_since_epoch(t: &SystemTime) -> Option<u128> {
    t.duration_since(UNIX_EPOCH).ok().map(|d| d.as_nanos())
}

/// Relies on `SystemTime::duration_since`: whole milliseconds from the Unix
/// epoch to `t`, or `None` when `t` lies before the epoch.
#[verifier::external_body]
fn millis_since_epoch(t: &SystemTime) -> Option<u128> {
    t.duration_since(UNIX_EPOCH).ok().map(|d| d.as_millis())
}

/// The decimal digit for a value below ten.
pub open spec fn digit_char(d: int) -> char {
    ((d + 48) as u8) as char
}

/// The decimal representation of `n`, without leading zeros ("0" for zero).
pub open spec fn decimal(n: nat) -> Seq<char>
    decreases n,
{
    if n < 10 {
        seq![digit_char(n as int)]
    } else {
        decimal(n / 10) + seq![digit_char((n % 10) as int)]
    }
}

/// Seconds since the Unix epoch by the system clock; zero if the clock reads
/// earlier than the epoch.
pub fn current_timestamp() -> u64 {
    let now = system_now();
    match secs_since_epoch(&now) {
        Some(s) => s,
        None => 0,
    }
}

/// Milliseconds since the Unix epoch by the system clock; zero if the clock
/// reads earlier than the epoch.
pub fn current_timestamp_millis() -> u128 {
    let now = system_now();
    match millis_since_epoch(&now) {
        Some(ms) => ms,
        None => 0,
    }
}

/// The timestamp written in decimal.
pub fn format_timestamp(timestamp: u64) -> (r: String)
    ensures
        r@ == decimal(timestamp as nat),
{
    let mut digits: Vec<char> = Vec::new();
    let mut n = timestamp;
    loop
        invariant_except_break
            decimal(timestamp as nat) == decimal(n as nat) + digits@.reverse(),
        ensures
            decimal(timestamp as nat) == digits@.reverse(),
        decreases n,
    {
        let d = (n % 10) as u8;
        let c = (d + 48) as char;
        if n < 10 {
            let ghost before = digits@;
            digits.push(c);
            assert(decimal(n as nat) == seq![c]);
            assert(digits@.reverse() =~= seq![c] + before.reverse());
            break ;
        }
        proof {
            assert(decimal(n as nat) == decimal((n / 10) as nat) + seq![c]);
        }
        let ghost before = digits@;
        digits.push(c);
        assert(digits@.reverse() =~= seq![c] + before.reverse());
        n = n / 10;
    }
    let mut r = String::new();
    let mut i = digits.len();
    while i > 0
        invariant
            i <= digits@.len(),
            decimal(timestamp as nat) == digits@.reverse(),
            r@ =~= digits@.reverse().subrange(0, (digits@.len() - i) as int),
        decreases i,
    {
        i -= 1;
        r.push(digits[i]);
    }
    r
}

/// The current timestamp written in decimal.
pub fn current_date() -> (r: String)
    ensures
        exists|t: nat| r@ == decimal(t),
{
    format_timestamp(current_timestamp())
}

/// The absolute difference between two timestamps, in seconds.
pub fn diff_seconds(timestamp1: u64, timestamp2: u64) -> (r: i64)
    requires
        timestamp1 - timestamp2 <= i64::MAX,
        timestamp2 - timestamp1 <= i64::MAX,
    ensures
        r == if timestamp1 >= timestamp2 {
            timestamp1 - timestamp2
        } else {
            timestamp2 - timestamp1
        },
{
    if timestamp1 >= timestamp2 {
        (timestamp1 - timestamp2) as i64
    } else {
        (timestamp2 - timestamp1) as i64
    }
}

/// Whether `timestamp` lies after `now`.
pub open spec fn is_after(timestamp: u64, now: u64) -> bool {
    timestamp > now
}

/// Whether `timestamp` lies before `now`.
pub open spec fn is_before(timestamp: u64, now: u64) -> bool {
    timestamp < now
}

/// Whether `timestamp` lies after the instant `now`.
pub fn is_future_at(timestamp: u64, now: u64) -> (r: bool)
    ensures
        r == is_after(timestamp, now),
{
    timestamp > now
}

/// Whether `timestamp` lies before the instant `now`.
pub fn is_past_at(timestamp: u64, now: u64) -> (r: bool)
    ensures
        r == is_before(timestamp, now),
{
    timestamp < now
}

/// Whether `timestamp` lies after the current time by the system clock.
pub fn is_future(timestamp: u64) -> (r: bool)
    ensures
        exists|now: u64| r == is_after(timestamp, now),
{
    is_future_at(timestamp, current_timestamp())
}

/// Whether `timestamp` lies before the current time by the system clock.
pub fn is_past(timestamp: u64) -> (r: bool)
    ensures
        exists|now: u64| r == is_before(timestamp, now),
{
    is_past_at(timestamp, current_timestamp())
}

pub fn add_seconds(timestamp: u64, seconds: u64) -> (r: u64)
    requires
        timestamp + seconds <= u64::MAX,
    ensures
        r == timestamp + seconds,
{
    timestamp + seconds
}

/// Subtracts, stopping at zero.
pub fn subtract_seconds(timestamp: u64, seconds: u64) -> (r: u64)
    ensures
        r == if timestamp >= seconds { timestamp - seconds } else { 0 },
{
    if timestamp >= seconds {
        timestamp - seconds
    } else {
        0
    }
}

/// Whole minutes in a count of seconds.
pub fn get_minutes(timestamp: u64) -> (r: u64)
    ensures
        r == timestamp / 60,
{
    timestamp / 60
}

/// Whole hours in a count of seconds.
pub fn get_hours(timestamp: u64) -> (r: u64)
    ensures
        r == timestamp / 3600,
{
    timestamp / 3600
}

/// Whole days in a count of seconds.
pub fn get_days(timestamp: u64) -> (r: u64)
    ensures
        r == timestamp / 86400,
{
    timestamp / 86400
}

} // verus!
