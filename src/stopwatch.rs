use vstd::prelude::*;

use std::time::{Duration, Instant};

use crate::timestamp::{decimal, digit_char, format_timestamp};

verus! {

#[verifier::external_type_specification]
#[verifier::external_body]
pub struct ExInstant(Instant);

/// Nanoseconds in one second.
pub const NANOS_PER_SEC: u128 = 1_000_000_000;

/// The longest span a `Duration` can hold, in nanoseconds.
pub const MAX_DURATION_NANOS: u128 = 18_446_744_073_709_551_615 * 1_000_000_000 + 999_999_999;

/// The `Duration` of `secs` seconds and `nanos` nanoseconds.
pub uninterp spec fn duration_of(secs: int, nanos: int) -> Duration;

/// Relies on `Instant::now`: a reading of the monotonic clock.
#[verifier::external_body]
fn instant_now() -> Instant {
    Instant::now()
}

/// Relies on `Instant::elapsed`: the time since `start`, in nanoseconds as
/// `Duration::as_nanos` gives them; a `Duration` holds at most `u64::MAX`
/// seconds and 999 999 999 nanoseconds.
#[verifier::external_body]
fn nanos_since(start: &Instant) -> (r: u128)
    ensures
        r <= MAX_DURATION_NANOS,
{
    start.elapsed().as_nanos()
}

/// Relies on `Duration::new`: `secs` seconds plus `nanos` nanoseconds; with
/// `nanos` below one second nothing carries into the seconds, so it cannot
/// overflow.
#[verifier::external_body]
fn duration_new(secs: u64, nanos: u32) -> (r: Duration)
    requires
        nanos < NANOS_PER_SEC,
    ensures
        r == duration_of(secs as int, nanos as int),
{
    Duration::new(secs, nanos)
}

/// The `Duration` of a span given in nanoseconds.
pub open spec fn duration_of_nanos(n: int) -> Duration {
    duration_of(n / NANOS_PER_SEC as int, n % NANOS_PER_SEC as int)
}

/// A value below 1000 as exactly three decimal digits.
pub open spec fn three_digits(v: int) -> Seq<char> {
    seq![digit_char(v / 100), digit_char((v / 10) % 10), digit_char(v % 10)]
}

/// An elapsed time written as whole seconds, a point, three digits of
/// milliseconds and the unit: `12.034s`.
pub open spec fn elapsed_text(nanos: int) -> Seq<char> {
    decimal((nanos / NANOS_PER_SEC as int) as nat) + seq!['.'] + three_digits(
        (nanos % NANOS_PER_SEC as int) / 1_000_000,
    ) + seq!['s']
}

/// The decimal digit for a value below ten.
fn digit(v: u128) -> (c: char)
    requires
        v < 10,
    ensures
        c == digit_char(v as int),
{
    ((v as u8) + 48) as char
}

/// Writes an elapsed time given in nanoseconds as seconds with three
/// digits of milliseconds: `12.034s`.
pub fn format_elapsed(nanos: u128) -> (r: String)
    requires
        nanos <= MAX_DURATION_NANOS,
    ensures
        r@ == elapsed_text(nanos as int),
{
    let secs = (nanos / NANOS_PER_SEC) as u64;
    let millis = (nanos % NANOS_PER_SEC) / 1_000_000;
    let mut r = format_timestamp(secs);
    r.push('.');
    r.push(digit(millis / 100));
    r.push(digit((millis / 10) % 10));
    r.push(digit(millis % 10));
    r.push('s');
    r
}

/// The accumulated time plus an interval, capped at the longest `Duration`.
pub open spec fn capped_sum(accumulated: int, live: int) -> int {
    if accumulated + live <= MAX_DURATION_NANOS {
        accumulated + live
    } else {
        MAX_DURATION_NANOS as int
    }
}

/// Adds an interval measured by the clock to the accumulated time, capped
/// at the longest `Duration`.
pub fn add_interval(accumulated: u128, live: u128) -> (r: u128)
    requires
        accumulated <= MAX_DURATION_NANOS,
    ensures
        r == capped_sum(accumulated as int, live as int),
{
    if live <= MAX_DURATION_NANOS - accumulated {
        accumulated + live
    } else {
        MAX_DURATION_NANOS
    }
}

/// Measures elapsed time over one or more running intervals; time while
/// stopped is not counted.
pub struct StopWatch {
    start_time: Option<Instant>,
    /// Nanoseconds accumulated by the intervals already closed.
    elapsed: u128,
    is_running: bool,
}

impl StopWatch {
    /// Whether the watch is running.
    pub closed spec fn running(&self) -> bool {
        self.is_running
    }

    /// Nanoseconds accumulated by the closed intervals.
    pub closed spec fn accumulated(&self) -> nat {
        self.elapsed as nat
    }

    /// A running watch holds the start of its open interval, and the
    /// accumulated time fits in a `Duration`.
    pub closed spec fn wf(&self) -> bool {
        &&& self.is_running ==> self.start_time is Some
        &&& self.elapsed <= MAX_DURATION_NANOS
    }

    /// Whether `nanos` is a reading the watch can give now: the accumulated
    /// time when stopped; when running, that plus the length of the open
    /// interval as the clock measures it, capped at the longest `Duration`.
    pub open spec fn can_read(&self, nanos: int) -> bool {
        if self.running() {
            &&& self.accumulated() <= nanos
            &&& exists|live: nat| live <= MAX_DURATION_NANOS && nanos == capped_sum(
                self.accumulated() as int,
                live as int,
            )
        } else {
            nanos == self.accumulated()
        }
    }

    /// A watch in its initial state: stopped, with nothing accumulated.
    pub open spec fn is_cleared(&self) -> bool {
        &&& self.wf()
        &&& !self.running()
        &&& self.accumulated() == 0
    }

    /// A new stopped watch with zero elapsed time.
    pub fn new() -> (r: Self)
        ensures
            r.is_cleared(),
    {
        StopWatch { start_time: None, elapsed: 0, is_running: false }
    }

    /// A new watch, already running.
    pub fn start_new() -> (r: Self)
        ensures
            r.wf(),
            r.running(),
            r.accumulated() == 0,
    {
        let mut sw = StopWatch::new();
        sw.start();
        sw
    }

    /// Opens an interval at the current instant; does nothing if running.
    pub fn start(&mut self)
        requires
            old(self).wf(),
        ensures
            final(self).wf(),
            final(self).running(),
            final(self).accumulated() == old(self).accumulated(),
            old(self).running() ==> *final(self) == *old(self),
    {
        if !self.is_running {
            self.start_time = Some(instant_now());
            self.is_running = true;
        }
    }

    /// Closes the open interval and adds it to the accumulated time; does
    /// nothing if stopped.
    pub fn stop(&mut self)
        requires
            old(self).wf(),
        ensures
            final(self).wf(),
            !final(self).running(),
            old(self).running() ==> old(self).can_read(final(self).accumulated() as int),
            !old(self).running() ==> *final(self) == *old(self),
    {
        if let Some(start) = &self.start_time {
            if self.is_running {
                let live = nanos_since(start);
                self.elapsed = add_interval(self.elapsed, live);
                assert(self.elapsed == capped_sum(old(self).accumulated() as int, live as int));
                self.is_running = false;
            }
        }
    }

    /// Returns to the initial state, whatever the state before.
    pub fn reset(&mut self)
        ensures
            final(self).is_cleared(),
    {
        self.start_time = None;
        self.elapsed = 0;
        self.is_running = false;
    }

    /// The elapsed time in nanoseconds: the accumulated time, plus the open
    /// interval while running.
    pub fn elapsed_nanos(&self) -> (r: u128)
        requires
            self.wf(),
        ensures
            self.can_read(r as int),
            self.accumulated() <= r <= MAX_DURATION_NANOS,
    {
        if self.is_running {
            if let Some(start) = &self.start_time {
                let live = nanos_since(start);
                let r = add_interval(self.elapsed, live);
                assert(r == capped_sum(self.accumulated() as int, live as int));
                return r;
            }
        }
        self.elapsed
    }

    /// The elapsed time: the accumulated time, plus the open interval while
    /// running.
    pub fn elapsed(&self) -> (r: Duration)
        requires
            self.wf(),
        ensures
            exists|n: int| self.can_read(n) && r == duration_of_nanos(n),
    {
        let n = self.elapsed_nanos();
        let secs = (n / NANOS_PER_SEC) as u64;
        let nanos = (n % NANOS_PER_SEC) as u32;
        let r = duration_new(secs, nanos);
        assert(r == duration_of_nanos(n as int));
        r
    }

    /// The elapsed time as text: seconds with three digits of milliseconds.
    pub fn to_display_string(&self) -> (r: String)
        requires
            self.wf(),
        ensures
            exists|n: int| self.can_read(n) && r@ == elapsed_text(n),
    {
        let n = self.elapsed_nanos();
        let r = format_elapsed(n);
        assert(self.can_read(n as int) && r@ == elapsed_text(n as int));
        r
    }

    /// Whether the watch is running.
    pub fn is_running(&self) -> (r: bool)
        ensures
            r == self.running(),
    {
        self.is_running
    }

    /// The elapsed time in whole milliseconds.
    pub fn elapsed_millis(&self) -> (r: u128)
        requires
            self.wf(),
        ensures
            exists|n: int| self.can_read(n) && r == n / 1_000_000,
    {
        self.elapsed_nanos() / 1_000_000
    }

    /// The elapsed time in whole microseconds.
    pub fn elapsed_micros(&self) -> (r: u128)
        requires
            self.wf(),
        ensures
            exists|n: int| self.can_read(n) && r == n / 1_000,
    {
        self.elapsed_nanos() / 1_000
    }
}

impl Default for StopWatch {
    fn default() -> (r: Self)
        ensures
            r.is_cleared(),
    {
        Self::new()
    }
}

/// Once stopped, a watch reads the same at every moment: the time waited
/// after stopping does not change the reading, which is the time
/// accumulated while running.
pub proof fn lemma_stopped_reading_fixed(sw: StopWatch, n1: int, n2: int)
    requires
        sw.wf(),
        !sw.running(),
        sw.can_read(n1),
        sw.can_read(n2),
    ensures
        n1 == n2,
        n1 == sw.accumulated(),
{
}

/// Stopping never loses time: a watch that was running reads, once stopped,
/// at least what it had accumulated before the interval, and that reading
/// holds from then on.
pub proof fn lemma_stop_keeps_time(before: StopWatch, after: StopWatch, n: int)
    requires
        before.wf(),
        before.running(),
        before.can_read(after.accumulated() as int),
        !after.running(),
        after.can_read(n),
    ensures
        n >= before.accumulated(),
        n == after.accumulated(),
{
}

/// Starting keeps the time already counted: every reading of the running
/// watch is at least the reading it gave while stopped.
pub proof fn lemma_start_keeps_time(before: StopWatch, after: StopWatch, a: int, b: int)
    requires
        before.wf(),
        !before.running(),
        after.running(),
        after.accumulated() == before.accumulated(),
        before.can_read(a),
        after.can_read(b),
    ensures
        a <= b,
{
}

/// A cleared watch, the state that `reset` leaves whatever came before,
/// reads zero and is not running.
pub proof fn lemma_cleared_reads_zero(sw: StopWatch, n: int)
    requires
        sw.is_cleared(),
        sw.can_read(n),
    ensures
        n == 0,
        !sw.running(),
{
}

} // verus!
