//! Delta timing: how long since the timer was last read.
//!
//! The clock readings themselves come from the platform's monotonic
//! clock and nothing can be promised of their values; the conversions
//! from a duration's parts to milliseconds, nanoseconds and rounded
//! seconds are exact, saturating at the top of `u64`.

use vstd::prelude::*;

verus! {

#[verifier::external_type_specification]
#[verifier::external_body]
pub struct ExInstant(std::time::Instant);

/// Relies on std::time::Instant::now: a reading of the platform's
/// monotonic clock; nothing is promised of its value.
#[verifier::external_body]
fn instant_now() -> std::time::Instant {
    std::time::Instant::now()
}

/// Relies on std::time::Instant::saturating_duration_since: the time
/// from `earlier` to `now`, zero when `earlier` is the later reading;
/// never panics.
#[verifier::external_body]
fn duration_between(now: &std::time::Instant, earlier: &std::time::Instant) -> std::time::Duration {
    now.saturating_duration_since(*earlier)
}

/// Relies on std::time::Duration::as_secs: the whole seconds of the
/// duration.
#[verifier::external_body]
fn duration_secs(d: &std::time::Duration) -> u64 {
    d.as_secs()
}

/// Relies on std::time::Duration::subsec_nanos: the fractional part in
/// nanoseconds, documented to be below one billion.
#[verifier::external_body]
fn duration_subsec_nanos(d: &std::time::Duration) -> (r: u32)
    ensures
        r < 1_000_000_000,
{
    d.subsec_nanos()
}

/// Milliseconds in a duration of `secs` seconds and `nanos` fractional
/// nanoseconds, saturating at the top of `u64`.
pub open spec fn spec_duration_millis(secs: int, nanos: int) -> int {
    let m = secs * 1000 + nanos / 1_000_000;
    if m > u64::MAX as int {
        u64::MAX as int
    } else {
        m
    }
}

/// Nanoseconds in a duration, saturating at the top of `u64`.
pub open spec fn spec_duration_nanos(secs: int, nanos: int) -> int {
    let n = secs * 1_000_000_000 + nanos;
    if n > u64::MAX as int {
        u64::MAX as int
    } else {
        n
    }
}

/// Seconds in a duration, rounded to the nearest (half up), saturating
/// at the top of `u64`.
pub open spec fn spec_duration_seconds(secs: int, nanos: int) -> int {
    let s = secs + (if nanos >= 500_000_000 {
        1int
    } else {
        0int
    });
    if s > u64::MAX as int {
        u64::MAX as int
    } else {
        s
    }
}

/// Converts a duration's parts to whole milliseconds, saturating.
pub fn duration_to_millis(secs: u64, nanos: u32) -> (r: u64)
    requires
        nanos < 1_000_000_000,
    ensures
        r == spec_duration_millis(secs as int, nanos as int),
{
    let frac: u64 = (nanos / 1_000_000) as u64;
    match secs.checked_mul(1000) {
        Some(ms) => match ms.checked_add(frac) {
            Some(t) => t,
            None => u64::MAX,
        },
        None => u64::MAX,
    }
}

/// Converts a duration's parts to whole nanoseconds, saturating.
pub fn duration_to_nanos(secs: u64, nanos: u32) -> (r: u64)
    requires
        nanos < 1_000_000_000,
    ensures
        r == spec_duration_nanos(secs as int, nanos as int),
{
    match secs.checked_mul(1_000_000_000) {
        Some(ns) => match ns.checked_add(nanos as u64) {
            Some(t) => t,
            None => u64::MAX,
        },
        None => u64::MAX,
    }
}

/// Converts a duration's parts to seconds rounded half up, saturating.
pub fn duration_to_seconds(secs: u64, nanos: u32) -> (r: u64)
    requires
        nanos < 1_000_000_000,
    ensures
        r == spec_duration_seconds(secs as int, nanos as int),
{
    if nanos >= 500_000_000 {
        match secs.checked_add(1) {
            Some(s) => s,
            None => u64::MAX,
        }
    } else {
        secs
    }
}

/// Measures the time between its own readings of the monotonic clock.
pub struct DeltaTimer {
    pub last: Option<std::time::Instant>,
}

impl DeltaTimer {
    /// A fresh timer with no reading taken yet.
    pub fn new() -> (r: DeltaTimer)
        ensures
            r.last is None,
    {
        DeltaTimer { last: None }
    }

    /// Forgets the last reading: the next measurement starts from zero.
    pub fn reset(&mut self)
        ensures
            final(self).last is None,
    {
        self.last = None;
    }

    /// The time since the previous reading (zero on the first one), and
    /// takes a new reading.
    pub fn duration(&mut self) -> (d: std::time::Duration)
        ensures
            final(self).last is Some,
    {
        let now = instant_now();
        let d = match &self.last {
            Some(t) => duration_between(&now, t),
            None => duration_between(&now, &now),
        };
        self.last = Some(now);
        d
    }

    /// The time since the previous reading, in whole milliseconds.
    pub fn delta_millis(&mut self) -> (r: u64)
        ensures
            final(self).last is Some,
    {
        let d = self.duration();
        let secs = duration_secs(&d);
        let nanos = duration_subsec_nanos(&d);
        duration_to_millis(secs, nanos)
    }

    /// The time since the previous reading, in whole nanoseconds.
    pub fn delta_nanos(&mut self) -> (r: u64)
        ensures
            final(self).last is Some,
    {
        let d = self.duration();
        let secs = duration_secs(&d);
        let nanos = duration_subsec_nanos(&d);
        duration_to_nanos(secs, nanos)
    }

    /// The time since the previous reading, in seconds rounded to the
    /// nearest.
    pub fn delta_seconds(&mut self) -> (r: u64)
        ensures
            final(self).last is Some,
    {
        let d = self.duration();
        let secs = duration_secs(&d);
        let nanos = duration_subsec_nanos(&d);
        duration_to_seconds(secs, nanos)
    }
}

} // verus!
