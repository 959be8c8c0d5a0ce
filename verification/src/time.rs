//! A stopwatch on the system clock.

use vstd::prelude::*;
use std::time::{Duration, SystemTime, SystemTimeError};

verus! {

/// `std::time::SystemTime`, a reading of the system clock. Nothing is known of
/// what it holds.
#[verifier::external_type_specification]
#[verifier::external_body]
pub struct ExSystemTime(SystemTime);

/// `std::time::SystemTimeError`, what comes of asking for the time from a
/// later reading to an earlier one. Nothing is known of what it holds.
#[verifier::external_type_specification]
#[verifier::external_body]
pub struct ExSystemTimeError(SystemTimeError);

/// `SystemTime::now`: the reading of the system clock. Nothing is claimed of it.
#[verifier::external_body]
fn now() -> SystemTime {
    SystemTime::now()
}

/// `SystemTime::duration_since`: the time from `earlier` to `later`, or an
/// error where `earlier` is the later of the two. Nothing is claimed of it.
#[verifier::external_body]
fn duration_since(later: &SystemTime, earlier: &SystemTime) -> Result<Duration, SystemTimeError> {
    later.duration_since(*earlier)
}

/// `Duration::as_secs`: the whole seconds of a duration. Nothing is claimed of it.
#[verifier::external_body]
fn as_secs(duration: &Duration) -> u64 {
    duration.as_secs()
}

/// `Duration::subsec_nanos`: the part of a duration beyond its whole seconds,
/// in nanoseconds. It is less than a second.
#[verifier::external_body]
fn subsec_nanos(duration: &Duration) -> (r: u32)
    ensures
        r < 1_000_000_000,
{
    duration.subsec_nanos()
}

/// A count of time units as the stopwatch reports it: `u64::MAX` where the
/// number does not fit.
pub open spec fn capped(exact: int) -> int {
    if exact > u64::MAX {
        u64::MAX as int
    } else {
        exact
    }
}

/// A length of time in milliseconds, rounded down, at most `u64::MAX`.
pub fn millis_of(secs: u64, nanos: u32) -> (r: u64)
    ensures
        r == capped(secs * 1_000 + nanos / 1_000_000),
{
    let exact: u128 = secs as u128 * 1_000 + (nanos / 1_000_000) as u128;
    if exact > u64::MAX as u128 {
        u64::MAX
    } else {
        exact as u64
    }
}

/// A length of time in microseconds, rounded down, at most `u64::MAX`.
pub fn micros_of(secs: u64, nanos: u32) -> (r: u64)
    ensures
        r == capped(secs * 1_000_000 + nanos / 1_000),
{
    let exact: u128 = secs as u128 * 1_000_000 + (nanos / 1_000) as u128;
    if exact > u64::MAX as u128 {
        u64::MAX
    } else {
        exact as u64
    }
}

/// A length of time in nanoseconds, at most `u64::MAX`.
pub fn nanos_of(secs: u64, nanos: u32) -> (r: u64)
    ensures
        r == capped(secs * 1_000_000_000 + nanos),
{
    let exact: u128 = secs as u128 * 1_000_000_000 + nanos as u128;
    if exact > u64::MAX as u128 {
        u64::MAX
    } else {
        exact as u64
    }
}

/// A stopwatch: it remembers when it was started.
pub struct Timer {
    start: SystemTime,
}

impl Timer {
    /// A stopwatch started now.
    pub fn new() -> Timer {
        Timer { start: now() }
    }

    /// Starts the stopwatch again.
    pub fn reset(&mut self) {
        self.start = now();
    }

    /// The milliseconds since the start, as `millis_of` counts them.
    pub fn elapsed_millis(&self) -> u64 {
        let (secs, nanos) = self.elapsed();
        millis_of(secs, nanos)
    }

    /// The microseconds since the start, as `micros_of` counts them.
    pub fn elapsed_micros(&self) -> u64 {
        let (secs, nanos) = self.elapsed();
        micros_of(secs, nanos)
    }

    /// The nanoseconds since the start, as `nanos_of` counts them.
    pub fn elapsed_nanos(&self) -> u64 {
        let (secs, nanos) = self.elapsed();
        nanos_of(secs, nanos)
    }

    /// The time since the start, in whole seconds and the nanoseconds beyond
    /// them; no time at all where the clock now reads earlier than at the start.
    fn elapsed(&self) -> (r: (u64, u32))
        ensures
            r.1 < 1_000_000_000,
    {
        let current = now();
        match duration_since(&current, &self.start) {
            Ok(elapsed) => (as_secs(&elapsed), subsec_nanos(&elapsed)),
            Err(_) => (0, 0),
        }
    }
}

} // verus!
