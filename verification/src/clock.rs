//! Readings of the machine's clocks, as plain integers.

use std::time::{Duration, Instant, SystemTime};
use vstd::prelude::*;

verus! {

/// `std::time::Instant`, a reading of the monotonic clock. Nothing is known
/// of what it holds.
#[verifier::external_type_specification]
#[verifier::external_body]
pub struct ExInstant(std::time::Instant);

/// `std::time::SystemTime`, a reading of the wall clock. Nothing is known of
/// what it holds.
#[verifier::external_type_specification]
#[verifier::external_body]
pub struct ExSystemTime(std::time::SystemTime);

/// `Instant::now` reads the monotonic clock. Nothing is claimed of the
/// reading.
pub assume_specification[ std::time::Instant::now ]() -> Instant;

/// `Instant::elapsed` gives the time since the instant was taken. Nothing is
/// claimed of the amount.
pub assume_specification[ std::time::Instant::elapsed ](instant: &Instant) -> Duration;

/// `Duration::as_nanos` gives a duration in whole nanoseconds. Nothing is
/// claimed of the number.
pub assume_specification[ std::time::Duration::as_nanos ](duration: &Duration) -> u128;

/// `Duration::as_millis` gives a duration in whole milliseconds. Nothing is
/// claimed of the number.
pub assume_specification[ std::time::Duration::as_millis ](duration: &Duration) -> u128;

/// `Duration::as_secs` gives a duration in whole seconds. Nothing is claimed
/// of the number.
pub assume_specification[ std::time::Duration::as_secs ](duration: &Duration) -> u64;

/// `SystemTime::now` reads the wall clock. Nothing is claimed of the reading.
pub assume_specification[ std::time::SystemTime::now ]() -> SystemTime;

/// `SystemTime::duration_since` against the Unix epoch: the time since the
/// epoch, or nothing where the wall clock stands before it. Nothing is
/// claimed of the amount.
#[verifier::external_body]
fn since_epoch(time: &SystemTime) -> Option<Duration> {
    time.duration_since(std::time::UNIX_EPOCH).ok()
}

/// A 128-bit count cut down to 64 bits: the count itself where it fits, the
/// largest 64-bit value where it does not.
pub open spec fn capped(count: u128) -> u64 {
    if count > u64::MAX {
        u64::MAX
    } else {
        count as u64
    }
}

/// Cuts a 128-bit count down to 64 bits.
pub fn cap(count: u128) -> (short: u64)
    ensures
        short == capped(count),
{
    if count > u64::MAX as u128 {
        u64::MAX
    } else {
        count as u64
    }
}

/// The time between two readings of one monotonic clock; zero where the
/// later reading is not later.
pub open spec fn elapsed_between(earlier: nat, later: nat) -> nat {
    if later >= earlier {
        (later - earlier) as nat
    } else {
        0
    }
}

/// The time between two readings of one monotonic clock.
pub fn elapsed(earlier: u64, later: u64) -> (span: u64)
    ensures
        span == elapsed_between(earlier as nat, later as nat),
{
    if later >= earlier {
        later - earlier
    } else {
        0
    }
}

/// A monotonic clock that counts nanoseconds from the moment it was made.
#[derive(Clone, Copy)]
pub struct Clock {
    origin: Instant,
}

impl Clock {
    /// A clock that starts now.
    pub fn new() -> Self {
        Clock { origin: Instant::now() }
    }

    /// Nanoseconds since the clock was made, at most the largest 64-bit
    /// value.
    pub fn now(&self) -> u64 {
        let since = self.origin.elapsed();
        cap(since.as_nanos())
    }
}

/// Whole seconds since the Unix epoch; zero where the wall clock stands
/// before it.
pub fn unix_seconds() -> u64 {
    let now = SystemTime::now();
    match since_epoch(&now) {
        Some(since) => since.as_secs(),
        None => 0,
    }
}

/// Whole nanoseconds since the Unix epoch; zero where the wall clock stands
/// before it.
pub fn unix_nanos() -> u128 {
    let now = SystemTime::now();
    match since_epoch(&now) {
        Some(since) => since.as_nanos(),
        None => 0,
    }
}

} // verus!
