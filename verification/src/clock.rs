//! Readings of the machine's clocks, and points in time.
//!
//! Nothing is known of a reading: every function that takes one is verified for all of them.
//! Times are nanoseconds since a point at which a clock was started.

use std::time::{Duration, Instant, SystemTime, UNIX_EPOCH};
use vstd::prelude::*;

verus! {

/// A point on the machine's monotonic clock.
#[verifier::external_type_specification]
#[verifier::external_body]
pub struct ExInstant(Instant);

/// `std::time::Instant::now`: some point on the monotonic clock.
#[verifier::external_body]
pub(crate) fn instant_now() -> (now: Instant) {
    Instant::now()
}

/// `std::time::Instant::elapsed`: the time since `epoch`, in nanoseconds.
#[verifier::external_body]
pub(crate) fn nanos_since(epoch: &Instant) -> (nanos: u64) {
    epoch.elapsed().as_nanos() as u64
}

/// `std::time::SystemTime::now`: the time of day, in milliseconds of the Unix epoch.
#[verifier::external_body]
pub(crate) fn unix_millis() -> (millis: u64) {
    SystemTime::now().duration_since(UNIX_EPOCH).unwrap_or_default().as_millis() as u64
}

/// `std::time::Instant::checked_sub`: whether the monotonic clock has a point `secs` seconds before
/// now. Which points it has depends on the machine.
#[verifier::external_body]
pub(crate) fn reaches_back(secs: u64) -> (reaches: bool) {
    Instant::now().checked_sub(Duration::from_secs(secs)).is_some()
}

/// The nanoseconds of a second.
pub const NANOS_PER_SEC: u64 = 1_000_000_000;

/// The point `age_secs` seconds before `now`, if the clock had been started by then.
pub open spec fn cutoff_of(now: u64, age_secs: u64) -> Option<u64> {
    if age_secs * NANOS_PER_SEC <= now {
        Some((now - age_secs * NANOS_PER_SEC) as u64)
    } else {
        None
    }
}

/// The point `age_secs` seconds before `now`, if the clock had been started by then.
pub fn cutoff(now: u64, age_secs: u64) -> (point: Option<u64>)
    ensures
        point == cutoff_of(now, age_secs),
{
    match age_secs.checked_mul(NANOS_PER_SEC) {
        Some(age) => now.checked_sub(age),
        None => None,
    }
}

/// The point `age_secs` seconds before `now`, or the start of the clock, before which nothing lies.
pub open spec fn horizon(now: u64, age_secs: u64) -> u64 {
    match cutoff_of(now, age_secs) {
        Some(point) => point,
        None => 0,
    }
}

} // verus!
