//! Reading the clocks of the machine.

use std::time::{Duration, Instant, SystemTime, UNIX_EPOCH};
use vstd::prelude::*;

verus! {

/// `std::time::SystemTime`: a reading of the wall clock.
#[verifier::external_type_specification]
#[verifier::external_body]
pub struct ExSystemTime(SystemTime);

/// `std::time::Instant`: a reading of the monotonic clock.
#[verifier::external_type_specification]
#[verifier::external_body]
pub struct ExInstant(Instant);

/// `SystemTime::now`: the wall clock, of which nothing is known.
#[verifier::external_body]
pub(crate) fn system_time_now() -> SystemTime {
    SystemTime::now()
}

/// `SystemTime::duration_since` the Unix epoch: `None` for a time before
/// it.
#[verifier::external_body]
pub(crate) fn since_epoch(time: &SystemTime) -> Option<Duration> {
    time.duration_since(UNIX_EPOCH).ok()
}

/// `Duration::as_secs`: the whole seconds in `duration`.
#[verifier::external_body]
pub(crate) fn whole_seconds(duration: &Duration) -> u64 {
    duration.as_secs()
}

/// `Duration::as_nanos`: `duration` in nanoseconds.
#[verifier::external_body]
pub(crate) fn nanoseconds(duration: &Duration) -> u128 {
    duration.as_nanos()
}

/// `Instant::now`: the monotonic clock, of which nothing is known.
#[verifier::external_body]
pub(crate) fn instant_now() -> Instant {
    Instant::now()
}

/// `Instant::elapsed`: the time that has passed since `start`.
#[verifier::external_body]
pub(crate) fn elapsed_since(start: &Instant) -> Duration {
    start.elapsed()
}

/// Seconds since the Unix epoch by the wall clock, or `None` where the
/// clock stands before the epoch.
pub(crate) fn unix_time_secs() -> Option<u64> {
    let now = system_time_now();
    match since_epoch(&now) {
        Some(d) => Some(whole_seconds(&d)),
        None => None,
    }
}

/// The nanoseconds that have passed since `start`, or `u64::MAX` where
/// they do not fit.
pub(crate) fn elapsed_nanos(start: &Instant) -> u64 {
    let d = elapsed_since(start);
    saturated(nanoseconds(&d))
}

/// `n` as a `u64`, or `u64::MAX` where it does not fit.
pub fn saturated(n: u128) -> (r: u64)
    ensures
        r == if n > u64::MAX {
            u64::MAX as int
        } else {
            n as int
        },
{
    if n > u64::MAX as u128 {
        u64::MAX
    } else {
        n as u64
    }
}

} // verus!
