//! The wall clock, read at the edges of the workflows that need it.
use vstd::prelude::*;
use std::time::{Duration, SystemTime};

verus! {

/// A reading of the system clock.
#[verifier::external_type_specification]
#[verifier::external_body]
pub struct ExSystemTime(std::time::SystemTime);

/// The system clock now: `SystemTime::now()`. Nothing is promised of the
/// value, which is the machine's time.
#[verifier::external_body]
fn now() -> SystemTime {
    SystemTime::now()
}

/// How long after the Unix epoch `time` is: `SystemTime::duration_since`
/// against `UNIX_EPOCH`, `None` when `time` is before the epoch. Nothing is
/// promised of which it is.
#[verifier::external_body]
fn since_epoch(time: SystemTime) -> Option<Duration> {
    time.duration_since(std::time::UNIX_EPOCH).ok()
}

/// The whole seconds of a duration: `Duration::as_secs`.
#[verifier::external_body]
fn whole_seconds(elapsed: &Duration) -> u64 {
    elapsed.as_secs()
}

/// The whole milliseconds of a duration: `Duration::as_millis`.
#[verifier::external_body]
fn whole_millis(elapsed: &Duration) -> u128 {
    elapsed.as_millis()
}

/// Seconds since the Unix epoch, or zero when the clock is before it.
pub(crate) fn unix_timestamp() -> u64 {
    match since_epoch(now()) {
        Some(elapsed) => whole_seconds(&elapsed),
        None => 0,
    }
}

/// Milliseconds since the Unix epoch, or zero when the clock is before it;
/// the largest `u64` when the count does not fit.
pub(crate) fn unix_millis() -> u64 {
    match since_epoch(now()) {
        Some(elapsed) => {
            let millis = whole_millis(&elapsed);
            if millis > 0xffff_ffff_ffff_ffffu128 {
                u64::MAX
            } else {
                millis as u64
            }
        },
        None => 0,
    }
}

} // verus!
