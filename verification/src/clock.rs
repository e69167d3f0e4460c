//! The wall clock, read as nanoseconds since the Unix epoch.

use std::time::{Duration, SystemTime, SystemTimeError, UNIX_EPOCH};
use vstd::prelude::*;

verus! {

/// `std::time::SystemTime`, carried through as an opaque value.
#[verifier::external_type_specification]
#[verifier::external_body]
pub struct ExSystemTime(std::time::SystemTime);

/// `std::time::SystemTimeError`, carried through as an opaque value.
#[verifier::external_type_specification]
#[verifier::external_body]
pub struct ExSystemTimeError(std::time::SystemTimeError);

/// `SystemTime::now` reads the wall clock. Nothing is claimed of the reading:
/// two calls may differ in either direction.
pub assume_specification[ SystemTime::now ]() -> (reading: SystemTime)
;

/// `SystemTime::duration_since` returns the time elapsed from `earlier` to
/// `t`, or an error where `t` stands before `earlier`. Nothing is claimed of
/// either.
pub assume_specification[ SystemTime::duration_since ](t: &SystemTime, earlier: SystemTime) -> (elapsed:
    Result<Duration, SystemTimeError>)
;

/// `Duration::as_nanos` returns the whole duration in nanoseconds. Nothing is
/// claimed of the number.
pub assume_specification[ Duration::as_nanos ](d: &Duration) -> (nanos: u128)
;

/// The constant `std::time::UNIX_EPOCH`.
#[verifier::external_body]
fn unix_epoch() -> (epoch: SystemTime) {
    UNIX_EPOCH
}

/// The instant that a clock reading stands for: a clock that stands before the
/// epoch reads as the epoch itself.
pub open spec fn instant_of(reading: Option<u128>) -> u128 {
    match reading {
        Some(nanos) => nanos,
        None => 0,
    }
}

/// Turns a clock reading, in nanoseconds since the epoch and `None` before
/// it, into an instant on the library's timeline.
pub fn instant_from_reading(reading: Option<u128>) -> (now: u128)
    ensures
        now == instant_of(reading),
{
    match reading {
        Some(nanos) => nanos,
        None => 0,
    }
}

/// Samples the wall clock. The result depends on when the call is made, so
/// nothing is promised of it.
pub fn current_time() -> (now: u128) {
    let reading = match SystemTime::now().duration_since(unix_epoch()) {
        Ok(elapsed) => Some(elapsed.as_nanos()),
        Err(_) => None,
    };
    instant_from_reading(reading)
}

} // verus!
