//! Reading the wall clock. The readings depend on the machine and the
//! moment, so nothing is promised of them.

use std::time::{Duration, SystemTime, SystemTimeError};
use vstd::prelude::*;

verus! {

#[verifier::external_type_specification]
#[verifier::external_body]
pub struct ExSystemTime(SystemTime);

#[verifier::external_type_specification]
#[verifier::external_body]
pub struct ExSystemTimeError(SystemTimeError);

/// `SystemTime::now`: the current time. No property of it is stated.
#[verifier::external_body]
pub(crate) fn now() -> SystemTime {
    SystemTime::now()
}

/// `SystemTime::elapsed`: the time since `t`, or an error where the clock
/// has gone back before `t`. No property of it is stated.
#[verifier::external_body]
pub(crate) fn elapsed(t: &SystemTime) -> Result<Duration, SystemTimeError> {
    t.elapsed()
}

/// `Duration::as_millis`: the whole milliseconds of `d`. `Duration` is
/// opaque here, so nothing ties the result to `d`.
#[verifier::external_body]
pub(crate) fn as_millis(d: &Duration) -> u128 {
    d.as_millis()
}

/// The whole milliseconds since `t`, or `None` where the clock has gone
/// back before `t`.
pub(crate) fn millis_since(t: &SystemTime) -> Option<u128> {
    match elapsed(t) {
        Ok(d) => Some(as_millis(&d)),
        Err(_) => None,
    }
}

} // verus!
