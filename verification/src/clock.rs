//! A monotonic clock, read through the standard library.
//!
//! A clock reading depends on the machine and the moment, so nothing is
//! assumed of the values: the callers' contracts hold for every outcome.

use vstd::prelude::*;

verus! {

#[verifier::external_type_specification]
#[verifier::external_body]
pub struct ExInstant(std::time::Instant);

/// Relies on `std::time::Instant::now`: an opaque reading of the monotonic
/// clock; nothing is assumed of it.
#[verifier::external_body]
pub(crate) fn now_instant() -> std::time::Instant {
    std::time::Instant::now()
}

/// Relies on `std::time::Instant::elapsed`: the time since `start`, as an
/// opaque duration; nothing is assumed of it.
#[verifier::external_body]
pub(crate) fn elapsed_since(start: &std::time::Instant) -> std::time::Duration {
    start.elapsed()
}

/// Relies on `std::time::Duration::as_micros`: the duration in whole
/// microseconds; nothing is assumed of the value.
#[verifier::external_body]
pub(crate) fn micros_of(d: &std::time::Duration) -> u128 {
    d.as_micros()
}

} // verus!
