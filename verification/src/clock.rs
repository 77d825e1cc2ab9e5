//! The boundary to the monotonic clock.
//!
//! Everything here is trusted: the readings depend on the moment of the
//! call, so nothing is promised of them. All timer logic takes the readings
//! as plain nanosecond counts and is verified for every value of them.

use vstd::prelude::*;

verus! {

/// Declares `instant::Instant` (`std::time::Instant` on native targets) so
/// it can stand in fields and signatures; its values stay opaque.
#[verifier::external_type_specification]
#[verifier::external_body]
pub struct ExInstant(instant::Instant);

/// Relies on `instant::Instant::now`: a reading of the monotonic clock.
/// The value is opaque; it only anchors later offset readings.
#[verifier::external_body]
pub(crate) fn monotonic_now() -> instant::Instant {
    instant::Instant::now()
}

/// Relies on `instant::Instant::elapsed` and `Duration::as_nanos`: the
/// nanoseconds the monotonic clock has advanced since `earlier`. The value
/// depends on the moment of the call, so nothing is promised of it.
#[verifier::external_body]
pub(crate) fn nanos_elapsed(earlier: &instant::Instant) -> u128 {
    earlier.elapsed().as_nanos()
}

} // verus!
