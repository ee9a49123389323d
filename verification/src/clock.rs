//! Monotonic clock readings.

use std::time::{Duration, Instant};
use vstd::prelude::*;

verus! {

/// A point in time on the monotonic clock.
#[verifier::external_type_specification]
#[verifier::external_body]
pub struct ExInstant(Instant);

/// `Instant::now`: the current reading of the monotonic clock. Nothing is
/// claimed of its value.
#[verifier::external_body]
pub(crate) fn instant_now() -> Instant {
    Instant::now()
}

/// `Instant::elapsed`: the time passed since `start`. Nothing is claimed of
/// its value.
#[verifier::external_body]
pub(crate) fn elapsed_since(start: &Instant) -> Duration {
    start.elapsed()
}

/// `Duration::as_nanos`: the whole nanoseconds in `d`. Nothing is claimed of
/// its value.
#[verifier::external_body]
pub(crate) fn duration_nanos(d: &Duration) -> u128 {
    d.as_nanos()
}

} // verus!
