//! What the verified code is told of the clock in `std::time`.
//!
//! The library keeps time as whole nanoseconds; only the reading of the
//! clock passes through the types of `std::time`.

use std::time::{Duration, Instant};
use vstd::prelude::*;

verus! {

#[verifier::external_type_specification]
#[verifier::external_body]
pub struct ExInstant(Instant);

/// `Instant::now` reads the monotonic clock. Nothing is claimed of the
/// reading.
pub assume_specification[ Instant::now ]() -> (now: Instant)
;

/// `Instant::elapsed` returns the time that has passed since the instant
/// was taken. Nothing is claimed of the result.
pub assume_specification[ Instant::elapsed ](earlier: &Instant) -> (gap: Duration)
;

/// `Duration::as_nanos` returns the length of the duration in whole
/// nanoseconds. Nothing is claimed of the result.
pub assume_specification[ Duration::as_nanos ](d: &Duration) -> (nanos: u128)
;

} // verus!
