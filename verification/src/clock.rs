//! The monotonic clock that bounds one retrieval.
use std::time::{Duration, Instant};
use vstd::prelude::*;

verus! {

#[verifier::external_type_specification]
#[verifier::external_body]
pub struct ExInstant(Instant);

/// `Instant::elapsed`: the time since `start`. What it returns depends on when
/// it is called, so nothing is stated of it.
#[verifier::external_body]
pub(crate) fn elapsed_since(start: &Instant) -> Duration {
    start.elapsed()
}

/// `Duration::as_millis`: the whole milliseconds of `d`. A `Duration` is opaque
/// here, so nothing is stated of the result.
#[verifier::external_body]
pub(crate) fn whole_millis(d: &Duration) -> u128 {
    d.as_millis()
}

} // verus!
