use std::time::{Duration, Instant};
use vstd::prelude::*;

verus! {

/// The monotonic clock's instants, opaque here.
#[verifier::external_type_specification]
#[verifier::external_body]
pub struct ExInstant(Instant);

/// Relies on std's `Instant::now`: the current instant. Nothing is promised
/// of its value.
#[verifier::external_body]
pub(crate) fn clock_now() -> Instant {
    Instant::now()
}

/// Relies on std's `Instant::elapsed`: the time passed since `start`.
/// Nothing is promised of its value.
#[verifier::external_body]
pub(crate) fn elapsed_since(start: &Instant) -> Duration {
    start.elapsed()
}

/// Relies on std's `Duration` ordering: whether `a` is shorter than `b`.
#[verifier::external_body]
pub(crate) fn shorter_than(a: &Duration, b: &Duration) -> bool {
    *a < *b
}

} // verus!
