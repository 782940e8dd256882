use std::time::Instant;
use vstd::prelude::*;

verus! {

/// A point in time of the machine's monotonic clock.
#[verifier::external_type_specification]
#[verifier::external_body]
pub struct ExInstant(Instant);

/// `std::time::Instant::now`: the current time. Nothing is claimed of the value.
#[verifier::external_body]
pub(crate) fn now() -> (res: Instant) {
    Instant::now()
}

/// `std::time::Instant::elapsed`, in nanoseconds: the time that passed since `t0`. It
/// depends on the clock, so nothing is claimed of the value.
#[verifier::external_body]
pub(crate) fn elapsed_nanos(t0: &Instant) -> (res: u128) {
    t0.elapsed().as_nanos()
}

} // verus!
