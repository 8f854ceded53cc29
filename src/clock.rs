use std::time::Instant;

use vstd::prelude::*;

verus! {

#[verifier::external_type_specification]
#[verifier::external_body]
pub struct ExInstant(Instant);

/// Relies on std's `Instant::now`: a reading of the monotonic clock. Nothing is promised
/// of its value.
#[verifier::external_body]
pub(crate) fn instant_now() -> (r: Instant) {
    Instant::now()
}

/// Relies on std's `Instant::elapsed`: the time since `start` on the monotonic clock, in
/// microseconds, the largest `u64` where they do not fit. `start` comes from
/// `instant_now`, and std guarantees that a later reading is never earlier, so `elapsed`
/// (which saturates at zero in that case) does not panic. Nothing is promised of the value.
#[verifier::external_body]
pub(crate) fn micros_since(start: &Instant) -> (r: u64) {
    u64::try_from(start.elapsed().as_micros()).unwrap_or(u64::MAX)
}

} // verus!
