//! Contracts for the clock of the standard library.

use crate::sizes::MAX_SAMPLE_NANOS;
use std::time::{Duration, Instant};
use vstd::prelude::*;

verus! {

/// `std::time::Instant`: a reading of the monotonic clock. Nothing is known
/// of what one holds.
#[verifier::external_type_specification]
#[verifier::external_body]
pub struct ExInstant(Instant);

/// `Instant::now`: reads the clock. Nothing is claimed of the reading.
pub assume_specification[ Instant::now ]() -> (now: Instant)
;

/// `Instant::duration_since`: the time from `earlier` to `later`, or no time
/// where `earlier` is the later one. Nothing is claimed of the span.
pub assume_specification[ Instant::duration_since ](later: &Instant, earlier: Instant) -> (span:
    Duration)
;

/// `Duration::as_nanos`: the span in nanoseconds. A span holds whole seconds
/// in a `u64` and less than a second of nanoseconds beside them, which
/// bounds the result.
pub assume_specification[ Duration::as_nanos ](span: &Duration) -> (nanos: u128)
    ensures
        nanos <= MAX_SAMPLE_NANOS,
;

} // verus!
