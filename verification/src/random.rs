//! Random input, drawn from the generator of the `rand` crate.

use rand::distributions::{Distribution, Uniform};
use rand::rngs::ThreadRng;
use vstd::prelude::*;

verus! {

/// `rand::rngs::ThreadRng`: the generator of the current thread. Nothing is
/// known of its state.
#[verifier::external_type_specification]
#[verifier::external_body]
pub struct ExThreadRng(ThreadRng);

/// `Uniform::new_inclusive(low, high)` and one `sample` of it: a value
/// drawn from the closed range, whichever the generator yields. The
/// constructor panics where `low` is above `high`.
#[verifier::external_body]
pub(crate) fn sample_inclusive(rng: &mut ThreadRng, low: i32, high: i32) -> (value: i32)
    requires
        low <= high,
    ensures
        low <= value <= high,
{
    Uniform::new_inclusive(low, high).sample(rng)
}

/// Overwrites every element of `slice` with a value drawn from the closed
/// range from `low` to `high`.
pub fn fill_random(slice: &mut [i32], rng: &mut ThreadRng, low: i32, high: i32)
    requires
        low <= high,
    ensures
        final(slice)@.len() == old(slice)@.len(),
        forall|i: int| 0 <= i < final(slice)@.len() ==> low <= #[trigger] final(slice)@[i] <= high,
{
    let n = slice.len();
    let mut i: usize = 0;
    while i < n
        invariant
            low <= high,
            slice@.len() == n,
            i <= n,
            forall|k: int| 0 <= k < i ==> low <= #[trigger] slice@[k] <= high,
        decreases n - i,
    {
        slice[i] = sample_inclusive(rng, low, high);
        i += 1;
    }
}

} // verus!
