//! Contracts for the slice methods of the standard library that the sorting
//! routines call.

use crate::sequence::{permutation, sorted, swapped};
use crate::order::total_order;
use vstd::prelude::*;

verus! {

/// `<[T]>::swap`: exchanges the elements at `a` and `b`; the standard
/// library panics where an index is out of bounds.
pub assume_specification<V>[ <[V]>::swap ](slice: &mut [V], a: usize, b: usize)
    requires
        a < old(slice)@.len(),
        b < old(slice)@.len(),
    ensures
        final(slice)@ == swapped(old(slice)@, a as int, b as int),
;

/// `<[T]>::rotate_right`: the last `k` elements move to the front and the
/// others follow them in their order; the standard library panics where `k`
/// exceeds the length.
pub assume_specification<V>[ <[V]>::rotate_right ](slice: &mut [V], k: usize)
    requires
        k <= old(slice)@.len(),
    ensures
        final(slice)@ == old(slice)@.subrange(old(slice)@.len() - k, old(slice)@.len() as int)
            + old(slice)@.subrange(0, old(slice)@.len() - k),
;

/// `<[T]>::copy_from_slice`: overwrites the slice with `src`; the standard
/// library panics where the lengths differ.
pub assume_specification<V: Copy>[ <[V]>::copy_from_slice ](slice: &mut [V], src: &[V])
    requires
        old(slice)@.len() == src@.len(),
    ensures
        final(slice)@ == src@,
;

/// `<[T]>::sort`: puts the slice in non-decreasing order and keeps its
/// elements. The standard library may panic where the order is not total.
pub assume_specification<V: Ord>[ <[V]>::sort ](slice: &mut [V])
    requires
        total_order::<V>(),
    ensures
        sorted(final(slice)@),
        permutation(final(slice)@, old(slice)@),
;

} // verus!
