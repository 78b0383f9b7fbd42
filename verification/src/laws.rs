//! What holds of the sorting routines taken together.

use crate::heap_model::is_heap;
use crate::order::{antisymmetric, total_order};
use crate::sequence::{lemma_permutation_len, lemma_sorted_unique, permutation, sorted};
use vstd::prelude::*;

verus! {

/// Heap sort agrees with every other sort: what it makes of a max-heap is
/// the sequence that any routine arrives at which puts the same elements in
/// order, where elements that compare equal are equal.
pub proof fn lemma_heap_sort_agrees<T: Ord>(heap: Seq<T>, heap_sorted: Seq<T>, reference: Seq<T>)
    requires
        total_order::<T>(),
        antisymmetric::<T>(),
        is_heap(heap),
        sorted(heap_sorted),
        permutation(heap_sorted, heap),
        sorted(reference),
        permutation(reference, heap),
    ensures
        heap_sorted == reference,
{
    lemma_sorted_unique(heap_sorted, reference);
}

/// Sorting is idempotent: a routine that puts the elements of a sequence in
/// order leaves a sequence that is in order already as it is, where elements
/// that compare equal are equal.
pub proof fn lemma_sorted_input_unchanged<T: Ord>(input: Seq<T>, output: Seq<T>)
    requires
        total_order::<T>(),
        antisymmetric::<T>(),
        sorted(input),
        sorted(output),
        permutation(output, input),
    ensures
        output == input,
{
    lemma_sorted_unique(output, input);
}

/// A sequence of one element or none stays as it is under every
/// rearrangement.
pub proof fn lemma_short_unchanged<T>(input: Seq<T>, output: Seq<T>)
    requires
        input.len() <= 1,
        permutation(output, input),
    ensures
        output == input,
{
    lemma_permutation_len(output, input);
    if input.len() == 1 {
        input.to_multiset_ensures();
        output.to_multiset_ensures();
        assert(input.contains(input[0]));
        assert(input.to_multiset().count(input[0]) > 0);
        assert(output.to_multiset().count(input[0]) > 0);
        assert(output.contains(input[0]));
    }
    assert(output =~= input);
}

} // verus!
