//! Selection sort.

use crate::order::{le, lemma_compare, lemma_le_transitive, lt, total_order};
use crate::sequence::{
    lemma_permutation_len, lemma_swapped_permutation, permutation, sorted, swapped,
};
use vstd::prelude::*;

verus! {

/// The index of the greatest of the first `end` elements, and of the first
/// of them where several are greatest.
pub open spec fn max_index<T: Ord>(s: Seq<T>, end: int) -> int
    decreases end,
{
    if end <= 1 {
        0
    } else if lt(s[max_index(s, end - 1)], s[end - 1]) {
        end - 1
    } else {
        max_index(s, end - 1)
    }
}

/// What selection sort makes of a sequence whose first `last` elements are
/// still to be sorted: their greatest changes place with the last of them,
/// and so on with one element less.
pub open spec fn selection_sorted<T: Ord>(s: Seq<T>, last: int) -> Seq<T>
    decreases last,
{
    if last < 1 {
        s
    } else {
        selection_sorted(swapped(s, max_index(s, last), last - 1), last - 1)
    }
}

/// Sorts `slice` in place: for each position from the last down, the
/// greatest element of the unsorted prefix is found by a linear scan and
/// exchanged with the prefix's last element.
pub fn selection_sort<T: Ord>(slice: &mut [T])
    requires
        total_order::<T>(),
    ensures
        final(slice)@ == selection_sorted(old(slice)@, old(slice)@.len() as int),
        sorted(final(slice)@),
        permutation(final(slice)@, old(slice)@),
        final(slice)@.len() == old(slice)@.len(),
{
    let n = slice.len();
    let mut last_idx: usize = n;
    while last_idx >= 1
        invariant
            total_order::<T>(),
            slice@.len() == n,
            last_idx <= n,
            selection_sorted(slice@, last_idx as int) == selection_sorted(old(slice)@, n as int),
            permutation(slice@, old(slice)@),
            // the suffix is in order, and nothing before it is above it
            forall|i: int, j: int|
                last_idx <= i < j < n ==> le(#[trigger] slice@[i], #[trigger] slice@[j]),
            forall|i: int, j: int|
                0 <= i < last_idx <= j < n ==> le(#[trigger] slice@[i], #[trigger] slice@[j]),
        decreases last_idx,
    {
        let mut max_idx: usize = 0;
        let mut i: usize = 1;
        proof {
            lemma_compare(slice@[0], slice@[0]);
        }
        while i < last_idx
            invariant
                total_order::<T>(),
                slice@.len() == n,
                1 <= i <= last_idx <= n,
                max_idx < i,
                max_idx == max_index(slice@, i as int),
                forall|k: int| 0 <= k < i ==> le(#[trigger] slice@[k], slice@[max_idx as int]),
            decreases last_idx - i,
        {
            proof {
                lemma_compare(slice@[max_idx as int], slice@[i as int]);
            }
            if slice[max_idx] < slice[i] {
                proof {
                    assert forall|k: int| 0 <= k < i + 1 implies le(
                        #[trigger] slice@[k],
                        slice@[i as int],
                    ) by {
                        if k < i {
                            lemma_le_transitive(slice@[k], slice@[max_idx as int], slice@[i as int]);
                        } else {
                            lemma_compare(slice@[i as int], slice@[i as int]);
                        }
                    }
                }
                max_idx = i;
            }
            i += 1;
        }
        let ghost before = slice@;
        slice.swap(max_idx, last_idx - 1);
        proof {
            lemma_swapped_permutation(before, max_idx as int, last_idx - 1);
            assert forall|a: int, b: int| last_idx - 1 <= a < b < n implies le(
                #[trigger] slice@[a],
                #[trigger] slice@[b],
            ) by {
                if a == last_idx - 1 {
                    assert(le(before[max_idx as int], before[b]));
                } else {
                    assert(le(before[a], before[b]));
                }
            }
            assert forall|a: int, b: int| 0 <= a < last_idx - 1 <= b < n implies le(
                #[trigger] slice@[a],
                #[trigger] slice@[b],
            ) by {
                let x = if a == max_idx { last_idx - 1 } else { a };
                assert(slice@[a] == before[x]);
                if b == last_idx - 1 {
                    assert(le(before[x], before[max_idx as int]));
                } else {
                    assert(le(before[x], before[b]));
                }
            }
        }
        last_idx -= 1;
    }
    proof {
        lemma_permutation_len(slice@, old(slice)@);
    }
}

} // verus!
