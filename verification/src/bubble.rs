//! Bubble sort.

use crate::order::{le, lemma_compare, lemma_le_transitive, total_order};
use crate::order::gt;
use crate::sequence::{lemma_swapped_permutation, permutation, sorted, swapped};
use vstd::prelude::*;

verus! {

/// The element at `k` is not above the one behind it.
pub open spec fn in_step<T: Ord>(s: Seq<T>, k: int) -> bool {
    le(s[k], s[k + 1])
}

/// A stretch in which no element is above the one behind it is in order.
pub proof fn lemma_steps_sorted<T: Ord>(s: Seq<T>, end: int, i: int, j: int)
    requires
        total_order::<T>(),
        end <= s.len(),
        forall|k: int| 0 <= k < end - 1 ==> #[trigger] in_step(s, k),
        0 <= i < j < end,
    ensures
        le(s[i], s[j]),
    decreases j - i,
{
    assert(in_step(s, j - 1));
    if i < j - 1 {
        lemma_steps_sorted(s, end, i, j - 1);
        lemma_le_transitive(s[i], s[j - 1], s[j]);
    }
}

/// What the rest of a pass over the first `end` elements leaves, from `j`
/// on: neighbours that are out of order change place, one pair after the
/// other.
pub open spec fn pass<T: Ord>(s: Seq<T>, j: int, end: int) -> Seq<T>
    decreases end - j,
{
    if j + 1 >= end {
        s
    } else if gt(s[j], s[j + 1]) {
        pass(swapped(s, j, j + 1), j + 1, end)
    } else {
        pass(s, j + 1, end)
    }
}

/// Whether the rest of a pass over the first `end` elements, from `j` on,
/// finds neighbours out of order.
pub open spec fn pass_exchanges<T: Ord>(s: Seq<T>, j: int, end: int) -> bool
    decreases end - j,
{
    if j + 1 >= end {
        false
    } else if gt(s[j], s[j + 1]) {
        true
    } else {
        pass_exchanges(s, j + 1, end)
    }
}

/// What bubble sort makes of a sequence whose first `end` elements are
/// still to be sorted: passes over them, each over one element less, up to
/// and with the first that exchanges nothing.
pub open spec fn bubble_sorted<T: Ord>(s: Seq<T>, end: int) -> Seq<T>
    decreases end,
{
    if end <= 0 || !pass_exchanges(s, 0, end) {
        s
    } else {
        bubble_sorted(pass(s, 0, end), end - 1)
    }
}

/// The number of passes that bubble sort makes over a sequence whose first
/// `end` elements are still to be sorted.
pub open spec fn bubble_passes<T: Ord>(s: Seq<T>, end: int) -> nat
    decreases end,
{
    if end <= 0 {
        0
    } else if !pass_exchanges(s, 0, end) {
        1
    } else {
        1 + bubble_passes(pass(s, 0, end), end - 1)
    }
}

/// Sorts `slice` in place by passes over the unsorted front: each pass
/// exchanges the neighbours that are out of order, which leaves the front's
/// greatest element at its end, and the front is one shorter for the next
/// pass. A pass that exchanges nothing is the last. Returns the number of
/// passes made: on input that is in order already, the one pass that finds
/// it so.
pub fn bubble_sort_counting<T: Ord>(slice: &mut [T]) -> (passes: usize)
    requires
        total_order::<T>(),
    ensures
        final(slice)@ == bubble_sorted(old(slice)@, old(slice)@.len() as int),
        passes == bubble_passes(old(slice)@, old(slice)@.len() as int),
        sorted(final(slice)@),
        permutation(final(slice)@, old(slice)@),
        final(slice)@.len() == old(slice)@.len(),
        1 <= passes <= old(slice)@.len() || (passes == 0 && old(slice)@.len() == 0),
        sorted(old(slice)@) ==> final(slice)@ == old(slice)@,
        sorted(old(slice)@) && old(slice)@.len() > 0 ==> passes == 1,
{
    let n = slice.len();
    let mut passes: usize = 0;
    let mut i: usize = 0;
    while i < n
        invariant_except_break
            passes == i,
            bubble_sorted(slice@, n - i) == bubble_sorted(old(slice)@, n as int),
            i + bubble_passes(slice@, n - i) == bubble_passes(old(slice)@, n as int),
        invariant
            total_order::<T>(),
            slice@.len() == n,
            old(slice)@.len() == n,
            i <= n,
            permutation(slice@, old(slice)@),
            i == 0 ==> slice@ == old(slice)@,
            i > 0 ==> !sorted(old(slice)@),
            forall|a: int, b: int|
                n - i <= a < b < n ==> le(#[trigger] slice@[a], #[trigger] slice@[b]),
            forall|a: int, b: int|
                0 <= a < n - i <= b < n ==> le(#[trigger] slice@[a], #[trigger] slice@[b]),
        ensures
            slice@ == bubble_sorted(old(slice)@, n as int),
            passes == bubble_passes(old(slice)@, n as int),
            sorted(slice@),
            1 <= passes <= n || (n == 0 && passes == 0),
            sorted(old(slice)@) ==> slice@ == old(slice)@ && passes <= 1,
        decreases n - i,
    {
        let ghost start = slice@;
        let mut swapped: bool = false;
        let mut j: usize = 0;
        proof {
            lemma_compare(slice@[0], slice@[0]);
        }
        while j < n - i - 1
            invariant
                total_order::<T>(),
                slice@.len() == n,
                i < n,
                j <= n - i - 1,
                permutation(slice@, start),
                pass(slice@, j as int, n - i) == pass(start, 0, n - i),
                pass_exchanges(start, 0, n - i) == (swapped || pass_exchanges(
                    slice@,
                    j as int,
                    n - i,
                )),
                !swapped ==> slice@ == start,
                sorted(start) ==> !swapped,
                !swapped ==> forall|k: int| 0 <= k < j ==> #[trigger] in_step(slice@, k),
                forall|k: int| 0 <= k <= j ==> le(#[trigger] slice@[k], slice@[j as int]),
                forall|a: int, b: int|
                    n - i <= a < b < n ==> le(#[trigger] slice@[a], #[trigger] slice@[b]),
                forall|a: int, b: int|
                    0 <= a < n - i <= b < n ==> le(#[trigger] slice@[a], #[trigger] slice@[b]),
            decreases n - i - 1 - j,
        {
            let ghost before = slice@;
            proof {
                lemma_compare(before[j as int], before[j + 1]);
                lemma_compare(before[j + 1], before[j + 1]);
            }
            if slice[j] > slice[j + 1] {
                slice.swap(j, j + 1);
                swapped = true;
                proof {
                    lemma_swapped_permutation(before, j as int, j + 1);
                    if sorted(start) {
                        assert(le(start[j as int], start[j + 1]));
                    }
                    assert forall|k: int| 0 <= k <= j + 1 implies le(
                        #[trigger] slice@[k],
                        slice@[j + 1],
                    ) by {
                        if k < j {
                            assert(le(before[k], before[j as int]));
                        } else if k == j {
                            assert(le(before[j + 1], before[j as int]));
                        } else {
                            lemma_compare(before[j as int], before[j as int]);
                        }
                    }
                    assert forall|a: int, b: int| 0 <= a < n - i <= b < n implies le(
                        #[trigger] slice@[a],
                        #[trigger] slice@[b],
                    ) by {
                        let from = if a == j {
                            j + 1
                        } else if a == j + 1 {
                            j as int
                        } else {
                            a
                        };
                        assert(le(before[from], before[b]));
                    }
                    assert forall|a: int, b: int| n - i <= a < b < n implies le(
                        #[trigger] slice@[a],
                        #[trigger] slice@[b],
                    ) by {
                        assert(le(before[a], before[b]));
                    }
                }
            } else {
                proof {
                    assert(in_step(before, j as int));
                    assert forall|k: int| 0 <= k <= j + 1 implies le(
                        #[trigger] slice@[k],
                        slice@[j + 1],
                    ) by {
                        if k <= j {
                            assert(le(before[k], before[j as int]));
                            lemma_le_transitive(before[k], before[j as int], before[j + 1]);
                        }
                    }
                }
            }
            j += 1;
        }
        proof {
            // the front's greatest element now closes it
            assert forall|a: int, b: int| n - i - 1 <= a < b < n implies le(
                #[trigger] slice@[a],
                #[trigger] slice@[b],
            ) by {}
            assert forall|a: int, b: int| 0 <= a < n - i - 1 <= b < n implies le(
                #[trigger] slice@[a],
                #[trigger] slice@[b],
            ) by {}
        }
        if !swapped {
            proof {
                assert forall|a: int, b: int| 0 <= a < b < n implies le(
                    #[trigger] slice@[a],
                    #[trigger] slice@[b],
                ) by {
                    if b < n - i {
                        lemma_steps_sorted(slice@, n - i, a, b);
                    }
                }
            }
            passes = i + 1;
            break ;
        }
        i += 1;
        passes = i;
    }
    passes
}

/// Sorts `slice` in place by bubble sort; see [`bubble_sort_counting`].
pub fn bubble_sort<T: Ord>(slice: &mut [T])
    requires
        total_order::<T>(),
    ensures
        final(slice)@ == bubble_sorted(old(slice)@, old(slice)@.len() as int),
        sorted(final(slice)@),
        permutation(final(slice)@, old(slice)@),
        final(slice)@.len() == old(slice)@.len(),
        sorted(old(slice)@) ==> final(slice)@ == old(slice)@,
{
    let _ = bubble_sort_counting(slice);
}

} // verus!
