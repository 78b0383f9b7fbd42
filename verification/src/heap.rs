//! The binary max-heap laid over a slice: two ways to build it, and the
//! sort that takes it apart again.

use crate::heap_model::{
    dominates, extracted, heap_between, heap_but_at, inserted, is_heap, lemma_heap_grown,
    lemma_heap_top_is_greatest, lemma_inserted, lemma_settled, lemma_sift_down_bounded,
    lemma_sift_down_heap, lemma_sift_down_keeps, lemma_sift_up_heap, lemma_sift_up_keeps, parent,
    settled, sift_down, sift_up,
};
use crate::order::{le, total_order};
use crate::sequence::{lemma_swapped_permutation, permutation, sorted};
use vstd::prelude::*;

verus! {

/// A slice that a heap is laid over. The heap owns no elements: it is a
/// way to read the slice, for as long as the slice is borrowed.
pub struct HeapifiedSlice<'a, T: Ord> {
    pub slice: &'a mut [T],
}

impl<'a, T: Ord> View for HeapifiedSlice<'a, T> {
    type V = Seq<T>;

    open spec fn view(&self) -> Seq<T> {
        self.slice@
    }
}

impl<'a, T: 'a + Ord> HeapifiedSlice<'a, T> {
    /// The elements form a max-heap.
    pub open spec fn is_heap(&self) -> bool {
        is_heap(self@)
    }

    /// The index of the parent of node `k`; the top of the heap has none.
    pub fn get_heap_parent(k: usize) -> (p: Option<usize>)
        ensures
            k == 0 ==> p is None,
            k > 0 ==> p == Some(parent(k as int) as usize),
    {
        match k.checked_sub(1) {
            Some(elem) => Some(elem / 2),
            None => None,
        }
    }

    /// Sifts the element at `idx` up: while it is above its parent, the two
    /// change place. Where the elements before `idx` form a heap, those up
    /// to and with `idx` form one afterwards.
    pub fn fix_heap_bottom_to_top(slice: &mut [T], idx: usize)
        requires
            total_order::<T>(),
            idx < old(slice)@.len(),
        ensures
            final(slice)@ == sift_up(old(slice)@, idx as int),
            final(slice)@.len() == old(slice)@.len(),
            permutation(final(slice)@, old(slice)@),
            forall|k: int| idx < k < old(slice)@.len() ==> final(slice)@[k] == old(slice)@[k],
            heap_between(old(slice)@, 0, idx as int) ==> heap_between(final(slice)@, 0, idx + 1),
    {
        proof {
            let s = old(slice)@;
            lemma_sift_up_keeps(s, idx as int);
            if heap_between(s, 0, idx as int) {
                lemma_heap_grown(s, idx as int);
                lemma_sift_up_heap(s, idx + 1, idx as int);
            }
        }
        let ghost start = idx as int;
        let mut idx = idx;
        while idx > 0
            invariant
                total_order::<T>(),
                idx < slice@.len(),
                sift_up(slice@, idx as int) == sift_up(old(slice)@, start),
            ensures
                slice@ == sift_up(old(slice)@, start),
            decreases idx,
        {
            let parent_idx = Self::get_heap_parent(idx).unwrap();
            if slice[parent_idx] < slice[idx] {
                slice.swap(parent_idx, idx);
                idx = parent_idx;
            } else {
                break ;
            }
        }
    }

    /// Sifts the element at `top` down, in the heap that ends before `end`:
    /// while a child is above it, it changes place with its greater child,
    /// with the left one where the two are equal. Where the nodes behind
    /// `top` are not below their children, neither is `top` afterwards.
    pub fn fix_heap_top_to_bottom(slice: &mut [T], top: usize, end: usize)
        requires
            total_order::<T>(),
            end <= old(slice)@.len(),
        ensures
            final(slice)@ == sift_down(old(slice)@, top as int, end as int),
            final(slice)@.len() == old(slice)@.len(),
            permutation(final(slice)@, old(slice)@),
            forall|k: int|
                0 <= k < old(slice)@.len() && (k < top || end <= k) ==> final(slice)@[k] == old(
                    slice,
                )@[k],
            heap_between(old(slice)@, top + 1, end as int) ==> heap_between(
                final(slice)@,
                top as int,
                end as int,
            ),
    {
        proof {
            let s = old(slice)@;
            lemma_sift_down_keeps(s, top as int, end as int);
            if heap_between(s, top + 1, end as int) {
                assert(heap_but_at(s, top as int, end as int, top as int)) by {
                    assert forall|i: int| top <= i < end && i != top implies #[trigger] dominates(
                        s,
                        i,
                        end as int,
                    ) by {
                        assert(dominates(s, i, end as int));
                    }
                }
                lemma_sift_down_heap(s, top as int, top as int, end as int);
            }
        }
        let ghost start = top as int;
        let mut top = top;
        loop
            invariant_except_break
                sift_down(slice@, top as int, end as int) == sift_down(
                    old(slice)@,
                    start,
                    end as int,
                ),
            invariant
                total_order::<T>(),
                end <= slice@.len(),
            ensures
                slice@ == sift_down(old(slice)@, start, end as int),
            decreases end - top,
        {
            if top >= end / 2 {
                // no child lies in the heap
                break ;
            }
            let left = top * 2 + 1;
            let right = left + 1;
            if right < end {
                if slice[left] >= slice[right] && slice[left] > slice[top] {
                    slice.swap(top, left);
                    top = left;
                } else if slice[right] >= slice[left] && slice[right] > slice[top] {
                    slice.swap(top, right);
                    top = right;
                } else {
                    break ;
                }
            } else {
                // only the left child lies in the heap, and it has no child
                if slice[left] > slice[top] {
                    slice.swap(top, left);
                }
                break ;
            }
        }
    }

    /// Builds the heap by insertion: each element from the second on is
    /// sifted up into the heap of those before it.
    pub fn heapify_1(slice: &'a mut [T]) -> (heap: HeapifiedSlice<'a, T>)
        requires
            total_order::<T>(),
        ensures
            heap@ == inserted(old(slice)@, old(slice)@.len() - 1),
            heap.is_heap(),
            heap@.len() == old(slice)@.len(),
            permutation(heap@, old(slice)@),
            final(slice)@ == final(heap.slice)@,
    {
        let n = slice.len();
        let mut idx: usize = 1;
        while idx < n
            invariant
                total_order::<T>(),
                slice@.len() == n,
                old(slice)@.len() == n,
                1 <= idx,
                idx <= n || (n == 0 && idx == 1),
                slice@ == inserted(old(slice)@, idx - 1),
            decreases n - idx,
        {
            Self::fix_heap_bottom_to_top(slice, idx);
            idx += 1;
        }
        proof {
            lemma_inserted(old(slice)@, idx - 1);
        }
        HeapifiedSlice { slice }
    }

    /// Builds the heap from the bottom: each node that has a child is
    /// sifted down, the last of them first.
    pub fn heapify_2(slice: &'a mut [T]) -> (heap: HeapifiedSlice<'a, T>)
        requires
            total_order::<T>(),
        ensures
            heap@ == settled(old(slice)@, 0, old(slice)@.len() as int / 2),
            heap.is_heap(),
            heap@.len() == old(slice)@.len(),
            permutation(heap@, old(slice)@),
            final(slice)@ == final(heap.slice)@,
    {
        let n = slice.len();
        if n > 1 {
            // the last node that has a child
            let parent_of_last = Self::get_heap_parent(n - 1).unwrap();
            let mut idx: usize = parent_of_last + 1;
            while idx > 0
                invariant
                    total_order::<T>(),
                    slice@.len() == n,
                    old(slice)@.len() == n,
                    idx <= n / 2,
                    slice@ == settled(old(slice)@, idx as int, n as int / 2),
                decreases idx,
            {
                idx -= 1;
                Self::fix_heap_top_to_bottom(slice, idx, n);
            }
        }
        proof {
            lemma_settled(old(slice)@, 0, n as int / 2);
        }
        HeapifiedSlice { slice }
    }

    /// Sorts the slice under the heap: the top changes place with the last
    /// element of the heap, the heap gives that place up, and the new top is
    /// sifted down; so on until one element is left in the heap.
    pub fn sort(&mut self)
        requires
            total_order::<T>(),
            old(self).is_heap(),
        ensures
            final(self)@ == extracted(old(self)@, old(self)@.len() as int),
            sorted(final(self)@),
            permutation(final(self)@, old(self)@),
            final(self)@.len() == old(self)@.len(),
            final(final(self).slice)@ == final(old(self).slice)@,
    {
        let n = self.slice.len();
        let mut len = n;
        while len > 1
            invariant
                total_order::<T>(),
                self.slice@.len() == n,
                len <= n,
                extracted(self.slice@, len as int) == extracted(old(self).slice@, n as int),
                final(self.slice)@ == final(old(self).slice)@,
                permutation(self.slice@, old(self).slice@),
                heap_between(self.slice@, 0, len as int),
                forall|i: int, j: int|
                    len <= i < j < n ==> le(#[trigger] self.slice@[i], #[trigger] self.slice@[j]),
                forall|i: int, j: int|
                    0 <= i < len <= j < n ==> le(
                        #[trigger] self.slice@[i],
                        #[trigger] self.slice@[j],
                    ),
            decreases len,
        {
            let ghost heap = self.slice@;
            self.slice.swap(0, len - 1);
            len -= 1;
            let ghost moved = self.slice@;
            Self::fix_heap_top_to_bottom(self.slice, 0, len);
            proof {
                let now = self.slice@;
                lemma_swapped_permutation(heap, 0, len as int);
                assert(heap_between(moved, 1, len as int)) by {
                    assert forall|i: int| 1 <= i < len implies #[trigger] dominates(
                        moved,
                        i,
                        len as int,
                    ) by {
                        assert(dominates(heap, i, len + 1));
                    }
                }
                assert forall|i: int, j: int| 0 <= i < len <= j < n implies le(
                    #[trigger] now[i],
                    #[trigger] now[j],
                ) by {
                    let x = now[j];
                    assert forall|k: int| 0 <= k < len implies le(#[trigger] moved[k], x) by {
                        let from = if k == 0 {
                            len as int
                        } else {
                            k
                        };
                        assert(moved[k] == heap[from]);
                        if j == len {
                            assert(x == heap[0]);
                            lemma_heap_top_is_greatest(heap, len + 1, from);
                        } else {
                            assert(x == heap[j]);
                            assert(le(heap[from], heap[j]));
                        }
                    }
                    lemma_sift_down_bounded(moved, 0, len as int, x);
                }
                assert forall|i: int, j: int| len <= i < j < n implies le(
                    #[trigger] now[i],
                    #[trigger] now[j],
                ) by {
                    assert(now[j] == heap[j]);
                    if i == len {
                        assert(now[i] == heap[0]);
                        assert(le(heap[0], heap[j]));
                    } else {
                        assert(le(heap[i], heap[j]));
                    }
                }
            }
        }
    }
}

/// Heap sort over the heap built by insertion.
pub fn heap1_sort<T: Ord>(slice: &mut [T])
    requires
        total_order::<T>(),
    ensures
        final(slice)@ == extracted(
            inserted(old(slice)@, old(slice)@.len() - 1),
            old(slice)@.len() as int,
        ),
        sorted(final(slice)@),
        permutation(final(slice)@, old(slice)@),
        final(slice)@.len() == old(slice)@.len(),
{
    HeapifiedSlice::heapify_1(slice).sort();
}

/// Heap sort over the heap built from the bottom.
pub fn heap2_sort<T: Ord>(slice: &mut [T])
    requires
        total_order::<T>(),
    ensures
        final(slice)@ == extracted(
            settled(old(slice)@, 0, old(slice)@.len() as int / 2),
            old(slice)@.len() as int,
        ),
        sorted(final(slice)@),
        permutation(final(slice)@, old(slice)@),
        final(slice)@.len() == old(slice)@.len(),
{
    HeapifiedSlice::heapify_2(slice).sort();
}

} // verus!
