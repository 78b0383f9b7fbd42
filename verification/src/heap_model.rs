//! The binary max-heap read off a sequence: node `i` has its children at
//! `2i + 1` and `2i + 2`, and is not below either of them.

use crate::order::{ge, gt, le, lemma_compare, lemma_le_transitive, lt, total_order};
use crate::sequence::{lemma_swapped_permutation, permutation, swapped};
use vstd::prelude::*;

verus! {

pub open spec fn left_child(i: int) -> int {
    2 * i + 1
}

pub open spec fn right_child(i: int) -> int {
    2 * i + 2
}

/// The parent of node `k`, for `k > 0`; the top has none.
pub open spec fn parent(k: int) -> int {
    (k - 1) / 2
}

/// Node `i` is not below those of its children that lie before `end`.
pub open spec fn dominates<T: Ord>(s: Seq<T>, i: int, end: int) -> bool {
    &&& left_child(i) < end ==> le(s[left_child(i)], s[i])
    &&& right_child(i) < end ==> le(s[right_child(i)], s[i])
}

/// Every node from `from` up to `end` is not below its children before `end`.
pub open spec fn heap_between<T: Ord>(s: Seq<T>, from: int, end: int) -> bool {
    forall|i: int| from <= i < end ==> #[trigger] dominates(s, i, end)
}

/// The whole sequence is a max-heap.
pub open spec fn is_heap<T: Ord>(s: Seq<T>) -> bool {
    heap_between(s, 0, s.len() as int)
}

/// The subtree rooted at `top` is a max-heap.
pub open spec fn heap_below<T: Ord>(s: Seq<T>, top: int) -> bool
    decreases s.len() - top,
{
    if 0 <= top < s.len() {
        &&& dominates(s, top, s.len() as int)
        &&& left_child(top) < s.len() ==> heap_below(s, left_child(top))
        &&& right_child(top) < s.len() ==> heap_below(s, right_child(top))
    } else {
        true
    }
}

/// What sifting the element at `top` down leaves, in the heap that ends
/// before `end`: while a child is above it, it changes place with its
/// greater child, with the left one where the two are equal.
pub open spec fn sift_down<T: Ord>(s: Seq<T>, top: int, end: int) -> Seq<T>
    decreases end - top,
{
    let left = left_child(top);
    let right = right_child(top);
    if top < 0 {
        s
    } else if right < end {
        if ge(s[left], s[right]) && gt(s[left], s[top]) {
            sift_down(swapped(s, top, left), left, end)
        } else if ge(s[right], s[left]) && gt(s[right], s[top]) {
            sift_down(swapped(s, top, right), right, end)
        } else {
            s
        }
    } else if left < end {
        if gt(s[left], s[top]) {
            swapped(s, top, left)
        } else {
            s
        }
    } else {
        s
    }
}

/// What sifting the element at `idx` up leaves: while it is above its
/// parent, the two change place.
pub open spec fn sift_up<T: Ord>(s: Seq<T>, idx: int) -> Seq<T>
    decreases idx,
{
    if idx > 0 && lt(s[parent(idx)], s[idx]) {
        sift_up(swapped(s, parent(idx), idx), parent(idx))
    } else {
        s
    }
}

/// The heap built by insertion: the elements up to index `k` have been
/// sifted up, one after the other.
pub open spec fn inserted<T: Ord>(s: Seq<T>, k: int) -> Seq<T>
    decreases k,
{
    if k <= 0 {
        s
    } else {
        sift_up(inserted(s, k - 1), k)
    }
}

/// The heap built from the bottom: the nodes from `idx` up to `stop` have
/// been sifted down, the last one first.
pub open spec fn settled<T: Ord>(s: Seq<T>, idx: int, stop: int) -> Seq<T>
    decreases stop - idx,
{
    if idx >= stop {
        s
    } else {
        sift_down(settled(s, idx + 1, stop), idx, s.len() as int)
    }
}

/// What heap sort makes of a heap of the first `len` elements: the top
/// changes place with the last of them, the new top is sifted down in the
/// heap of the others, and so on with that heap.
pub open spec fn extracted<T: Ord>(s: Seq<T>, len: int) -> Seq<T>
    decreases len,
{
    if len <= 1 {
        s
    } else {
        extracted(sift_down(swapped(s, 0, len - 1), 0, len - 1), len - 1)
    }
}

/// Sifting down keeps the elements, keeps every place outside the heap
/// below `top`, and keeps every bound on the elements of the heap.
pub proof fn lemma_sift_down_keeps<T: Ord>(s: Seq<T>, top: int, end: int)
    requires
        0 <= top,
        end <= s.len(),
    ensures
        sift_down(s, top, end).len() == s.len(),
        permutation(sift_down(s, top, end), s),
        forall|k: int|
            0 <= k < s.len() && (k < top || end <= k) ==> #[trigger] sift_down(s, top, end)[k]
                == s[k],
    decreases end - top,
{
    let left = left_child(top);
    let right = right_child(top);
    let r = sift_down(s, top, end);
    if right < end {
        if ge(s[left], s[right]) && gt(s[left], s[top]) {
            let m = swapped(s, top, left);
            lemma_swapped_permutation(s, top, left);
            lemma_sift_down_keeps(m, left, end);
            assert(r == sift_down(m, left, end));
            assert forall|k: int| 0 <= k < s.len() && (k < top || end <= k) implies #[trigger] r[k]
                == s[k] by {
                assert(sift_down(m, left, end)[k] == m[k]);
            }
        } else if ge(s[right], s[left]) && gt(s[right], s[top]) {
            let m = swapped(s, top, right);
            lemma_swapped_permutation(s, top, right);
            lemma_sift_down_keeps(m, right, end);
            assert(r == sift_down(m, right, end));
            assert forall|k: int| 0 <= k < s.len() && (k < top || end <= k) implies #[trigger] r[k]
                == s[k] by {
                assert(sift_down(m, right, end)[k] == m[k]);
            }
        }
    } else if left < end {
        if gt(s[left], s[top]) {
            lemma_swapped_permutation(s, top, left);
        }
    }
}

/// What bounds the heap's elements from above before sifting down bounds
/// them after it.
pub proof fn lemma_sift_down_bounded<T: Ord>(s: Seq<T>, top: int, end: int, x: T)
    requires
        0 <= top,
        end <= s.len(),
        forall|k: int| 0 <= k < end ==> le(#[trigger] s[k], x),
    ensures
        forall|k: int| 0 <= k < end ==> le(#[trigger] sift_down(s, top, end)[k], x),
    decreases end - top,
{
    let left = left_child(top);
    let right = right_child(top);
    let r = sift_down(s, top, end);
    if right < end {
        if ge(s[left], s[right]) && gt(s[left], s[top]) {
            let m = swapped(s, top, left);
            assert forall|k: int| 0 <= k < end implies le(#[trigger] m[k], x) by {
                assert(le(s[top], x) && le(s[left], x) && le(s[k], x));
            }
            lemma_sift_down_bounded(m, left, end, x);
            assert(r == sift_down(m, left, end));
            assert forall|k: int| 0 <= k < end implies le(#[trigger] r[k], x) by {
                assert(le(sift_down(m, left, end)[k], x));
            }
        } else if ge(s[right], s[left]) && gt(s[right], s[top]) {
            let m = swapped(s, top, right);
            assert forall|k: int| 0 <= k < end implies le(#[trigger] m[k], x) by {
                assert(le(s[top], x) && le(s[right], x) && le(s[k], x));
            }
            lemma_sift_down_bounded(m, right, end, x);
            assert(r == sift_down(m, right, end));
            assert forall|k: int| 0 <= k < end implies le(#[trigger] r[k], x) by {
                assert(le(sift_down(m, right, end)[k], x));
            }
        }
    } else if left < end {
        if gt(s[left], s[top]) {
            let m = swapped(s, top, left);
            assert forall|k: int| 0 <= k < end implies le(#[trigger] m[k], x) by {
                assert(le(s[top], x) && le(s[left], x) && le(s[k], x));
            }
        }
    }
}

/// Every node from `from` up to `end` but `top` is not below its children,
/// and the children of `top` are not above the parent of `top`, where that
/// parent is one of these nodes.
pub open spec fn heap_but_at<T: Ord>(s: Seq<T>, from: int, end: int, top: int) -> bool {
    &&& forall|i: int| from <= i < end && i != top ==> #[trigger] dominates(s, i, end)
    &&& top > 0 && parent(top) >= from ==> {
        &&& left_child(top) < end ==> le(s[left_child(top)], s[parent(top)])
        &&& right_child(top) < end ==> le(s[right_child(top)], s[parent(top)])
    }
}

/// Sifting down the one node that may be below a child restores the heap.
pub proof fn lemma_sift_down_heap<T: Ord>(s: Seq<T>, from: int, top: int, end: int)
    requires
        total_order::<T>(),
        0 <= from <= top,
        end <= s.len(),
        heap_but_at(s, from, end, top),
    ensures
        heap_between(sift_down(s, top, end), from, end),
    decreases end - top,
{
    let left = left_child(top);
    let right = right_child(top);
    if left < end {
        lemma_compare(s[left], s[top]);
    }
    if right < end {
        lemma_compare(s[left], s[right]);
        lemma_compare(s[right], s[left]);
        lemma_compare(s[right], s[top]);
    }
    let child = if right < end {
        if ge(s[left], s[right]) && gt(s[left], s[top]) {
            left
        } else if ge(s[right], s[left]) && gt(s[right], s[top]) {
            right
        } else {
            top
        }
    } else if left < end && gt(s[left], s[top]) {
        left
    } else {
        top
    };
    if child == top {
        // neither child is above the top
        assert(sift_down(s, top, end) == s);
        if right < end {
            // were one child above the top, the other would be above both
            if le(s[left], s[right]) && le(s[right], s[top]) {
                lemma_le_transitive(s[left], s[right], s[top]);
            }
            if le(s[right], s[left]) && le(s[left], s[top]) {
                lemma_le_transitive(s[right], s[left], s[top]);
            }
        }
        assert(dominates(s, top, end));
    } else {
        let other = if child == left { right } else { left };
        let m = swapped(s, top, child);
        assert(heap_but_at(m, from, end, child)) by {
            assert forall|i: int| from <= i < end && i != child implies #[trigger] dominates(
                m,
                i,
                end,
            ) by {
                if i == top {
                    if other < end {
                        assert(le(s[other], s[child]));
                    }
                } else {
                    assert(dominates(s, i, end));
                    if left_child(i) == top || right_child(i) == top {
                        assert(i == parent(top));
                        assert(dominates(s, child, end));
                    }
                }
            }
            assert(dominates(s, child, end));
            assert(parent(child) == top);
        }
        lemma_sift_down_heap(m, from, child, end);
        if right >= end {
            // the left child has no child before `end`
            lemma_sift_down_keeps(m, child, end);
            assert(sift_down(m, child, end) == m) by {
                assert(left_child(child) >= end);
            }
        }
        assert(sift_down(s, top, end) == sift_down(m, child, end));
    }
}

/// Sifting up keeps the elements, and every place behind `idx`.
pub proof fn lemma_sift_up_keeps<T: Ord>(s: Seq<T>, idx: int)
    requires
        0 <= idx < s.len(),
    ensures
        sift_up(s, idx).len() == s.len(),
        permutation(sift_up(s, idx), s),
        forall|k: int| idx < k < s.len() ==> #[trigger] sift_up(s, idx)[k] == s[k],
    decreases idx,
{
    if idx > 0 && lt(s[parent(idx)], s[idx]) {
        let p = parent(idx);
        let m = swapped(s, p, idx);
        lemma_swapped_permutation(s, p, idx);
        lemma_sift_up_keeps(m, p);
        assert(sift_up(s, idx) == sift_up(m, p));
        assert forall|k: int| idx < k < s.len() implies #[trigger] sift_up(s, idx)[k] == s[k] by {
            assert(sift_up(m, p)[k] == m[k]);
        }
    }
}

/// Node `i` is not below those of its children that lie before `end`,
/// leaving the child `idx` out.
pub open spec fn dominates_but<T: Ord>(s: Seq<T>, i: int, end: int, idx: int) -> bool {
    &&& left_child(i) < end && left_child(i) != idx ==> le(s[left_child(i)], s[i])
    &&& right_child(i) < end && right_child(i) != idx ==> le(s[right_child(i)], s[i])
}

/// Every node before `end` is not below its children, but perhaps the child
/// `idx`; and the children of `idx` are not above the parent of `idx`.
pub open spec fn heap_but_child<T: Ord>(s: Seq<T>, end: int, idx: int) -> bool {
    &&& forall|i: int| 0 <= i < end ==> #[trigger] dominates_but(s, i, end, idx)
    &&& idx > 0 ==> {
        &&& left_child(idx) < end ==> le(s[left_child(idx)], s[parent(idx)])
        &&& right_child(idx) < end ==> le(s[right_child(idx)], s[parent(idx)])
    }
}

/// Sifting up the one node that may be above its parent restores the heap.
pub proof fn lemma_sift_up_heap<T: Ord>(s: Seq<T>, end: int, idx: int)
    requires
        total_order::<T>(),
        0 <= idx < end <= s.len(),
        heap_but_child(s, end, idx),
    ensures
        heap_between(sift_up(s, idx), 0, end),
    decreases idx,
{
    if idx > 0 && lt(s[parent(idx)], s[idx]) {
        let p = parent(idx);
        lemma_compare(s[p], s[idx]);
        let m = swapped(s, p, idx);
        let sibling = if left_child(p) == idx {
            right_child(p)
        } else {
            left_child(p)
        };
        assert(dominates_but(s, p, end, idx));
        assert(dominates_but(s, idx, end, idx));
        if sibling < end {
            assert(le(s[sibling], s[p]));
            lemma_le_transitive(s[sibling], s[p], s[idx]);
        }
        if p > 0 {
            let pp = parent(p);
            assert(dominates_but(s, pp, end, idx));
            assert(left_child(pp) == p || right_child(pp) == p);
            assert(le(s[p], s[pp]));
            if sibling < end {
                lemma_le_transitive(s[sibling], s[p], s[pp]);
            }
        }
        assert forall|i: int| 0 <= i < end implies #[trigger] dominates_but(m, i, end, p) by {
            assert(dominates_but(s, i, end, idx));
        }
        assert(heap_but_child(m, end, p));
        lemma_sift_up_heap(m, end, p);
    } else {
        if idx > 0 {
            lemma_compare(s[parent(idx)], s[idx]);
        }
        assert forall|i: int| 0 <= i < end implies #[trigger] dominates(s, i, end) by {
            assert(dominates_but(s, i, end, idx));
            if left_child(i) == idx || right_child(i) == idx {
                assert(i == parent(idx));
            }
        }
    }
}

/// No element of a heap is above its top.
pub proof fn lemma_heap_top_is_greatest<T: Ord>(s: Seq<T>, end: int, k: int)
    requires
        total_order::<T>(),
        0 <= k < end <= s.len(),
        heap_between(s, 0, end),
    ensures
        le(s[k], s[0]),
    decreases k,
{
    if k == 0 {
        lemma_compare(s[0], s[0]);
    } else {
        let p = parent(k);
        assert(dominates(s, p, end));
        assert(left_child(p) == k || right_child(p) == k);
        lemma_heap_top_is_greatest(s, end, p);
        lemma_le_transitive(s[k], s[p], s[0]);
    }
}

/// A heap of the first `k` elements, with the next one, is a heap but for
/// that one.
pub proof fn lemma_heap_grown<T: Ord>(s: Seq<T>, k: int)
    requires
        0 <= k < s.len(),
        heap_between(s, 0, k),
    ensures
        heap_but_child(s, k + 1, k),
{
    assert forall|i: int| 0 <= i < k + 1 implies #[trigger] dominates_but(s, i, k + 1, k) by {
        if i < k {
            assert(dominates(s, i, k));
        }
    }
}

/// Insertion builds a heap of the first `k + 1` elements, out of these
/// elements, and leaves the others in place.
pub proof fn lemma_inserted<T: Ord>(s: Seq<T>, k: int)
    requires
        total_order::<T>(),
        0 <= k < s.len() || (k == 0 && s.len() == 0),
    ensures
        inserted(s, k).len() == s.len(),
        permutation(inserted(s, k), s),
        heap_between(inserted(s, k), 0, k + 1),
        forall|j: int| k < j < s.len() ==> #[trigger] inserted(s, k)[j] == s[j],
    decreases k,
{
    if k > 0 {
        let before = inserted(s, k - 1);
        lemma_inserted(s, k - 1);
        lemma_sift_up_keeps(before, k);
        lemma_heap_grown(before, k);
        lemma_sift_up_heap(before, k + 1, k);
        assert forall|j: int| k < j < s.len() implies #[trigger] inserted(s, k)[j] == s[j] by {
            assert(sift_up(before, k)[j] == before[j]);
        }
    } else {
        assert forall|i: int| 0 <= i < 1 implies #[trigger] dominates(s, i, 1) by {}
    }
}

/// Sifting down the nodes from `idx` up to `stop`, the last one first, makes
/// a heap of what lies behind `idx`, where no node behind `stop` has a child.
pub proof fn lemma_settled<T: Ord>(s: Seq<T>, idx: int, stop: int)
    requires
        total_order::<T>(),
        0 <= idx <= stop,
        s.len() <= 2 * stop + 1,
    ensures
        settled(s, idx, stop).len() == s.len(),
        permutation(settled(s, idx, stop), s),
        heap_between(settled(s, idx, stop), idx, s.len() as int),
    decreases stop - idx,
{
    let n = s.len() as int;
    if idx >= stop {
        assert forall|i: int| idx <= i < n implies #[trigger] dominates(s, i, n) by {}
    } else {
        let t = settled(s, idx + 1, stop);
        lemma_settled(s, idx + 1, stop);
        lemma_sift_down_keeps(t, idx, n);
        assert(heap_but_at(t, idx, n, idx)) by {
            assert forall|i: int| idx <= i < n && i != idx implies #[trigger] dominates(t, i, n) by {
                assert(dominates(t, i, n));
            }
        }
        lemma_sift_down_heap(t, idx, idx, n);
    }
}

} // verus!
