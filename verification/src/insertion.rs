//! Insertion sort.

use crate::order::{le, lemma_compare, lemma_le_transitive, lt, total_order};
use crate::sequence::{permutation, sorted};
use vstd::prelude::*;
use vstd::seq_lib::lemma_multiset_commutative;

verus! {

/// `s` with the element at `to` taken out and put in again at `from`, the
/// elements between moving one place back.
pub open spec fn moved_forward<T>(s: Seq<T>, from: int, to: int) -> Seq<T> {
    s.subrange(0, from) + seq![s[to]] + s.subrange(from, to) + s.subrange(to + 1, s.len() as int)
}

/// Where `x` goes into `s`: behind the last element that it is not below.
pub open spec fn insertion_point<T: Ord>(s: Seq<T>, x: T) -> int
    decreases s.len(),
{
    if s.len() > 0 && lt(x, s.last()) {
        insertion_point(s.drop_last(), x)
    } else {
        s.len() as int
    }
}

/// What insertion sort makes of a sequence: its last element is put into
/// what insertion sort makes of the others.
pub open spec fn insertion_sorted<T: Ord>(s: Seq<T>) -> Seq<T>
    decreases s.len(),
{
    if s.len() == 0 {
        s
    } else {
        let front = insertion_sorted(s.drop_last());
        front.insert(insertion_point(front, s.last()), s.last())
    }
}

/// Insertion sort keeps the length.
pub proof fn lemma_insertion_sorted_len<T: Ord>(s: Seq<T>)
    ensures
        insertion_sorted(s).len() == s.len(),
    decreases s.len(),
{
    if s.len() > 0 {
        lemma_insertion_sorted_len(s.drop_last());
        lemma_insertion_point_within(insertion_sorted(s.drop_last()), s.last());
    }
}

/// The place where an element goes lies within the sequence or at its end.
pub proof fn lemma_insertion_point_within<T: Ord>(s: Seq<T>, x: T)
    ensures
        0 <= insertion_point(s, x) <= s.len(),
    decreases s.len(),
{
    if s.len() > 0 && lt(x, s.last()) {
        lemma_insertion_point_within(s.drop_last(), x);
    }
}

/// Moving an element forward keeps the elements.
pub proof fn lemma_moved_forward_permutation<T>(s: Seq<T>, from: int, to: int)
    requires
        0 <= from <= to < s.len(),
    ensures
        moved_forward(s, from, to).len() == s.len(),
        permutation(moved_forward(s, from, to), s),
{
    broadcast use vstd::multiset::group_multiset_axioms;

    let head = s.subrange(0, from);
    let one = seq![s[to]];
    let gap = s.subrange(from, to);
    let rest = s.subrange(to + 1, s.len() as int);
    lemma_multiset_commutative(head, one);
    lemma_multiset_commutative(head + one, gap);
    lemma_multiset_commutative(head + one + gap, rest);
    lemma_multiset_commutative(head, gap);
    lemma_multiset_commutative(head + gap, one);
    lemma_multiset_commutative(head + gap + one, rest);
    assert(head + gap + one + rest =~= s);
    assert(moved_forward(s, from, to).to_multiset() =~= s.to_multiset());
}

/// Sorts `slice` in place: each element from the second on is put into the
/// sorted stretch before it, behind the last element there that is not above
/// it; the elements that are above it move one place back in one rotation.
pub fn insertion_sort<T: Ord>(slice: &mut [T])
    requires
        total_order::<T>(),
    ensures
        final(slice)@ == insertion_sorted(old(slice)@),
        sorted(final(slice)@),
        permutation(final(slice)@, old(slice)@),
        final(slice)@.len() == old(slice)@.len(),
{
    let n = slice.len();
    let mut i: usize = 1;
    proof {
        let first = old(slice)@.take(1);
        if n > 0 {
            assert(first.drop_last() =~= Seq::<T>::empty());
            assert(insertion_sorted(first.drop_last()) =~= Seq::<T>::empty());
            assert(insertion_sorted(first) =~= first);
            assert(first + old(slice)@.skip(1) =~= old(slice)@);
        } else {
            assert(insertion_sorted(old(slice)@) =~= old(slice)@);
        }
    }
    while i < n
        invariant
            total_order::<T>(),
            slice@.len() == n,
            old(slice)@.len() == n,
            1 <= i,
            i <= n || n == 0,
            n > 0 ==> slice@ == insertion_sorted(old(slice)@.take(i as int)) + old(slice)@.skip(
                i as int,
            ),
            n == 0 ==> slice@ == insertion_sorted(old(slice)@),
            permutation(slice@, old(slice)@),
            forall|a: int, b: int|
                0 <= a < b < i && b < n ==> le(#[trigger] slice@[a], #[trigger] slice@[b]),
        decreases n - i,
    {
        let mut ins_elem_idx = i;
        let ghost front = insertion_sorted(old(slice)@.take(i as int));
        proof {
            lemma_insertion_sorted_len(old(slice)@.take(i as int));
            assert(front =~= slice@.take(i as int));
            assert(front.take(i as int) =~= front);
        }
        while ins_elem_idx > 0 && slice[i] < slice[ins_elem_idx - 1]
            invariant
                total_order::<T>(),
                slice@.len() == n,
                ins_elem_idx <= i < n,
                front == slice@.take(i as int),
                insertion_point(front.take(ins_elem_idx as int), slice@[i as int])
                    == insertion_point(front, slice@[i as int]),
                forall|k: int| ins_elem_idx <= k < i ==> lt(slice@[i as int], #[trigger] slice@[k]),
            decreases ins_elem_idx,
        {
            proof {
                let part = front.take(ins_elem_idx as int);
                assert(part.last() == slice@[ins_elem_idx - 1]);
                assert(part.drop_last() =~= front.take(ins_elem_idx - 1));
            }
            ins_elem_idx -= 1;
        }
        proof {
            let part = front.take(ins_elem_idx as int);
            if ins_elem_idx > 0 {
                assert(part.last() == slice@[ins_elem_idx - 1]);
            }
            assert(insertion_point(front, slice@[i as int]) == ins_elem_idx);
        }
        let ghost before = slice@;
        let (_, tail) = slice.split_at_mut(ins_elem_idx);
        let (gap, _) = tail.split_at_mut(i + 1 - ins_elem_idx);
        gap.rotate_right(1);
        proof {
            let from = ins_elem_idx as int;
            let to = i as int;
            assert(slice@ =~= moved_forward(before, from, to));
            lemma_moved_forward_permutation(before, from, to);
            let upto = old(slice)@.take(i + 1);
            assert(upto.drop_last() =~= old(slice)@.take(to));
            assert(upto.last() == before[to]);
            assert(insertion_sorted(upto) == front.insert(from, before[to]));
            assert(slice@ =~= insertion_sorted(upto) + old(slice)@.skip(i + 1));
            assert forall|a: int, b: int| 0 <= a < b < i + 1 implies le(
                #[trigger] slice@[a],
                #[trigger] slice@[b],
            ) by {
                if b < from {
                    assert(le(before[a], before[b]));
                } else if b == from {
                    // slice@[b] is the element put in, and what is before it
                    // is not above the last element that is not above it
                    lemma_compare(before[to], before[from - 1]);
                    if a < from - 1 {
                        assert(le(before[a], before[from - 1]));
                        lemma_le_transitive(before[a], before[from - 1], before[to]);
                    }
                } else {
                    assert(slice@[b] == before[b - 1]);
                    if a < from {
                        assert(le(before[a], before[b - 1]));
                    } else if a == from {
                        assert(lt(before[to], before[b - 1]));
                        lemma_compare(before[to], before[b - 1]);
                        lemma_compare(before[b - 1], before[to]);
                    } else {
                        assert(le(before[a - 1], before[b - 1]));
                    }
                }
            }
        }
        i += 1;
    }
    proof {
        if n > 0 {
            assert(old(slice)@.take(n as int) =~= old(slice)@);
            assert(slice@ =~= insertion_sorted(old(slice)@));
        }
    }
}

} // verus!
