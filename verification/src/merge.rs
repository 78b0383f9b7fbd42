//! Merge sort, with one scratch buffer shared by the whole recursion.

use crate::order::{gt, le, lemma_compare, lemma_le_transitive, lt, total_order};
use crate::sequence::{
    lemma_concat_permutation, lemma_swapped_permutation, permutation, sorted, swapped,
};
use vstd::prelude::*;
use vstd::seq_lib::lemma_multiset_commutative;

verus! {

/// The merge of two sequences: the smaller head is taken first, and the left
/// one where neither is smaller, until one side is used up; the rest of the
/// other side follows.
pub open spec fn merged<T: Ord>(left: Seq<T>, right: Seq<T>) -> Seq<T>
    decreases left.len() + right.len(),
{
    if left.len() == 0 {
        right
    } else if right.len() == 0 {
        left
    } else if lt(right[0], left[0]) {
        seq![right[0]] + merged(left, right.drop_first())
    } else {
        seq![left[0]] + merged(left.drop_first(), right)
    }
}

/// What merge sort makes of a sequence: one of two elements has them
/// exchanged where the first is above the second, a shorter one stays as it
/// is, and a longer one is the merge of what merge sort makes of its halves,
/// the first of which is the shorter where the length is odd.
pub open spec fn merge_sorted<T: Ord>(s: Seq<T>) -> Seq<T>
    decreases s.len(),
{
    let mid = s.len() as int / 2;
    if s.len() < 2 {
        s
    } else if s.len() == 2 {
        if gt(s[0], s[1]) {
            swapped(s, 0, 1)
        } else {
            s
        }
    } else {
        merged(merge_sorted(s.subrange(0, mid)), merge_sorted(s.subrange(mid, s.len() as int)))
    }
}

/// A merge holds the elements of both sides.
pub proof fn lemma_merged_permutation<T: Ord>(left: Seq<T>, right: Seq<T>)
    ensures
        merged(left, right).len() == left.len() + right.len(),
        permutation(merged(left, right), left + right),
    decreases left.len() + right.len(),
{
    broadcast use vstd::multiset::group_multiset_axioms;

    if left.len() == 0 {
        assert(left + right =~= right);
    } else if right.len() == 0 {
        assert(left + right =~= left);
    } else if lt(right[0], left[0]) {
        let rest = right.drop_first();
        lemma_merged_permutation(left, rest);
        lemma_multiset_commutative(seq![right[0]], merged(left, rest));
        lemma_multiset_commutative(left, rest);
        lemma_multiset_commutative(left, right);
        lemma_multiset_commutative(seq![right[0]], rest);
        assert(seq![right[0]] + rest =~= right);
        assert(merged(left, right).to_multiset() =~= (left + right).to_multiset());
    } else {
        let rest = left.drop_first();
        lemma_merged_permutation(rest, right);
        lemma_multiset_commutative(seq![left[0]], merged(rest, right));
        lemma_multiset_commutative(rest, right);
        lemma_multiset_commutative(left, right);
        lemma_multiset_commutative(seq![left[0]], rest);
        assert(seq![left[0]] + rest =~= left);
        assert(merged(left, right).to_multiset() =~= (left + right).to_multiset());
    }
}

/// What is below both sides is below their merge.
proof fn lemma_merged_lower_bound<T: Ord>(left: Seq<T>, right: Seq<T>, x: T)
    requires
        forall|i: int| 0 <= i < left.len() ==> le(x, #[trigger] left[i]),
        forall|j: int| 0 <= j < right.len() ==> le(x, #[trigger] right[j]),
    ensures
        forall|k: int| 0 <= k < merged(left, right).len() ==> le(x, #[trigger] merged(left, right)[k]),
    decreases left.len() + right.len(),
{
    if left.len() == 0 || right.len() == 0 {
    } else if lt(right[0], left[0]) {
        let rest = right.drop_first();
        assert forall|j: int| 0 <= j < rest.len() implies le(x, #[trigger] rest[j]) by {
            assert(rest[j] == right[j + 1]);
        }
        lemma_merged_lower_bound(left, rest, x);
        assert forall|k: int| 0 <= k < merged(left, right).len() implies le(
            x,
            #[trigger] merged(left, right)[k],
        ) by {
            if k > 0 {
                assert(merged(left, right)[k] == merged(left, rest)[k - 1]);
            }
        }
    } else {
        let rest = left.drop_first();
        assert forall|i: int| 0 <= i < rest.len() implies le(x, #[trigger] rest[i]) by {
            assert(rest[i] == left[i + 1]);
        }
        lemma_merged_lower_bound(rest, right, x);
        assert forall|k: int| 0 <= k < merged(left, right).len() implies le(
            x,
            #[trigger] merged(left, right)[k],
        ) by {
            if k > 0 {
                assert(merged(left, right)[k] == merged(rest, right)[k - 1]);
            }
        }
    }
}

/// The merge of two sequences in order is in order.
pub proof fn lemma_merged_sorted<T: Ord>(left: Seq<T>, right: Seq<T>)
    requires
        total_order::<T>(),
        sorted(left),
        sorted(right),
    ensures
        sorted(merged(left, right)),
    decreases left.len() + right.len(),
{
    if left.len() == 0 || right.len() == 0 {
    } else {
        lemma_compare(right[0], left[0]);
        lemma_compare(left[0], left[0]);
        lemma_compare(right[0], right[0]);
        let take_right = lt(right[0], left[0]);
        let head = if take_right { right[0] } else { left[0] };
        let l = if take_right { left } else { left.drop_first() };
        let r = if take_right { right.drop_first() } else { right };
        assert(sorted(l)) by {
            if !take_right {
                assert forall|i: int, j: int| 0 <= i < j < l.len() implies le(
                    #[trigger] l[i],
                    #[trigger] l[j],
                ) by {
                    assert(le(left[i + 1], left[j + 1]));
                }
            }
        }
        assert(sorted(r)) by {
            if take_right {
                assert forall|i: int, j: int| 0 <= i < j < r.len() implies le(
                    #[trigger] r[i],
                    #[trigger] r[j],
                ) by {
                    assert(le(right[i + 1], right[j + 1]));
                }
            }
        }
        assert forall|i: int| 0 <= i < l.len() implies le(head, #[trigger] l[i]) by {
            if take_right {
                if i > 0 {
                    assert(le(left[0], left[i]));
                }
                lemma_le_transitive(head, left[0], left[i]);
            } else {
                assert(l[i] == left[i + 1]);
                assert(le(left[0], left[i + 1]));
            }
        }
        assert forall|j: int| 0 <= j < r.len() implies le(head, #[trigger] r[j]) by {
            if take_right {
                assert(r[j] == right[j + 1]);
                assert(le(right[0], right[j + 1]));
            } else {
                if j > 0 {
                    assert(le(right[0], right[j]));
                }
                lemma_le_transitive(head, right[0], right[j]);
            }
        }
        lemma_merged_sorted(l, r);
        lemma_merged_lower_bound(l, r, head);
        let m = merged(left, right);
        assert(m =~= seq![head] + merged(l, r));
        assert forall|i: int, j: int| 0 <= i < j < m.len() implies le(
            #[trigger] m[i],
            #[trigger] m[j],
        ) by {
            assert(m[j] == merged(l, r)[j - 1]);
            if i > 0 {
                assert(m[i] == merged(l, r)[i - 1]);
            }
        }
    }
}

/// Appends the merge of `left` and `right` to `buff`.
pub fn merge<T: Ord + Copy>(left: &[T], right: &[T], buff: &mut Vec<T>)
    requires
        total_order::<T>(),
    ensures
        final(buff)@ == old(buff)@ + merged(left@, right@),
{
    let mut l: usize = 0;
    let mut r: usize = 0;
    proof {
        assert(left@.skip(0) =~= left@);
        assert(right@.skip(0) =~= right@);
    }
    while l < left.len() && r < right.len()
        invariant
            total_order::<T>(),
            l <= left@.len(),
            r <= right@.len(),
            buff@ + merged(left@.skip(l as int), right@.skip(r as int)) == old(buff)@ + merged(
                left@,
                right@,
            ),
        decreases left@.len() - l + right@.len() - r,
    {
        let ghost ls = left@.skip(l as int);
        let ghost rs = right@.skip(r as int);
        let ghost before = buff@;
        if right[r] < left[l] {
            buff.push(right[r]);
            r += 1;
            proof {
                assert(rs.drop_first() =~= right@.skip(r as int));
                assert(before.push(rs[0]) + merged(ls, rs.drop_first()) =~= before + merged(ls, rs));
            }
        } else {
            buff.push(left[l]);
            l += 1;
            proof {
                assert(ls.drop_first() =~= left@.skip(l as int));
                assert(before.push(ls[0]) + merged(ls.drop_first(), rs) =~= before + merged(ls, rs));
            }
        }
    }
    while l < left.len()
        invariant
            l <= left@.len(),
            r <= right@.len(),
            r == right@.len() || l == left@.len(),
            buff@ + merged(left@.skip(l as int), right@.skip(r as int)) == old(buff)@ + merged(
                left@,
                right@,
            ),
        decreases left@.len() - l,
    {
        let ghost ls = left@.skip(l as int);
        let ghost before = buff@;
        buff.push(left[l]);
        l += 1;
        proof {
            let rest = left@.skip(l as int);
            assert(ls =~= seq![ls[0]] + rest);
            assert(before.push(ls[0]) + rest =~= before + ls);
        }
    }
    while r < right.len()
        invariant
            l == left@.len(),
            r <= right@.len(),
            buff@ + merged(left@.skip(l as int), right@.skip(r as int)) == old(buff)@ + merged(
                left@,
                right@,
            ),
        decreases right@.len() - r,
    {
        let ghost rs = right@.skip(r as int);
        let ghost before = buff@;
        buff.push(right[r]);
        r += 1;
        proof {
            let rest = right@.skip(r as int);
            assert(rs =~= seq![rs[0]] + rest);
            assert(before.push(rs[0]) + rest =~= before + rs);
        }
    }
    proof {
        assert(buff@ + merged(left@.skip(l as int), right@.skip(r as int)) =~= buff@);
    }
}

/// Sorts `slice` through the scratch buffer `buff`, which is empty before
/// and after.
fn sort<T: Ord + Copy>(slice: &mut [T], buff: &mut Vec<T>)
    requires
        total_order::<T>(),
        old(buff)@.len() == 0,
    ensures
        final(slice)@ == merge_sorted(old(slice)@),
        sorted(final(slice)@),
        permutation(final(slice)@, old(slice)@),
        final(slice)@.len() == old(slice)@.len(),
        final(buff)@.len() == 0,
    decreases old(slice)@.len(),
{
    if slice.len() < 2 {
        return ;
    } else if slice.len() == 2 {
        proof {
            lemma_compare(slice@[0], slice@[1]);
            lemma_swapped_permutation(slice@, 0, 1);
        }
        if slice[0] > slice[1] {
            slice.swap(0, 1);
        }
    } else {
        let len = slice.len();
        let ghost whole = slice@;
        let (left, right) = slice.split_at_mut(len / 2);
        let ghost l0 = left@;
        let ghost r0 = right@;
        sort(left, buff);
        sort(right, buff);
        merge(left, right, buff);
        proof {
            lemma_merged_permutation(left@, right@);
            lemma_merged_sorted(left@, right@);
            lemma_concat_permutation(left@, right@, l0, r0);
            assert(l0 + r0 =~= whole);
            assert(buff@ =~= merged(left@, right@));
        }
        slice.copy_from_slice(buff);
        buff.clear();
    }
}

/// Sorts `slice` in place: halves are sorted on their own, down to lengths
/// of two or less, and merged through one buffer that the whole recursion
/// shares.
pub fn merge_sort<T: Ord + Copy>(slice: &mut [T])
    requires
        total_order::<T>(),
    ensures
        final(slice)@ == merge_sorted(old(slice)@),
        sorted(final(slice)@),
        permutation(final(slice)@, old(slice)@),
        final(slice)@.len() == old(slice)@.len(),
{
    let mut buff: Vec<T> = Vec::with_capacity(slice.len());
    sort(slice, &mut buff);
}

} // verus!
