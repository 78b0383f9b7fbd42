//! What the contracts of the sorting routines say of a sequence: that it is
//! in order, and that it holds the same elements as another.

use crate::order::{antisymmetric, le, lemma_compare, total_order};
use vstd::prelude::*;
use vstd::seq_lib::{lemma_multiset_commutative, to_multiset_update};

verus! {

/// `s` with the elements at `i` and `j` exchanged.
pub open spec fn swapped<T>(s: Seq<T>, i: int, j: int) -> Seq<T> {
    s.update(i, s[j]).update(j, s[i])
}

/// `s` is in non-decreasing order.
pub open spec fn sorted<T: Ord>(s: Seq<T>) -> bool {
    forall|i: int, j: int| 0 <= i < j < s.len() ==> le(#[trigger] s[i], #[trigger] s[j])
}

/// `a` and `b` hold the same elements, each as often as the other.
pub open spec fn permutation<T>(a: Seq<T>, b: Seq<T>) -> bool {
    a.to_multiset() == b.to_multiset()
}

/// Sequences that hold the same elements have the same length.
pub proof fn lemma_permutation_len<T>(a: Seq<T>, b: Seq<T>)
    requires
        permutation(a, b),
    ensures
        a.len() == b.len(),
{
    a.to_multiset_ensures();
    b.to_multiset_ensures();
}

/// Exchanging two elements keeps the elements.
pub proof fn lemma_swapped_permutation<T>(s: Seq<T>, i: int, j: int)
    requires
        0 <= i < s.len(),
        0 <= j < s.len(),
    ensures
        permutation(swapped(s, i, j), s),
        swapped(s, i, j).len() == s.len(),
{
    broadcast use vstd::multiset::group_multiset_axioms;

    let mid = s.update(i, s[j]);
    to_multiset_update(s, i, s[j]);
    to_multiset_update(mid, j, s[i]);
    s.to_multiset_ensures();
    assert(s.to_multiset().count(s[i]) > 0) by {
        assert(s.contains(s[i]));
    }
    assert(s.to_multiset().count(s[j]) > 0) by {
        assert(s.contains(s[j]));
    }
    assert(swapped(s, i, j).to_multiset() =~= s.to_multiset());
}

/// Joining two sequences joins their elements.
pub proof fn lemma_concat_permutation<T>(a: Seq<T>, b: Seq<T>, c: Seq<T>, d: Seq<T>)
    requires
        permutation(a, c),
        permutation(b, d),
    ensures
        permutation(a + b, c + d),
{
    lemma_multiset_commutative(a, b);
    lemma_multiset_commutative(c, d);
}

/// An element of one sequence occurs in every sequence with the same elements.
pub proof fn lemma_permutation_index<T>(a: Seq<T>, b: Seq<T>, i: int) -> (j: int)
    requires
        permutation(a, b),
        0 <= i < a.len(),
    ensures
        0 <= j < b.len(),
        b[j] == a[i],
{
    a.to_multiset_ensures();
    b.to_multiset_ensures();
    assert(a.contains(a[i]));
    assert(a.to_multiset().count(a[i]) > 0);
    assert(b.to_multiset().count(a[i]) > 0);
    assert(b.contains(a[i]));
    choose|j: int| 0 <= j < b.len() && b[j] == a[i]
}

/// Two sequences in order that hold the same elements are the same sequence,
/// where elements that compare equal are equal.
pub proof fn lemma_sorted_unique<T: Ord>(a: Seq<T>, b: Seq<T>)
    requires
        total_order::<T>(),
        antisymmetric::<T>(),
        sorted(a),
        sorted(b),
        permutation(a, b),
    ensures
        a == b,
    decreases a.len(),
{
    lemma_permutation_len(a, b);
    if a.len() > 0 {
        let n = a.len() as int;
        // the last elements agree: each is the greatest of the shared elements
        let ia = lemma_permutation_index(b, a, n - 1);
        let ib = lemma_permutation_index(a, b, n - 1);
        lemma_compare(a[n - 1], a[n - 1]);
        lemma_compare(b[n - 1], b[n - 1]);
        assert(le(b[n - 1], a[n - 1]));
        assert(le(a[n - 1], b[n - 1]));
        assert(a[n - 1] == b[n - 1]);
        let a0 = a.drop_last();
        let b0 = b.drop_last();
        assert(a0.to_multiset() =~= b0.to_multiset()) by {
            broadcast use vstd::multiset::group_multiset_axioms;

            a0.to_multiset_ensures();
            b0.to_multiset_ensures();
            assert(a0.push(a[n - 1]) =~= a);
            assert(b0.push(b[n - 1]) =~= b);
            assert(a0.to_multiset() =~= a.to_multiset().remove(a[n - 1]));
            assert(b0.to_multiset() =~= b.to_multiset().remove(b[n - 1]));
        }
        assert(sorted(a0)) by {
            assert forall|i: int, j: int| 0 <= i < j < a0.len() implies le(
                #[trigger] a0[i],
                #[trigger] a0[j],
            ) by {
                assert(le(a[i], a[j]));
            }
        }
        assert(sorted(b0)) by {
            assert forall|i: int, j: int| 0 <= i < j < b0.len() implies le(
                #[trigger] b0[i],
                #[trigger] b0[j],
            ) by {
                assert(le(b[i], b[j]));
            }
        }
        lemma_sorted_unique(a0, b0);
        assert(a =~= a0.push(a[n - 1]));
        assert(b =~= b0.push(b[n - 1]));
    }
    assert(a =~= b);
}

} // verus!
