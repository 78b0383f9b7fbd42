//! The element order that every algorithm of this crate sorts by.
//!
//! Elements are compared with the operators of `Ord`. The contracts speak of
//! one relation, [`le`], and the lemmas below tie what `<`, `>` and `>=`
//! return to it.

use core::cmp::Ordering;
use vstd::laws_cmp::{
    obeys_cmp, obeys_cmp_ord, obeys_cmp_partial_ord, obeys_partial_cmp_spec_properties,
};
use vstd::laws_eq::obeys_eq_spec_properties;
use vstd::prelude::*;
use vstd::std_specs::cmp::{PartialEqSpec, PartialOrdSpec};

verus! {

/// The comparison operators of `T` compute what their specifications say,
/// and those specifications form a total order.
pub open spec fn total_order<T: Ord>() -> bool {
    &&& T::obeys_partial_cmp_spec()
    &&& obeys_cmp::<T>()
}

/// `a` is strictly below `b`: what `a < b` computes.
pub open spec fn lt<T: Ord>(a: T, b: T) -> bool {
    a.partial_cmp_spec(&b) == Some(Ordering::Less)
}

/// `a` is strictly above `b`: what `a > b` computes.
pub open spec fn gt<T: Ord>(a: T, b: T) -> bool {
    a.partial_cmp_spec(&b) == Some(Ordering::Greater)
}

/// `a` is not below `b`: what `a >= b` computes.
pub open spec fn ge<T: Ord>(a: T, b: T) -> bool {
    a.partial_cmp_spec(&b) matches Some(Ordering::Greater | Ordering::Equal)
}

/// `a` is not above `b`: what `a <= b` computes.
pub open spec fn le<T: Ord>(a: T, b: T) -> bool {
    a.partial_cmp_spec(&b) matches Some(Ordering::Less | Ordering::Equal)
}

/// Two elements that are each not above the other are the same value.
/// This holds of the integers; it fails for a type that compares by a key
/// and carries more than the key.
pub open spec fn antisymmetric<T: Ord>() -> bool {
    forall|a: T, b: T| #[trigger] le(a, b) && le(b, a) ==> a == b
}

/// Every pair of elements is comparable, and the four operators agree with
/// one another.
pub proof fn lemma_compare<T: Ord>(a: T, b: T)
    requires
        total_order::<T>(),
    ensures
        le(a, b) || le(b, a),
        lt(a, b) <==> !le(b, a),
        gt(a, b) <==> !le(a, b),
        ge(a, b) <==> le(b, a),
{
    reveal(obeys_cmp_ord);
    reveal(obeys_cmp_partial_ord);
    reveal(obeys_partial_cmp_spec_properties);
    reveal(obeys_eq_spec_properties);
    assert(a.partial_cmp_spec(&b) is Some);
    assert(b.partial_cmp_spec(&a) is Some);
    assert(a.eq_spec(&b) <==> b.eq_spec(&a));
}

/// `le` is transitive.
pub proof fn lemma_le_transitive<T: Ord>(a: T, b: T, c: T)
    requires
        total_order::<T>(),
        le(a, b),
        le(b, c),
    ensures
        le(a, c),
{
    reveal(obeys_cmp_ord);
    reveal(obeys_cmp_partial_ord);
    reveal(obeys_partial_cmp_spec_properties);
    reveal(obeys_eq_spec_properties);
    lemma_compare(a, b);
    lemma_compare(b, c);
    lemma_compare(a, c);
    if !le(a, c) {
        // then c < a, and with either a <= b or b <= c this closes a cycle
        assert(lt(c, a));
        if lt(a, b) {
            assert(lt(c, b));
        } else {
            assert(a.eq_spec(&b));
            if lt(b, c) {
                assert(lt(b, a));
            } else {
                assert(b.eq_spec(&c));
                assert(a.eq_spec(&c));
            }
        }
    }
}

/// The integers are totally ordered, and antisymmetrically so.
pub proof fn lemma_i32_order()
    ensures
        total_order::<i32>(),
        antisymmetric::<i32>(),
        forall|a: i32, b: i32| #[trigger] le(a, b) <==> a <= b,
{
    broadcast use vstd::laws_cmp::group_laws_cmp;
}

} // verus!
