//! The total order that the heap and the search rely on, stated over the
//! specifications that vstd gives to `PartialOrd` and `Ord`.
use vstd::laws_cmp::{obeys_cmp, obeys_cmp_ord, obeys_cmp_partial_ord, obeys_partial_cmp_spec_properties};
use vstd::laws_eq::{obeys_concrete_eq, obeys_eq_spec_properties};
use vstd::prelude::*;
use vstd::std_specs::cmp::{OrdSpec, PartialEqSpec, PartialOrdSpec};
use core::cmp::Ordering;

verus! {

/// `T`'s comparison is a total order whose equality is plain equality.
pub open spec fn total_order<T: Ord>() -> bool {
    obeys_cmp::<T>() && obeys_concrete_eq::<T>()
}

/// `a <= b`, as the comparison operators of `T` decide it.
pub open spec fn le<T: Ord>(a: T, b: T) -> bool {
    a.partial_cmp_spec(&b) matches Some(Ordering::Less | Ordering::Equal)
}

/// `a < b`: below and distinct.
pub open spec fn lt<T: Ord>(a: T, b: T) -> bool {
    le(a, b) && a != b
}

/// The comparison operators of `T` follow their specifications.
pub proof fn lemma_operators<T: Ord>()
    requires
        total_order::<T>(),
    ensures
        T::obeys_partial_cmp_spec(),
        T::obeys_cmp_spec(),
{
    reveal(obeys_cmp_partial_ord);
    reveal(obeys_cmp_ord);
}

/// `==` on `T` is plain equality.
pub proof fn lemma_equality<T: Ord>()
    requires
        total_order::<T>(),
    ensures
        T::obeys_eq_spec(),
        forall|a: T, b: T| a.eq_spec(&b) <==> a == b,
{
    reveal(obeys_concrete_eq);
}

/// What each outcome of `cmp` says of the two values.
pub proof fn lemma_cmp<T: Ord>(a: T, b: T)
    requires
        total_order::<T>(),
    ensures
        a.cmp_spec(&b) == Ordering::Equal <==> a == b,
        a.cmp_spec(&b) == Ordering::Less <==> lt(a, b),
        a.cmp_spec(&b) == Ordering::Greater <==> lt(b, a),
{
    reveal(obeys_partial_cmp_spec_properties);
    reveal(obeys_cmp_ord);
    reveal(obeys_concrete_eq);
    assert(a.partial_cmp_spec(&b) == Some(a.cmp_spec(&b)));
    assert(b.partial_cmp_spec(&a) == Some(b.cmp_spec(&a)));
    assert(a.eq_spec(&b) <==> a == b);
    assert(b.eq_spec(&a) <==> b == a);
}

/// `le` is reflexive.
pub proof fn lemma_le_refl<T: Ord>(a: T)
    requires
        total_order::<T>(),
    ensures
        le(a, a),
{
    reveal(obeys_partial_cmp_spec_properties);
    reveal(obeys_concrete_eq);
    assert(a.eq_spec(&a));
}

/// Any two values are ordered one way or the other.
pub proof fn lemma_le_total<T: Ord>(a: T, b: T)
    requires
        total_order::<T>(),
    ensures
        le(a, b) || le(b, a),
{
    reveal(obeys_partial_cmp_spec_properties);
    reveal(obeys_cmp_ord);
    assert(a.partial_cmp_spec(&b) == Some(a.cmp_spec(&b)));
    assert(b.partial_cmp_spec(&a) == Some(b.cmp_spec(&a)));
}

/// `le` is transitive.
pub proof fn lemma_le_trans<T: Ord>(a: T, b: T, c: T)
    requires
        total_order::<T>(),
        le(a, b),
        le(b, c),
    ensures
        le(a, c),
{
    reveal(obeys_partial_cmp_spec_properties);
    reveal(obeys_concrete_eq);
    if a.partial_cmp_spec(&b) == Some(Ordering::Equal) {
        assert(a.eq_spec(&b));
        assert(a == b);
    } else if b.partial_cmp_spec(&c) == Some(Ordering::Equal) {
        assert(b.eq_spec(&c));
        assert(b == c);
    } else {
        assert(a.partial_cmp_spec(&c) == Some(Ordering::Less));
    }
}

/// Values ordered both ways are equal.
pub proof fn lemma_le_antisym<T: Ord>(a: T, b: T)
    requires
        total_order::<T>(),
        le(a, b),
        le(b, a),
    ensures
        a == b,
{
    reveal(obeys_partial_cmp_spec_properties);
    reveal(obeys_concrete_eq);
    reveal(obeys_eq_spec_properties);
    if a.partial_cmp_spec(&b) == Some(Ordering::Less) {
        assert(b.partial_cmp_spec(&a) == Some(Ordering::Greater));
    } else {
        assert(a.eq_spec(&b));
    }
}

} // verus!
