//! Laws that relate several operations of the heap.
use vstd::prelude::*;
use vstd::multiset::Multiset;
use vstd::relations::{sorted_by, total_ordering};
use vstd::seq_lib::lemma_sorted_unique;
use crate::heap::{extraction, heap_ordered, lemma_dominates_refl, lemma_dominates_total, lemma_dominates_trans, lemma_root_dominates, ParentChildRelation};
use crate::order::{le, lemma_le_antisym, total_order};

verus! {

broadcast use {
    vstd::seq_lib::group_to_multiset_ensures,
    vstd::multiset::group_multiset_axioms,
};

/// `dominates` is a total order on the values of `T`.
pub proof fn lemma_dominates_total_ordering<T: Ord>(rel: ParentChildRelation)
    requires
        total_order::<T>(),
    ensures
        total_ordering(|a: T, b: T| rel.dominates(a, b)),
{
    let f = |a: T, b: T| rel.dominates(a, b);
    assert forall|x: T| #[trigger] f(x, x) by {
        lemma_dominates_refl(rel, x);
    }
    assert forall|x: T, y: T| #[trigger] f(x, y) && #[trigger] f(y, x) implies x == y by {
        lemma_le_antisym(x, y);
    }
    assert forall|x: T, y: T, z: T| #[trigger] f(x, y) && #[trigger] f(y, z) implies f(x, z) by {
        lemma_dominates_trans(rel, x, y, z);
    }
    assert forall|x: T, y: T| #[trigger] f(x, y) || #[trigger] f(y, x) by {
        lemma_dominates_total(rel, x, y);
    }
}

/// Two heaps of one relation that hold the same elements have the same
/// element on top, whatever order the elements came in.
pub proof fn lemma_top_determined<T: Ord>(rel: ParentChildRelation, s1: Seq<T>, s2: Seq<T>)
    requires
        total_order::<T>(),
        heap_ordered(rel, s1),
        heap_ordered(rel, s2),
        s1.to_multiset() == s2.to_multiset(),
        s1.len() > 0,
    ensures
        s2.len() > 0,
        s1[0] == s2[0],
{
    lemma_root_dominates(rel, s1);
    assert(s1.to_multiset().count(s1[0]) > 0);
    assert(s2.contains(s1[0]));
    lemma_root_dominates(rel, s2);
    assert(s2.to_multiset().count(s2[0]) > 0);
    assert(s1.contains(s2[0]));
    let i = choose|i: int| 0 <= i < s2.len() && s2[i] == s1[0];
    let j = choose|j: int| 0 <= j < s1.len() && s1[j] == s2[0];
    assert(rel.dominates(s2[0], s2[i]));
    assert(rel.dominates(s1[0], s1[j]));
    lemma_le_antisym(s1[0], s2[0]);
}

/// Inserting the same values in two orders into heaps that held the same
/// elements leaves heaps with the same elements and the same top.
pub proof fn lemma_insertion_order<T: Ord>(
    rel: ParentChildRelation,
    start: Seq<T>,
    a: Seq<T>,
    b: Seq<T>,
    after_a: Seq<T>,
    after_b: Seq<T>,
)
    requires
        total_order::<T>(),
        a.to_multiset() == b.to_multiset(),
        heap_ordered(rel, after_a),
        heap_ordered(rel, after_b),
        after_a.to_multiset() == start.to_multiset().add(a.to_multiset()),
        after_b.to_multiset() == start.to_multiset().add(b.to_multiset()),
    ensures
        after_a.to_multiset() == after_b.to_multiset(),
        after_a.len() > 0 ==> after_b.len() > 0 && after_a[0] == after_b[0],
{
    if after_a.len() > 0 {
        lemma_top_determined(rel, after_a, after_b);
    }
}

/// A sequence of extractions that empties a heap: `outs[k]` is what the
/// extraction from `states[k]` hands back, leaving `states[k + 1]`.
pub open spec fn drained<T: Ord>(rel: ParentChildRelation, states: Seq<Seq<T>>, outs: Seq<T>) -> bool {
    &&& states.len() == outs.len() + 1
    &&& forall|k: int|
        0 <= k < outs.len() ==> extraction(rel, #[trigger] states[k], outs[k], states[k + 1])
    &&& states.last().len() == 0
}

/// Emptying a heap by extractions hands back exactly its elements, each
/// dominating those that come after it: ascending for a min-heap,
/// descending for a max-heap.
pub proof fn lemma_drain_sorted<T: Ord>(rel: ParentChildRelation, states: Seq<Seq<T>>, outs: Seq<T>)
    requires
        total_order::<T>(),
        drained(rel, states, outs),
    ensures
        outs.to_multiset() == states[0].to_multiset(),
        forall|i: int, j: int| 0 <= i < j < outs.len() ==> rel.dominates(#[trigger] outs[i], #[trigger] outs[j]),
    decreases outs.len(),
{
    if outs.len() == 0 {
        assert(states[0].len() == 0);
        assert(states[0].to_multiset() =~= Multiset::empty());
    } else {
        let rest_states = states.drop_first();
        let rest = outs.drop_first();
        assert forall|k: int| 0 <= k < rest.len() implies extraction(rel, #[trigger] rest_states[k], rest[k], rest_states[k + 1]) by {
            assert(extraction(rel, states[k + 1], outs[k + 1], states[k + 2]));
        }
        lemma_drain_sorted(rel, rest_states, rest);
        assert(extraction(rel, states[0], outs[0], states[1]));
        assert(outs == seq![outs[0]] + rest);
        vstd::seq_lib::lemma_multiset_commutative(seq![outs[0]], rest);
        assert(seq![outs[0]].to_multiset() =~= Multiset::empty().insert(outs[0]));
        assert(outs.to_multiset() =~= states[0].to_multiset());
        assert forall|i: int, j: int| 0 <= i < j < outs.len() implies rel.dominates(#[trigger] outs[i], #[trigger] outs[j]) by {
            if i == 0 {
                assert(rest[j - 1] == outs[j]);
                assert(rest.to_multiset().count(outs[j]) > 0);
                assert(states[0].to_multiset().count(outs[j]) > 0);
                assert(states[0].contains(outs[j]));
                let m = choose|m: int| 0 <= m < states[0].len() && states[0][m] == outs[j];
                assert(rel.dominates(outs[0], states[0][m]));
            } else {
                assert(rest[i - 1] == outs[i] && rest[j - 1] == outs[j]);
            }
        }
    }
}

/// Emptying two heaps of one relation that hold the same elements hands
/// back the same sequence, whatever order the elements were inserted in.
pub proof fn lemma_drain_determined<T: Ord>(
    rel: ParentChildRelation,
    states1: Seq<Seq<T>>,
    outs1: Seq<T>,
    states2: Seq<Seq<T>>,
    outs2: Seq<T>,
)
    requires
        total_order::<T>(),
        drained(rel, states1, outs1),
        drained(rel, states2, outs2),
        states1[0].to_multiset() == states2[0].to_multiset(),
    ensures
        outs1 == outs2,
{
    lemma_drain_sorted(rel, states1, outs1);
    lemma_drain_sorted(rel, states2, outs2);
    let f = |a: T, b: T| rel.dominates(a, b);
    lemma_dominates_total_ordering::<T>(rel);
    assert(sorted_by(outs1, f));
    assert(sorted_by(outs2, f));
    lemma_sorted_unique(outs1, outs2, f);
    assert(outs1 =~= outs2);
}

} // verus!
