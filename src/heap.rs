//! An array-backed binary heap that keeps either its least or its greatest
//! element on top.
use vstd::prelude::*;
use vstd::std_specs::iter::IteratorSpec;
use vstd::pervasive::strictly_cloned;
use crate::order::{le, total_order, lemma_equality, lemma_le_refl, lemma_le_total, lemma_le_trans, lemma_operators};
use crate::random::{get_random, ChoiceSource, ThreadRandom};

verus! {

broadcast use {
    vstd::seq_lib::group_to_multiset_ensures,
    vstd::seq_lib::to_multiset_update,
    vstd::multiset::group_multiset_axioms,
};

/// Which end of the order a heap keeps on top.
#[derive(Clone, Copy, Debug, PartialEq, Eq, Structural)]
pub enum ParentChildRelation {
    /// Every parent is at least its children: the greatest element is on top.
    Greater,
    /// Every parent is at most its children: the least element is on top.
    Smaller,
}

impl ParentChildRelation {
    /// `parent` may stand above `child` in a heap of this kind.
    pub open spec fn dominates<T: Ord>(self, parent: T, child: T) -> bool {
        match self {
            ParentChildRelation::Smaller => le(parent, child),
            ParentChildRelation::Greater => le(child, parent),
        }
    }

    /// Whether `parent` may stand above `child`.
    pub fn rel<T: Ord>(&self, parent: &T, child: &T) -> (r: bool)
        requires
            total_order::<T>(),
        ensures
            r == self.dominates(*parent, *child),
    {
        proof {
            lemma_operators::<T>();
        }
        match *self {
            ParentChildRelation::Smaller => parent <= child,
            ParentChildRelation::Greater => child <= parent,
        }
    }
}

/// Every value dominates itself.
pub proof fn lemma_dominates_refl<T: Ord>(rel: ParentChildRelation, a: T)
    requires
        total_order::<T>(),
    ensures
        rel.dominates(a, a),
{
    lemma_le_refl(a);
}

/// Of two values, one dominates the other.
pub proof fn lemma_dominates_total<T: Ord>(rel: ParentChildRelation, a: T, b: T)
    requires
        total_order::<T>(),
    ensures
        rel.dominates(a, b) || rel.dominates(b, a),
{
    lemma_le_total(a, b);
}

/// Domination carries through a middle value.
pub proof fn lemma_dominates_trans<T: Ord>(rel: ParentChildRelation, a: T, b: T, c: T)
    requires
        total_order::<T>(),
        rel.dominates(a, b),
        rel.dominates(b, c),
    ensures
        rel.dominates(a, c),
{
    match rel {
        ParentChildRelation::Smaller => lemma_le_trans(a, b, c),
        ParentChildRelation::Greater => lemma_le_trans(c, b, a),
    }
}

/// The index of the parent of the node at `i`; the root is its own parent.
pub open spec fn parent(i: int) -> int {
    if i <= 0 {
        0
    } else {
        (i - 1) / 2
    }
}

/// Every node but the root is dominated by its parent.
pub open spec fn heap_ordered<T: Ord>(rel: ParentChildRelation, s: Seq<T>) -> bool {
    forall|i: int| 0 < i < s.len() ==> rel.dominates(s[parent(i)], #[trigger] s[i])
}

/// What one extraction does to a heap holding `before`: it hands back `top`,
/// which dominates every element, and leaves `after`, which holds the same
/// elements less one occurrence of `top`.
pub open spec fn extraction<T: Ord>(
    rel: ParentChildRelation,
    before: Seq<T>,
    top: T,
    after: Seq<T>,
) -> bool {
    &&& before.to_multiset().count(top) > 0
    &&& after.to_multiset() == before.to_multiset().remove(top)
    &&& forall|i: int| 0 <= i < before.len() ==> rel.dominates(top, #[trigger] before[i])
}

/// Every node dominates each of its children `2i + 1` and `2i + 2` that exist.
pub open spec fn heap_property<T: Ord>(rel: ParentChildRelation, s: Seq<T>) -> bool {
    forall|i: int, c: int|
        0 <= i < s.len() && 0 <= c < s.len() && (c == 2 * i + 1 || c == 2 * i + 2) ==> rel.dominates(
            #[trigger] s[i],
            #[trigger] s[c],
        )
}

/// Every node but the one at `k` is dominated by its parent.
spec fn ordered_except<T: Ord>(rel: ParentChildRelation, s: Seq<T>, k: int) -> bool {
    forall|i: int| 0 < i < s.len() && i != k ==> rel.dominates(s[parent(i)], #[trigger] s[i])
}

/// Every node but the children of `k` is dominated by its parent.
spec fn ordered_below_except<T: Ord>(rel: ParentChildRelation, s: Seq<T>, k: int) -> bool {
    forall|i: int|
        0 < i < s.len() && parent(i) != k ==> rel.dominates(s[parent(i)], #[trigger] s[i])
}

/// The parent of `k` dominates the children of `k`.
spec fn bridged<T: Ord>(rel: ParentChildRelation, s: Seq<T>, k: int) -> bool {
    k > 0 ==> forall|c: int|
        0 < c < s.len() && parent(c) == k ==> rel.dominates(s[parent(k)], #[trigger] s[c])
}

/// `s` with the elements at `i` and `j` exchanged.
pub open spec fn swapped<T>(s: Seq<T>, i: int, j: int) -> Seq<T> {
    s.update(i, s[j]).update(j, s[i])
}

proof fn lemma_swapped_multiset<T>(s: Seq<T>, i: int, j: int)
    requires
        0 <= i < s.len(),
        0 <= j < s.len(),
    ensures
        swapped(s, i, j).to_multiset() == s.to_multiset(),
        swapped(s, i, j).len() == s.len(),
{
    let s1 = s.update(i, s[j]);
    assert(s1.to_multiset() == s.to_multiset().insert(s[j]).remove(s[i]));
    assert(swapped(s, i, j).to_multiset() == s1.to_multiset().insert(s[i]).remove(s1[j]));
    assert(swapped(s, i, j).to_multiset() =~= s.to_multiset());
}

/// The root of a heap-ordered sequence dominates the node at `i`.
proof fn lemma_root_dominates_at<T: Ord>(rel: ParentChildRelation, s: Seq<T>, i: int)
    requires
        total_order::<T>(),
        heap_ordered(rel, s),
        0 <= i < s.len(),
    ensures
        rel.dominates(s[0], s[i]),
    decreases i,
{
    if i == 0 {
        lemma_dominates_refl(rel, s[0]);
    } else {
        lemma_root_dominates_at(rel, s, parent(i));
        lemma_dominates_trans(rel, s[0], s[parent(i)], s[i]);
    }
}

/// The root of a heap-ordered sequence dominates every element of it.
pub proof fn lemma_root_dominates<T: Ord>(rel: ParentChildRelation, s: Seq<T>)
    requires
        total_order::<T>(),
        heap_ordered(rel, s),
        s.len() > 0,
    ensures
        forall|i: int| 0 <= i < s.len() ==> rel.dominates(s[0], #[trigger] s[i]),
{
    assert forall|i: int| 0 <= i < s.len() implies rel.dominates(s[0], #[trigger] s[i]) by {
        lemma_root_dominates_at(rel, s, i);
    }
}

/// In a heap-ordered sequence every node dominates each child it has.
pub proof fn lemma_heap_property<T: Ord>(rel: ParentChildRelation, s: Seq<T>)
    requires
        heap_ordered(rel, s),
    ensures
        heap_property(rel, s),
{
    assert forall|i: int, c: int|
        0 <= i < s.len() && 0 <= c < s.len() && (c == 2 * i + 1 || c == 2 * i + 2) implies rel.dominates(
        #[trigger] s[i],
        #[trigger] s[c],
    ) by {
        assert(parent(c) == i);
    }
}

/// Relies on slice::swap: exchanges the elements at `i` and `j` in place.
#[verifier::external_body]
fn swap_elements<T>(v: &mut Vec<T>, i: usize, j: usize)
    requires
        i < old(v)@.len(),
        j < old(v)@.len(),
    ensures
        final(v)@ == swapped(old(v)@, i as int, j as int),
{
    v.swap(i, j)
}

/// The index of the parent of the node at `child_index`; 0 for the root.
pub fn parent_of(child_index: usize) -> (r: usize)
    ensures
        r == parent(child_index as int),
{
    if child_index == 0 {
        0
    } else {
        (child_index - 1) / 2
    }
}

/// The index of the first child of the node at `parent_index`.
pub fn left_child_of(parent_index: usize) -> (r: usize)
    requires
        parent_index < usize::MAX / 2,
    ensures
        r == 2 * parent_index + 1,
{
    parent_index * 2 + 1
}

/// The index of the second child of the node at `parent_index`.
pub fn right_child_of(parent_index: usize) -> (r: usize)
    requires
        parent_index < usize::MAX / 2,
    ensures
        r == 2 * parent_index + 2,
{
    parent_index * 2 + 2
}

/// `clone` hands back a value equal to the original.
pub open spec fn faithful_clone<T: Clone>() -> bool {
    forall|a: T, b: T| #[trigger] strictly_cloned(a, b) ==> a == b
}

/// A binary heap in a vector: the node at `i` has its children at `2i + 1`
/// and `2i + 2`, and dominates both under the heap's relation.
#[derive(Debug)]
pub struct Heap<T> {
    elements: Vec<T>,
    parent_child_relation: ParentChildRelation,
}

impl<T> View for Heap<T> {
    type V = Seq<T>;

    /// The live elements in their order in the array.
    closed spec fn view(&self) -> Seq<T> {
        self.elements@
    }
}

impl<T> Heap<T> {
    /// The relation that the heap was built with.
    pub closed spec fn relation(&self) -> ParentChildRelation {
        self.parent_child_relation
    }
}

impl<T: Ord> Heap<T> {
    /// Each element is dominated by its parent.
    pub open spec fn well_formed(&self) -> bool {
        heap_ordered(self.relation(), self@)
    }

    /// An empty heap with the least element on top.
    pub fn new_min(capacity: usize) -> (h: Heap<T>)
        ensures
            h@ == Seq::<T>::empty(),
            h.relation() == ParentChildRelation::Smaller,
            h.well_formed(),
    {
        Heap::new(capacity, ParentChildRelation::Smaller)
    }

    /// An empty heap with the greatest element on top.
    pub fn new_max(capacity: usize) -> (h: Heap<T>)
        ensures
            h@ == Seq::<T>::empty(),
            h.relation() == ParentChildRelation::Greater,
            h.well_formed(),
    {
        Heap::new(capacity, ParentChildRelation::Greater)
    }

    fn new(capacity: usize, parent_child_relation: ParentChildRelation) -> (h: Self)
        ensures
            h@ == Seq::<T>::empty(),
            h.relation() == parent_child_relation,
            h.well_formed(),
    {
        Heap { elements: Vec::with_capacity(capacity), parent_child_relation }
    }

    /// Adds `new_t` at the end of the array and lets it climb while its
    /// parent does not dominate it.
    pub fn insert(&mut self, new_t: T)
        requires
            total_order::<T>(),
            old(self).well_formed(),
        ensures
            final(self).well_formed(),
            heap_property(final(self).relation(), final(self)@),
            final(self).relation() == old(self).relation(),
            final(self)@.len() == old(self)@.len() + 1,
            final(self)@.to_multiset() == old(self)@.to_multiset().insert(new_t),
    {
        self.elements.push(new_t);
        if self.elements.len() > 1 {
            self.shift_up();
        }
        proof {
            lemma_heap_property(self.relation(), self@);
        }
    }

    fn shift_up(&mut self)
        requires
            total_order::<T>(),
            old(self)@.len() > 0,
            ordered_except(old(self).relation(), old(self)@, old(self)@.len() - 1),
        ensures
            final(self).well_formed(),
            final(self).relation() == old(self).relation(),
            final(self)@.len() == old(self)@.len(),
            final(self)@.to_multiset() == old(self)@.to_multiset(),
    {
        let ghost rel = self.parent_child_relation;
        let ghost n = self.elements@.len();
        let ghost ms = self.elements@.to_multiset();
        let mut current_child: usize = self.elements.len() - 1;
        while current_child > 0
            invariant
                total_order::<T>(),
                self.parent_child_relation == rel,
                self.elements@.len() == n,
                self.elements@.to_multiset() == ms,
                current_child < n,
                ordered_except(rel, self.elements@, current_child as int),
                bridged(rel, self.elements@, current_child as int),
            ensures
                heap_ordered(rel, self.elements@),
                self.parent_child_relation == rel,
                self.elements@.len() == n,
                self.elements@.to_multiset() == ms,
            decreases current_child,
        {
            let current_parent = parent_of(current_child);
            if self.heap_property_satisfied(current_parent, current_child) {
                break;
            }
            let ghost s = self.elements@;
            let ghost k = current_child as int;
            let ghost p = current_parent as int;
            swap_elements(&mut self.elements, current_parent, current_child);
            proof {
                let s2 = self.elements@;
                lemma_swapped_multiset(s, p, k);
                lemma_dominates_total(rel, s[p], s[k]);
                assert forall|i: int| 0 < i < n && i != p implies rel.dominates(
                    s2[parent(i)],
                    #[trigger] s2[i],
                ) by {
                    if i == k {
                    } else if parent(i) == k {
                    } else if parent(i) == p {
                        assert(rel.dominates(s[p], s[i]));
                        lemma_dominates_trans(rel, s[k], s[p], s[i]);
                    } else {
                        assert(s2[i] == s[i]);
                        assert(s2[parent(i)] == s[parent(i)]);
                    }
                }
                if p > 0 {
                    assert(rel.dominates(s[parent(p)], s[p]));
                    assert forall|c: int| 0 < c < n && parent(c) == p implies rel.dominates(
                        s2[parent(p)],
                        #[trigger] s2[c],
                    ) by {
                        if c != k {
                            assert(rel.dominates(s[p], s[c]));
                            lemma_dominates_trans(rel, s[parent(p)], s[p], s[c]);
                        }
                    }
                }
            }
            current_child = current_parent;
        }
    }

    /// The element on top, or `None` when the heap is empty; it dominates
    /// every element of the heap.
    pub fn find_top(&self) -> (r: Option<&T>)
        requires
            total_order::<T>(),
            self.well_formed(),
        ensures
            r is None <==> self@.len() == 0,
            r matches Some(x) ==> {
                &&& *x == self@[0]
                &&& forall|i: int| 0 <= i < self@.len() ==> self.relation().dominates(*x, #[trigger] self@[i])
            },
    {
        proof {
            if self@.len() > 0 {
                lemma_root_dominates(self.relation(), self@);
            }
        }
        self.elements.first()
    }

    /// What an extraction from this heap owes: `r` and the heap `after` it.
    /// An empty heap hands back `None` and stays as it is; otherwise the
    /// former top comes back, dominating every element, and `after` is a
    /// heap holding the rest.
    pub open spec fn extracts_top(&self, after: &Self, r: Option<T>) -> bool {
        &&& after.well_formed()
        &&& heap_property(after.relation(), after@)
        &&& after.relation() == self.relation()
        &&& self@.len() == 0 ==> r is None && after@ == self@
        &&& self@.len() > 0 ==> r == Some(self@[0])
        &&& r matches Some(x) ==> {
            &&& extraction(self.relation(), self@, x, after@)
            &&& after@.len() == self@.len() - 1
            &&& after@.to_multiset() == self@.to_multiset().remove(x)
            &&& after@.to_multiset().count(x) == self@.to_multiset().count(x) - 1
            &&& forall|i: int|
                0 <= i < self@.len() ==> self.relation().dominates(x, #[trigger] self@[i])
        }
    }

    /// Removes and returns the element on top, or `None` when the heap is
    /// empty. Ties among children are broken by the thread's random
    /// generator.
    pub fn extract_top(&mut self) -> (r: Option<T>)
        requires
            total_order::<T>(),
            old(self).well_formed(),
        ensures
            old(self).extracts_top(final(self), r),
    {
        self.extract_top_with(&mut ThreadRandom)
    }

    /// Removes and returns the element on top, or `None` when the heap is
    /// empty. The last element takes the root's place and sinks while a
    /// child ought to stand above it; where two equal children both ought
    /// to, `source` picks the one it goes to.
    pub fn extract_top_with<R: ChoiceSource>(&mut self, source: &mut R) -> (r: Option<T>)
        requires
            total_order::<T>(),
            old(self).well_formed(),
        ensures
            old(self).extracts_top(final(self), r),
    {
        if self.elements.len() == 0 {
            proof {
                lemma_heap_property(self.relation(), self@);
            }
            return None;
        }
        let ghost s = self.elements@;
        let ghost rel = self.parent_child_relation;
        proof {
            lemma_root_dominates(rel, s);
            assert(s.to_multiset().count(s[0]) > 0);
        }
        let last = self.elements.len() - 1;
        swap_elements(&mut self.elements, 0, last);
        let result = self.elements.pop();
        proof {
            let s1 = swapped(s, 0, last as int);
            lemma_swapped_multiset(s, 0, last as int);
            assert(s1 == self.elements@.push(s[0]));
            assert(self.elements@.to_multiset() =~= s.to_multiset().remove(s[0]));
            assert forall|i: int|
                0 < i < self.elements@.len() && parent(i) != 0 implies rel.dominates(
                self.elements@[parent(i)],
                #[trigger] self.elements@[i],
            ) by {
                assert(self.elements@[i] == s[i]);
                assert(self.elements@[parent(i)] == s[parent(i)]);
            }
        }
        if self.elements.len() > 0 {
            self.shift_down(source);
        }
        proof {
            lemma_heap_property(self.relation(), self@);
        }
        result
    }

    fn shift_down<R: ChoiceSource>(&mut self, source: &mut R)
        requires
            total_order::<T>(),
            old(self)@.len() > 0,
            ordered_below_except(old(self).relation(), old(self)@, 0),
        ensures
            final(self).well_formed(),
            final(self).relation() == old(self).relation(),
            final(self)@.len() == old(self)@.len(),
            final(self)@.to_multiset() == old(self)@.to_multiset(),
    {
        let ghost rel = self.parent_child_relation;
        let ghost n = self.elements@.len();
        let ghost ms = self.elements@.to_multiset();
        let size = self.elements.len();
        let mut current_parent: usize = 0;
        loop
            invariant
                total_order::<T>(),
                self.parent_child_relation == rel,
                self.elements@.len() == n,
                size == n,
                self.elements@.to_multiset() == ms,
                current_parent < n,
                ordered_below_except(rel, self.elements@, current_parent as int),
                bridged(rel, self.elements@, current_parent as int),
            ensures
                heap_ordered(rel, self.elements@),
                self.parent_child_relation == rel,
                self.elements@.len() == n,
                self.elements@.to_multiset() == ms,
            decreases n - current_parent,
        {
            let ghost s = self.elements@;
            let ghost k = current_parent as int;
            if current_parent >= size / 2 {
                assert forall|i: int| 0 < i < n implies rel.dominates(s[parent(i)], #[trigger] s[i]) by {
                    assert(parent(i) != k);
                }
                break;
            }
            let left_child = left_child_of(current_parent);
            let right_child = right_child_of(current_parent);
            let left_violates = !self.heap_property_satisfied(current_parent, left_child);
            let right_violates = right_child < size
                && !self.heap_property_satisfied(current_parent, right_child);
            if !left_violates && !right_violates {
                assert forall|i: int| 0 < i < n implies rel.dominates(s[parent(i)], #[trigger] s[i]) by {
                    if parent(i) == k {
                        assert(i == left_child || i == right_child);
                    }
                }
                break;
            }
            let current_child = if left_violates && right_violates {
                let left_over_right = self.heap_property_satisfied(left_child, right_child);
                let right_over_left = self.heap_property_satisfied(right_child, left_child);
                if left_over_right && right_over_left {
                    let mut candidates: Vec<usize> = Vec::new();
                    candidates.push(left_child);
                    candidates.push(right_child);
                    match get_random(&candidates, source) {
                        Some(c) => c,
                        None => left_child,
                    }
                } else if left_over_right {
                    left_child
                } else {
                    right_child
                }
            } else if left_violates {
                left_child
            } else {
                right_child
            };
            let ghost c = current_child as int;
            proof {
                assert(c == left_child || c == right_child);
                lemma_dominates_total(rel, s[k], s[c]);
                lemma_dominates_total(rel, s[left_child as int], s[right_child as int]);
                if right_child < size {
                    let o = if c == left_child { right_child as int } else { left_child as int };
                    lemma_dominates_total(rel, s[k], s[o]);
                    if rel.dominates(s[k], s[o]) {
                        lemma_dominates_trans(rel, s[c], s[k], s[o]);
                    }
                    assert(rel.dominates(s[c], s[o]));
                }
                if k > 0 {
                    assert(rel.dominates(s[parent(k)], s[c]));
                }
            }
            swap_elements(&mut self.elements, current_parent, current_child);
            proof {
                let s2 = self.elements@;
                lemma_swapped_multiset(s, k, c);
                assert forall|i: int| 0 < i < n && parent(i) != c implies rel.dominates(
                    s2[parent(i)],
                    #[trigger] s2[i],
                ) by {
                    if i == c {
                    } else if parent(i) == k {
                        assert(i == left_child || i == right_child);
                    } else if i == k {
                        assert(s2[parent(k)] == s[parent(k)]);
                    } else {
                        assert(s2[i] == s[i]);
                        assert(s2[parent(i)] == s[parent(i)]);
                    }
                }
                assert forall|g: int| 0 < g < n && parent(g) == c implies rel.dominates(
                    s2[parent(c)],
                    #[trigger] s2[g],
                ) by {
                    assert(s2[g] == s[g]);
                    assert(rel.dominates(s[parent(g)], s[g]));
                }
            }
            current_parent = current_child;
        }
    }

    /// Inserts the values of `slice` one after the other.
    pub fn insert_all(&mut self, slice: &[T])
        where
            T: Clone,
        requires
            total_order::<T>(),
            faithful_clone::<T>(),
            old(self).well_formed(),
        ensures
            final(self).well_formed(),
            final(self).relation() == old(self).relation(),
            final(self)@.len() == old(self)@.len() + slice@.len(),
            final(self)@.to_multiset() == old(self)@.to_multiset().add(slice@.to_multiset()),
    {
        let ghost ms = self@.to_multiset();
        let ghost n = self@.len();
        let mut i: usize = 0;
        while i < slice.len()
            invariant
                total_order::<T>(),
                faithful_clone::<T>(),
                self.well_formed(),
                self.relation() == old(self).relation(),
                i <= slice@.len(),
                self@.len() == n + i,
                self@.to_multiset() == ms.add(slice@.subrange(0, i as int).to_multiset()),
            decreases slice@.len() - i,
        {
            let value = slice[i].clone();
            assert(strictly_cloned(slice@[i as int], value));
            assert(value == slice@[i as int]);
            self.insert(value);
            proof {
                assert(slice@.subrange(0, i + 1) == slice@.subrange(0, i as int).push(slice@[i as int]));
                assert(self@.to_multiset() =~= ms.add(slice@.subrange(0, i + 1).to_multiset()));
            }
            i = i + 1;
        }
        assert(slice@.subrange(0, i as int) == slice@);
    }

    /// The number of elements in the heap.
    pub fn len(&self) -> (r: usize)
        ensures
            r == self@.len(),
    {
        self.elements.len()
    }

    /// The heap holds no element.
    pub fn is_empty(&self) -> (r: bool)
        ensures
            r <==> self@.len() == 0,
    {
        self.elements.len() == 0
    }

    /// How many elements equal `item`; none when `item` is `None`.
    pub fn occurrence_of(&self, item: Option<&T>) -> (r: usize)
        requires
            total_order::<T>(),
        ensures
            r == match item {
                None => 0,
                Some(x) => self@.to_multiset().count(*x),
            },
    {
        match item {
            None => 0,
            Some(x) => {
                let mut count: usize = 0;
                let mut i: usize = 0;
                while i < self.elements.len()
                    invariant
                        total_order::<T>(),
                        i <= self@.len(),
                        count <= i,
                        count == self@.subrange(0, i as int).to_multiset().count(*x),
                    decreases self@.len() - i,
                {
                    proof {
                        lemma_equality::<T>();
                        assert(self@.subrange(0, i + 1) == self@.subrange(0, i as int).push(self@[i as int]));
                        assert(self@.subrange(0, i as int).len() == i);
                    }
                    if self.elements[i] == *x {
                        count = count + 1;
                    }
                    i = i + 1;
                }
                assert(self@.subrange(0, i as int) == self@);
                count
            },
        }
    }

    fn heap_property_satisfied(&self, parent_index: usize, child_index: usize) -> (r: bool)
        requires
            total_order::<T>(),
            parent_index < self@.len(),
            child_index < self@.len(),
        ensures
            r == self.relation().dominates(self@[parent_index as int], self@[child_index as int]),
    {
        self.parent_child_relation.rel(&self.elements[parent_index], &self.elements[child_index])
    }
}

impl<T> Heap<T> {
    /// The live elements, in their order in the array.
    pub fn iter(&self) -> (r: std::slice::Iter<'_, T>)
        ensures
            r.remaining() == self@.as_ref(),
    {
        broadcast use vstd::std_specs::slice::axiom_spec_slice_iter;

        self.elements.as_slice().iter()
    }
}

} // verus!
