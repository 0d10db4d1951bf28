//! An array-backed binary heap with a configurable ordering, and a binary
//! search over sorted slices, both verified against their contracts.
use vstd::prelude::*;

pub mod order;
pub mod binary_search;
pub mod random;
pub mod heap;
pub mod heap_laws;

pub use binary_search::binary_search;
pub use heap::{Heap, ParentChildRelation};

verus! {

} // verus!
