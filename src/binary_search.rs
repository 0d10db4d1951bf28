//! Search for a value in an ascending slice by halving the range that may
//! hold it.
use vstd::prelude::*;
use vstd::std_specs::cmp::OrdSpec;
use core::cmp::Ordering;
use crate::order::{le, lt, total_order, lemma_cmp, lemma_le_antisym, lemma_le_trans, lemma_operators};

verus! {

/// `s` is in ascending order.
pub open spec fn sorted<T: Ord>(s: Seq<T>) -> bool {
    forall|i: int, j: int| 0 <= i <= j < s.len() ==> le(#[trigger] s[i], #[trigger] s[j])
}

/// Looks for `value` in the ascending `slice`: the index of an element equal
/// to it, or `None` where no element is.
pub fn binary_search<T: Ord>(slice: &[T], value: &T) -> (r: Option<usize>)
    requires
        total_order::<T>(),
        sorted(slice@),
    ensures
        match r {
            Some(i) => i < slice@.len() && slice@[i as int] == *value,
            None => !slice@.contains(*value),
        },
{
    proof {
        lemma_operators::<T>();
    }
    let mut lo: usize = 0;
    let mut hi: usize = slice.len();
    while lo < hi
        invariant
            total_order::<T>(),
            sorted(slice@),
            T::obeys_cmp_spec(),
            lo <= hi <= slice@.len(),
            forall|i: int| 0 <= i < lo ==> lt(#[trigger] slice@[i], *value),
            forall|i: int| hi <= i < slice@.len() ==> lt(*value, #[trigger] slice@[i]),
        decreases hi - lo,
    {
        let mid = lo + (hi - lo) / 2;
        let focused = &slice[mid];
        proof {
            lemma_cmp(*focused, *value);
        }
        match focused.cmp(value) {
            Ordering::Equal => return Some(mid),
            Ordering::Less => {
                assert forall|i: int| 0 <= i <= mid implies lt(#[trigger] slice@[i], *value) by {
                    lemma_le_trans(slice@[i], slice@[mid as int], *value);
                    if slice@[i] == *value {
                        lemma_le_antisym(slice@[mid as int], *value);
                    }
                }
                lo = mid + 1;
            },
            Ordering::Greater => {
                assert forall|i: int| mid <= i < slice@.len() implies lt(*value, #[trigger] slice@[i]) by {
                    lemma_le_trans(*value, slice@[mid as int], slice@[i]);
                    if slice@[i] == *value {
                        lemma_le_antisym(slice@[mid as int], *value);
                    }
                }
                hi = mid;
            },
        }
    }
    None
}

} // verus!
