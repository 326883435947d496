//! Bubble sort.

use crate::sort::order::{
    le, lemma_le_trans, lemma_operators, lemma_swap_keeps_elements, lemma_total, sorted,
    sorted_upto, total_order,
};
use crate::sort::Sorter;
use vstd::prelude::*;

verus! {

/// Sorts by sweeping over the slice and exchanging neighbours that are out of
/// order, until a sweep finds nothing to exchange.
pub struct Bubble;

/// Every element from index `from` on is at least as large as every element
/// before it.
pub open spec fn settled_from<T: Ord>(s: Seq<T>, from: int) -> bool {
    forall|a: int, b: int| 0 <= a < b < s.len() && from <= b ==> le(s[a], s[b])
}

/// The element at index `at` is at least as large as every element before
/// it.
pub open spec fn tops<T: Ord>(s: Seq<T>, at: int) -> bool {
    forall|a: int| 0 <= a < at ==> le(#[trigger] s[a], s[at])
}

impl Sorter for Bubble {
    fn sort<T>(&self, slice: &mut [T]) where T: Ord {
        let len = slice.len();
        let mut swapped = true;
        let ghost mut sweeps: int = 0;
        while swapped
            invariant
                total_order::<T>(),
                slice@.len() == len,
                0 <= sweeps <= len + 1,
                swapped ==> sweeps <= len,
                !swapped ==> sorted(slice@),
                settled_from(slice@, len - sweeps),
                slice@.to_multiset() == old(slice)@.to_multiset(),
            decreases len + 1 - sweeps,
        {
            swapped = false;
            let mut i: usize = 1;
            while i < len
                invariant
                    total_order::<T>(),
                    slice@.len() == len,
                    0 <= sweeps <= len,
                    1 <= i,
                    len >= 1 ==> i <= len,
                    settled_from(slice@, len - sweeps),
                    tops(slice@, i - 1),
                    sweeps < len && i >= len - sweeps ==> tops(slice@, len - sweeps - 1),
                    !swapped ==> sorted_upto(slice@, i as int),
                    sweeps == len ==> !swapped,
                    slice@.to_multiset() == old(slice)@.to_multiset(),
                decreases len - i,
            {
                let ghost before = slice@;
                proof {
                    lemma_operators::<T>();
                    lemma_total(before[i - 1], before[i as int]);
                }
                if slice[i - 1] > slice[i] {
                    slice.swap(i, i - 1);
                    swapped = true;
                    proof {
                        lemma_swap_keeps_elements(before, i as int, i - 1);
                        assert(i < len - sweeps) by {
                            if i >= len - sweeps {
                                assert(le(before[i - 1], before[i as int]));
                            }
                        }
                        assert forall|a: int, b: int|
                            0 <= a < b < len && len - sweeps <= b implies le(
                            slice@[a],
                            slice@[b],
                        ) by {
                            assert(le(before[i - 1], before[b]));
                            assert(le(before[i as int], before[b]));
                            assert(le(before[a], before[b]));
                        }
                        assert forall|a: int| 0 <= a < i implies le(
                            #[trigger] slice@[a],
                            slice@[i as int],
                        ) by {
                            if a < i - 1 {
                                assert(le(before[a], before[i - 1]));
                            }
                        }
                    }
                } else {
                    proof {
                        assert forall|a: int| 0 <= a < i implies le(
                            #[trigger] slice@[a],
                            slice@[i as int],
                        ) by {
                            if a < i - 1 {
                                lemma_le_trans(before[a], before[i - 1], before[i as int]);
                            }
                        }
                    }
                }
                i = i + 1;
            }
            proof {
                sweeps = sweeps + 1;
            }
        }
    }
}

} // verus!
