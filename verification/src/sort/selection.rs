//! Selection sort.

use crate::sort::order::{
    le, lemma_le_trans, lemma_operators, lemma_swap_keeps_elements, lemma_total, total_order,
};
use crate::sort::Sorter;
use vstd::prelude::*;

verus! {

/// Sorts by repeatedly moving the smallest element of the unsorted rest to
/// its front.
pub struct Selection;

/// The first `n` elements are in their final places: each is `le` every
/// element after it.
pub open spec fn placed_upto<T: Ord>(s: Seq<T>, n: int) -> bool {
    forall|a: int, b: int| 0 <= a < b < s.len() && a < n ==> le(s[a], s[b])
}

/// The element at `at` is `le` each element at the indices `from..to`.
pub open spec fn least_in<T: Ord>(s: Seq<T>, at: int, from: int, to: int) -> bool {
    forall|k: int| from <= k < to ==> le(s[at], #[trigger] s[k])
}

impl Sorter for Selection {
    fn sort<T>(&self, slice: &mut [T]) where T: Ord {
        let len = slice.len();
        let mut unsorted: usize = 0;
        while unsorted < len
            invariant
                total_order::<T>(),
                slice@.len() == len,
                unsorted <= len,
                placed_upto(slice@, unsorted as int),
                slice@.to_multiset() == old(slice)@.to_multiset(),
            decreases len - unsorted,
        {
            // the first of the smallest elements of the rest
            let mut min_rest = unsorted;
            let mut i = unsorted + 1;
            proof {
                lemma_total(slice@[unsorted as int], slice@[unsorted as int]);
            }
            while i < len
                invariant
                    total_order::<T>(),
                    slice@.len() == len,
                    unsorted <= min_rest < i <= len,
                    least_in(slice@, min_rest as int, unsorted as int, i as int),
                decreases len - i,
            {
                proof {
                    lemma_operators::<T>();
                    lemma_total(slice@[min_rest as int], slice@[i as int]);
                    lemma_total(slice@[i as int], slice@[i as int]);
                }
                if slice[min_rest] > slice[i] {
                    proof {
                        assert forall|k: int| unsorted <= k < i + 1 implies le(
                            slice@[i as int],
                            #[trigger] slice@[k],
                        ) by {
                            if k < i {
                                lemma_le_trans(slice@[i as int], slice@[min_rest as int], slice@[k]);
                            }
                        }
                    }
                    min_rest = i;
                }
                i += 1;
            }
            let ghost before = slice@;
            if unsorted != min_rest {
                slice.swap(unsorted, min_rest);
                proof {
                    lemma_swap_keeps_elements(before, unsorted as int, min_rest as int);
                }
            }
            proof {
                assert forall|a: int, b: int|
                    0 <= a < b < len && a < unsorted + 1 implies le(slice@[a], slice@[b]) by {
                    if a < unsorted {
                        assert(le(before[a], before[b]));
                        assert(le(before[a], before[unsorted as int]));
                        assert(le(before[a], before[min_rest as int]));
                    } else {
                        assert(le(before[min_rest as int], before[b]));
                        assert(le(before[min_rest as int], before[unsorted as int]));
                    }
                }
            }
            unsorted += 1;
        }
    }
}

} // verus!
