//! Quicksort.

use crate::sort::order::{
    gt, le, lemma_le_trans, lemma_operators, lemma_swap_keeps_elements, lemma_total, sorted,
    total_order,
};
use crate::sort::Sorter;
use vstd::prelude::*;

verus! {

/// Sorts by partitioning around the first element and recursing into both
/// parts.
pub struct Quick;

/// The elements of `s` at the indices `from..to` all are `le` the `pivot`.
pub open spec fn all_le<T: Ord>(s: Seq<T>, from: int, to: int, pivot: T) -> bool {
    forall|k: int| from <= k < to ==> le(#[trigger] s[k], pivot)
}

/// The elements of `s` at the indices `from..to` all are `gt` the `pivot`.
pub open spec fn all_gt<T: Ord>(s: Seq<T>, from: int, to: int, pivot: T) -> bool {
    forall|k: int| from <= k < to ==> gt(#[trigger] s[k], pivot)
}

/// Two sorted runs with a pivot between them, no smaller than the first run
/// and smaller than the second, form one sorted sequence.
pub proof fn lemma_join_sorted<T: Ord>(low: Seq<T>, pivot: T, high: Seq<T>)
    requires
        total_order::<T>(),
        sorted(low),
        sorted(high),
        all_le(low, 0, low.len() as int, pivot),
        all_gt(high, 0, high.len() as int, pivot),
    ensures
        sorted(low + seq![pivot] + high),
{
    let whole = low + seq![pivot] + high;
    assert forall|i: int, j: int| 0 <= i < j < whole.len() implies le(whole[i], whole[j]) by {
        let n = low.len() as int;
        if j < n {
            assert(le(low[i], low[j]));
        } else if j == n {
            assert(le(low[i], pivot));
        } else {
            let y = high[j - n - 1];
            assert(gt(y, pivot));
            lemma_total(y, pivot);
            if i < n {
                assert(le(low[i], pivot));
                lemma_le_trans(low[i], pivot, y);
            } else if i == n {
            } else {
                assert(le(high[i - n - 1], high[j - n - 1]));
            }
        }
    }
}

/// A bound that holds for every element of a sequence holds for every
/// element of a rearrangement of it.
pub proof fn lemma_rearranged_all_le<T: Ord>(before: Seq<T>, after: Seq<T>, pivot: T)
    requires
        before.to_multiset() == after.to_multiset(),
        all_le(before, 0, before.len() as int, pivot),
    ensures
        all_le(after, 0, after.len() as int, pivot),
{
    assert forall|k: int| 0 <= k < after.len() implies le(#[trigger] after[k], pivot) by {
        assert(after.contains(after[k]));
        vstd::seq_lib::to_multiset_contains(after, after[k]);
        vstd::seq_lib::to_multiset_contains(before, after[k]);
        let w = choose|w: int| 0 <= w < before.len() && before[w] == after[k];
        assert(le(before[w], pivot));
    }
}

/// A strict lower bound that holds for every element of a sequence holds for
/// every element of a rearrangement of it.
pub proof fn lemma_rearranged_all_gt<T: Ord>(before: Seq<T>, after: Seq<T>, pivot: T)
    requires
        before.to_multiset() == after.to_multiset(),
        all_gt(before, 0, before.len() as int, pivot),
    ensures
        all_gt(after, 0, after.len() as int, pivot),
{
    assert forall|k: int| 0 <= k < after.len() implies gt(#[trigger] after[k], pivot) by {
        assert(after.contains(after[k]));
        vstd::seq_lib::to_multiset_contains(after, after[k]);
        vstd::seq_lib::to_multiset_contains(before, after[k]);
        let w = choose|w: int| 0 <= w < before.len() && before[w] == after[k];
        assert(gt(before[w], pivot));
    }
}

/// Sorts `slice` in ascending order.
///
/// The first element serves as the pivot. Two cursors walk towards each other
/// over the rest, exchanging an element larger than the pivot on the left
/// with one no larger on the right, until they meet; the pivot then moves
/// between the two parts, and each part is sorted in turn.
pub fn quicksort<T: Ord>(slice: &mut [T])
    requires
        total_order::<T>(),
    ensures
        sorted(final(slice)@),
        final(slice)@.to_multiset() == old(slice)@.to_multiset(),
    decreases old(slice)@.len(),
{
    let len = slice.len();
    if len <= 1 {
        return ;
    }
    proof {
        lemma_operators::<T>();
    }
    if len == 2 {
        let ghost before = slice@;
        if slice[0] > slice[1] {
            slice.swap(0, 1);
            proof {
                lemma_total(before[0], before[1]);
                lemma_swap_keeps_elements(before, 0, 1);
            }
            return ;
        }
    }
    let ghost pivot = slice@[0];
    let mut left: usize = 0;
    let mut right: usize = len - 2;
    while left <= right
        invariant_except_break
            left <= right + 1,
        invariant
            total_order::<T>(),
            slice@.len() == len,
            len >= 2,
            slice@[0] == pivot,
            right <= len - 2,
            all_le(slice@, 1, left + 1, pivot),
            all_gt(slice@, right + 2, len as int, pivot),
            slice@.to_multiset() == old(slice)@.to_multiset(),
        ensures
            left <= len - 1,
            all_gt(slice@, left + 1, len as int, pivot),
        decreases right + 1 - left,
    {
        let ghost before = slice@;
        proof {
            lemma_operators::<T>();
            lemma_total(before[left + 1], pivot);
            lemma_total(before[right + 1], pivot);
        }
        if slice[left + 1] <= slice[0] {
            left += 1;
        } else if slice[right + 1] > slice[0] {
            if right == 0 {
                break ;
            }
            right -= 1;
        } else {
            slice.swap(left + 1, right + 1);
            proof {
                lemma_swap_keeps_elements(before, left + 1, right + 1);
            }
            left += 1;
            if right == 0 {
                break ;
            }
            right -= 1;
        }
    }
    let left = left + 1;
    let ghost parted = slice@;
    slice.swap(0, left - 1);
    proof {
        lemma_swap_keeps_elements(parted, 0, left - 1);
        assert(slice@[left - 1] == pivot);
        assert(all_le(slice@, 0, left - 1, pivot)) by {
            assert forall|k: int| 0 <= k < left - 1 implies le(#[trigger] slice@[k], pivot) by {
                if k == 0 {
                    assert(slice@[0] == parted[left - 1]);
                    lemma_total(pivot, pivot);
                } else {
                    assert(slice@[k] == parted[k]);
                }
            }
        }
        assert(all_gt(slice@, left as int, len as int, pivot)) by {
            assert forall|k: int| left <= k < len implies gt(#[trigger] slice@[k], pivot) by {
                assert(slice@[k] == parted[k]);
            }
        }
    }
    let ghost placed = slice@;
    let (low, rest) = slice.split_at_mut(left - 1);
    let ghost low_before = low@;
    quicksort(low);
    let (mid, high) = rest.split_at_mut(1);
    let ghost high_before = high@;
    quicksort(high);
    proof {
        let n = left - 1;
        assert(low_before == placed.subrange(0, n));
        assert(high_before == placed.subrange(n + 1, len as int));
        assert(all_le(low_before, 0, low_before.len() as int, pivot)) by {
            assert forall|k: int| 0 <= k < low_before.len() implies le(
                #[trigger] low_before[k],
                pivot,
            ) by {
                assert(low_before[k] == placed[k]);
            }
        }
        assert(all_gt(high_before, 0, high_before.len() as int, pivot)) by {
            assert forall|k: int| 0 <= k < high_before.len() implies gt(
                #[trigger] high_before[k],
                pivot,
            ) by {
                assert(high_before[k] == placed[k + n + 1]);
            }
        }
        lemma_rearranged_all_le(low_before, low@, pivot);
        lemma_rearranged_all_gt(high_before, high@, pivot);
        lemma_join_sorted(low@, pivot, high@);
        assert(mid@ =~= seq![pivot]);
        assert(slice@ =~= low@ + seq![pivot] + high@);
        broadcast use vstd::seq_lib::lemma_multiset_commutative;
        assert(placed =~= low_before + seq![pivot] + high_before);
    }
}

impl Sorter for Quick {
    fn sort<T>(&self, slice: &mut [T]) where T: Ord {
        quicksort(slice);
    }
}

} // verus!
