//! Insertion sort.

use crate::sort::order::{
    le, lemma_equal, lemma_le_trans, lemma_operators, lemma_swap_keeps_elements, lemma_total,
    sorted, sorted_upto, total_order,
};
use crate::sort::slices::search_answer;
use crate::sort::Sorter;
use vstd::prelude::*;

verus! {

/// Sorts by growing a sorted prefix, one element at a time.
pub struct Insertion {
    /// When set, the place of the next element is found by binary search
    /// and the element is rotated into it; otherwise the element walks
    /// down by exchanges with its neighbour.
    pub smart: bool,
}

/// The first `n` elements, the one at `hole` left aside, are in ascending
/// order, and the one at `hole` is `le` those after it.
pub open spec fn sorted_but<T: Ord>(s: Seq<T>, n: int, hole: int) -> bool {
    &&& forall|a: int, b: int| 0 <= a < b < n && a != hole && b != hole ==> le(s[a], s[b])
    &&& forall|b: int| hole < b < n ==> le(s[hole], #[trigger] s[b])
}

/// `x` may go to index `i` of the sorted sequence `s`: everything before is
/// `le` it and it is `le` everything from there on.
pub open spec fn fits_at<T: Ord>(s: Seq<T>, x: T, i: int) -> bool {
    &&& 0 <= i <= s.len()
    &&& forall|k: int| 0 <= k < i ==> le(#[trigger] s[k], x)
    &&& forall|k: int| i <= k < s.len() ==> le(x, #[trigger] s[k])
}

/// Either answer of a binary search names a place where the element fits.
pub proof fn lemma_insertion_point<T: Ord>(s: Seq<T>, x: T, i: usize)
    requires
        total_order::<T>(),
        sorted(s),
        search_answer(s, x, Ok(i)) || search_answer(s, x, Err(i)),
    ensures
        fits_at(s, x, i as int),
{
    if search_answer(s, x, Ok(i)) && !search_answer(s, x, Err(i)) {
        lemma_equal(s[i as int], x);
        assert forall|k: int| 0 <= k < i implies le(#[trigger] s[k], x) by {
            lemma_le_trans(s[k], s[i as int], x);
        }
        assert forall|k: int| i <= k < s.len() implies le(x, #[trigger] s[k]) by {
            if k > i {
                lemma_le_trans(x, s[i as int], s[k]);
            }
        }
    }
}

/// Taking the element at `n` out of `before` and putting it in at `i`, where
/// it fits into the sorted first `n` elements, leaves the first `n + 1`
/// elements sorted and the elements the same.
pub proof fn lemma_rotated_in<T: Ord>(before: Seq<T>, after: Seq<T>, n: int, i: int)
    requires
        total_order::<T>(),
        0 <= i <= n < before.len(),
        sorted_upto(before, n),
        fits_at(before.subrange(0, n), before[n], i),
        after == before.subrange(0, i) + (before.subrange(n, n + 1) + before.subrange(i, n))
            + before.subrange(n + 1, before.len() as int),
    ensures
        sorted_upto(after, n + 1),
        after.to_multiset() == before.to_multiset(),
{
    let head = before.subrange(0, n);
    let x = before[n];
    assert forall|a: int, b: int| 0 <= a < b < n + 1 implies le(after[a], after[b]) by {
        if b < i {
            assert(le(before[a], before[b]));
        } else if b == i {
            assert(le(head[a], x));
        } else if a < i {
            assert(le(before[a], before[b - 1]));
        } else if a == i {
            assert(le(x, head[b - 1]));
        } else {
            assert(le(before[a - 1], before[b - 1]));
        }
    }
    broadcast use vstd::seq_lib::lemma_multiset_commutative;
    let lo = before.subrange(0, i);
    let mid = before.subrange(i, n);
    let one = before.subrange(n, n + 1);
    let hi = before.subrange(n + 1, before.len() as int);
    assert(before =~= lo + (mid + one) + hi);
    assert((one + mid).to_multiset() =~= (mid + one).to_multiset());
    assert(after.to_multiset() =~= before.to_multiset());
}

impl Sorter for Insertion {
    fn sort<T>(&self, slice: &mut [T]) where T: Ord {
        let len = slice.len();
        let mut unsorted: usize = 1;
        while unsorted < len
            invariant
                total_order::<T>(),
                slice@.len() == len,
                1 <= unsorted,
                len >= 1 ==> unsorted <= len,
                sorted_upto(slice@, unsorted as int),
                slice@.to_multiset() == old(slice)@.to_multiset(),
            decreases len - unsorted,
        {
            if !self.smart {
                let mut i = unsorted;
                while i > 0 && slice[i - 1] > slice[i]
                    invariant
                        total_order::<T>(),
                        slice@.len() == len,
                        i <= unsorted < len,
                        sorted_but(slice@, unsorted + 1, i as int),
                        slice@.to_multiset() == old(slice)@.to_multiset(),
                    decreases i,
                {
                    let ghost before = slice@;
                    slice.swap(i, i - 1);
                    proof {
                        lemma_operators::<T>();
                        lemma_total(before[i - 1], before[i as int]);
                        lemma_swap_keeps_elements(before, i as int, i - 1);
                        assert forall|a: int, b: int|
                            0 <= a < b < unsorted + 1 && a != i - 1 && b != i - 1 implies le(
                            slice@[a],
                            slice@[b],
                        ) by {
                            if b == i {
                                assert(le(before[a], before[i - 1]));
                            } else if a == i {
                                assert(le(before[i - 1], before[b]));
                            } else {
                                assert(le(before[a], before[b]));
                            }
                        }
                        assert forall|b: int| i - 1 < b < unsorted + 1 implies le(
                            slice@[i - 1],
                            #[trigger] slice@[b],
                        ) by {
                            if b > i {
                                assert(le(before[i as int], before[b]));
                            }
                        }
                    }
                    i -= 1;
                }
                proof {
                    lemma_operators::<T>();
                    assert forall|a: int, b: int| 0 <= a < b < unsorted + 1 implies le(
                        slice@[a],
                        slice@[b],
                    ) by {
                        if a == i {
                        } else if b == i {
                            lemma_total(slice@[i - 1], slice@[i as int]);
                            if a < i - 1 {
                                lemma_le_trans(slice@[a], slice@[i - 1], slice@[i as int]);
                            }
                        } else {
                        }
                    }
                }
            } else {
                let ghost before = slice@;
                let (head, rest) = slice.split_at(unsorted);
                proof {
                    assert(sorted(head@)) by {
                        assert forall|a: int, b: int| 0 <= a < b < head@.len() implies le(
                            head@[a],
                            head@[b],
                        ) by {
                            assert(le(before[a], before[b]));
                        }
                    }
                }
                let i = match head.binary_search(&rest[0]) {
                    Ok(i) => i,
                    Err(i) => i,
                };
                let ghost x = before[unsorted as int];
                proof {
                    assert(head@ == before.subrange(0, unsorted as int));
                    assert(rest@[0] == x);
                    lemma_insertion_point(head@, x, i);
                }
                let (front, _) = slice.split_at_mut(unsorted + 1);
                let (_, window) = front.split_at_mut(i);
                let ghost window_before = window@;
                window.rotate_right(1);
                proof {
                    assert(window_before =~= before.subrange(i as int, unsorted + 1));
                    assert(window@ =~= before.subrange(unsorted as int, unsorted + 1)
                        + before.subrange(i as int, unsorted as int));
                    assert(slice@ =~= before.subrange(0, i as int) + (before.subrange(
                        unsorted as int,
                        unsorted + 1,
                    ) + before.subrange(i as int, unsorted as int)) + before.subrange(
                        unsorted + 1,
                        len as int,
                    ));
                    lemma_rotated_in(before, slice@, unsorted as int, i as int);
                }
            }
            unsorted += 1;
        }
    }
}

} // verus!
