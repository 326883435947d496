//! Contracts for the slice operations of the standard library that the
//! sorters call.

use crate::sort::order::{equal, le, sorted, total_order};
use vstd::prelude::*;

verus! {

/// What a binary search for `x` in the sorted sequence `s` may answer: the
/// index of an element that ties with `x`, or else an index at which `x`
/// could be inserted with the sequence staying sorted.
pub open spec fn search_answer<T: Ord>(s: Seq<T>, x: T, answer: Result<usize, usize>) -> bool {
    match answer {
        Ok(i) => i < s.len() && equal(s[i as int], x),
        Err(i) => {
            &&& i <= s.len()
            &&& forall|k: int| 0 <= k < i ==> le(#[trigger] s[k], x)
            &&& forall|k: int| i <= k < s.len() ==> le(x, #[trigger] s[k])
        },
    }
}

/// `<[E]>::swap` exchanges the elements at `a` and `b` and leaves every
/// other element where it was. It panics when an index is out of bounds,
/// so both must be in range.
pub assume_specification<E>[ <[E]>::swap ](slice: &mut [E], a: usize, b: usize)
    requires
        a < old(slice)@.len(),
        b < old(slice)@.len(),
    ensures
        final(slice)@ == old(slice)@.update(a as int, old(slice)@[b as int]).update(
            b as int,
            old(slice)@[a as int],
        ),
;

/// `<[E]>::rotate_right` moves the last `k` elements to the front and the
/// elements before them to the end, each group keeping its order. It panics
/// when `k` exceeds the length.
pub assume_specification<E>[ <[E]>::rotate_right ](slice: &mut [E], k: usize)
    requires
        k <= old(slice)@.len(),
    ensures
        final(slice)@ == old(slice)@.subrange(
            old(slice)@.len() - k,
            old(slice)@.len() as int,
        ) + old(slice)@.subrange(0, old(slice)@.len() - k),
;

/// `<[E]>::binary_search` on a slice sorted by a total order returns `Ok`
/// with the index of some element that ties with `x`, or `Err` with an
/// index where `x` could be inserted while keeping the slice sorted. On an
/// unsorted slice its answer means nothing.
pub assume_specification<E>[ <[E]>::binary_search ](slice: &[E], x: &E) -> (answer: Result<
    usize,
    usize,
>) where E: Ord
    ensures
        total_order::<E>() && sorted(slice@) ==> search_answer(slice@, *x, answer),
;

} // verus!
