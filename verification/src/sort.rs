//! In-place comparison sorts behind one shared trait.
//!
//! Every sorter promises the same thing: afterwards the slice is in
//! ascending order and holds exactly the elements it held before.

use vstd::prelude::*;

pub mod order;
pub mod slices;
mod bubble;
mod quick;
mod selection;
mod insertion;

pub use bubble::Bubble;
pub use insertion::Insertion;
pub use selection::Selection;
pub use quick::{quicksort, Quick};
pub use order::{le, sorted, total_order};

verus! {

/// A strategy for sorting a slice in place.
pub trait Sorter {
    /// Sorts `slice` in ascending order.
    fn sort<T>(&self, slice: &mut [T]) where T: Ord
        requires
            total_order::<T>(),
        ensures
            sorted(final(slice)@),
            final(slice)@.to_multiset() == old(slice)@.to_multiset(),
    ;
}

} // verus!
