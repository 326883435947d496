//! Small, verified building blocks: a multi-producer single-consumer channel,
//! comparison sorts, a hash map and the borrow rules of a reference cell.

pub mod channel;
pub mod collections;
pub mod hashmap;
pub mod refcell;
pub mod sort;
