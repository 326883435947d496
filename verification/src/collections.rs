//! Collections, under the path where a standard library keeps them.

pub use crate::hashmap::HashMap;
