//! Updates of the standard collections, and the write-session methods that
//! apply them.

pub mod vec;
pub mod vec_sort;
pub mod vec_laws;
pub mod hashmap;
pub mod hashset;
pub mod btreemap;
pub mod btreeset;
