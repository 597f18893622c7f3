//! An algebra of combinable values: a hierarchy of capability traits
//! (associative combine, identity, commutativity, a second ring-like
//! operation), generic utilities that work for any conforming type, and
//! composition rules that lift combinability through pairs, optional
//! values and key-to-value maps.
pub mod instances;
pub mod merge_map;
pub mod traits;
