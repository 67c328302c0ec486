//! Collections.
//!
//! `StringHashMap` pairs keys that are strings with values; it is a hash map
//! of std whose contents verified code can speak of.

pub use vstd::hash_map::StringHashMap;
