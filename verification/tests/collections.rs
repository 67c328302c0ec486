use rialight::collection_literals::{btree_map, btree_set, hash_map, hash_set};
use std::collections::{HashMap, HashSet};
use std::sync::OnceLock;

#[test]
fn lazy_static_utility() {
    static HASHMAP: OnceLock<HashMap<i64, i64>> = OnceLock::new();
    let map = HASHMAP.get_or_init(|| hash_map(vec![(0, 64), (1, 128)]));
    assert_eq!(map[&0], 64);
}

#[test]
fn lib_map_literal() {
    let map = hash_map(vec![("a", "foo"), ("b", "bar")]);
    assert_eq!(map["a"], "foo");
    assert_eq!(map["b"], "bar");
    let map = btree_map(vec![("a", "foo"), ("b", "bar")]);
    assert_eq!(map["a"], "foo");
    assert_eq!(map["b"], "bar");
}

#[test]
fn lib_set_literal() {
    assert!(hash_set(vec!["foo"]).contains("foo"));
    assert!(btree_set(vec!["foo"]).contains("foo"));
}

#[test]
fn mod_map_literal() {
    let map: HashMap<&'static str, &'static str> = hash_map(vec![("a", "foo"), ("b", "bar")]);
    assert_eq!(map["a"], "foo");
    assert_eq!(map["b"], "bar");

    let map = hash_map(vec![("a", "foo"), ("b", "bar")]);
    assert_eq!(map["a"], "foo");
    assert_eq!(map["b"], "bar");

    let map = btree_map(vec![("a", "foo"), ("b", "bar")]);
    assert_eq!(map["a"], "foo");
    assert_eq!(map["b"], "bar");
}

#[test]
fn mod_set_literal() {
    let set: HashSet<&'static str> = hash_set(vec!["foo"]);
    assert!(set.contains("foo"));

    assert!(hash_set(vec!["foo"]).contains("foo"));
    assert!(btree_set(vec!["foo"]).contains("foo"));
}

#[test]
fn later_entries_replace_earlier_ones() {
    let map = hash_map(vec![(1, "a"), (2, "b"), (1, "c")]);
    assert_eq!(map.len(), 2);
    assert_eq!(map[&1], "c");
    let map = btree_map(vec![(1, "a"), (2, "b"), (1, "c")]);
    assert_eq!(map.len(), 2);
    assert_eq!(map[&1], "c");
    assert_eq!(hash_set(vec![3, 3, 4]).len(), 2);
    assert_eq!(btree_set(vec![3, 3, 4]).len(), 2);
    assert!(hash_map(Vec::<(u8, u8)>::new()).is_empty());
}
