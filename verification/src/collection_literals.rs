//! Collections made from a list of their entries.
//!
//! What is known of a hash map or hash set rests on the key's `Hash` and
//! `Eq` agreeing with equality, and what is known of a tree map or tree set
//! on the key's `Ord` being a total order that agrees with it; vstd states
//! both for the integer types.

use vstd::prelude::*;
use std::collections::{BTreeMap, BTreeSet, HashMap, HashSet};
use std::hash::Hash;
use vstd::laws_cmp::obeys_cmp;
use vstd::std_specs::hash::obeys_key_model;

verus! {

/// The map that holds `entries`, where a later entry replaces an earlier
/// one with the same key.
pub open spec fn map_of<K, V>(entries: Seq<(K, V)>) -> Map<K, V>
    decreases entries.len(),
{
    if entries.len() == 0 {
        Map::<K, V>::empty()
    } else {
        map_of(entries.drop_last()).insert(entries.last().0, entries.last().1)
    }
}

/// The set that holds `values`.
pub open spec fn set_of<K>(values: Seq<K>) -> Set<K>
    decreases values.len(),
{
    if values.len() == 0 {
        Set::<K>::empty()
    } else {
        set_of(values.drop_last()).insert(values.last())
    }
}

/// The map that holds the first `count` of `entries`.
pub open spec fn map_of_first<K, V>(entries: Seq<(K, V)>, count: int) -> Map<K, V> {
    map_of(entries.take(count))
}

/// The set that holds the first `count` of `values`.
pub open spec fn set_of_first<K>(values: Seq<K>, count: int) -> Set<K> {
    set_of(values.take(count))
}

/// One more entry is one more insertion.
proof fn lemma_map_of_next<K, V>(entries: Seq<(K, V)>, count: int)
    requires
        0 <= count < entries.len(),
    ensures
        map_of_first(entries, count + 1) == map_of_first(entries, count).insert(
            entries[count].0,
            entries[count].1,
        ),
        map_of_first(entries, entries.len() as int) == map_of(entries),
{
    assert(entries.take(count + 1).drop_last() == entries.take(count));
    assert(entries.take(entries.len() as int) == entries);
}

/// One more value is one more insertion.
proof fn lemma_set_of_next<K>(values: Seq<K>, count: int)
    requires
        0 <= count < values.len(),
    ensures
        set_of_first(values, count + 1) == set_of_first(values, count).insert(values[count]),
        set_of_first(values, values.len() as int) == set_of(values),
{
    assert(values.take(count + 1).drop_last() == values.take(count));
    assert(values.take(values.len() as int) == values);
}

/// All of a list is the list.
proof fn lemma_take_all<K>(values: Seq<K>)
    ensures
        values.take(values.len() as int) == values,
{
}

/// A hash map of the given entries. Where a key occurs twice, its last value
/// counts.
pub fn hash_map<K: Eq + Hash, V>(entries: Vec<(K, V)>) -> (r: HashMap<K, V>)
    ensures
        obeys_key_model::<K>() ==> r@ == map_of(entries@),
{
    let mut r: HashMap<K, V> = HashMap::new();
    let ghost all = entries@;
    for entry in it: entries
        invariant
            it.seq() == all,
            obeys_key_model::<K>() ==> r@ == map_of_first(all, it.index()),
    {
        proof {
            lemma_map_of_next(all, it.index());
        }
        let (key, value) = entry;
        r.insert(key, value);
    }
    proof {
        lemma_take_all(all);
    }
    r
}

/// A hash set of the given values.
pub fn hash_set<K: Eq + Hash>(values: Vec<K>) -> (r: HashSet<K>)
    ensures
        obeys_key_model::<K>() ==> r@ == set_of(values@),
{
    let mut r: HashSet<K> = HashSet::new();
    let ghost all = values@;
    for value in it: values
        invariant
            it.seq() == all,
            obeys_key_model::<K>() ==> r@ == set_of_first(all, it.index()),
    {
        proof {
            lemma_set_of_next(all, it.index());
        }
        r.insert(value);
    }
    proof {
        lemma_take_all(all);
    }
    r
}

/// A tree map of the given entries. Where a key occurs twice, its last value
/// counts.
pub fn btree_map<K: Ord, V>(entries: Vec<(K, V)>) -> (r: BTreeMap<K, V>)
    ensures
        obeys_cmp::<K>() ==> r@ == map_of(entries@),
{
    let mut r: BTreeMap<K, V> = BTreeMap::new();
    let ghost all = entries@;
    for entry in it: entries
        invariant
            it.seq() == all,
            obeys_cmp::<K>() ==> r@ == map_of_first(all, it.index()),
    {
        proof {
            lemma_map_of_next(all, it.index());
        }
        let (key, value) = entry;
        r.insert(key, value);
    }
    proof {
        lemma_take_all(all);
    }
    r
}

/// A tree set of the given values.
pub fn btree_set<K: Ord>(values: Vec<K>) -> (r: BTreeSet<K>)
    ensures
        obeys_cmp::<K>() ==> r@ == set_of(values@),
{
    let mut r: BTreeSet<K> = BTreeSet::new();
    let ghost all = values@;
    for value in it: values
        invariant
            it.seq() == all,
            obeys_cmp::<K>() ==> r@ == set_of_first(all, it.index()),
    {
        proof {
            lemma_set_of_next(all, it.index());
        }
        r.insert(value);
    }
    proof {
        lemma_take_all(all);
    }
    r
}

} // verus!
