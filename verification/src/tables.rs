//! Sets and maps keyed by integers, dense where the keys allow it.

use std::collections::{HashMap, HashSet};
use vstd::prelude::*;

verus! {

broadcast use vstd::std_specs::hash::group_hash_axioms;

/// A set of integers: flags by key while every key is small and not negative, a
/// hash set otherwise.
pub enum AdaptiveI64Set {
    Dense { present: Vec<bool>, max_key: usize },
    Hash(HashSet<i64>),
}

impl View for AdaptiveI64Set {
    type V = Set<i64>;

    /// The keys.
    open spec fn view(&self) -> Set<i64> {
        match self {
            AdaptiveI64Set::Dense { present, .. } => dense_keys(present@),
            AdaptiveI64Set::Hash(keys) => keys@,
        }
    }
}

/// The keys whose flags are set.
pub open spec fn dense_keys(present: Seq<bool>) -> Set<i64> {
    Set::new(|key: i64| flag_at(present, key))
}

/// Whether the flag of a key is there and set.
pub open spec fn flag_at(present: Seq<bool>, key: i64) -> bool {
    0 <= key < present.len() && present[key as int]
}

/// Whether the flag of a key is there and set.
pub fn dense_contains(present: &[bool], key: i64) -> (found: bool)
    ensures
        found == flag_at(present@, key),
{
    if key < 0 {
        return false;
    }
    let index: u64 = key as u64;
    if index < present.len() as u64 {
        present[index as usize]
    } else {
        false
    }
}

impl AdaptiveI64Set {
    /// An empty set that stays dense up to `max_key`.
    pub fn new_dense(max_key: usize) -> (set: AdaptiveI64Set)
        ensures
            set@ == Set::<i64>::empty(),
    {
        let set = AdaptiveI64Set::Dense { present: Vec::new(), max_key };
        assert(set@ =~= Set::<i64>::empty());
        set
    }

    /// The set with the given keys.
    pub fn from_hash(keys: HashSet<i64>) -> (set: AdaptiveI64Set)
        ensures
            set@ == keys@,
    {
        AdaptiveI64Set::Hash(keys)
    }

    /// Whether the key is in the set.
    pub fn contains(&self, key: i64) -> (found: bool)
        ensures
            found == self@.contains(key),
    {
        match self {
            AdaptiveI64Set::Dense { present, .. } => dense_contains(present.as_slice(), key),
            AdaptiveI64Set::Hash(keys) => keys.contains(&key),
        }
    }

    /// The flags by key, where the set is dense.
    pub fn dense_contains_slice(&self) -> (present: Option<&[bool]>)
        ensures
            present matches Some(present) ==> self@ == dense_keys(present@),
            present.is_some() == (self is Dense),
    {
        match self {
            AdaptiveI64Set::Dense { present, .. } => Some(present.as_slice()),
            AdaptiveI64Set::Hash(_) => None,
        }
    }

    /// Whether the key is in the set, by its flags where they are at hand.
    pub fn contains_cached(&self, dense: Option<&[bool]>, key: i64) -> (found: bool)
        requires
            dense matches Some(present) ==> self@ == dense_keys(present@),
        ensures
            found == self@.contains(key),
    {
        match dense {
            Some(present) => dense_contains(present, key),
            None => self.contains(key),
        }
    }

    /// Adds a key.
    pub fn insert(&mut self, key: i64)
        ensures
            final(self)@ == old(self)@.insert(key),
    {
        let ghost before = self@;
        match self {
            AdaptiveI64Set::Dense { present, max_key } => {
                if key >= 0 && key as u64 <= *max_key as u64 && key as u64 <= (usize::MAX as u64
                    - 1) {
                    let index: usize = key as usize;
                    let ghost flags = present@;
                    if index >= present.len() {
                        present.resize(index + 1, false);
                    }
                    present[index] = true;
                    assert(dense_keys(present@) =~= dense_keys(flags).insert(key));
                    return;
                }
            },
            AdaptiveI64Set::Hash(keys) => {
                keys.insert(key);
                return;
            },
        }
        self.convert_to_hash();
        assert(self@ == before);
        if let AdaptiveI64Set::Hash(keys) = self {
            keys.insert(key);
        }
    }

    /// Keeps the keys in a hash set from now on.
    fn convert_to_hash(&mut self)
        ensures
            final(self)@ == old(self)@,
            *final(self) is Hash,
    {
        let mut converted: Option<HashSet<i64>> = None;
        let ghost before = self@;
        match self {
            AdaptiveI64Set::Dense { present, .. } => {
                let mut keys: HashSet<i64> = HashSet::new();
                let mut index: usize = 0;
                while index < present.len() && index as u64 <= i64::MAX as u64
                    invariant
                        index <= present@.len(),
                        before == dense_keys(present@),
                        forall|key: i64|
                            #[trigger] keys@.contains(key) <==> before.contains(key) && key < index,
                    decreases present@.len() - index,
                {
                    if present[index] {
                        let key: i64 = index as i64;
                        assert(before.contains(key));
                        keys.insert(key);
                    } else {
                        assert(!before.contains(index as i64));
                    }
                    index += 1;
                }
                assert(keys@ =~= before);
                converted = Some(keys);
            },
            AdaptiveI64Set::Hash(_) => {},
        }
        match converted {
            Some(keys) => {
                *self = AdaptiveI64Set::Hash(keys);
            },
            None => {},
        }
    }
}

/// A map from integers: values by key while every key is small and not negative, a
/// hash map otherwise.
pub enum AdaptiveI64Map<V> {
    Dense { values: Vec<Option<V>>, max_key: usize },
    Hash(HashMap<i64, V>),
}

/// What is stored for a key in a dense map.
pub open spec fn dense_entry<V>(values: Seq<Option<V>>, key: i64) -> Option<V> {
    if 0 <= key < values.len() {
        values[key as int]
    } else {
        None
    }
}

/// The entries of a dense map.
pub open spec fn dense_entries<V>(values: Seq<Option<V>>) -> Map<i64, V> {
    Map::new(
        |key: i64| dense_entry(values, key) is Some,
        |key: i64| dense_entry(values, key)->0,
    )
}

/// What is stored for a key in a dense map.
pub fn dense_get<V: Copy>(values: &[Option<V>], key: i64) -> (entry: Option<V>)
    ensures
        entry == dense_entry(values@, key),
{
    if key < 0 {
        return None;
    }
    let index: u64 = key as u64;
    if index < values.len() as u64 {
        values[index as usize]
    } else {
        None
    }
}

impl<V> View for AdaptiveI64Map<V> {
    type V = Map<i64, V>;

    /// The entries.
    open spec fn view(&self) -> Map<i64, V> {
        match self {
            AdaptiveI64Map::Dense { values, .. } => dense_entries(values@),
            AdaptiveI64Map::Hash(entries) => entries@,
        }
    }
}

/// What a map holds for a key.
pub open spec fn entry_of<V>(map: Map<i64, V>, key: i64) -> Option<V> {
    if map.contains_key(key) {
        Some(map[key])
    } else {
        None
    }
}

/// What a hash map holds for a key.
pub fn hash_get<V: Copy>(map: &HashMap<i64, V>, key: i64) -> (entry: Option<V>)
    ensures
        entry == entry_of(map@, key),
{
    match map.get(&key) {
        Some(value) => Some(*value),
        None => None,
    }
}

impl<V: Copy> AdaptiveI64Map<V> {
    /// An empty map that stays dense up to `max_key`.
    pub fn new_dense(max_key: usize) -> (map: AdaptiveI64Map<V>)
        ensures
            map@ == Map::<i64, V>::empty(),
    {
        let map = AdaptiveI64Map::Dense { values: Vec::new(), max_key };
        assert(map@ =~= Map::<i64, V>::empty());
        map
    }

    /// The map with the given entries.
    pub fn from_hash(entries: HashMap<i64, V>) -> (map: AdaptiveI64Map<V>)
        ensures
            map@ == entries@,
    {
        AdaptiveI64Map::Hash(entries)
    }

    /// What the map holds for a key.
    pub fn get(&self, key: i64) -> (entry: Option<V>)
        ensures
            entry == entry_of(self@, key),
    {
        match self {
            AdaptiveI64Map::Dense { values, .. } => dense_get(values.as_slice(), key),
            AdaptiveI64Map::Hash(entries) => hash_get(entries, key),
        }
    }

    /// The values by key, where the map is dense.
    pub fn dense_slice(&self) -> (values: Option<&[Option<V>]>)
        ensures
            values matches Some(values) ==> self@ == dense_entries(values@),
            values.is_some() == (self is Dense),
    {
        match self {
            AdaptiveI64Map::Dense { values, .. } => Some(values.as_slice()),
            AdaptiveI64Map::Hash(_) => None,
        }
    }

    /// What the map holds for a key, by its values where they are at hand.
    pub fn get_cached(&self, dense: Option<&[Option<V>]>, key: i64) -> (entry: Option<V>)
        requires
            dense matches Some(values) ==> self@ == dense_entries(values@),
        ensures
            entry == entry_of(self@, key),
    {
        match dense {
            Some(values) => dense_get(values, key),
            None => self.get(key),
        }
    }

    /// Stores a value for a key.
    pub fn insert(&mut self, key: i64, value: V)
        ensures
            final(self)@ == old(self)@.insert(key, value),
    {
        let ghost before = self@;
        match self {
            AdaptiveI64Map::Dense { values, max_key } => {
                if key >= 0 && key as u64 <= *max_key as u64 && key as u64 <= (usize::MAX as u64
                    - 1) {
                    let index: usize = key as usize;
                    let ghost entries = values@;
                    if index >= values.len() {
                        values.resize(index + 1, None);
                    }
                    assert(forall|other: i64| #[trigger]
                        dense_entry(values@, other) == dense_entry(entries, other));
                    values[index] = Some(value);
                    assert(dense_entries(values@) =~= dense_entries(entries).insert(key, value));
                    return;
                }
            },
            AdaptiveI64Map::Hash(entries) => {
                entries.insert(key, value);
                return;
            },
        }
        self.convert_to_hash();
        assert(self@ == before);
        if let AdaptiveI64Map::Hash(entries) = self {
            entries.insert(key, value);
        }
    }

    /// Keeps the entries in a hash map from now on.
    pub fn convert_to_hash(&mut self)
        ensures
            final(self)@ == old(self)@,
            *final(self) is Hash,
    {
        let mut converted: Option<HashMap<i64, V>> = None;
        let ghost before = self@;
        match self {
            AdaptiveI64Map::Dense { values, .. } => {
                let mut entries: HashMap<i64, V> = HashMap::new();
                let mut index: usize = 0;
                while index < values.len() && index as u64 <= i64::MAX as u64
                    invariant
                        index <= values@.len(),
                        before == dense_entries(values@),
                        forall|key: i64|
                            #[trigger] entries@.contains_key(key) <==> before.contains_key(key)
                                && key < index,
                        forall|key: i64| #[trigger]
                            entries@.contains_key(key) ==> entries@[key] == before[key],
                    decreases values@.len() - index,
                {
                    let key: i64 = index as i64;
                    assert(dense_entry(values@, key) == values@[index as int]);
                    match values[index] {
                        Some(value) => {
                            assert(before.contains_key(key));
                            entries.insert(key, value);
                        },
                        None => {
                            assert(!before.contains_key(key));
                        },
                    }
                    index += 1;
                }
                assert(entries@ =~= before);
                converted = Some(entries);
            },
            AdaptiveI64Map::Hash(_) => {},
        }
        match converted {
            Some(entries) => {
                *self = AdaptiveI64Map::Hash(entries);
            },
            None => {},
        }
    }
}

/// The entries of pairs read in order: a later pair with the same key wins.
pub open spec fn entries_of<V>(pairs: Seq<(i64, V)>) -> Map<i64, V>
    decreases pairs.len(),
{
    if pairs.len() == 0 {
        Map::empty()
    } else {
        entries_of(pairs.drop_last()).insert(pairs.last().0, pairs.last().1)
    }
}

/// The map that pairs make, read in order.
pub fn fast_hash_map_from_pairs<V: Copy>(pairs: &[(i64, V)]) -> (map: HashMap<i64, V>)
    ensures
        map@ == entries_of(pairs@),
{
    let mut map: HashMap<i64, V> = HashMap::new();
    let mut index: usize = 0;
    assert(map@ =~= entries_of(pairs@.take(0)));
    while index < pairs.len()
        invariant
            index <= pairs@.len(),
            map@ == entries_of(pairs@.take(index as int)),
        decreases pairs@.len() - index,
    {
        let (key, value): (i64, V) = pairs[index];
        map.insert(key, value);
        index += 1;
        assert(pairs@.take(index as int).drop_last() =~= pairs@.take(index - 1));
    }
    assert(pairs@.take(index as int) =~= pairs@);
    map
}

} // verus!
