//! Profit by nation and year: which rows count, towards which group.
//!
//! A row counts where its part is wanted, its order has a year and its supplier
//! sells the part. Amounts are computed by the caller from the rows found.

use std::collections::HashMap;
use vstd::prelude::*;
use vstd::std_specs::iter::IteratorSpec;
use crate::columns::Vector;
use crate::order_years::{dense_year, dense_year_get, OrderYears};
use crate::supplier_counts::{lemma_unpack, packable, packed};
use crate::tables::{dense_contains, dense_keys, entry_of, flag_at, AdaptiveI64Set};

verus! {

broadcast use vstd::std_specs::hash::group_hash_axioms;

/// A part and a supplier in one integer, where both fit in 32 bits.
pub fn pack_part_supp_key(partkey: i64, suppkey: i64) -> (key: Option<u64>)
    ensures
        match key {
            Some(key) => packable(partkey as int, suppkey as int) && key == packed(
                partkey as int,
                suppkey as int,
            ),
            None => !packable(partkey as int, suppkey as int),
        },
{
    if partkey < 0 || partkey > u32::MAX as i64 || suppkey < 0 || suppkey > u32::MAX as i64 {
        return None;
    }
    Some(partkey as u64 * 0x1_0000_0000u64 + suppkey as u64)
}

/// The part and supplier that an integer packs.
pub fn unpack_part_supp_key(key: u64) -> (pair: (i64, i64))
    ensures
        pair.0 == key / 0x1_0000_0000,
        pair.1 == key % 0x1_0000_0000,
        packable(pair.0 as int, pair.1 as int),
        key == packed(pair.0 as int, pair.1 as int),
{
    ((key / 0x1_0000_0000u64) as i64, (key % 0x1_0000_0000u64) as i64)
}

/// What is packed comes back out of the integer, so different pairs are packed
/// differently.
pub proof fn law_pack_part_supp_round_trip(partkey: i64, suppkey: i64)
    requires
        packable(partkey as int, suppkey as int),
    ensures
        packed(partkey as int, suppkey as int) / 0x1_0000_0000 == partkey,
        packed(partkey as int, suppkey as int) % 0x1_0000_0000 == suppkey,
{
    lemma_unpack(partkey as int, suppkey as int);
}

/// What a supplier asks for a part, and the nation of the supplier.
#[derive(Clone, Copy)]
pub struct SupplyInfo<V> {
    pub supplycost: V,
    pub nationkey: i64,
}

/// A part and a supplier in one integer, whatever they are.
pub open spec fn wide(partkey: int, suppkey: int) -> int {
    (partkey + 0x8000_0000_0000_0000) * 0x1_0000_0000_0000_0000 + (suppkey + 0x8000_0000_0000_0000)
}

/// A part and a supplier in one integer, whatever they are.
fn wide_key(partkey: i64, suppkey: i64) -> (key: u128)
    ensures
        key == wide(partkey as int, suppkey as int),
{
    let part: u128 = (partkey as i128 + 0x8000_0000_0000_0000i128) as u128;
    let supplier: u128 = (suppkey as i128 + 0x8000_0000_0000_0000i128) as u128;
    part * 0x1_0000_0000_0000_0000u128 + supplier
}

/// Different pairs have different integers.
proof fn lemma_wide_distinct(partkey: i64, suppkey: i64, part: i64, supplier: i64)
    ensures
        wide(partkey as int, suppkey as int) == wide(part as int, supplier as int) ==> partkey
            == part && suppkey == supplier,
        0 <= wide(partkey as int, suppkey as int) <= u128::MAX,
{
}

/// The part that a wide integer holds.
pub open spec fn wide_part(key: int) -> int {
    key / 0x1_0000_0000_0000_0000 - 0x8000_0000_0000_0000
}

/// The supplier that a wide integer holds.
pub open spec fn wide_supplier(key: int) -> int {
    key % 0x1_0000_0000_0000_0000 - 0x8000_0000_0000_0000
}

/// The part and supplier that a wide integer holds.
fn unpack_wide_key(key: u128) -> (pair: (i64, i64))
    ensures
        pair.0 == wide_part(key as int),
        pair.1 == wide_supplier(key as int),
        key == wide(pair.0 as int, pair.1 as int),
{
    let part: i128 = (key / 0x1_0000_0000_0000_0000u128) as i128 - 0x8000_0000_0000_0000i128;
    let supplier: i128 = (key % 0x1_0000_0000_0000_0000u128) as i128 - 0x8000_0000_0000_0000i128;
    (part as i64, supplier as i64)
}

/// The supply cost of each part and supplier: packed while both keys of every entry fit in
/// 32 bits, under wide keys from the first entry on whose keys do not.
pub struct SupplyCosts<V> {
    packed: HashMap<u64, SupplyInfo<V>>,
    pairs: HashMap<u128, SupplyInfo<V>>,
    all_packed: bool,
}

impl<V> SupplyCosts<V> {
    /// What is stored for a part and a supplier.
    pub closed spec fn entry(self, partkey: i64, suppkey: i64) -> Option<SupplyInfo<V>> {
        if self.all_packed {
            packed_entry(self.packed@, partkey, suppkey)
        } else {
            wide_entry(self.pairs@, partkey, suppkey)
        }
    }

    /// The parts and suppliers for which something is stored.
    pub open spec fn stored(self) -> Set<(i64, i64)> {
        Set::new(|pair: (i64, i64)| self.entry(pair.0, pair.1) is Some)
    }

    /// Whether every entry is packed.
    pub closed spec fn is_all_packed(self) -> bool {
        self.all_packed
    }

    /// Whether entries are kept in one layout.
    pub closed spec fn well_formed(self) -> bool {
        if self.all_packed {
            self.pairs@ == Map::<u128, SupplyInfo<V>>::empty()
        } else {
            self.packed@ == Map::<u64, SupplyInfo<V>>::empty()
        }
    }
}

impl<V: Copy> SupplyCosts<V> {
    /// No entry yet.
    pub fn new() -> (costs: SupplyCosts<V>)
        ensures
            costs.well_formed(),
            costs.is_all_packed(),
            costs.stored() == Set::<(i64, i64)>::empty(),
            forall|partkey: i64, suppkey: i64| #[trigger] costs.entry(partkey, suppkey) is None,
    {
        let costs = SupplyCosts {
            packed: HashMap::new(),
            pairs: HashMap::new(),
            all_packed: true,
        };
        assert(costs.stored() =~= Set::<(i64, i64)>::empty());
        costs
    }

    /// Gives every entry a wide key.
    fn convert_packed_to_pair_hash(&mut self)
        requires
            old(self).well_formed(),
        ensures
            final(self).well_formed(),
            !final(self).all_packed,
            forall|partkey: i64, suppkey: i64| #[trigger]
                final(self).entry(partkey, suppkey) == old(self).entry(partkey, suppkey),
    {
        if !self.all_packed {
            return;
        }
        let ghost before = *self;
        let mut pairs: HashMap<u128, SupplyInfo<V>> = HashMap::new();
        for item in rest: self.packed.iter()
            invariant
                *self == before,
                before.well_formed(),
                before.all_packed,
                rest.seq() == vstd::std_specs::hash::spec_hash_map_iter(&before.packed).remaining(),
                forall|partkey: i64, suppkey: i64| #[trigger]
                    wide_entry(pairs@, partkey, suppkey) is Some ==> wide_entry(
                        pairs@,
                        partkey,
                        suppkey,
                    ) == before.entry(partkey, suppkey),
                forall|index: int|
                    0 <= index < rest.index() ==> {
                        let key = *(#[trigger] rest.seq()[index]).0;
                        wide_entry(
                            pairs@,
                            (key / 0x1_0000_0000) as i64,
                            (key % 0x1_0000_0000) as i64,
                        ) is Some
                    },
        {
            let ghost earlier = pairs@;
            let (key, info): (&u64, &SupplyInfo<V>) = item;
            let (partkey, suppkey): (i64, i64) = unpack_part_supp_key(*key);
            let stored: SupplyInfo<V> = *info;
            pairs.insert(wide_key(partkey, suppkey), stored);
            proof {
                assert(before.packed@.contains_key(*key) && before.packed@[*key] == stored);
                assert(before.entry(partkey, suppkey) == Some(stored));
                assert forall|part: i64, supplier: i64| #[trigger]
                    wide_entry(pairs@, part, supplier) == (if part == partkey && supplier
                        == suppkey {
                        Some(stored)
                    } else {
                        wide_entry(earlier, part, supplier)
                    }) by {
                    lemma_wide_distinct(part, supplier, partkey, suppkey);
                }
            }
        }
        self.packed = HashMap::new();
        self.pairs = pairs;
        self.all_packed = false;
        proof {
            let items = vstd::std_specs::hash::spec_hash_map_iter(&before.packed).remaining();
            assert forall|partkey: i64, suppkey: i64| #[trigger]
                self.entry(partkey, suppkey) == before.entry(partkey, suppkey) by {
                if before.entry(partkey, suppkey) is Some {
                    let key = packed(partkey as int, suppkey as int) as u64;
                    lemma_unpack(partkey as int, suppkey as int);
                    assert(before.packed@.contains_key(key));
                    let index = choose|index: int|
                        0 <= index < items.len() && items[index] == (
                            &key,
                            &before.packed@[key],
                        );
                    assert(items.contains((&key, &before.packed@[key])));
                    assert(*items[index].0 == key);
                }
            }
        }
    }

    /// Stores the cost of a part and supplier.
    pub fn insert(&mut self, partkey: i64, suppkey: i64, info: SupplyInfo<V>)
        requires
            old(self).well_formed(),
        ensures
            final(self).well_formed(),
            final(self).is_all_packed() == (old(self).is_all_packed() && packable(
                partkey as int,
                suppkey as int,
            )),
            final(self).stored() == old(self).stored().insert((partkey, suppkey)),
            forall|part: i64, supplier: i64| #[trigger]
                final(self).entry(part, supplier) == (if part == partkey && supplier == suppkey {
                    Some(info)
                } else {
                    old(self).entry(part, supplier)
                }),
    {
        let ghost before = *self;
        let key = if self.all_packed {
            pack_part_supp_key(partkey, suppkey)
        } else {
            None
        };
        match key {
            Some(key) => {
                self.packed.insert(key, info);
                assert forall|part: i64, supplier: i64| #[trigger] self.entry(part, supplier) == (
                if part == partkey && supplier == suppkey {
                    Some(info)
                } else {
                    before.entry(part, supplier)
                }) by {
                    if packable(part as int, supplier as int) {
                        lemma_unpack(part as int, supplier as int);
                        lemma_unpack(partkey as int, suppkey as int);
                    }
                }
            },
            None => {
                self.convert_packed_to_pair_hash();
                let ghost converted = *self;
                self.pairs.insert(wide_key(partkey, suppkey), info);
                assert forall|part: i64, supplier: i64| #[trigger] self.entry(part, supplier) == (
                if part == partkey && supplier == suppkey {
                    Some(info)
                } else {
                    before.entry(part, supplier)
                }) by {
                    lemma_wide_distinct(part, supplier, partkey, suppkey);
                    assert(converted.entry(part, supplier) == before.entry(part, supplier));
                }
            },
        }
        assert(self.stored() =~= before.stored().insert((partkey, suppkey)));
    }

    /// What is stored for a part and a supplier.
    pub fn get(&self, partkey: i64, suppkey: i64) -> (info: Option<SupplyInfo<V>>)
        ensures
            info == self.entry(partkey, suppkey),
    {
        if self.all_packed {
            return match pack_part_supp_key(partkey, suppkey) {
                Some(key) => match self.packed.get(&key) {
                    Some(info) => Some(*info),
                    None => None,
                },
                None => None,
            };
        }
        proof {
            lemma_wide_distinct(partkey, suppkey, partkey, suppkey);
        }
        match self.pairs.get(&wide_key(partkey, suppkey)) {
            Some(info) => Some(*info),
            None => None,
        }
    }

    /// Stores what a batch stores. Where both have an entry that of the batch counts.
    pub fn merge(&mut self, batch: &SupplyCosts<V>)
        requires
            old(self).well_formed(),
            batch.well_formed(),
        ensures
            final(self).well_formed(),
            final(self).stored() == old(self).stored().union(batch.stored()),
            forall|partkey: i64, suppkey: i64| #[trigger]
                final(self).entry(partkey, suppkey) == (if batch.entry(partkey, suppkey) is Some {
                    batch.entry(partkey, suppkey)
                } else {
                    old(self).entry(partkey, suppkey)
                }),
    {
        let ghost before = *self;
        if batch.all_packed {
            let ghost items = vstd::std_specs::hash::spec_hash_map_iter(&batch.packed).remaining();
            for item in rest: batch.packed.iter()
                invariant
                    self.well_formed(),
                    batch.well_formed(),
                    batch.all_packed,
                    items == vstd::std_specs::hash::spec_hash_map_iter(&batch.packed).remaining(),
                    rest.seq() == items,
                    forall|partkey: i64, suppkey: i64| #[trigger]
                        self.entry(partkey, suppkey) == before.entry(partkey, suppkey)
                            || self.entry(partkey, suppkey) == batch.entry(partkey, suppkey),
                    forall|partkey: i64, suppkey: i64| #[trigger]
                        batch.entry(partkey, suppkey) is None ==> self.entry(partkey, suppkey)
                            == before.entry(partkey, suppkey),
                    forall|index: int|
                        0 <= index < rest.index() ==> merged_key(
                            *self,
                            *batch,
                            *(#[trigger] items[index]).0 as int / 0x1_0000_0000,
                            *items[index].0 as int % 0x1_0000_0000,
                        ),
            {
                let (key, info): (&u64, &SupplyInfo<V>) = item;
                let (partkey, suppkey): (i64, i64) = unpack_part_supp_key(*key);
                let stored: SupplyInfo<V> = *info;
                proof {
                    assert(batch.packed@.contains_key(*key) && batch.packed@[*key] == stored);
                    assert(batch.entry(partkey, suppkey) == Some(stored));
                }
                self.insert(partkey, suppkey, stored);
            }
            proof {
                assert forall|partkey: i64, suppkey: i64| #[trigger]
                    batch.entry(partkey, suppkey) is Some implies self.entry(partkey, suppkey)
                    == batch.entry(partkey, suppkey) by {
                    let key = packed(partkey as int, suppkey as int) as u64;
                    lemma_unpack(partkey as int, suppkey as int);
                    assert(items.contains((&key, &batch.packed@[key])));
                    let index = choose|index: int|
                        0 <= index < items.len() && items[index] == (&key, &batch.packed@[key]);
                    assert(*items[index].0 == key);
                }
            }
        } else {
            let ghost items = vstd::std_specs::hash::spec_hash_map_iter(&batch.pairs).remaining();
            for item in rest: batch.pairs.iter()
                invariant
                    self.well_formed(),
                    batch.well_formed(),
                    !batch.all_packed,
                    items == vstd::std_specs::hash::spec_hash_map_iter(&batch.pairs).remaining(),
                    rest.seq() == items,
                    forall|partkey: i64, suppkey: i64| #[trigger]
                        self.entry(partkey, suppkey) == before.entry(partkey, suppkey)
                            || self.entry(partkey, suppkey) == batch.entry(partkey, suppkey),
                    forall|partkey: i64, suppkey: i64| #[trigger]
                        batch.entry(partkey, suppkey) is None ==> self.entry(partkey, suppkey)
                            == before.entry(partkey, suppkey),
                    forall|index: int|
                        0 <= index < rest.index() ==> merged_key(
                            *self,
                            *batch,
                            wide_part(*(#[trigger] items[index]).0 as int),
                            wide_supplier(*items[index].0 as int),
                        ),
            {
                let (key, info): (&u128, &SupplyInfo<V>) = item;
                assert(batch.pairs@.contains_key(*key) && batch.pairs@[*key] == *info);
                let (partkey, suppkey): (i64, i64) = unpack_wide_key(*key);
                let stored: SupplyInfo<V> = *info;
                assert(batch.entry(partkey, suppkey) == Some(stored));
                self.insert(partkey, suppkey, stored);
            }
            proof {
                assert forall|partkey: i64, suppkey: i64| #[trigger]
                    batch.entry(partkey, suppkey) is Some implies self.entry(partkey, suppkey)
                    == batch.entry(partkey, suppkey) by {
                    let key = wide(partkey as int, suppkey as int) as u128;
                    lemma_wide_distinct(partkey, suppkey, partkey, suppkey);
                    assert(items.contains((&key, &batch.pairs@[key])));
                    let index = choose|index: int|
                        0 <= index < items.len() && items[index] == (&key, &batch.pairs@[key]);
                    assert(*items[index].0 == key);
                    assert(wide_part(key as int) == partkey && wide_supplier(key as int)
                        == suppkey);
                }
            }
        }
        assert(self.stored() =~= before.stored().union(batch.stored()));
    }

    /// For how many pairs of a part and a supplier something is stored.
    pub fn len(&self) -> (count: usize)
        requires
            self.well_formed(),
        ensures
            self.stored().finite(),
            count == self.stored().len(),
    {
        if self.all_packed {
            proof {
                let unpacked = |key: u64|
                    ((key / 0x1_0000_0000) as i64, (key % 0x1_0000_0000) as i64);
                let keys = self.packed@.dom();
                assert forall|pair: (i64, i64)| #[trigger]
                    keys.map(unpacked).contains(pair) == self.stored().contains(pair) by {
                    if packable(pair.0 as int, pair.1 as int) {
                        lemma_unpack(pair.0 as int, pair.1 as int);
                    }
                    let key = packed(pair.0 as int, pair.1 as int) as u64;
                    if self.stored().contains(pair) {
                        assert(keys.contains(key) && unpacked(key) == pair);
                    }
                }
                assert(keys.map(unpacked) =~= self.stored());
                vstd::set_lib::lemma_map_size(keys, self.stored(), unpacked);
            }
            return self.packed.len();
        }
        proof {
            let pairs = self.stored();
            let keys = self.pairs@.dom();
            let narrowed = |key: u128|
                (wide_part(key as int) as i64, wide_supplier(key as int) as i64);
            assert forall|pair: (i64, i64)| #[trigger]
                keys.map(narrowed).contains(pair) == pairs.contains(pair) by {
                lemma_wide_distinct(pair.0, pair.1, pair.0, pair.1);
                let key = wide(pair.0 as int, pair.1 as int) as u128;
                if pairs.contains(pair) {
                    assert(keys.contains(key) && narrowed(key) == pair);
                }
                if keys.map(narrowed).contains(pair) {
                    let from = choose|from: u128| keys.contains(from) && narrowed(from) == pair;
                    assert(from == wide(pair.0 as int, pair.1 as int));
                }
            }
            assert(keys.map(narrowed) =~= pairs);
            vstd::set_lib::lemma_map_size(keys, pairs, narrowed);
        }
        self.pairs.len()
    }

    /// The packed entries, where every entry is packed.
    pub fn packed_costs(&self) -> (packed_costs: Option<&HashMap<u64, SupplyInfo<V>>>)
        requires
            self.well_formed(),
        ensures
            packed_costs.is_some() == self.is_all_packed(),
            packed_costs matches Some(costs) ==> forall|partkey: i64, suppkey: i64|
                #[trigger] self.entry(partkey, suppkey) == packed_entry(costs@, partkey, suppkey),
    {
        if self.all_packed {
            Some(&self.packed)
        } else {
            None
        }
    }

    /// The name of the layout.
    pub fn layout_name(&self) -> (name: &'static str)
        ensures
            name@ == (if self.is_all_packed() {
                "packed_u64"@
            } else {
                "pair_hash"@
            }),
    {
        if self.all_packed {
            "packed_u64"
        } else {
            "pair_hash"
        }
    }
}

/// What packed entries hold for a part and a supplier.
pub open spec fn packed_entry<V>(
    costs: Map<u64, SupplyInfo<V>>,
    partkey: i64,
    suppkey: i64,
) -> Option<SupplyInfo<V>> {
    if packable(partkey as int, suppkey as int) && costs.contains_key(
        packed(partkey as int, suppkey as int) as u64,
    ) {
        Some(costs[packed(partkey as int, suppkey as int) as u64])
    } else {
        None
    }
}

/// What entries under wide keys hold for a part and a supplier.
pub open spec fn wide_entry<V>(
    costs: Map<u128, SupplyInfo<V>>,
    partkey: i64,
    suppkey: i64,
) -> Option<SupplyInfo<V>> {
    if costs.contains_key(wide(partkey as int, suppkey as int) as u128) {
        Some(costs[wide(partkey as int, suppkey as int) as u128])
    } else {
        None
    }
}

/// Whether costs hold for a part and a supplier what a batch holds.
pub open spec fn merged_key<V>(
    costs: SupplyCosts<V>,
    batch: SupplyCosts<V>,
    partkey: int,
    suppkey: int,
) -> bool {
    costs.entry(partkey as i64, suppkey as i64) == batch.entry(partkey as i64, suppkey as i64)
}

/// How many nations the dense groups cover.
pub const DENSE_PROFIT_GROUP_NATIONS: usize = 64;

/// The first year that the dense groups cover.
pub const DENSE_PROFIT_GROUP_YEAR_BASE: i32 = 1990;

/// How many years the dense groups cover.
pub const DENSE_PROFIT_GROUP_YEARS: usize = 32;

/// Where the sum of a nation and year is kept.
#[derive(Clone, Copy, Debug, PartialEq, Eq, Structural)]
pub enum ProfitSlot {
    /// At a place of the dense groups.
    Dense(usize),
    /// Under a packed key.
    Packed(u64),
    /// Under the nation and year.
    Fallback(i64, i32),
}

/// Whether the dense groups cover a nation and year.
pub open spec fn in_dense_groups(nationkey: i64, year: i32) -> bool {
    0 <= nationkey < 64 && 1990 <= year < 1990 + 32
}

/// The place of a nation and year among the dense groups.
pub fn dense_profit_group_slot(nationkey: i64, year: i32) -> (slot: Option<usize>)
    ensures
        match slot {
            Some(slot) => in_dense_groups(nationkey, year) && slot == nationkey * 32 + (year - 1990)
                && slot < 64 * 32,
            None => !in_dense_groups(nationkey, year),
        },
{
    if nationkey < 0 || nationkey >= DENSE_PROFIT_GROUP_NATIONS as i64 {
        return None;
    }
    if year < DENSE_PROFIT_GROUP_YEAR_BASE || year >= DENSE_PROFIT_GROUP_YEAR_BASE
        + DENSE_PROFIT_GROUP_YEARS as i32 {
        return None;
    }
    Some(
        nationkey as usize * DENSE_PROFIT_GROUP_YEARS + (year - DENSE_PROFIT_GROUP_YEAR_BASE) as usize,
    )
}

/// The nation and year at a place of the dense groups.
pub fn unpack_dense_profit_group_slot(slot: usize) -> (group: (i64, i32))
    requires
        slot < 64 * 32,
    ensures
        group.0 == slot / 32,
        group.1 == 1990 + slot % 32,
{
    let nation: usize = slot / DENSE_PROFIT_GROUP_YEARS;
    let year: i32 = DENSE_PROFIT_GROUP_YEAR_BASE + (slot % DENSE_PROFIT_GROUP_YEARS) as i32;
    (nation as i64, year)
}

/// A nation and year in one integer, where the nation fits in 32 bits.
pub fn pack_profit_group_key(nationkey: i64, year: i32) -> (key: Option<u64>)
    ensures
        match key {
            Some(key) => 0 <= nationkey <= u32::MAX && key == packed(
                nationkey as int,
                year as u32 as int,
            ),
            None => !(0 <= nationkey <= u32::MAX),
        },
{
    if nationkey < 0 || nationkey > u32::MAX as i64 {
        return None;
    }
    Some(nationkey as u64 * 0x1_0000_0000u64 + year as u32 as u64)
}

/// The nation and year that an integer packs.
pub fn unpack_profit_group_key(key: u64) -> (group: (i64, i32))
    ensures
        group.0 == key / 0x1_0000_0000,
        group.1 == (key % 0x1_0000_0000) as u32 as i32,
{
    ((key / 0x1_0000_0000u64) as i64, (key % 0x1_0000_0000u64) as u32 as i32)
}

/// Where the sum of a nation and year is kept.
pub open spec fn slot_of(nationkey: i64, year: i32) -> ProfitSlot {
    if in_dense_groups(nationkey, year) {
        ProfitSlot::Dense((nationkey * 32 + (year - 1990)) as usize)
    } else if 0 <= nationkey <= u32::MAX {
        ProfitSlot::Packed(packed(nationkey as int, year as u32 as int) as u64)
    } else {
        ProfitSlot::Fallback(nationkey, year)
    }
}

/// The nation and year whose sum is kept in a slot.
pub open spec fn group_in(slot: ProfitSlot) -> (i64, i32) {
    match slot {
        ProfitSlot::Dense(slot) => ((slot / 32) as i64, (1990 + slot % 32) as i32),
        ProfitSlot::Packed(key) => (
            (key as int / 0x1_0000_0000) as i64,
            (key as int % 0x1_0000_0000) as u32 as i32,
        ),
        ProfitSlot::Fallback(nationkey, year) => (nationkey, year),
    }
}

/// Each nation and year has a slot of its own.
pub proof fn law_profit_slot_round_trip(nationkey: i64, year: i32)
    ensures
        group_in(slot_of(nationkey, year)) == (nationkey, year),
{
    if !in_dense_groups(nationkey, year) && 0 <= nationkey <= u32::MAX {
        lemma_unpack(nationkey as int, year as u32 as int);
        assert(year as u32 as i32 == year) by (bit_vector);
    }
}

/// Where the sum of a nation and year is kept.
pub fn profit_slot(nationkey: i64, year: i32) -> (slot: ProfitSlot)
    ensures
        slot == slot_of(nationkey, year),
{
    match dense_profit_group_slot(nationkey, year) {
        Some(slot) => ProfitSlot::Dense(slot),
        None => match pack_profit_group_key(nationkey, year) {
            Some(key) => ProfitSlot::Packed(key),
            None => ProfitSlot::Fallback(nationkey, year),
        },
    }
}

/// The nation and year whose sum is kept in a slot.
pub fn profit_group(slot: ProfitSlot) -> (group: (i64, i32))
    requires
        slot matches ProfitSlot::Dense(place) ==> place < 64 * 32,
    ensures
        group == group_in(slot),
{
    match slot {
        ProfitSlot::Dense(slot) => unpack_dense_profit_group_slot(slot),
        ProfitSlot::Packed(key) => unpack_profit_group_key(key),
        ProfitSlot::Fallback(nationkey, year) => (nationkey, year),
    }
}

/// Counts taken while profit is computed.
#[derive(Clone, Copy)]
pub struct ProfitProfile {
    pub rows: usize,
    pub part_hits: usize,
    pub order_hits: usize,
    pub supplier_hits: usize,
    pub supply_hits: usize,
    pub amount_rows: usize,
    pub part_nanos: u64,
    pub order_nanos: u64,
    pub supplier_nanos: u64,
    pub supply_nanos: u64,
    pub amount_nanos: u64,
    pub direct_i64_packed_dense_batches: usize,
    pub direct_i64_selected_packed_dense_batches: usize,
    pub direct_i64_fallback_batches: usize,
    pub direct_i64_selected_fallback_batches: usize,
    pub view_i64_packed_dense_batches: usize,
    pub view_i64_fallback_batches: usize,
    pub view_i128_packed_dense_batches: usize,
    pub view_i128_fallback_batches: usize,
    pub batch_i128_packed_dense_batches: usize,
    pub batch_i128_fallback_batches: usize,
    pub batch_null_fallback_batches: usize,
}

/// A count that stops at the largest.
pub open spec fn capped_sum(left: int, right: int, most: int) -> int {
    if left + right > most {
        most
    } else {
        left + right
    }
}

impl Default for ProfitProfile {
    /// All counts at zero.
    fn default() -> (profile: ProfitProfile)
        ensures
            profile.rows == 0,
            profile.part_hits == 0,
            profile.order_hits == 0,
            profile.supplier_hits == 0,
            profile.supply_hits == 0,
            profile.amount_rows == 0,
            profile.part_nanos == 0,
            profile.order_nanos == 0,
            profile.supplier_nanos == 0,
            profile.supply_nanos == 0,
            profile.amount_nanos == 0,
            profile.direct_i64_packed_dense_batches == 0,
            profile.direct_i64_selected_packed_dense_batches == 0,
            profile.direct_i64_fallback_batches == 0,
            profile.direct_i64_selected_fallback_batches == 0,
            profile.view_i64_packed_dense_batches == 0,
            profile.view_i64_fallback_batches == 0,
            profile.view_i128_packed_dense_batches == 0,
            profile.view_i128_fallback_batches == 0,
            profile.batch_i128_packed_dense_batches == 0,
            profile.batch_i128_fallback_batches == 0,
            profile.batch_null_fallback_batches == 0,
    {
        ProfitProfile {
            rows: 0,
            part_hits: 0,
            order_hits: 0,
            supplier_hits: 0,
            supply_hits: 0,
            amount_rows: 0,
            part_nanos: 0,
            order_nanos: 0,
            supplier_nanos: 0,
            supply_nanos: 0,
            amount_nanos: 0,
            direct_i64_packed_dense_batches: 0,
            direct_i64_selected_packed_dense_batches: 0,
            direct_i64_fallback_batches: 0,
            direct_i64_selected_fallback_batches: 0,
            view_i64_packed_dense_batches: 0,
            view_i64_fallback_batches: 0,
            view_i128_packed_dense_batches: 0,
            view_i128_fallback_batches: 0,
            batch_i128_packed_dense_batches: 0,
            batch_i128_fallback_batches: 0,
            batch_null_fallback_batches: 0,
        }
    }
}

impl ProfitProfile {
    /// Adds the counts of another; each stops at the largest.
    pub fn add(&mut self, other: ProfitProfile)
        ensures
            final(self).rows == capped_sum(
                old(self).rows as int,
                other.rows as int,
                usize::MAX as int,
            ),
            final(self).part_hits == capped_sum(
                old(self).part_hits as int,
                other.part_hits as int,
                usize::MAX as int,
            ),
            final(self).order_hits == capped_sum(
                old(self).order_hits as int,
                other.order_hits as int,
                usize::MAX as int,
            ),
            final(self).supplier_hits == capped_sum(
                old(self).supplier_hits as int,
                other.supplier_hits as int,
                usize::MAX as int,
            ),
            final(self).supply_hits == capped_sum(
                old(self).supply_hits as int,
                other.supply_hits as int,
                usize::MAX as int,
            ),
            final(self).amount_rows == capped_sum(
                old(self).amount_rows as int,
                other.amount_rows as int,
                usize::MAX as int,
            ),
            final(self).part_nanos == capped_sum(
                old(self).part_nanos as int,
                other.part_nanos as int,
                u64::MAX as int,
            ),
            final(self).order_nanos == capped_sum(
                old(self).order_nanos as int,
                other.order_nanos as int,
                u64::MAX as int,
            ),
            final(self).supplier_nanos == capped_sum(
                old(self).supplier_nanos as int,
                other.supplier_nanos as int,
                u64::MAX as int,
            ),
            final(self).supply_nanos == capped_sum(
                old(self).supply_nanos as int,
                other.supply_nanos as int,
                u64::MAX as int,
            ),
            final(self).amount_nanos == capped_sum(
                old(self).amount_nanos as int,
                other.amount_nanos as int,
                u64::MAX as int,
            ),
            final(self).direct_i64_packed_dense_batches == capped_sum(
                old(self).direct_i64_packed_dense_batches as int,
                other.direct_i64_packed_dense_batches as int,
                usize::MAX as int,
            ),
            final(self).direct_i64_selected_packed_dense_batches == capped_sum(
                old(self).direct_i64_selected_packed_dense_batches as int,
                other.direct_i64_selected_packed_dense_batches as int,
                usize::MAX as int,
            ),
            final(self).direct_i64_fallback_batches == capped_sum(
                old(self).direct_i64_fallback_batches as int,
                other.direct_i64_fallback_batches as int,
                usize::MAX as int,
            ),
            final(self).direct_i64_selected_fallback_batches == capped_sum(
                old(self).direct_i64_selected_fallback_batches as int,
                other.direct_i64_selected_fallback_batches as int,
                usize::MAX as int,
            ),
            final(self).view_i64_packed_dense_batches == capped_sum(
                old(self).view_i64_packed_dense_batches as int,
                other.view_i64_packed_dense_batches as int,
                usize::MAX as int,
            ),
            final(self).view_i64_fallback_batches == capped_sum(
                old(self).view_i64_fallback_batches as int,
                other.view_i64_fallback_batches as int,
                usize::MAX as int,
            ),
            final(self).view_i128_packed_dense_batches == capped_sum(
                old(self).view_i128_packed_dense_batches as int,
                other.view_i128_packed_dense_batches as int,
                usize::MAX as int,
            ),
            final(self).view_i128_fallback_batches == capped_sum(
                old(self).view_i128_fallback_batches as int,
                other.view_i128_fallback_batches as int,
                usize::MAX as int,
            ),
            final(self).batch_i128_packed_dense_batches == capped_sum(
                old(self).batch_i128_packed_dense_batches as int,
                other.batch_i128_packed_dense_batches as int,
                usize::MAX as int,
            ),
            final(self).batch_i128_fallback_batches == capped_sum(
                old(self).batch_i128_fallback_batches as int,
                other.batch_i128_fallback_batches as int,
                usize::MAX as int,
            ),
            final(self).batch_null_fallback_batches == capped_sum(
                old(self).batch_null_fallback_batches as int,
                other.batch_null_fallback_batches as int,
                usize::MAX as int,
            ),
    {
        self.rows = self.rows.saturating_add(other.rows);
        self.part_hits = self.part_hits.saturating_add(other.part_hits);
        self.order_hits = self.order_hits.saturating_add(other.order_hits);
        self.supplier_hits = self.supplier_hits.saturating_add(other.supplier_hits);
        self.supply_hits = self.supply_hits.saturating_add(other.supply_hits);
        self.amount_rows = self.amount_rows.saturating_add(other.amount_rows);
        self.part_nanos = self.part_nanos.saturating_add(other.part_nanos);
        self.order_nanos = self.order_nanos.saturating_add(other.order_nanos);
        self.supplier_nanos = self.supplier_nanos.saturating_add(other.supplier_nanos);
        self.supply_nanos = self.supply_nanos.saturating_add(other.supply_nanos);
        self.amount_nanos = self.amount_nanos.saturating_add(other.amount_nanos);
        self.direct_i64_packed_dense_batches = self.direct_i64_packed_dense_batches.saturating_add(
            other.direct_i64_packed_dense_batches,
        );
        self.direct_i64_selected_packed_dense_batches =
            self.direct_i64_selected_packed_dense_batches.saturating_add(
                other.direct_i64_selected_packed_dense_batches,
            );
        self.direct_i64_fallback_batches = self.direct_i64_fallback_batches.saturating_add(
            other.direct_i64_fallback_batches,
        );
        self.direct_i64_selected_fallback_batches =
            self.direct_i64_selected_fallback_batches.saturating_add(
                other.direct_i64_selected_fallback_batches,
            );
        self.view_i64_packed_dense_batches = self.view_i64_packed_dense_batches.saturating_add(
            other.view_i64_packed_dense_batches,
        );
        self.view_i64_fallback_batches = self.view_i64_fallback_batches.saturating_add(
            other.view_i64_fallback_batches,
        );
        self.view_i128_packed_dense_batches = self.view_i128_packed_dense_batches.saturating_add(
            other.view_i128_packed_dense_batches,
        );
        self.view_i128_fallback_batches = self.view_i128_fallback_batches.saturating_add(
            other.view_i128_fallback_batches,
        );
        self.batch_i128_packed_dense_batches = self.batch_i128_packed_dense_batches.saturating_add(
            other.batch_i128_packed_dense_batches,
        );
        self.batch_i128_fallback_batches = self.batch_i128_fallback_batches.saturating_add(
            other.batch_i128_fallback_batches,
        );
        self.batch_null_fallback_batches = self.batch_null_fallback_batches.saturating_add(
            other.batch_null_fallback_batches,
        );
    }
}

/// How far a row got.
pub enum ProfitStage<V> {
    /// A value is missing.
    Null,
    /// The part is not wanted.
    NoPart,
    /// The order has no year.
    NoYear,
    /// The supplier does not sell the part.
    NoSupply,
    /// The supplier sells the part, but an amount is missing.
    NoAmount,
    /// The row counts.
    Counts { nationkey: i64, year: i32, supplycost: V },
}

/// A row that counts.
#[derive(Clone, Copy)]
pub struct ProfitHit<V> {
    pub row: usize,
    pub nationkey: i64,
    pub year: i32,
    pub supplycost: V,
}

/// The keys of the rows of a batch.
pub struct ProfitKeys<'a> {
    pub orderkeys: &'a Vector<i64>,
    pub partkeys: &'a Vector<i64>,
    pub suppkeys: &'a Vector<i64>,
}

impl<'a> ProfitKeys<'a> {
    /// The number of rows.
    pub open spec fn rows(self) -> int {
        self.orderkeys@.len() as int
    }

    /// Whether every column has every row.
    pub open spec fn aligned(self) -> bool {
        &&& self.orderkeys.well_formed()
        &&& self.partkeys.well_formed()
        &&& self.suppkeys.well_formed()
        &&& self.partkeys@.len() == self.orderkeys@.len()
        &&& self.suppkeys@.len() == self.orderkeys@.len()
    }
}

/// How far a row gets, by its keys: none may be missing, the part must be wanted, the
/// order must have a year and the supplier must sell the part. `amounts` says
/// whether the amounts of the row are there; with `amounts_first` a row without them
/// is left out before anything else is asked.
pub open spec fn stage_of<V>(
    orderkey: Option<i64>,
    partkey: Option<i64>,
    suppkey: Option<i64>,
    amounts: bool,
    amounts_first: bool,
    parts: Set<i64>,
    years: Map<i64, i32>,
    costs: spec_fn(i64, i64) -> Option<SupplyInfo<V>>,
) -> ProfitStage<V> {
    match (orderkey, partkey, suppkey) {
        (Some(orderkey), Some(partkey), Some(suppkey)) => if amounts_first && !amounts {
            ProfitStage::Null
        } else if !parts.contains(partkey) {
            ProfitStage::NoPart
        } else {
            match entry_of(years, orderkey) {
                None => ProfitStage::NoYear,
                Some(year) => match costs(partkey, suppkey) {
                    None => ProfitStage::NoSupply,
                    Some(info) => if !amounts {
                        ProfitStage::NoAmount
                    } else {
                        ProfitStage::Counts {
                            nationkey: info.nationkey,
                            year,
                            supplycost: info.supplycost,
                        }
                    },
                },
            }
        },
        _ => ProfitStage::Null,
    }
}

/// The rows that count among the first `rows`, in order.
pub open spec fn counting_rows<V>(stages: spec_fn(int) -> ProfitStage<V>, rows: int) -> Seq<
    ProfitHit<V>,
>
    decreases rows,
{
    if rows <= 0 {
        Seq::empty()
    } else {
        match stages(rows - 1) {
            ProfitStage::Counts { nationkey, year, supplycost } => counting_rows(
                stages,
                rows - 1,
            ).push(ProfitHit { row: (rows - 1) as usize, nationkey, year, supplycost }),
            _ => counting_rows(stages, rows - 1),
        }
    }
}

/// How many of the first `rows` rows got as far as a test asks.
pub open spec fn rows_reaching<V>(
    stages: spec_fn(int) -> ProfitStage<V>,
    reached: spec_fn(ProfitStage<V>) -> bool,
    rows: int,
) -> int
    decreases rows,
{
    if rows <= 0 {
        0
    } else {
        rows_reaching(stages, reached, rows - 1) + (if reached(stages(rows - 1)) {
            1int
        } else {
            0
        })
    }
}

/// Whether the part of a row is wanted.
pub open spec fn reached_part<V>() -> spec_fn(ProfitStage<V>) -> bool {
    |stage: ProfitStage<V>| !(stage is Null) && !(stage is NoPart)
}

/// Whether the order of a row has a year.
pub open spec fn reached_year<V>() -> spec_fn(ProfitStage<V>) -> bool {
    |stage: ProfitStage<V>| stage is NoSupply || stage is NoAmount || stage is Counts
}

/// Whether the supplier of a row sells the part.
pub open spec fn reached_supply<V>() -> spec_fn(ProfitStage<V>) -> bool {
    |stage: ProfitStage<V>| stage is NoAmount || stage is Counts
}

/// Whether a row counts.
pub open spec fn reached_amount<V>() -> spec_fn(ProfitStage<V>) -> bool {
    |stage: ProfitStage<V>| stage is Counts
}

/// Whether the counts of a profile are those of the first `rows` rows.
pub open spec fn profiles<V>(
    profile: ProfitProfile,
    stages: spec_fn(int) -> ProfitStage<V>,
    rows: int,
) -> bool {
    &&& profile.part_hits == rows_reaching(stages, reached_part(), rows)
    &&& profile.order_hits == rows_reaching(stages, reached_year(), rows)
    &&& profile.supplier_hits == rows_reaching(stages, reached_supply(), rows)
    &&& profile.supply_hits == rows_reaching(stages, reached_supply(), rows)
    &&& profile.amount_rows == rows_reaching(stages, reached_amount(), rows)
}

proof fn lemma_rows_reaching_bounded<V>(
    stages: spec_fn(int) -> ProfitStage<V>,
    reached: spec_fn(ProfitStage<V>) -> bool,
    rows: int,
)
    requires
        0 <= rows,
    ensures
        0 <= rows_reaching(stages, reached, rows) <= rows,
    decreases rows,
{
    if rows > 0 {
        lemma_rows_reaching_bounded(stages, reached, rows - 1);
    }
}

/// The rows that count in a batch, and what was counted on the way.
pub struct ProfitRows<V> {
    pub hits: Vec<ProfitHit<V>>,
    pub profile: ProfitProfile,
}

/// The stages of the rows of a batch.
pub open spec fn batch_stages<V>(
    keys: ProfitKeys,
    amounts: Seq<bool>,
    amounts_first: bool,
    parts: Set<i64>,
    years: Map<i64, i32>,
    costs: SupplyCosts<V>,
) -> spec_fn(int) -> ProfitStage<V> {
    |row: int|
        stage_of(
            keys.orderkeys@[row],
            keys.partkeys@[row],
            keys.suppkeys@[row],
            amounts[row],
            amounts_first,
            parts,
            years,
            |partkey: i64, suppkey: i64| costs.entry(partkey, suppkey),
        )
}

/// Adds one row to the counts and the rows found.
fn note_row<V: Copy>(
    row: usize,
    stage: &ProfitStage<V>,
    collect_profile: bool,
    found: &mut ProfitRows<V>,
    Ghost(stages): Ghost<spec_fn(int) -> ProfitStage<V>>,
)
    requires
        row < usize::MAX,
        *stage == stages(row as int),
        old(found).hits@ == counting_rows(stages, row as int),
        collect_profile ==> profiles(old(found).profile, stages, row as int) && old(
            found,
        ).profile.rows == row,
    ensures
        final(found).hits@ == counting_rows(stages, row + 1),
        collect_profile ==> profiles(
            final(found).profile,
            stages,
            row + 1,
        ) && final(found).profile.rows
            == row + 1,
        !collect_profile ==> final(found).profile == old(found).profile,
{
    proof {
        lemma_rows_reaching_bounded(stages, reached_part(), row as int);
        lemma_rows_reaching_bounded(stages, reached_year(), row as int);
        lemma_rows_reaching_bounded(stages, reached_supply(), row as int);
        lemma_rows_reaching_bounded(stages, reached_amount(), row as int);
    }
    if collect_profile {
        found.profile.rows += 1;
        match stage {
            ProfitStage::Null | ProfitStage::NoPart => {},
            ProfitStage::NoYear => {
                found.profile.part_hits += 1;
            },
            ProfitStage::NoSupply => {
                found.profile.part_hits += 1;
                found.profile.order_hits += 1;
            },
            ProfitStage::NoAmount => {
                found.profile.part_hits += 1;
                found.profile.order_hits += 1;
                found.profile.supplier_hits += 1;
                found.profile.supply_hits += 1;
            },
            ProfitStage::Counts { .. } => {
                found.profile.part_hits += 1;
                found.profile.order_hits += 1;
                found.profile.supplier_hits += 1;
                found.profile.supply_hits += 1;
                found.profile.amount_rows += 1;
            },
        }
    }
    match stage {
        ProfitStage::Counts { nationkey, year, supplycost } => {
            found.hits.push(
                ProfitHit { row, nationkey: *nationkey, year: *year, supplycost: *supplycost },
            );
        },
        _ => {},
    }
}

/// Nothing found yet.
fn nothing_found<V>() -> (found: ProfitRows<V>)
    ensures
        found.hits@.len() == 0,
        found.profile.rows == 0,
        found.profile.part_hits == 0,
        found.profile.order_hits == 0,
        found.profile.supplier_hits == 0,
        found.profile.supply_hits == 0,
        found.profile.amount_rows == 0,
{
    ProfitRows { hits: Vec::new(), profile: ProfitProfile::default() }
}

/// The rows of a batch that count, in order, by their keys and by whether their
/// amounts are there.
pub fn profit_rows<V: Copy>(
    keys: &ProfitKeys<'_>,
    amounts: &[bool],
    amounts_first: bool,
    part_keys: &AdaptiveI64Set,
    order_years: &OrderYears,
    supply_costs: &SupplyCosts<V>,
    collect_profile: bool,
) -> (found: ProfitRows<V>)
    requires
        keys.aligned(),
        amounts@.len() == keys.rows(),
    ensures
        ({
            let stages = batch_stages(
                *keys,
                amounts@,
                amounts_first,
                part_keys@,
                order_years@,
                *supply_costs,
            );
            &&& found.hits@ == counting_rows(stages, keys.rows())
            &&& collect_profile ==> profiles(found.profile, stages, keys.rows())
                && found.profile.rows == keys.rows()
        }),
{
    let ghost stages = batch_stages(
        *keys,
        amounts@,
        amounts_first,
        part_keys@,
        order_years@,
        *supply_costs,
    );
    let dense_part_keys = part_keys.dense_contains_slice();
    let mut found: ProfitRows<V> = nothing_found();
    assert(found.hits@ =~= counting_rows(stages, 0));
    let rows: usize = amounts.len();
    let mut row: usize = 0;
    while row < rows
        invariant
            keys.aligned(),
            rows == keys.rows(),
            rows == amounts@.len(),
            row <= rows,
            dense_part_keys matches Some(present) ==> part_keys@ == dense_keys(present@),
            stages == batch_stages(
                *keys,
                amounts@,
                amounts_first,
                part_keys@,
                order_years@,
                *supply_costs,
            ),
            found.hits@ == counting_rows(stages, row as int),
            collect_profile ==> profiles(found.profile, stages, row as int) && found.profile.rows
                == row,
        decreases rows - row,
    {
        let stage: ProfitStage<V> = match (
            keys.orderkeys.get(row),
            keys.partkeys.get(row),
            keys.suppkeys.get(row),
        ) {
            (Some(orderkey), Some(partkey), Some(suppkey)) => {
                if amounts_first && !amounts[row] {
                    ProfitStage::Null
                } else if !part_keys.contains_cached(dense_part_keys, partkey) {
                    ProfitStage::NoPart
                } else {
                    match order_years.get(orderkey) {
                        None => ProfitStage::NoYear,
                        Some(year) => match supply_costs.get(partkey, suppkey) {
                            None => ProfitStage::NoSupply,
                            Some(info) => if !amounts[row] {
                                ProfitStage::NoAmount
                            } else {
                                ProfitStage::Counts {
                                    nationkey: info.nationkey,
                                    year,
                                    supplycost: info.supplycost,
                                }
                            },
                        },
                    }
                }
            },
            _ => ProfitStage::Null,
        };
        note_row(row, &stage, collect_profile, &mut found, Ghost(stages));
        row += 1;
    }
    found
}

/// Whether the bit of a key is set in words of 64 bits.
pub open spec fn word_flag(words: Seq<u64>, key: i64) -> bool {
    0 <= key && key / 64 < words.len() && (words[key / 64] >> ((key % 64) as u64)) & 1 == 1
}

/// Whether the bit of a key is set in words of 64 bits.
pub fn adaptive_i64_words_contains(words: &[u64], key: i64) -> (found: bool)
    ensures
        found == word_flag(words@, key),
{
    if key < 0 {
        return false;
    }
    let word: u64 = key as u64 / 64;
    if word >= words.len() as u64 {
        return false;
    }
    let place: u64 = key as u64 % 64;
    (words[word as usize] >> place) & 1 == 1
}

/// The wanted parts as flags, and as bits where they are at hand.
pub struct DenseParts<'a> {
    pub flags: &'a [bool],
    pub words: Option<&'a [u64]>,
}

impl<'a> DenseParts<'a> {
    /// Whether a part is wanted.
    pub open spec fn wants(self, partkey: i64) -> bool {
        match self.words {
            Some(words) => word_flag(words@, partkey),
            None => flag_at(self.flags@, partkey),
        }
    }

    /// Whether flags and bits say the same.
    pub open spec fn consistent(self) -> bool {
        forall|partkey: i64| #[trigger] self.wants(partkey) == flag_at(self.flags@, partkey)
    }

    fn contains(&self, partkey: i64) -> (found: bool)
        ensures
            found == self.wants(partkey),
    {
        match self.words {
            Some(words) => adaptive_i64_words_contains(words, partkey),
            None => dense_contains(self.flags, partkey),
        }
    }
}

/// The years of orders by key from a base.
pub struct DenseYears<'a> {
    pub values: &'a [i32],
    pub base_key: i64,
    pub missing: i32,
}

/// The stages of rows without nulls, by flags, years and packed costs.
pub open spec fn packed_dense_stages<V>(
    orderkeys: Seq<i64>,
    partkeys: Seq<i64>,
    suppkeys: Seq<i64>,
    parts: DenseParts,
    years: DenseYears,
    costs: Map<u64, SupplyInfo<V>>,
) -> spec_fn(int) -> ProfitStage<V> {
    |row: int|
        if !parts.wants(partkeys[row]) {
            ProfitStage::NoPart
        } else {
            match dense_year(years.values@, years.base_key, years.missing, orderkeys[row]) {
                None => ProfitStage::NoYear,
                Some(year) => match packed_entry(costs, partkeys[row], suppkeys[row]) {
                    None => ProfitStage::NoSupply,
                    Some(info) => ProfitStage::Counts {
                        nationkey: info.nationkey,
                        year,
                        supplycost: info.supplycost,
                    },
                },
            }
        }
}

/// The rows that count, read from flags, years and packed costs without any other
/// lookup.
pub fn profit_packed_dense_rows<V: Copy>(
    orderkeys: &[i64],
    partkeys: &[i64],
    suppkeys: &[i64],
    parts: &DenseParts<'_>,
    years: &DenseYears<'_>,
    costs: &HashMap<u64, SupplyInfo<V>>,
    collect_profile: bool,
) -> (found: ProfitRows<V>)
    requires
        orderkeys@.len() == partkeys@.len(),
        suppkeys@.len() == partkeys@.len(),
    ensures
        ({
            let stages = packed_dense_stages(
                orderkeys@,
                partkeys@,
                suppkeys@,
                *parts,
                *years,
                costs@,
            );
            &&& found.hits@ == counting_rows(stages, partkeys@.len() as int)
            &&& collect_profile ==> profiles(found.profile, stages, partkeys@.len() as int)
                && found.profile.rows == partkeys@.len()
        }),
{
    let ghost stages = packed_dense_stages(
        orderkeys@,
        partkeys@,
        suppkeys@,
        *parts,
        *years,
        costs@,
    );
    let mut found: ProfitRows<V> = nothing_found();
    assert(found.hits@ =~= counting_rows(stages, 0));
    let mut row: usize = 0;
    while row < partkeys.len()
        invariant
            orderkeys@.len() == partkeys@.len(),
            suppkeys@.len() == partkeys@.len(),
            row <= partkeys@.len(),
            stages == packed_dense_stages(
                orderkeys@,
                partkeys@,
                suppkeys@,
                *parts,
                *years,
                costs@,
            ),
            found.hits@ == counting_rows(stages, row as int),
            collect_profile ==> profiles(found.profile, stages, row as int) && found.profile.rows
                == row,
        decreases partkeys@.len() - row,
    {
        let partkey: i64 = partkeys[row];
        let stage: ProfitStage<V> = if !parts.contains(partkey) {
            ProfitStage::NoPart
        } else {
            match dense_year_get(years.values, years.base_key, years.missing, orderkeys[row]) {
                None => ProfitStage::NoYear,
                Some(year) => match pack_part_supp_key(partkey, suppkeys[row]) {
                    None => ProfitStage::NoSupply,
                    Some(key) => match costs.get(&key) {
                        None => ProfitStage::NoSupply,
                        Some(info) => ProfitStage::Counts {
                            nationkey: info.nationkey,
                            year,
                            supplycost: info.supplycost,
                        },
                    },
                },
            }
        };
        note_row(row, &stage, collect_profile, &mut found, Ghost(stages));
        row += 1;
    }
    found
}

/// Rows that get equally far count alike.
proof fn lemma_counting_rows_agree<V>(
    left: spec_fn(int) -> ProfitStage<V>,
    right: spec_fn(int) -> ProfitStage<V>,
    rows: int,
)
    requires
        forall|row: int| 0 <= row < rows ==> #[trigger] left(row) == right(row),
    ensures
        counting_rows(left, rows) == counting_rows(right, rows),
    decreases rows,
{
    if rows > 0 {
        lemma_counting_rows_agree(left, right, rows - 1);
        assert(left(rows - 1) == right(rows - 1));
    }
}

proof fn lemma_reaching_agrees<V>(
    left: spec_fn(int) -> ProfitStage<V>,
    right: spec_fn(int) -> ProfitStage<V>,
    reached: spec_fn(ProfitStage<V>) -> bool,
    rows: int,
)
    requires
        forall|row: int| 0 <= row < rows ==> #[trigger] left(row) == right(row),
    ensures
        rows_reaching(left, reached, rows) == rows_reaching(right, reached, rows),
    decreases rows,
{
    if rows > 0 {
        lemma_reaching_agrees(left, right, reached, rows - 1);
        assert(left(rows - 1) == right(rows - 1));
    }
}

/// Rows that get equally far have the same counts.
pub proof fn lemma_profiles_agree<V>(
    profile: ProfitProfile,
    left: spec_fn(int) -> ProfitStage<V>,
    right: spec_fn(int) -> ProfitStage<V>,
    rows: int,
)
    requires
        forall|row: int| 0 <= row < rows ==> #[trigger] left(row) == right(row),
    ensures
        profiles(profile, left, rows) == profiles(profile, right, rows),
{
    lemma_reaching_agrees(left, right, reached_part(), rows);
    lemma_reaching_agrees(left, right, reached_year(), rows);
    lemma_reaching_agrees(left, right, reached_supply(), rows);
    lemma_reaching_agrees(left, right, reached_amount(), rows);
}

/// The rows that count are the same whether amounts are looked at first or last.
pub proof fn law_amounts_first_or_last<V>(
    keys: ProfitKeys,
    amounts: Seq<bool>,
    parts: Set<i64>,
    years: Map<i64, i32>,
    costs: SupplyCosts<V>,
    rows: int,
)
    ensures
        counting_rows(batch_stages(keys, amounts, true, parts, years, costs), rows)
            == counting_rows(batch_stages(keys, amounts, false, parts, years, costs), rows),
    decreases rows,
{
    if rows > 0 {
        law_amounts_first_or_last(keys, amounts, parts, years, costs, rows - 1);
    }
}

/// Reading flags, years and packed costs finds the rows that looking each key up
/// finds, where no value is missing and the flags and bits are those of the set, the
/// years are those of the map and every cost is packed.
pub proof fn law_packed_dense_finds_the_same<V>(
    keys: ProfitKeys,
    amounts: Seq<bool>,
    parts: DenseParts,
    years: DenseYears,
    part_keys: Set<i64>,
    order_years: Map<i64, i32>,
    supply_costs: SupplyCosts<V>,
    costs: Map<u64, SupplyInfo<V>>,
)
    requires
        keys.aligned(),
        keys.orderkeys.null_free(),
        keys.partkeys.null_free(),
        keys.suppkeys.null_free(),
        amounts == Seq::new(keys.rows() as nat, |row: int| true),
        parts.consistent(),
        part_keys == dense_keys(parts.flags@),
        forall|key: i64| #[trigger]
            dense_year(years.values@, years.base_key, years.missing, key) == entry_of(
                order_years,
                key,
            ),
        forall|partkey: i64, suppkey: i64| #[trigger]
            supply_costs.entry(partkey, suppkey) == packed_entry(costs, partkey, suppkey),
    ensures
        counting_rows(
            packed_dense_stages(
                keys.orderkeys.values@,
                keys.partkeys.values@,
                keys.suppkeys.values@,
                parts,
                years,
                costs,
            ),
            keys.rows(),
        ) == counting_rows(
            batch_stages(keys, amounts, true, part_keys, order_years, supply_costs),
            keys.rows(),
        ),
        forall|row: int|
            0 <= row < keys.rows() ==> #[trigger] packed_dense_stages(
                keys.orderkeys.values@,
                keys.partkeys.values@,
                keys.suppkeys.values@,
                parts,
                years,
                costs,
            )(row) == batch_stages(
                keys,
                amounts,
                true,
                part_keys,
                order_years,
                supply_costs,
            )(row),
{
    let left = packed_dense_stages(
        keys.orderkeys.values@,
        keys.partkeys.values@,
        keys.suppkeys.values@,
        parts,
        years,
        costs,
    );
    let right = batch_stages(keys, amounts, true, part_keys, order_years, supply_costs);
    assert forall|row: int| 0 <= row < keys.rows() implies #[trigger] left(row) == right(row) by {
        assert(keys.orderkeys.valid_at(row));
        assert(keys.partkeys.valid_at(row));
        assert(keys.suppkeys.valid_at(row));
        let partkey = keys.partkeys.values@[row];
        assert(parts.wants(partkey) == flag_at(parts.flags@, partkey));
        assert(part_keys.contains(partkey) == flag_at(parts.flags@, partkey));
        let found = dense_year(
            years.values@,
            years.base_key,
            years.missing,
            keys.orderkeys.values@[row],
        );
    }
    lemma_counting_rows_agree(left, right, keys.rows());
}

} // verus!
