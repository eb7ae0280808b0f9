//! Distinct suppliers counted by part group.
//!
//! Suppliers are collected as packed pairs, as bits, or as a hash set per group;
//! each way counts the same suppliers.

use std::collections::HashSet;
use vstd::prelude::*;
use crate::batch_collect::{integer_pairs, pairs_error, read_columns, reads_pairs};
use crate::columns::RecordBatch;
use crate::error::{SqlError, SqlResult};
use crate::tables::{AdaptiveI64Map, AdaptiveI64Set};

verus! {

broadcast use vstd::std_specs::hash::group_hash_axioms;

/// A group and a supplier seen in it.
pub type GroupSupplier = (usize, i64);

/// The group and supplier of a row: none where a value is missing, the supplier is
/// excluded or the part belongs to no group.
pub open spec fn row_supplier(
    row: Option<(i64, i64)>,
    part_to_group: Map<i64, usize>,
    excluded: Set<i64>,
) -> Option<GroupSupplier> {
    match row {
        Some((partkey, suppkey)) => if !excluded.contains(suppkey) && part_to_group.contains_key(
            partkey,
        ) {
            Some((part_to_group[partkey], suppkey))
        } else {
            None
        },
        None => None,
    }
}

/// The groups and suppliers of the first `count` rows, in order.
pub open spec fn row_suppliers(
    rows: Seq<Option<(i64, i64)>>,
    part_to_group: Map<i64, usize>,
    excluded: Set<i64>,
    count: int,
) -> Seq<GroupSupplier>
    decreases count,
{
    if count <= 0 {
        Seq::empty()
    } else {
        match row_supplier(rows[count - 1], part_to_group, excluded) {
            Some(pair) => row_suppliers(rows, part_to_group, excluded, count - 1).push(pair),
            None => row_suppliers(rows, part_to_group, excluded, count - 1),
        }
    }
}

/// The group and supplier of each row, in order.
pub fn collect_suppliers(
    rows: &[Option<(i64, i64)>],
    part_to_group: &AdaptiveI64Map<usize>,
    excluded: &AdaptiveI64Set,
) -> (pairs: Vec<GroupSupplier>)
    ensures
        pairs@ == row_suppliers(rows@, part_to_group@, excluded@, rows@.len() as int),
{
    let dense_groups = part_to_group.dense_slice();
    let dense_excluded = excluded.dense_contains_slice();
    let mut pairs: Vec<GroupSupplier> = Vec::new();
    let mut row: usize = 0;
    while row < rows.len()
        invariant
            dense_groups matches Some(values) ==> part_to_group@ == crate::tables::dense_entries(
                values@,
            ),
            dense_excluded matches Some(present) ==> excluded@ == crate::tables::dense_keys(
                present@,
            ),
            row <= rows@.len(),
            pairs@ == row_suppliers(rows@, part_to_group@, excluded@, row as int),
        decreases rows@.len() - row,
    {
        match rows[row] {
            Some((partkey, suppkey)) => {
                if !excluded.contains_cached(dense_excluded, suppkey) {
                    match part_to_group.get_cached(dense_groups, partkey) {
                        Some(group) => {
                            pairs.push((group, suppkey));
                        },
                        None => {},
                    }
                }
            },
            None => {},
        }
        row += 1;
    }
    pairs
}

/// The groups and suppliers of a batch, by the columns `ps_partkey` and
/// `ps_suppkey`.
pub open spec fn batch_suppliers(
    batch: RecordBatch,
    part_to_group: Map<i64, usize>,
    excluded: Set<i64>,
) -> Seq<GroupSupplier> {
    let rows = integer_pairs(
        batch.column_named("ps_partkey"@),
        batch.column_named("ps_suppkey"@),
    );
    row_suppliers(rows, part_to_group, excluded, rows.len() as int)
}

/// Whether a batch has the columns that suppliers are read from.
pub open spec fn suppliers_readable(batch: RecordBatch) -> bool {
    reads_pairs(batch, "ps_partkey"@, "ps_suppkey"@)
}

/// Why the suppliers of a batch cannot be read.
pub open spec fn suppliers_error(batch: RecordBatch, error: SqlError) -> bool {
    pairs_error(batch, "ps_partkey"@, "ps_suppkey"@, error)
}

/// The suppliers seen in a group.
pub open spec fn seen_in(pairs: Seq<GroupSupplier>, group: usize) -> Set<i64> {
    Set::new(|supplier: i64| pairs.contains((group, supplier)))
}

/// One more pair adds its supplier to its group.
proof fn lemma_seen_push(pairs: Seq<GroupSupplier>, pair: GroupSupplier, group: usize)
    ensures
        seen_in(pairs.push(pair), group) =~= (if pair.0 == group {
            seen_in(pairs, group).insert(pair.1)
        } else {
            seen_in(pairs, group)
        }),
{
    let longer = pairs.push(pair);
    assert forall|supplier: i64| seen_in(longer, group).contains(supplier) == (if pair.0 == group {
        seen_in(pairs, group).insert(pair.1)
    } else {
        seen_in(pairs, group)
    }).contains(supplier) by {
        if longer.contains((group, supplier)) {
            let place = choose|place: int| 0 <= place < longer.len() && longer[place] == (group, supplier);
            if place < pairs.len() {
                assert(pairs[place] == (group, supplier));
            }
        }
        if pairs.contains((group, supplier)) {
            let place = choose|place: int| 0 <= place < pairs.len() && pairs[place] == (group, supplier);
            assert(longer[place] == (group, supplier));
        }
        assert(longer[pairs.len() as int] == pair);
    }
}

/// Suppliers by group, one hash set for each.
pub struct GroupSupplierSets {
    sets: Vec<HashSet<i64>>,
    seen: Ghost<Seq<GroupSupplier>>,
}

impl GroupSupplierSets {
    /// The pairs taken in so far.
    pub closed spec fn seen(self) -> Seq<GroupSupplier> {
        self.seen@
    }

    /// How many groups there are.
    pub closed spec fn group_count(self) -> int {
        self.sets@.len() as int
    }

    /// Whether each group holds the suppliers seen in it.
    pub closed spec fn well_formed(self) -> bool {
        forall|group: int|
            0 <= group < self.sets@.len() ==> (#[trigger] self.sets@[group])@ == seen_in(
                self.seen(),
                group as usize,
            )
    }

    /// No supplier in any of `group_count` groups.
    pub fn new(group_count: usize) -> (sets: GroupSupplierSets)
        ensures
            sets.well_formed(),
            sets.group_count() == group_count,
            sets.seen() == Seq::<GroupSupplier>::empty(),
    {
        let mut sets: Vec<HashSet<i64>> = Vec::new();
        let mut group: usize = 0;
        while group < group_count
            invariant
                group <= group_count,
                sets@.len() == group,
                forall|done: int|
                    0 <= done < group ==> (#[trigger] sets@[done])@ == Set::<i64>::empty(),
            decreases group_count - group,
        {
            sets.push(HashSet::new());
            group += 1;
        }
        let result = GroupSupplierSets { sets, seen: Ghost(Seq::empty()) };
        assert forall|group: int| 0 <= group < result.sets@.len() implies (
        #[trigger] result.sets@[group])@ == seen_in(result.seen(), group as usize) by {
            assert(seen_in(result.seen(), group as usize) =~= Set::<i64>::empty());
        }
        result
    }

    /// Takes in a supplier; a group that is not there is passed over.
    pub fn insert(&mut self, group: usize, supplier: i64)
        requires
            old(self).well_formed(),
        ensures
            final(self).well_formed(),
            final(self).group_count() == old(self).group_count(),
            final(self).seen() == old(self).seen().push((group, supplier)),
    {
        let ghost before = *self;
        if group < self.sets.len() {
            self.sets[group].insert(supplier);
        }
        proof {
            self.seen = Ghost(before.seen@.push((group, supplier)));
            assert forall|other: int| 0 <= other < self.sets@.len() implies (
            #[trigger] self.sets@[other])@ == seen_in(self.seen(), other as usize) by {
                lemma_seen_push(before.seen(), (group, supplier), other as usize);
                assert(before.sets@[other]@ == seen_in(before.seen(), other as usize));
            }
        }
    }

    /// The number of suppliers of each group.
    pub fn counts(&self) -> (counts: Vec<u64>)
        requires
            self.well_formed(),
        ensures
            counts@.len() == self.group_count(),
            forall|group: int|
                0 <= group < counts@.len() ==> #[trigger] counts@[group] == seen_in(
                    self.seen(),
                    group as usize,
                ).len(),
    {
        let mut counts: Vec<u64> = Vec::new();
        let mut group: usize = 0;
        while group < self.sets.len()
            invariant
                self.well_formed(),
                group <= self.sets@.len(),
                counts@.len() == group,
                forall|done: int|
                    0 <= done < group ==> #[trigger] counts@[done] == seen_in(
                        self.seen(),
                        done as usize,
                    ).len(),
            decreases self.sets@.len() - group,
        {
            assert(self.sets@[group as int]@ == seen_in(self.seen(), group));
            counts.push(self.sets[group].len() as u64);
            group += 1;
        }
        counts
    }
}

/// Takes in the suppliers of a batch.
pub fn supplier_counts_batch(
    batch: &RecordBatch,
    part_to_group: &AdaptiveI64Map<usize>,
    excluded: &AdaptiveI64Set,
    suppliers: &mut GroupSupplierSets,
) -> (result: SqlResult<()>)
    requires
        batch.well_formed(),
        old(suppliers).well_formed(),
    ensures
        final(suppliers).well_formed(),
        final(suppliers).group_count() == old(suppliers).group_count(),
        match result {
            Ok(_) => suppliers_readable(*batch) && final(suppliers).seen() == old(suppliers).seen()
                + batch_suppliers(*batch, part_to_group@, excluded@),
            Err(error) => !suppliers_readable(*batch) && suppliers_error(*batch, error) && final(
                suppliers).seen() == old(suppliers).seen(),
        },
{
    let rows = match read_columns(batch, "ps_partkey", "ps_suppkey") {
        Ok(rows) => rows,
        Err(error) => {
            return Err(error);
        },
    };
    let pairs = collect_suppliers(rows.as_slice(), part_to_group, excluded);
    let ghost before = suppliers.seen();
    let mut index: usize = 0;
    assert(suppliers.seen() =~= before + pairs@.take(0));
    while index < pairs.len()
        invariant
            suppliers.well_formed(),
            suppliers.group_count() == old(suppliers).group_count(),
            index <= pairs@.len(),
            suppliers.seen() == before + pairs@.take(index as int),
        decreases pairs@.len() - index,
    {
        let (group, supplier): GroupSupplier = pairs[index];
        suppliers.insert(group, supplier);
        index += 1;
        assert(suppliers.seen() =~= before + pairs@.take(index as int));
    }
    assert(pairs@.take(index as int) =~= pairs@);
    Ok(())
}

/// A group and a supplier in one integer.
pub open spec fn packed(group: int, supplier: int) -> int {
    group * 0x1_0000_0000 + supplier
}

/// Whether a group and a supplier fit into one integer.
pub open spec fn packable(group: int, supplier: int) -> bool {
    0 <= group <= u32::MAX && 0 <= supplier <= u32::MAX
}

/// Whether an integer is a packed pair.
pub open spec fn is_packed(integer: u64, pair: GroupSupplier) -> bool {
    packable(pair.0 as int, pair.1 as int) && integer == packed(pair.0 as int, pair.1 as int)
}

/// Pairs of a group and a supplier, each packed into one integer.
pub struct PackedU32PairDistinct {
    pairs: Vec<u64>,
    seen: Ghost<Seq<GroupSupplier>>,
}

impl PackedU32PairDistinct {
    /// The pairs taken in so far.
    pub closed spec fn seen(self) -> Seq<GroupSupplier> {
        self.seen@
    }

    /// Whether the integers are the pairs.
    pub closed spec fn well_formed(self) -> bool {
        &&& self.pairs@.len() == self.seen@.len()
        &&& forall|index: int|
            0 <= index < self.pairs@.len() ==> is_packed(
                #[trigger] self.pairs@[index],
                self.seen@[index],
            )
    }

    /// No pair yet.
    pub fn new() -> (distinct: PackedU32PairDistinct)
        ensures
            distinct.well_formed(),
            distinct.seen() == Seq::<GroupSupplier>::empty(),
    {
        PackedU32PairDistinct { pairs: Vec::new(), seen: Ghost(Seq::empty()) }
    }

    /// Takes in a pair that can be packed; otherwise returns `false`.
    pub fn push(&mut self, group: usize, supplier: i64) -> (taken: bool)
        requires
            old(self).well_formed(),
        ensures
            final(self).well_formed(),
            taken == packable(group as int, supplier as int),
            final(self).seen() == (if taken {
                old(self).seen().push((group, supplier))
            } else {
                old(self).seen()
            }),
    {
        if group as u64 > u32::MAX as u64 || supplier < 0 || supplier > u32::MAX as i64 {
            return false;
        }
        let ghost before = *self;
        let pair: u64 = group as u64 * 0x1_0000_0000u64 + supplier as u64;
        self.pairs.push(pair);
        proof {
            self.seen = Ghost(before.seen@.push((group, supplier)));
            assert forall|index: int| 0 <= index < self.pairs@.len() implies is_packed(
                #[trigger] self.pairs@[index],
                self.seen@[index],
            ) by {
                if index < before.pairs@.len() {
                    assert(self.pairs@[index] == before.pairs@[index]);
                }
            }
        }
        true
    }

    /// Takes over the pairs of another.
    pub fn append(&mut self, other: PackedU32PairDistinct)
        requires
            old(self).well_formed(),
            other.well_formed(),
        ensures
            final(self).well_formed(),
            final(self).seen() == old(self).seen() + other.seen(),
    {
        let ghost before = *self;
        let ghost added = other;
        let mut pairs: Vec<u64> = other.pairs;
        self.pairs.append(&mut pairs);
        proof {
            self.seen = Ghost(before.seen@ + added.seen@);
            assert forall|index: int| 0 <= index < self.pairs@.len() implies is_packed(
                #[trigger] self.pairs@[index],
                self.seen@[index],
            ) by {
                if index < before.pairs@.len() {
                    assert(self.pairs@[index] == before.pairs@[index]);
                } else {
                    assert(self.pairs@[index] == added.pairs@[index - before.pairs@.len()]);
                }
            }
        }
    }

    /// The number of different suppliers of each of the first `group_count` groups.
    pub fn counts_by_first(&self, group_count: usize) -> (counts: Vec<u64>)
        requires
            self.well_formed(),
        ensures
            counts@.len() == group_count,
            forall|group: int|
                0 <= group < counts@.len() ==> #[trigger] counts@[group] == seen_in(
                    self.seen(),
                    group as usize,
                ).len(),
    {
        let mut sets = GroupSupplierSets::new(group_count);
        let ghost all = self.seen();
        let mut index: usize = 0;
        assert(sets.seen() =~= all.take(0));
        while index < self.pairs.len()
            invariant
                self.well_formed(),
                all == self.seen(),
                sets.well_formed(),
                sets.group_count() == group_count,
                index <= self.pairs@.len(),
                sets.seen() == all.take(index as int),
            decreases self.pairs@.len() - index,
        {
            let pair: u64 = self.pairs[index];
            let group: u64 = pair / 0x1_0000_0000u64;
            let supplier: u64 = pair % 0x1_0000_0000u64;
            proof {
                let (expected_group, expected_supplier) = all[index as int];
                assert(is_packed(pair, all[index as int]));
                lemma_unpack(expected_group as int, expected_supplier as int);
            }
            sets.insert(group as usize, supplier as i64);
            index += 1;
            assert(sets.seen() =~= all.take(index as int));
        }
        assert(all.take(index as int) =~= all);
        sets.counts()
    }
}

/// A packed pair gives back its group and supplier.
pub proof fn lemma_unpack(group: int, supplier: int)
    requires
        packable(group, supplier),
    ensures
        packed(group, supplier) / 0x1_0000_0000 == group,
        packed(group, supplier) % 0x1_0000_0000 == supplier,
        0 <= packed(group, supplier) <= u64::MAX,
{
}

/// The pairs that cannot be packed.
pub open spec fn first_unpackable(pairs: Seq<GroupSupplier>, index: int) -> bool {
    &&& 0 <= index < pairs.len()
    &&& !packable(pairs[index].0 as int, pairs[index].1 as int)
    &&& forall|earlier: int|
        0 <= earlier < index ==> packable(
            (#[trigger] pairs[earlier]).0 as int,
            pairs[earlier].1 as int,
        )
}

/// Whether every pair can be packed.
pub open spec fn all_packable(pairs: Seq<GroupSupplier>) -> bool {
    forall|index: int|
        0 <= index < pairs.len() ==> packable(
            (#[trigger] pairs[index]).0 as int,
            pairs[index].1 as int,
        )
}

/// Takes in the suppliers of a batch, packed. A pair that cannot be packed ends the
/// batch with an error; the pairs before it are taken in.
pub fn supplier_counts_packed_batch(
    batch: &RecordBatch,
    part_to_group: &AdaptiveI64Map<usize>,
    excluded: &AdaptiveI64Set,
    distinct: &mut PackedU32PairDistinct,
) -> (result: SqlResult<()>)
    requires
        batch.well_formed(),
        old(distinct).well_formed(),
    ensures
        final(distinct).well_formed(),
        ({
            let pairs = batch_suppliers(*batch, part_to_group@, excluded@);
            match result {
                Ok(_) => suppliers_readable(*batch) && all_packable(pairs) && final(distinct).seen()
                    == old(distinct).seen() + pairs,
                Err(error) => if suppliers_readable(*batch) {
                    &&& error.is_unsupported("packed distinct key is out of range"@)
                    &&& exists|index: int| #[trigger]
                        first_unpackable(pairs, index) && final(distinct).seen() == old(
                            distinct,
                        ).seen() + pairs.take(index)
                } else {
                    suppliers_error(*batch, error) && final(distinct).seen() == old(distinct).seen()
                },
            }
        }),
{
    let rows = match read_columns(batch, "ps_partkey", "ps_suppkey") {
        Ok(rows) => rows,
        Err(error) => {
            return Err(error);
        },
    };
    let pairs = collect_suppliers(rows.as_slice(), part_to_group, excluded);
    let ghost before = distinct.seen();
    let mut index: usize = 0;
    assert(distinct.seen() =~= before + pairs@.take(0));
    while index < pairs.len()
        invariant
            suppliers_readable(*batch),
            before == old(distinct).seen(),
            pairs@ == batch_suppliers(*batch, part_to_group@, excluded@),
            distinct.well_formed(),
            index <= pairs@.len(),
            distinct.seen() == before + pairs@.take(index as int),
            forall|earlier: int|
                0 <= earlier < index ==> packable(
                    (#[trigger] pairs@[earlier]).0 as int,
                    pairs@[earlier].1 as int,
                ),
        decreases pairs@.len() - index,
    {
        let (group, supplier): GroupSupplier = pairs[index];
        if !distinct.push(group, supplier) {
            assert(first_unpackable(pairs@, index as int));
            return Err(SqlError::unsupported("packed distinct key is out of range"));
        }
        index += 1;
        assert(distinct.seen() =~= before + pairs@.take(index as int));
    }
    assert(pairs@.take(index as int) =~= pairs@);
    Ok(())
}

/// Packs suppliers seen by another worker with those seen here.
pub fn merge_supplier_counts_packed(
    groups: &mut PackedU32PairDistinct,
    batch_groups: PackedU32PairDistinct,
)
    requires
        old(groups).well_formed(),
        batch_groups.well_formed(),
    ensures
        final(groups).well_formed(),
        final(groups).seen() == old(groups).seen() + batch_groups.seen(),
{
    groups.append(batch_groups);
}

} // verus!
