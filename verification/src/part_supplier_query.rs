//! Groups of parts with the number of their suppliers, from batches of rows.

use std::collections::HashSet;
use vstd::prelude::*;
use crate::batch_collect::{
    answered_pairs, columns_missing, has_key_and_strings, is_key_error, needs_other_key, strings_of,
};
use crate::columns::RecordBatch;
use crate::error::{SqlError, SqlResult};
use crate::part_groups::{
    batch_parts, empty_groups, law_with_parts_concatenates, part_columns_error,
    part_columns_readable, part_groups_batch, PartFilter, PartGroup, PartGroups,
};
use crate::supplier_bitset::{
    count_where, law_bits_count_suppliers, law_layout_covers, supplier_counts_bitset_batch,
    words_for, GroupSupplierBitset,
};
use crate::supplier_counts::{
    all_packable, batch_suppliers, seen_in, supplier_counts_batch, supplier_counts_packed_batch,
    suppliers_error, suppliers_readable, GroupSupplier, GroupSupplierSets, PackedU32PairDistinct,
};
use crate::supplier_rows::{
    comment_verdicts, excluded_suppliers_batch, is_report, largest_key, marked_keys, method_of,
    part_supplier_rows, supplier_count_method, texts_of, ExcludedSuppliers, PartSupplierGroupRow,
    SupplierCountMethod, SupplierCountSwitches,
};
use crate::tables::{AdaptiveI64Map, AdaptiveI64Set};

verus! {

broadcast use vstd::std_specs::hash::group_hash_axioms;

/// Whether every batch is well formed.
pub open spec fn all_well_formed(batches: Seq<RecordBatch>) -> bool {
    forall|index: int| 0 <= index < batches.len() ==> (#[trigger] batches[index]).well_formed()
}

/// The parts of batches, in order.
pub open spec fn all_parts(batches: Seq<RecordBatch>, filter: PartFilter) -> Seq<(i64, PartGroup)>
    decreases batches.len(),
{
    if batches.len() == 0 {
        Seq::empty()
    } else {
        all_parts(batches.drop_last(), filter) + batch_parts(batches.last(), filter)
    }
}

/// Whether a batch is the first whose parts cannot be read.
pub open spec fn parts_fail_at(batches: Seq<RecordBatch>, index: int, error: SqlError) -> bool {
    &&& 0 <= index < batches.len()
    &&& !part_columns_readable(batches[index])
    &&& part_columns_error(batches[index], error)
    &&& forall|earlier: int| 0 <= earlier < index ==> part_columns_readable(
        #[trigger] batches[earlier],
    )
}

/// Puts the parts of batches into their groups.
pub fn part_groups_by_attributes(
    batches: &[RecordBatch],
    filter: &PartFilter<'_>,
) -> (result: SqlResult<
    PartGroups,
>)
    requires
        all_well_formed(batches@),
    ensures
        match result {
            Ok(groups) => {
                &&& groups.well_formed()
                &&& forall|index: int|
                    0 <= index < batches@.len() ==> part_columns_readable(#[trigger] batches@[index])
                &&& groups.state() == empty_groups().with_parts(all_parts(batches@, *filter))
            },
            Err(error) => exists|index: int| #[trigger] parts_fail_at(batches@, index, error),
        },
{
    let mut groups = PartGroups::new();
    let mut index: usize = 0;
    assert(batches@.take(0) =~= Seq::empty());
    while index < batches.len()
        invariant
            all_well_formed(batches@),
            index <= batches@.len(),
            groups.well_formed(),
            forall|earlier: int|
                0 <= earlier < index ==> part_columns_readable(#[trigger] batches@[earlier]),
            groups.state() == empty_groups().with_parts(
                all_parts(batches@.take(index as int), *filter),
            ),
        decreases batches@.len() - index,
    {
        match part_groups_batch(&batches[index], filter, &mut groups) {
            Ok(()) => {
                proof {
                    assert(batches@.take(index + 1).drop_last() =~= batches@.take(index as int));
                    law_with_parts_concatenates(
                        empty_groups(),
                        all_parts(batches@.take(index as int), *filter),
                        batch_parts(batches@[index as int], *filter),
                    );
                }
            },
            Err(error) => {
                assert(parts_fail_at(batches@, index as int, error));
                return Err(error);
            },
        }
        index += 1;
    }
    assert(batches@.take(index as int) =~= batches@);
    Ok(groups)
}

/// The suppliers of a batch, each with whether its comment matches.
pub open spec fn judged_suppliers(batch: RecordBatch, parts: Seq<Seq<char>>) -> Seq<(i64, bool)> {
    let answers = comment_verdicts(strings_of(batch.column_named("s_comment"@)), parts);
    answered_pairs(batch.column_named("s_suppkey"@), answers, answers.len() as int)
}

/// The suppliers of batches, each with whether its comment matches.
pub open spec fn all_judged(batches: Seq<RecordBatch>, parts: Seq<Seq<char>>) -> Seq<(i64, bool)>
    decreases batches.len(),
{
    if batches.len() == 0 {
        Seq::empty()
    } else {
        all_judged(batches.drop_last(), parts) + judged_suppliers(batches.last(), parts)
    }
}

/// Whether the suppliers of a batch can be judged.
pub open spec fn judgeable(batch: RecordBatch, parts: Seq<Seq<char>>) -> bool {
    &&& has_key_and_strings(batch, "s_suppkey"@, "s_comment"@)
    &&& !needs_other_key(
        batch.column_named("s_suppkey"@),
        comment_verdicts(strings_of(batch.column_named("s_comment"@)), parts),
    )
}

/// Whether a batch is the first whose suppliers cannot be judged.
pub open spec fn judging_fails_at(
    batches: Seq<RecordBatch>,
    parts: Seq<Seq<char>>,
    index: int,
    error: SqlError,
) -> bool {
    &&& 0 <= index < batches.len()
    &&& !judgeable(batches[index], parts)
    &&& if has_key_and_strings(batches[index], "s_suppkey"@, "s_comment"@) {
        is_key_error(error, batches[index].column_named("s_suppkey"@))
    } else {
        columns_missing(batches[index], "s_suppkey"@, "s_comment"@, error)
    }
    &&& forall|earlier: int| 0 <= earlier < index ==> judgeable(#[trigger] batches[earlier], parts)
}

proof fn lemma_marked_concatenates(first: Seq<(i64, bool)>, second: Seq<(i64, bool)>)
    ensures
        marked_keys(first + second) =~= marked_keys(first).union(marked_keys(second)),
{
    let both = first + second;
    assert forall|key: i64| marked_keys(both).contains(key) == marked_keys(first).union(
        marked_keys(second),
    ).contains(key) by {
        if both.contains((key, true)) {
            let place = choose|place: int| 0 <= place < both.len() && both[place] == (key, true);
            if place < first.len() {
                assert(first[place] == (key, true));
            } else {
                assert(second[place - first.len()] == (key, true));
            }
        }
        if first.contains((key, true)) {
            let place = choose|place: int| 0 <= place < first.len() && first[place] == (key, true);
            assert(both[place] == (key, true));
        }
        if second.contains((key, true)) {
            let place = choose|place: int| 0 <= place < second.len() && second[place] == (key, true);
            assert(both[place + first.len()] == (key, true));
        }
    }
}

proof fn lemma_largest_concatenates(
    first: Seq<(i64, bool)>,
    second: Seq<(i64, bool)>,
    start: Option<i64>,
)
    ensures
        largest_key(first + second, start) == largest_key(second, largest_key(first, start)),
    decreases second.len(),
{
    if second.len() == 0 {
        assert(first + second =~= first);
    } else {
        lemma_largest_concatenates(first, second.drop_last(), start);
        assert((first + second).drop_last() =~= first + second.drop_last());
    }
}

/// The suppliers whose comment holds the given parts in order, and the largest of all
/// suppliers.
pub fn excluded_suppliers_by_comment_like(
    batches: &[RecordBatch],
    comment_parts: &[String],
) -> (result: SqlResult<ExcludedSuppliers>)
    requires
        all_well_formed(batches@),
    ensures
        match result {
            Ok(suppliers) => {
                let judged = all_judged(batches@, texts_of(comment_parts@));
                &&& forall|index: int|
                    0 <= index < batches@.len() ==> judgeable(
                        #[trigger] batches@[index],
                        texts_of(comment_parts@),
                    )
                &&& suppliers.keys@ == marked_keys(judged)
                &&& suppliers.max_suppkey == largest_key(judged, None)
            },
            Err(error) => exists|index: int| #[trigger]
                judging_fails_at(batches@, texts_of(comment_parts@), index, error),
        },
{
    let ghost parts = texts_of(comment_parts@);
    let mut suppliers = ExcludedSuppliers { keys: HashSet::new(), max_suppkey: None };
    let mut index: usize = 0;
    assert(batches@.take(0) =~= Seq::empty());
    assert(suppliers.keys@ =~= marked_keys(all_judged(batches@.take(0), parts)));
    while index < batches.len()
        invariant
            all_well_formed(batches@),
            parts == texts_of(comment_parts@),
            index <= batches@.len(),
            forall|earlier: int|
                0 <= earlier < index ==> judgeable(#[trigger] batches@[earlier], parts),
            suppliers.keys@ == marked_keys(all_judged(batches@.take(index as int), parts)),
            suppliers.max_suppkey == largest_key(
                all_judged(batches@.take(index as int), parts),
                None,
            ),
        decreases batches@.len() - index,
    {
        match excluded_suppliers_batch(&batches[index], comment_parts, &mut suppliers) {
            Ok(()) => {
                proof {
                    assert(batches@.take(index + 1).drop_last() =~= batches@.take(index as int));
                    let earlier = all_judged(batches@.take(index as int), parts);
                    let judged = judged_suppliers(batches@[index as int], parts);
                    lemma_marked_concatenates(earlier, judged);
                    lemma_largest_concatenates(earlier, judged, None);
                }
            },
            Err(error) => {
                assert(judging_fails_at(batches@, parts, index as int, error));
                return Err(error);
            },
        }
        index += 1;
    }
    assert(batches@.take(index as int) =~= batches@);
    Ok(suppliers)
}

/// The groups and suppliers of batches, in order.
pub open spec fn all_suppliers(
    batches: Seq<RecordBatch>,
    part_to_group: Map<i64, usize>,
    excluded: Set<i64>,
) -> Seq<GroupSupplier>
    decreases batches.len(),
{
    if batches.len() == 0 {
        Seq::empty()
    } else {
        all_suppliers(batches.drop_last(), part_to_group, excluded) + batch_suppliers(
            batches.last(),
            part_to_group,
            excluded,
        )
    }
}

/// How many suppliers of a group are counted. Bits count those that have a bit.
pub open spec fn counted(
    method: SupplierCountMethod,
    pairs: Seq<GroupSupplier>,
    group: usize,
) -> int {
    match method {
        SupplierCountMethod::Bitset(layout) => count_where(
            |supplier: int| pairs.contains((group, supplier as i64)),
            layout.suppliers(),
        ),
        _ => seen_in(pairs, group).len() as int,
    }
}

/// Whether the suppliers of a batch can be collected.
pub open spec fn collectable(
    batch: RecordBatch,
    part_to_group: Map<i64, usize>,
    excluded: Set<i64>,
    method: SupplierCountMethod,
) -> bool {
    &&& suppliers_readable(batch)
    &&& method is Packed ==> all_packable(batch_suppliers(batch, part_to_group, excluded))
}

/// Whether a batch is the first whose suppliers cannot be collected.
pub open spec fn collecting_fails_at(
    batches: Seq<RecordBatch>,
    part_to_group: Map<i64, usize>,
    excluded: Set<i64>,
    method: SupplierCountMethod,
    index: int,
    error: SqlError,
) -> bool {
    &&& 0 <= index < batches.len()
    &&& !collectable(batches[index], part_to_group, excluded, method)
    &&& if suppliers_readable(batches[index]) {
        error.is_unsupported("packed distinct key is out of range"@)
    } else {
        suppliers_error(batches[index], error)
    }
    &&& forall|earlier: int|
        0 <= earlier < index ==> collectable(
            #[trigger] batches[earlier],
            part_to_group,
            excluded,
            method,
        )
}

/// Whether a result counts the suppliers of each group.
pub open spec fn counts_suppliers(
    batches: Seq<RecordBatch>,
    part_to_group: Map<i64, usize>,
    excluded: Set<i64>,
    method: SupplierCountMethod,
    group_count: usize,
    result: SqlResult<Vec<u64>>,
) -> bool {
    match result {
        Ok(counts) => {
            &&& counts@.len() == group_count
            &&& forall|index: int|
                0 <= index < batches.len() ==> collectable(
                    #[trigger] batches[index],
                    part_to_group,
                    excluded,
                    method,
                )
            &&& forall|group: int|
                0 <= group < group_count ==> #[trigger] counts@[group] == counted(
                    method,
                    all_suppliers(batches, part_to_group, excluded),
                    group as usize,
                )
        },
        Err(error) => exists|index: int| #[trigger]
            collecting_fails_at(batches, part_to_group, excluded, method, index, error),
    }
}

/// Counts suppliers as packed pairs.
fn count_packed(
    batches: &[RecordBatch],
    part_to_group: &AdaptiveI64Map<usize>,
    excluded: &AdaptiveI64Set,
    group_count: usize,
) -> (result: SqlResult<Vec<u64>>)
    requires
        all_well_formed(batches@),
    ensures
        counts_suppliers(
            batches@,
            part_to_group@,
            excluded@,
            SupplierCountMethod::Packed,
            group_count,
            result,
        ),
{
    let ghost method = SupplierCountMethod::Packed;
    let mut distinct = PackedU32PairDistinct::new();
    let mut index: usize = 0;
    assert(batches@.take(0) =~= Seq::empty());
    while index < batches.len()
        invariant
            all_well_formed(batches@),
            method == SupplierCountMethod::Packed,
            index <= batches@.len(),
            distinct.well_formed(),
            forall|earlier: int|
                0 <= earlier < index ==> collectable(
                    #[trigger] batches@[earlier],
                    part_to_group@,
                    excluded@,
                    method,
                ),
            distinct.seen() == all_suppliers(
                batches@.take(index as int),
                part_to_group@,
                excluded@,
            ),
        decreases batches@.len() - index,
    {
        match supplier_counts_packed_batch(
            &batches[index],
            part_to_group,
            excluded,
            &mut distinct,
        ) {
            Ok(()) => {
                assert(batches@.take(index + 1).drop_last() =~= batches@.take(index as int));
            },
            Err(error) => {
                assert(collecting_fails_at(
                    batches@,
                    part_to_group@,
                    excluded@,
                    method,
                    index as int,
                    error,
                ));
                return Err(error);
            },
        }
        index += 1;
    }
    assert(batches@.take(index as int) =~= batches@);
    Ok(distinct.counts_by_first(group_count))
}

/// Counts suppliers by bits.
fn count_bits(
    batches: &[RecordBatch],
    part_to_group: &AdaptiveI64Map<usize>,
    excluded: &AdaptiveI64Set,
    bits: GroupSupplierBitset,
) -> (result: SqlResult<Vec<u64>>)
    requires
        all_well_formed(batches@),
        bits.well_formed(),
        bits.seen().len() == 0,
    ensures
        counts_suppliers(
            batches@,
            part_to_group@,
            excluded@,
            SupplierCountMethod::Bitset(bits.layout()),
            bits.layout().group_count,
            result,
        ),
{
    let ghost layout = bits.layout();
    let ghost method = SupplierCountMethod::Bitset(layout);
    let mut suppliers = bits;
    let mut index: usize = 0;
    assert(batches@.take(0) =~= Seq::empty());
    assert(suppliers.seen() =~= Seq::empty());
    while index < batches.len()
        invariant
            all_well_formed(batches@),
            layout == bits.layout(),
            method == SupplierCountMethod::Bitset(layout),
            index <= batches@.len(),
            suppliers.well_formed(),
            suppliers.layout() == layout,
            forall|earlier: int|
                0 <= earlier < index ==> collectable(
                    #[trigger] batches@[earlier],
                    part_to_group@,
                    excluded@,
                    method,
                ),
            suppliers.seen() == all_suppliers(
                batches@.take(index as int),
                part_to_group@,
                excluded@,
            ),
        decreases batches@.len() - index,
    {
        match supplier_counts_bitset_batch(
            &batches[index],
            part_to_group,
            excluded,
            &mut suppliers,
        ) {
            Ok(()) => {
                assert(batches@.take(index + 1).drop_last() =~= batches@.take(index as int));
            },
            Err(error) => {
                assert(collecting_fails_at(
                    batches@,
                    part_to_group@,
                    excluded@,
                    method,
                    index as int,
                    error,
                ));
                return Err(error);
            },
        }
        index += 1;
    }
    assert(batches@.take(index as int) =~= batches@);
    Ok(suppliers.counts())
}

/// Counts suppliers by a hash set for each group.
fn count_hashed(
    batches: &[RecordBatch],
    part_to_group: &AdaptiveI64Map<usize>,
    excluded: &AdaptiveI64Set,
    group_count: usize,
) -> (result: SqlResult<Vec<u64>>)
    requires
        all_well_formed(batches@),
    ensures
        counts_suppliers(
            batches@,
            part_to_group@,
            excluded@,
            SupplierCountMethod::Hash,
            group_count,
            result,
        ),
{
    let ghost method = SupplierCountMethod::Hash;
    let mut suppliers = GroupSupplierSets::new(group_count);
    let mut index: usize = 0;
    assert(batches@.take(0) =~= Seq::empty());
    while index < batches.len()
        invariant
            all_well_formed(batches@),
            method == SupplierCountMethod::Hash,
            index <= batches@.len(),
            suppliers.well_formed(),
            suppliers.group_count() == group_count,
            forall|earlier: int|
                0 <= earlier < index ==> collectable(
                    #[trigger] batches@[earlier],
                    part_to_group@,
                    excluded@,
                    method,
                ),
            suppliers.seen() == all_suppliers(
                batches@.take(index as int),
                part_to_group@,
                excluded@,
            ),
        decreases batches@.len() - index,
    {
        match supplier_counts_batch(&batches[index], part_to_group, excluded, &mut suppliers) {
            Ok(()) => {
                assert(batches@.take(index + 1).drop_last() =~= batches@.take(index as int));
            },
            Err(error) => {
                assert(collecting_fails_at(
                    batches@,
                    part_to_group@,
                    excluded@,
                    method,
                    index as int,
                    error,
                ));
                return Err(error);
            },
        }
        index += 1;
    }
    assert(batches@.take(index as int) =~= batches@);
    Ok(suppliers.counts())
}

/// Whether a result holds the rows for the groups that have suppliers.
pub open spec fn reports_suppliers(
    batches: Seq<RecordBatch>,
    groups: PartGroups,
    excluded: Set<i64>,
    method: SupplierCountMethod,
    result: SqlResult<Vec<PartSupplierGroupRow>>,
) -> bool {
    match result {
        Ok(rows) => exists|counts: Vec<u64>|
            {
                &&& #[trigger] counts_suppliers(
                    batches,
                    groups.numbers(),
                    excluded,
                    method,
                    groups.state().groups.len() as usize,
                    Ok(counts),
                )
                &&& is_report(
                    rows@,
                    groups.state().groups,
                    counts@,
                    groups.state().groups.len() as int,
                )
            },
        Err(error) => exists|index: int| #[trigger]
            collecting_fails_at(batches, groups.numbers(), excluded, method, index, error),
    }
}

/// The groups that have suppliers which are not left out, with the number of different
/// ones: most suppliers first, then by brand, type and size.
pub fn distinct_supplier_counts_by_part_group(
    batches: &[RecordBatch],
    groups: &PartGroups,
    excluded: ExcludedSuppliers,
    switches: SupplierCountSwitches,
) -> (result: SqlResult<Vec<PartSupplierGroupRow>>)
    requires
        all_well_formed(batches@),
        groups.well_formed(),
    ensures
        reports_suppliers(
            batches@,
            *groups,
            excluded.keys@,
            method_of(groups.state().groups.len() as usize, excluded.max_suppkey, switches),
            result,
        ),
        result matches Ok(rows) ==> forall|left: int, right: int|
            0 <= left < right < rows@.len() ==> (#[trigger] rows@[left]).supplier_count >= (
            #[trigger] rows@[right]).supplier_count,
{
    let group_count = groups.group_count();
    let method = supplier_count_method(group_count, excluded.max_suppkey, switches);
    let lookup = groups.part_lookup();
    let excluded_keys = AdaptiveI64Set::from_hash(excluded.keys);
    let counted = match method {
        SupplierCountMethod::Packed => count_packed(
            batches,
            &lookup,
            &excluded_keys,
            group_count,
        ),
        SupplierCountMethod::Bitset(layout) => count_bits(
            batches,
            &lookup,
            &excluded_keys,
            GroupSupplierBitset::new(layout),
        ),
        SupplierCountMethod::Hash => count_hashed(batches, &lookup, &excluded_keys, group_count),
    };
    match counted {
        Ok(counts) => {
            assert(counts_suppliers(
                batches@,
                groups.numbers(),
                excluded.keys@,
                method,
                group_count,
                Ok(counts),
            ));
            Ok(part_supplier_rows(groups, counts.as_slice()))
        },
        Err(error) => Err(error),
    }
}

/// However suppliers are collected, the number of different suppliers of a group comes
/// out, as long as none is negative or above the largest that was seen.
pub proof fn law_methods_agree(
    pairs: Seq<GroupSupplier>,
    group_count: usize,
    max_suppkey: Option<i64>,
    switches: SupplierCountSwitches,
    group: usize,
)
    requires
        forall|index: int|
            0 <= index < pairs.len() ==> (#[trigger] pairs[index]).0 < group_count && (max_suppkey
                matches Some(key) && 0 <= pairs[index].1 <= key),
    ensures
        counted(method_of(group_count, max_suppkey, switches), pairs, group) == seen_in(
            pairs,
            group,
        ).len(),
{
    match method_of(group_count, max_suppkey, switches) {
        SupplierCountMethod::Bitset(layout) => {
            let key = max_suppkey->0 as int;
            assert(words_for(key) <= group_count * words_for(key)) by (nonlinear_arith)
                requires
                    group_count >= 1,
                    words_for(key) >= 0,
            ;
            assert(layout.valid());
            assert forall|index: int| 0 <= index < pairs.len() implies layout.covers(
                #[trigger] pairs[index],
            ) by {
                law_layout_covers(layout, key, pairs[index]);
            }
            law_bits_count_suppliers(layout, pairs, group);
        },
        _ => {},
    }
}

} // verus!
