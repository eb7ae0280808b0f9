//! What parts, suppliers and orders are read from batches, said over the cells of their rows.

use vstd::prelude::*;
use crate::batch_collect::{answered_pairs, integer_pairs, strings_of};
use crate::calendar::{
    day_in_year, day_number, days_before_month, days_in_month, first_day_of_year, is_leap,
    law_months_make_a_year, law_years_follow,
};
use crate::collect_laws::lemma_pairs_are_cells;
use crate::columns::RecordBatch;
use crate::order_years::{dated_orders, dated_unreadable, orders_readable, year_of};
use crate::part_groups::{
    batch_parts, empty_groups, part_columns_readable, PartFilter, PartGroup, PartGroups,
};
use crate::part_supplier_query::{
    all_suppliers, all_well_formed, collectable, counts_suppliers, judgeable, judged_suppliers,
    reports_suppliers,
};
use crate::scan_laws::{day_in, integer_in, rows_in_order, text_in};
use crate::supplier_counts::{batch_suppliers, row_suppliers, seen_in, suppliers_readable};
use crate::supplier_rows::{
    comment_verdicts, is_report, largest_key, parts_in_order, reports, reports_one,
    PartSupplierGroupRow, SupplierCountMethod,
};
use crate::text::{has_prefix, occurs_at};

verus! {

/// What rows tell, in order; a row that tells nothing is passed over.
pub open spec fn listed<T>(told: spec_fn(int) -> Option<T>, rows: int) -> Seq<T>
    decreases rows,
{
    if rows <= 0 {
        Seq::empty()
    } else {
        match told(rows - 1) {
            Some(value) => listed(told, rows - 1).push(value),
            None => listed(told, rows - 1),
        }
    }
}

/// The rows that tell something.
pub proof fn lemma_listed_rows<T>(told: spec_fn(int) -> Option<T>, rows: int) -> (places: Seq<int>)
    ensures
        rows_in_order(places, rows),
        places.len() == listed(told, rows).len(),
        forall|index: int|
            0 <= index < places.len() ==> told(#[trigger] places[index]) == Some(
                listed(told, rows)[index],
            ),
        forall|row: int|
            0 <= row < rows ==> (#[trigger] places.contains(row) <==> told(row) is Some),
    decreases rows,
{
    if rows <= 0 {
        Seq::empty()
    } else {
        let earlier = lemma_listed_rows(told, rows - 1);
        let places = match told(rows - 1) {
            Some(_) => earlier.push(rows - 1),
            None => earlier,
        };
        assert forall|row: int| 0 <= row < rows implies (#[trigger] places.contains(row) <==> told(
            row,
        ) is Some) by {
            if earlier.contains(row) {
                let index = choose|index: int| 0 <= index < earlier.len() && earlier[index] == row;
                assert(places[index] == row);
            }
            if row == rows - 1 {
                if told(row) is Some {
                    assert(places[earlier.len() as int] == row);
                } else if places.contains(row) {
                    let index = choose|index: int|
                        0 <= index < earlier.len() && earlier[index] == row;
                    assert(earlier[index] < rows - 1);
                }
            } else if places.contains(row) {
                let index = choose|index: int| 0 <= index < places.len() && places[index] == row;
                assert(earlier[index] == row);
                assert(earlier.contains(row));
            }
        }
        places
    }
}

proof fn lemma_parts_listed(
    filter: PartFilter,
    numbers: Seq<Option<(i64, i64)>>,
    brands: Seq<Option<Seq<char>>>,
    types: Seq<Option<Seq<char>>>,
    rows: int,
)
    ensures
        filter.parts(numbers, brands, types, rows) == listed(
            |row: int| filter.part(numbers[row], brands[row], types[row]),
            rows,
        ),
    decreases rows,
{
    if rows > 0 {
        lemma_parts_listed(filter, numbers, brands, types, rows - 1);
    }
}

/// The parts of a batch are those of the rows with a wanted size, another brand than the one
/// that is left out and a type that does not begin with what is left out; each is in the group
/// of its own brand, type and size.
pub proof fn law_parts_of_batch(batch: RecordBatch, filter: PartFilter) -> (rows: Seq<int>)
    requires
        batch.well_formed(),
        part_columns_readable(batch),
    ensures
        rows_in_order(rows, batch.num_rows as int),
        rows.len() == batch_parts(batch, filter).len(),
        forall|row: int|
            0 <= row < batch.num_rows ==> (#[trigger] rows.contains(row) <==> {
                &&& integer_in(batch, "p_partkey"@, row) is Some
                &&& (integer_in(batch, "p_size"@, row) matches Some(size)
                    && filter.sizes@.contains(size))
                &&& (text_in(batch, "p_brand"@, row) matches Some(brand) && brand
                    != filter.excluded_brand@)
                &&& (text_in(batch, "p_type"@, row) matches Some(part_type) && !has_prefix(
                    part_type,
                    filter.excluded_type_prefix@,
                ))
            }),
        forall|place: int|
            0 <= place < rows.len() ==> {
                let part = #[trigger] batch_parts(batch, filter)[place];
                let row = rows[place];
                &&& integer_in(batch, "p_partkey"@, row) == Some(part.0)
                &&& integer_in(batch, "p_size"@, row) == Some(part.1.size)
                &&& text_in(batch, "p_brand"@, row) == Some(part.1.brand)
                &&& text_in(batch, "p_type"@, row) == Some(part.1.part_type)
            },
{
    let numbers = integer_pairs(batch.column_named("p_partkey"@), batch.column_named("p_size"@));
    let brands = strings_of(batch.column_named("p_brand"@));
    let types = strings_of(batch.column_named("p_type"@));
    let told = |row: int| filter.part(numbers[row], brands[row], types[row]);
    let count = batch.num_rows as int;
    lemma_parts_listed(filter, numbers, brands, types, count);
    lemma_pairs_are_cells(batch, "p_partkey"@, "p_size"@);
    lemma_rows_of(batch, "p_partkey"@);
    lemma_rows_of(batch, "p_brand"@);
    lemma_rows_of(batch, "p_type"@);
    let rows = lemma_listed_rows(told, count);
    assert forall|row: int| 0 <= row < count implies (#[trigger] numbers[row] == numbers[row])
        && brands[row] == text_in(batch, "p_brand"@, row) && types[row] == text_in(
        batch,
        "p_type"@,
        row,
    ) by {}
    assert forall|row: int| 0 <= row < count implies (#[trigger] rows.contains(row) <==> {
        &&& integer_in(batch, "p_partkey"@, row) is Some
        &&& (integer_in(batch, "p_size"@, row) matches Some(size) && filter.sizes@.contains(size))
        &&& (text_in(batch, "p_brand"@, row) matches Some(brand) && brand
            != filter.excluded_brand@)
        &&& (text_in(batch, "p_type"@, row) matches Some(part_type) && !has_prefix(
            part_type,
            filter.excluded_type_prefix@,
        ))
    }) by {
        assert(rows.contains(row) <==> told(row) is Some);
        assert(numbers[row] == numbers[row]);
    }
    assert forall|place: int| 0 <= place < rows.len() implies {
        let part = #[trigger] batch_parts(batch, filter)[place];
        let row = rows[place];
        &&& integer_in(batch, "p_partkey"@, row) == Some(part.0)
        &&& integer_in(batch, "p_size"@, row) == Some(part.1.size)
        &&& text_in(batch, "p_brand"@, row) == Some(part.1.brand)
        &&& text_in(batch, "p_type"@, row) == Some(part.1.part_type)
    } by {
        let row = rows[place];
        assert(told(row) == Some(batch_parts(batch, filter)[place]));
        assert(numbers[row] == numbers[row]);
    }
    rows
}

proof fn lemma_rows_of(batch: RecordBatch, name: Seq<char>)
    requires
        batch.well_formed(),
        batch.has_column(name),
    ensures
        batch.column_named(name).rows() == batch.num_rows,
        batch.column_named(name).well_formed(),
{
    let index = choose|index: int| batch.first_named(name, index);
    assert(batch.first_named(name, index));
    assert(batch.columns@[index].rows() == batch.num_rows);
}

/// Groups are numbered in the order in which they are first seen, none twice, and each is the
/// group of a part that was read; a part is in the group that was read for it last.
pub proof fn law_groups_as_seen(rows: Seq<(i64, PartGroup)>)
    ensures
        forall|left: int, right: int|
            0 <= left < right < empty_groups().with_parts(rows).groups.len()
                ==> #[trigger] empty_groups().with_parts(rows).groups[left]
                != #[trigger] empty_groups().with_parts(rows).groups[right],
        forall|group: PartGroup|
            #[trigger] empty_groups().with_parts(rows).groups.contains(group) <==> exists|
                place: int,
            |
                0 <= place < rows.len() && (#[trigger] rows[place]).1 == group,
        empty_groups().with_parts(rows).parts == group_entries(rows),
    decreases rows.len(),
{
    let state = empty_groups().with_parts(rows);
    if rows.len() > 0 {
        let shorter = rows.drop_last();
        let before = empty_groups().with_parts(shorter);
        let last = rows.last();
        law_groups_as_seen(shorter);
        assert forall|group: PartGroup| #[trigger] state.groups.contains(group) <==> exists|
            place: int,
        |
            0 <= place < rows.len() && (#[trigger] rows[place]).1 == group by {
            assert(before.groups.contains(group) <==> exists|place: int|
                0 <= place < shorter.len() && (#[trigger] shorter[place]).1 == group);
            if before.groups.contains(group) {
                let there = choose|there: int|
                    0 <= there < before.groups.len() && before.groups[there] == group;
                assert(state.groups[there] == group);
                let place = choose|place: int|
                    0 <= place < shorter.len() && (#[trigger] shorter[place]).1 == group;
                assert(rows[place].1 == group);
            }
            if group == last.1 {
                assert(rows[rows.len() - 1].1 == group);
                if !before.groups.contains(group) {
                    assert(state.groups[before.groups.len() as int] == group);
                }
            }
            if state.groups.contains(group) && !before.groups.contains(group) {
                let there = choose|there: int|
                    0 <= there < state.groups.len() && state.groups[there] == group;
                if there < before.groups.len() {
                    assert(before.groups[there] == group);
                }
            }
            if exists|place: int| 0 <= place < rows.len() && (#[trigger] rows[place]).1 == group {
                let place = choose|place: int|
                    0 <= place < rows.len() && (#[trigger] rows[place]).1 == group;
                if place < shorter.len() {
                    assert(shorter[place].1 == group);
                }
            }
        }
        assert forall|left: int, right: int|
            0 <= left < right < state.groups.len() implies #[trigger] state.groups[left]
            != #[trigger] state.groups[right] by {
            if right < before.groups.len() {
                assert(before.groups[left] != before.groups[right]);
            } else {
                assert(before.groups.contains(before.groups[left]));
            }
        }
    }
}

/// The group that was read for each part last.
pub open spec fn group_entries(rows: Seq<(i64, PartGroup)>) -> Map<i64, PartGroup>
    decreases rows.len(),
{
    if rows.len() == 0 {
        Map::empty()
    } else {
        group_entries(rows.drop_last()).insert(rows.last().0, rows.last().1)
    }
}

proof fn lemma_suppliers_listed(
    pairs: Seq<Option<(i64, i64)>>,
    part_to_group: Map<i64, usize>,
    excluded: Set<i64>,
    rows: int,
)
    ensures
        row_suppliers(pairs, part_to_group, excluded, rows) == listed(
            |row: int| crate::supplier_counts::row_supplier(pairs[row], part_to_group, excluded),
            rows,
        ),
    decreases rows,
{
    if rows > 0 {
        lemma_suppliers_listed(pairs, part_to_group, excluded, rows - 1);
    }
}

/// Whether a row of a batch tells that a supplier which is not left out sells a part of a
/// group.
pub open spec fn row_supplies(
    batch: RecordBatch,
    part_to_group: Map<i64, usize>,
    excluded: Set<i64>,
    row: int,
    group: usize,
    supplier: i64,
) -> bool {
    &&& integer_in(batch, "ps_suppkey"@, row) == Some(supplier)
    &&& !excluded.contains(supplier)
    &&& (integer_in(batch, "ps_partkey"@, row) matches Some(part) && part_to_group.contains_key(
        part,
    ) && part_to_group[part] == group)
}

/// The suppliers of a batch are those that its rows tell.
pub proof fn law_suppliers_of_batch(
    batch: RecordBatch,
    part_to_group: Map<i64, usize>,
    excluded: Set<i64>,
    group: usize,
    supplier: i64,
)
    requires
        batch.well_formed(),
        suppliers_readable(batch),
    ensures
        batch_suppliers(batch, part_to_group, excluded).contains((group, supplier)) <==> exists|
            row: int,
        |
            0 <= row < batch.num_rows && #[trigger] row_supplies(
                batch,
                part_to_group,
                excluded,
                row,
                group,
                supplier,
            ),
{
    let pairs = integer_pairs(
        batch.column_named("ps_partkey"@),
        batch.column_named("ps_suppkey"@),
    );
    let told = |row: int|
        crate::supplier_counts::row_supplier(pairs[row], part_to_group, excluded);
    let count = batch.num_rows as int;
    lemma_pairs_are_cells(batch, "ps_partkey"@, "ps_suppkey"@);
    lemma_rows_of(batch, "ps_partkey"@);
    lemma_suppliers_listed(pairs, part_to_group, excluded, count);
    let rows = lemma_listed_rows(told, count);
    let all = batch_suppliers(batch, part_to_group, excluded);
    assert(pairs.len() == count);
    if all.contains((group, supplier)) {
        let place = choose|place: int| 0 <= place < all.len() && all[place] == (group, supplier);
        let row = rows[place];
        assert(told(row) == Some((group, supplier)));
        assert(pairs[row] == pairs[row]);
        assert(row_supplies(batch, part_to_group, excluded, row, group, supplier));
    }
    if exists|row: int|
        0 <= row < batch.num_rows && #[trigger] row_supplies(
            batch,
            part_to_group,
            excluded,
            row,
            group,
            supplier,
        ) {
        let row = choose|row: int|
            0 <= row < batch.num_rows && #[trigger] row_supplies(
                batch,
                part_to_group,
                excluded,
                row,
                group,
                supplier,
            );
        assert(pairs[row] == pairs[row]);
        assert(told(row) == Some((group, supplier)));
        assert(rows.contains(row));
        let place = choose|place: int| 0 <= place < rows.len() && rows[place] == row;
        assert(told(rows[place]) == Some(all[place]));
        assert(all[place] == (group, supplier));
    }
}

/// Whether some row of some batch tells that a supplier which is not left out sells a part of
/// a group.
pub open spec fn supplies(
    batches: Seq<RecordBatch>,
    part_to_group: Map<i64, usize>,
    excluded: Set<i64>,
    group: usize,
    supplier: i64,
) -> bool {
    exists|index: int, row: int|
        0 <= index < batches.len() && 0 <= row < batches[index].num_rows && #[trigger] row_supplies(
            batches[index],
            part_to_group,
            excluded,
            row,
            group,
            supplier,
        )
}

/// The suppliers of batches are those that their rows tell.
pub proof fn law_suppliers_of_batches(
    batches: Seq<RecordBatch>,
    part_to_group: Map<i64, usize>,
    excluded: Set<i64>,
    group: usize,
    supplier: i64,
)
    requires
        all_well_formed(batches),
        forall|index: int|
            0 <= index < batches.len() ==> suppliers_readable(#[trigger] batches[index]),
    ensures
        all_suppliers(batches, part_to_group, excluded).contains((group, supplier)) <==> supplies(
            batches,
            part_to_group,
            excluded,
            group,
            supplier,
        ),
    decreases batches.len(),
{
    let all = all_suppliers(batches, part_to_group, excluded);
    if batches.len() > 0 {
        let shorter = batches.drop_last();
        let last = batches.last();
        assert forall|index: int| 0 <= index < shorter.len() implies suppliers_readable(
            #[trigger] shorter[index],
        ) && shorter[index].well_formed() by {
            assert(suppliers_readable(batches[index]));
            assert(batches[index].well_formed());
        }
        assert(batches[batches.len() - 1].well_formed());
        assert(suppliers_readable(batches[batches.len() - 1]));
        law_suppliers_of_batches(shorter, part_to_group, excluded, group, supplier);
        law_suppliers_of_batch(last, part_to_group, excluded, group, supplier);
        let first = all_suppliers(shorter, part_to_group, excluded);
        let second = batch_suppliers(last, part_to_group, excluded);
        let pair = (group, supplier);
        assert(all == first + second);
        if first.contains(pair) {
            let place = choose|place: int| 0 <= place < first.len() && first[place] == pair;
            assert(all[place] == pair);
            let (index, row) = choose|index: int, row: int|
                0 <= index < shorter.len() && 0 <= row < shorter[index].num_rows
                    && #[trigger] row_supplies(
                    shorter[index],
                    part_to_group,
                    excluded,
                    row,
                    group,
                    supplier,
                );
            assert(row_supplies(batches[index], part_to_group, excluded, row, group, supplier));
        }
        if second.contains(pair) {
            let place = choose|place: int| 0 <= place < second.len() && second[place] == pair;
            assert(all[first.len() + place] == pair);
            let row = choose|row: int|
                0 <= row < last.num_rows && #[trigger] row_supplies(
                    last,
                    part_to_group,
                    excluded,
                    row,
                    group,
                    supplier,
                );
            assert(row_supplies(
                batches[batches.len() - 1],
                part_to_group,
                excluded,
                row,
                group,
                supplier,
            ));
        }
        if all.contains(pair) {
            let place = choose|place: int| 0 <= place < all.len() && all[place] == pair;
            if place < first.len() {
                assert(first[place] == pair);
            } else {
                assert(second[place - first.len()] == pair);
            }
        }
        if supplies(batches, part_to_group, excluded, group, supplier) {
            let (index, row) = choose|index: int, row: int|
                0 <= index < batches.len() && 0 <= row < batches[index].num_rows
                    && #[trigger] row_supplies(
                    batches[index],
                    part_to_group,
                    excluded,
                    row,
                    group,
                    supplier,
                );
            if index < shorter.len() {
                assert(row_supplies(
                    shorter[index],
                    part_to_group,
                    excluded,
                    row,
                    group,
                    supplier,
                ));
            } else {
                assert(row_supplies(last, part_to_group, excluded, row, group, supplier));
            }
        }
    }
}

/// The suppliers of a group that rows of batches tell.
pub open spec fn suppliers_told(
    batches: Seq<RecordBatch>,
    part_to_group: Map<i64, usize>,
    excluded: Set<i64>,
    group: usize,
) -> Set<i64> {
    Set::new(|supplier: i64| supplies(batches, part_to_group, excluded, group, supplier))
}

/// Suppliers that are not counted as bits are counted once for each group that they sell a
/// part of, however often a row tells it.
pub proof fn law_counts_are_of_different_suppliers(
    batches: Seq<RecordBatch>,
    part_to_group: Map<i64, usize>,
    excluded: Set<i64>,
    method: SupplierCountMethod,
    group_count: usize,
    counts: Vec<u64>,
)
    requires
        all_well_formed(batches),
        !(method is Bitset),
        counts_suppliers(batches, part_to_group, excluded, method, group_count, Ok(counts)),
    ensures
        counts@.len() == group_count,
        forall|group: int|
            0 <= group < group_count ==> #[trigger] counts@[group] == suppliers_told(
                batches,
                part_to_group,
                excluded,
                group as usize,
            ).len(),
{
    assert forall|group: int| 0 <= group < group_count implies #[trigger] counts@[group]
        == suppliers_told(batches, part_to_group, excluded, group as usize).len() by {
        let pairs = all_suppliers(batches, part_to_group, excluded);
        assert forall|index: int| 0 <= index < batches.len() implies suppliers_readable(
            #[trigger] batches[index],
        ) by {
            assert(collectable(batches[index], part_to_group, excluded, method));
        }
        assert(seen_in(pairs, group as usize) =~= suppliers_told(
            batches,
            part_to_group,
            excluded,
            group as usize,
        )) by {
            assert forall|supplier: i64|
                #[trigger] seen_in(pairs, group as usize).contains(supplier) <==> suppliers_told(
                    batches,
                    part_to_group,
                    excluded,
                    group as usize,
                ).contains(supplier) by {
                law_suppliers_of_batches(
                    batches,
                    part_to_group,
                    excluded,
                    group as usize,
                    supplier,
                );
            }
        }
    }
}

/// The rows that are put out have the suppliers of their groups, most first.
pub proof fn law_reported_suppliers(
    batches: Seq<RecordBatch>,
    groups: PartGroups,
    excluded: Set<i64>,
    method: SupplierCountMethod,
    rows: Vec<PartSupplierGroupRow>,
)
    requires
        all_well_formed(batches),
        !(method is Bitset),
        groups.state().groups.len() <= usize::MAX,
        reports_suppliers(batches, groups, excluded, method, Ok(rows)),
    ensures
        forall|left: int, right: int|
            0 <= left < right < rows@.len() ==> (#[trigger] rows@[left]).supplier_count >= (
            #[trigger] rows@[right]).supplier_count,
        forall|place: int|
            0 <= place < rows@.len() ==> has_suppliers_of_its_group(
                batches,
                groups,
                excluded,
                #[trigger] rows@[place],
            ),
{
    let counts = choose|counts: Vec<u64>|
        {
            &&& #[trigger] counts_suppliers(
                batches,
                groups.numbers(),
                excluded,
                method,
                groups.state().groups.len() as usize,
                Ok(counts),
            )
            &&& is_report(
                rows@,
                groups.state().groups,
                counts@,
                groups.state().groups.len() as int,
            )
        };
    let all = groups.state().groups;
    crate::order_laws::law_most_suppliers_first(rows@, all, counts@);
    law_counts_are_of_different_suppliers(
        batches,
        groups.numbers(),
        excluded,
        method,
        all.len() as usize,
        counts,
    );
    assert forall|place: int| 0 <= place < rows@.len() implies has_suppliers_of_its_group(
        batches,
        groups,
        excluded,
        #[trigger] rows@[place],
    ) by {
        assert(reports_one(rows@[place], all, counts@, all.len() as int));
        let group = choose|group: int|
            group < all.len() && #[trigger] reports(rows@[place], all, counts@, group);
        assert(all[group].brand == rows@[place].brand@);
        assert(counts@[group] == rows@[place].supplier_count);
    }
}

/// Whether a row is of a group and has as many suppliers as sell a part of the group.
pub open spec fn has_suppliers_of_its_group(
    batches: Seq<RecordBatch>,
    groups: PartGroups,
    excluded: Set<i64>,
    row: PartSupplierGroupRow,
) -> bool {
    exists|group: int|
        {
            &&& 0 <= group < groups.state().groups.len()
            &&& (#[trigger] groups.state().groups[group]).brand == row.brand@
            &&& groups.state().groups[group].part_type == row.part_type@
            &&& groups.state().groups[group].size == row.size
            &&& row.supplier_count == suppliers_told(
                batches,
                groups.numbers(),
                excluded,
                group as usize,
            ).len()
        }
}

proof fn lemma_orders_listed(
    keys: crate::columns::ColumnArray,
    dates: crate::columns::ColumnArray,
    rows: int,
)
    ensures
        dated_orders(keys, dates, rows) == listed(
            |row: int|
                if !keys.null_at(row) && !dates.null_at(row) {
                    Some((keys.integer_at(row) as i64, year_of(dates.day_at(row))))
                } else {
                    None
                },
            rows,
        ),
    decreases rows,
{
    if rows > 0 {
        lemma_orders_listed(keys, dates, rows - 1);
    }
}

/// The orders of a batch are those of the rows with a key and a day; the year of each is the
/// one that its day lies in.
pub proof fn law_orders_of_batch(batch: RecordBatch) -> (rows: Seq<int>)
    requires
        batch.well_formed(),
        orders_readable(batch),
    ensures
        rows_in_order(rows, batch.num_rows as int),
        ({
            let orders = dated_orders(
                batch.column_named("o_orderkey"@),
                batch.column_named("o_orderdate"@),
                batch.num_rows as int,
            );
            &&& rows.len() == orders.len()
            &&& forall|row: int|
                0 <= row < batch.num_rows ==> (#[trigger] rows.contains(row) <==> integer_in(
                    batch,
                    "o_orderkey"@,
                    row,
                ) is Some && day_in(batch, "o_orderdate"@, row) is Some)
            &&& forall|place: int|
                0 <= place < rows.len() ==> {
                    let order = #[trigger] orders[place];
                    let row = rows[place];
                    &&& integer_in(batch, "o_orderkey"@, row) == Some(order.0)
                    &&& (day_in(batch, "o_orderdate"@, row) matches Some(day) && day_number(
                        order.1 as int,
                        1,
                        1,
                    ) <= day && day <= day_number(order.1 as int, 12, 31))
                }
        }),
{
    let keys = batch.column_named("o_orderkey"@);
    let dates = batch.column_named("o_orderdate"@);
    let count = batch.num_rows as int;
    let told = |row: int|
        if !keys.null_at(row) && !dates.null_at(row) {
            Some((keys.integer_at(row) as i64, year_of(dates.day_at(row))))
        } else {
            None
        };
    lemma_orders_listed(keys, dates, count);
    let orders = dated_orders(keys, dates, count);
    let rows = lemma_listed_rows(told, count);
    assert forall|row: int| 0 <= row < count implies (#[trigger] rows.contains(row) <==> integer_in(
        batch,
        "o_orderkey"@,
        row,
    ) is Some && day_in(batch, "o_orderdate"@, row) is Some) by {
        assert(rows.contains(row) <==> told(row) is Some);
        assert(!dated_unreadable(keys, dates, row));
    }
    assert forall|place: int| 0 <= place < rows.len() implies {
        let order = #[trigger] orders[place];
        let row = rows[place];
        &&& integer_in(batch, "o_orderkey"@, row) == Some(order.0)
        &&& (day_in(batch, "o_orderdate"@, row) matches Some(day) && day_number(
            order.1 as int,
            1,
            1,
        ) <= day && day <= day_number(order.1 as int, 12, 31))
    } by {
        let row = rows[place];
        assert(told(row) == Some(orders[place]));
        assert(!dated_unreadable(keys, dates, row));
        let day = dates.day_at(row);
        let year = orders[place].1 as int;
        law_year_of_day(day);
        law_last_day_of_year(year);
        law_years_follow(year);
    }
    rows
}

proof fn lemma_year_from(day: int, year: int) -> (found: int)
    requires
        first_day_of_year(year) <= day,
    ensures
        year <= found,
        day_in_year(day, found),
    decreases day - first_day_of_year(year),
{
    law_years_follow(year);
    if day < first_day_of_year(year + 1) {
        year
    } else {
        lemma_year_from(day, year + 1)
    }
}

/// The year of a day is the one that the day lies in.
pub proof fn law_year_of_day(day: i32)
    ensures
        day_in_year(day as int, year_of(day) as int),
{
    let year = lemma_year_from(day as int, -6_000_000);
    assert(day_in_year(day as int, (year as i32) as int));
}

/// A year ends with the last of December, the day before the first of January.
pub proof fn law_last_day_of_year(year: int)
    ensures
        day_number(year, 1, 1) == first_day_of_year(year),
        day_number(year, 12, 31) + 1 == day_number(year + 1, 1, 1),
{
    law_years_follow(year);
    law_months_make_a_year(year);
    reveal_with_fuel(days_before_month, 2);
}

/// The lengths of the months, and which years have a leap day.
pub proof fn law_lengths_of_months(year: int)
    ensures
        days_in_month(year, 1) == 31,
        days_in_month(year, 2) == (if is_leap(year) {
            29int
        } else {
            28
        }),
        days_in_month(year, 3) == 31,
        days_in_month(year, 4) == 30,
        days_in_month(year, 5) == 31,
        days_in_month(year, 6) == 30,
        days_in_month(year, 7) == 31,
        days_in_month(year, 8) == 31,
        days_in_month(year, 9) == 30,
        days_in_month(year, 10) == 31,
        days_in_month(year, 11) == 30,
        days_in_month(year, 12) == 31,
        day_number(1970, 1, 1) == 0,
        year % 4 != 0 ==> !is_leap(year),
        year % 400 == 0 ==> is_leap(year),
        year % 100 == 0 && year % 400 != 0 ==> !is_leap(year),
        year % 4 == 0 && year % 100 != 0 ==> is_leap(year),
{
    reveal_with_fuel(days_before_month, 2);
}

/// Days come again after four hundred years.
pub proof fn law_calendar_comes_again(year: int)
    ensures
        first_day_of_year(year + 400) == first_day_of_year(year) + 146_097,
{
    assert((year + 400 + 3) / 4 == (year + 3) / 4 + 100);
    assert((year + 400 + 99) / 100 == (year + 99) / 100 + 4);
    assert((year + 400 + 399) / 400 == (year + 399) / 400 + 1);
}

/// Each row with a supplier key is judged once, first row first: the supplier is left out
/// exactly where its comment holds the parts in order.
pub proof fn law_judged_suppliers(batch: RecordBatch, parts: Seq<Seq<char>>) -> (rows: Seq<int>)
    requires
        batch.well_formed(),
        judgeable(batch, parts),
    ensures
        rows_in_order(rows, batch.num_rows as int),
        rows.len() == judged_suppliers(batch, parts).len(),
        forall|row: int|
            0 <= row < batch.num_rows ==> (#[trigger] rows.contains(row) <==> integer_in(
                batch,
                "s_suppkey"@,
                row,
            ) is Some),
        forall|place: int|
            0 <= place < rows.len() ==> {
                let judged = #[trigger] judged_suppliers(batch, parts)[place];
                let row = rows[place];
                &&& integer_in(batch, "s_suppkey"@, row) == Some(judged.0)
                &&& judged.1 <==> (text_in(batch, "s_comment"@, row) matches Some(comment)
                    && parts_in_order(comment, parts, 0))
            },
{
    let keys = batch.column_named("s_suppkey"@);
    let answers = comment_verdicts(strings_of(batch.column_named("s_comment"@)), parts);
    let count = batch.num_rows as int;
    lemma_rows_of(batch, "s_suppkey"@);
    lemma_rows_of(batch, "s_comment"@);
    assert(answers.len() == count);
    let told = |row: int|
        if !keys.null_at(row) && answers[row] is Some {
            Some((keys.integer_at(row) as i64, answers[row]->0))
        } else {
            None
        };
    lemma_judged_listed(keys, answers, count);
    let rows = lemma_listed_rows(told, count);
    assert forall|row: int| 0 <= row < count implies (#[trigger] rows.contains(row) <==> integer_in(
        batch,
        "s_suppkey"@,
        row,
    ) is Some) by {
        assert(rows.contains(row) <==> told(row) is Some);
        assert(answers[row] is Some);
    }
    assert forall|place: int| 0 <= place < rows.len() implies {
        let judged = #[trigger] judged_suppliers(batch, parts)[place];
        let row = rows[place];
        &&& integer_in(batch, "s_suppkey"@, row) == Some(judged.0)
        &&& judged.1 <==> (text_in(batch, "s_comment"@, row) matches Some(comment)
            && parts_in_order(comment, parts, 0))
    } by {
        let row = rows[place];
        assert(told(row) == Some(judged_suppliers(batch, parts)[place]));
        assert(answers[row] is Some);
    }
    rows
}

proof fn lemma_judged_listed(
    keys: crate::columns::ColumnArray,
    answers: Seq<Option<bool>>,
    rows: int,
)
    ensures
        answered_pairs(keys, answers, rows) == listed(
            |row: int|
                if !keys.null_at(row) && answers[row] is Some {
                    Some((keys.integer_at(row) as i64, answers[row]->0))
                } else {
                    None
                },
            rows,
        ),
    decreases rows,
{
    if rows > 0 {
        lemma_judged_listed(keys, answers, rows - 1);
    }
}

/// Parts stand in order in a text where they do so at places of which each is behind the part
/// before it.
pub proof fn law_parts_at_places(
    text: Seq<char>,
    parts: Seq<Seq<char>>,
    places: Seq<int>,
    start: int,
)
    requires
        places.len() == parts.len(),
        forall|index: int|
            0 <= index < parts.len() ==> occurs_at(text, #[trigger] parts[index], places[index]),
        parts.len() > 0 ==> start <= places[0],
        forall|index: int|
            0 < index < parts.len() ==> #[trigger] places[index - 1] + parts[index - 1].len()
                <= places[index],
    ensures
        parts_in_order(text, parts, start),
    decreases parts.len(),
{
    if parts.len() > 0 {
        let rest = parts.skip(1);
        let later = places.skip(1);
        assert forall|index: int| 0 <= index < rest.len() implies occurs_at(
            text,
            #[trigger] rest[index],
            later[index],
        ) by {
            assert(occurs_at(text, parts[index + 1], places[index + 1]));
        }
        assert forall|index: int| 0 < index < rest.len() implies #[trigger] later[index - 1]
            + rest[index - 1].len() <= later[index] by {
            assert(places[index] + parts[index].len() <= places[index + 1]) by {
                assert(places[(index + 1) - 1] + parts[(index + 1) - 1].len() <= places[index + 1]);
            }
        }
        if rest.len() > 0 {
            assert(places[1 - 1] + parts[1 - 1].len() <= places[1]);
        }
        law_parts_at_places(text, rest, later, places[0] + parts[0].len());
        assert(occurs_at(text, parts[0], places[0]));
    }
}

/// Where parts stand in order in a text, there are places at which they stand, each behind the
/// part before it.
pub proof fn law_places_of_parts(
    text: Seq<char>,
    parts: Seq<Seq<char>>,
    start: int,
) -> (places: Seq<
    int,
>)
    requires
        parts_in_order(text, parts, start),
    ensures
        places.len() == parts.len(),
        forall|index: int|
            0 <= index < parts.len() ==> occurs_at(text, #[trigger] parts[index], places[index]),
        parts.len() > 0 ==> start <= places[0],
        forall|left: int, right: int|
            0 <= left < right < parts.len() ==> #[trigger] places[left] + parts[left].len()
                <= #[trigger] places[right],
    decreases parts.len(),
{
    if parts.len() == 0 {
        Seq::empty()
    } else {
        let place = choose|place: int|
            start <= place && #[trigger] occurs_at(text, parts[0], place) && parts_in_order(
                text,
                parts.skip(1),
                place + parts[0].len(),
            );
        let later = law_places_of_parts(text, parts.skip(1), place + parts[0].len());
        let places = seq![place] + later;
        assert forall|index: int| 0 <= index < parts.len() implies occurs_at(
            text,
            #[trigger] parts[index],
            places[index],
        ) by {
            if index > 0 {
                assert(parts.skip(1)[index - 1] == parts[index]);
            }
        }
        assert forall|left: int, right: int|
            0 <= left < right < parts.len() implies #[trigger] places[left] + parts[left].len()
            <= #[trigger] places[right] by {
            assert(later[right - 1] == places[right]);
            if left > 0 {
                assert(later[left - 1] == places[left]);
                assert(parts.skip(1)[left - 1] == parts[left]);
            } else if right > 1 {
                assert(later[0] + parts.skip(1)[0].len() <= later[right - 1]);
            }
        }
        places
    }
}

/// The largest key is one of the keys, or the one to start with, and none is larger.
pub proof fn law_largest_key<V>(pairs: Seq<(i64, V)>)
    ensures
        largest_key(pairs, None) is None <==> pairs.len() == 0,
        largest_key(pairs, None) matches Some(key) ==> (exists|place: int|
            0 <= place < pairs.len() && (#[trigger] pairs[place]).0 == key) && forall|place: int|
            0 <= place < pairs.len() ==> (#[trigger] pairs[place]).0 <= key,
    decreases pairs.len(),
{
    if pairs.len() > 0 {
        let shorter = pairs.drop_last();
        law_largest_key(shorter);
        let key = largest_key(pairs, None)->0;
        if shorter.len() > 0 && key != pairs.last().0 {
            let place = choose|place: int|
                0 <= place < shorter.len() && (#[trigger] shorter[place]).0 == key;
            assert(pairs[place].0 == key);
        } else {
            assert(pairs[pairs.len() - 1].0 == key);
        }
        assert forall|place: int| 0 <= place < pairs.len() implies (#[trigger] pairs[place]).0
            <= key by {
            if place < shorter.len() {
                assert(shorter[place] == pairs[place]);
            }
        }
    }
}

} // verus!
