//! What lookups, selections and counts come to, said over what they look at.

use vstd::prelude::*;
use crate::columns::{truncated_days, ColumnArray, ColumnData};
use crate::error::{SqlError, SqlResult};
use crate::key_ranges::is_selective;
use crate::order_years::dense_year;
use crate::output_utils::window;
use crate::pair_collect::{
    answers_rows, is_collection, row_outcome, valued_pairs, PairRow, PairShape,
};
use crate::pricing_summary::{
    is_term_of, PricingColumns, PricingGroup, PricingSummaryGroupSlots, PricingTerm,
};
use crate::primitive_buffers::{appended, overwritten, PrimitiveColumnOutput};
use crate::primitive_selection::{
    lemma_positions_ascending, positions_ascending, positions_descending,
};
use crate::profit::{
    batch_stages, counting_rows, profiles, reached_amount, reached_part, reached_supply,
    reached_year, rows_reaching, word_flag, ProfitHit, ProfitKeys, ProfitProfile, ProfitStage,
    SupplyCosts, SupplyInfo,
};
use crate::settings::{count_or, entries_in, first_given, given_count, positive_or};
use crate::tables::{dense_entry, entries_of, flag_at};

verus! {

/// How many of the first rows pass a test.
pub open spec fn how_many(rows: int, test: spec_fn(int) -> bool) -> int
    decreases rows,
{
    if rows <= 0 {
        0
    } else {
        how_many(rows - 1, test) + (if test(rows - 1) {
            1int
        } else {
            0
        })
    }
}

/// Whether the keys of a row are there and its part is wanted, its amounts being there where
/// they are asked for first.
pub open spec fn sells_part(
    keys: ProfitKeys,
    amounts: Seq<bool>,
    amounts_first: bool,
    parts: Set<i64>,
    row: int,
) -> bool {
    &&& keys.orderkeys@[row] is Some
    &&& keys.suppkeys@[row] is Some
    &&& (keys.partkeys@[row] matches Some(part) && parts.contains(part))
    &&& (amounts_first ==> amounts[row])
}

/// Whether the order of a row has a year.
pub open spec fn has_year(keys: ProfitKeys, years: Map<i64, i32>, row: int) -> bool {
    keys.orderkeys@[row] matches Some(order) && years.contains_key(order)
}

/// What the supplier of a row sells its part for.
pub open spec fn sold_by<V>(keys: ProfitKeys, costs: SupplyCosts<V>, row: int) -> Option<
    SupplyInfo<V>,
> {
    match (keys.partkeys@[row], keys.suppkeys@[row]) {
        (Some(part), Some(supplier)) => costs.entry(part, supplier),
        _ => None,
    }
}

/// Whether a row counts towards a profit.
pub open spec fn makes_profit<V>(
    keys: ProfitKeys,
    amounts: Seq<bool>,
    parts: Set<i64>,
    years: Map<i64, i32>,
    costs: SupplyCosts<V>,
    row: int,
) -> bool {
    &&& sells_part(keys, amounts, false, parts, row)
    &&& has_year(keys, years, row)
    &&& sold_by(keys, costs, row) is Some
    &&& amounts[row]
}

/// Whether one of some hits is of a row.
pub open spec fn is_hit<V>(hits: Seq<ProfitHit<V>>, row: int) -> bool {
    exists|place: int| 0 <= place < hits.len() && (#[trigger] hits[place]).row == row
}

/// The rows that count towards a profit are those of a wanted part whose order has a year and
/// whose supplier sells the part, with all amounts there. Each is taken once, first row first,
/// with the year of its order and with the nation and the cost of what its supplier sells.
pub proof fn law_rows_that_make_profit<V>(
    keys: ProfitKeys,
    amounts: Seq<bool>,
    amounts_first: bool,
    parts: Set<i64>,
    years: Map<i64, i32>,
    costs: SupplyCosts<V>,
    rows: int,
)
    requires
        0 <= rows <= usize::MAX,
    ensures
        ({
            let hits = counting_rows(
                batch_stages(keys, amounts, amounts_first, parts, years, costs),
                rows,
            );
            &&& forall|place: int|
                0 <= place < hits.len() ==> {
                    let hit = #[trigger] hits[place];
                    let row = hit.row as int;
                    &&& row < rows
                    &&& makes_profit(keys, amounts, parts, years, costs, row)
                    &&& hit.year == years[keys.orderkeys@[row]->0]
                    &&& sold_by(keys, costs, row)->0.nationkey == hit.nationkey
                    &&& sold_by(keys, costs, row)->0.supplycost == hit.supplycost
                }
            &&& forall|left: int, right: int|
                0 <= left < right < hits.len() ==> (#[trigger] hits[left]).row < (
                #[trigger] hits[right]).row
            &&& forall|row: int|
                0 <= row < rows ==> (#[trigger] is_hit(hits, row) <==> makes_profit(
                    keys,
                    amounts,
                    parts,
                    years,
                    costs,
                    row,
                ))
        }),
    decreases rows,
{
    let stages = batch_stages(keys, amounts, amounts_first, parts, years, costs);
    let hits = counting_rows(stages, rows);
    if rows > 0 {
        law_rows_that_make_profit(keys, amounts, amounts_first, parts, years, costs, rows - 1);
        let before = counting_rows(stages, rows - 1);
        let stage = stages(rows - 1);
        assert((stage is Counts) <==> makes_profit(keys, amounts, parts, years, costs, rows - 1));
        assert forall|row: int| 0 <= row < rows implies (#[trigger] is_hit(hits, row)
            <==> makes_profit(keys, amounts, parts, years, costs, row)) by {
            if row < rows - 1 {
                assert(is_hit(before, row) <==> makes_profit(
                    keys,
                    amounts,
                    parts,
                    years,
                    costs,
                    row,
                ));
                if is_hit(before, row) {
                    let place = choose|place: int|
                        0 <= place < before.len() && (#[trigger] before[place]).row == row;
                    assert(hits[place] == before[place]);
                }
                if is_hit(hits, row) {
                    let place = choose|place: int|
                        0 <= place < hits.len() && (#[trigger] hits[place]).row == row;
                    assert(place < before.len());
                    assert(before[place].row == row);
                }
            } else {
                if stage is Counts {
                    assert(hits[before.len() as int].row == row);
                } else if is_hit(hits, row) {
                    let place = choose|place: int|
                        0 <= place < hits.len() && (#[trigger] hits[place]).row == row;
                    assert(before[place].row == row);
                }
            }
        }
        assert forall|place: int| 0 <= place < hits.len() implies {
            let hit = #[trigger] hits[place];
            let row = hit.row as int;
            &&& row < rows
            &&& makes_profit(keys, amounts, parts, years, costs, row)
            &&& hit.year == years[keys.orderkeys@[row]->0]
            &&& sold_by(keys, costs, row)->0.nationkey == hit.nationkey
            &&& sold_by(keys, costs, row)->0.supplycost == hit.supplycost
        } by {
            if place < before.len() {
                assert(before[place] == hits[place]);
            }
        }
        assert forall|left: int, right: int| 0 <= left < right < hits.len() implies (
        #[trigger] hits[left]).row < (#[trigger] hits[right]).row by {
            assert(before[left] == hits[left]);
            if right < before.len() {
                assert(before[right] == hits[right]);
            }
        }
    }
}

proof fn lemma_reaching_is_how_many<V>(
    stages: spec_fn(int) -> ProfitStage<V>,
    reached: spec_fn(ProfitStage<V>) -> bool,
    test: spec_fn(int) -> bool,
    rows: int,
)
    requires
        forall|row: int| 0 <= row < rows ==> reached(stages(row)) == #[trigger] test(row),
    ensures
        rows_reaching(stages, reached, rows) == how_many(rows, test),
    decreases rows,
{
    if rows > 0 {
        lemma_reaching_is_how_many(stages, reached, test, rows - 1);
        assert(reached(stages(rows - 1)) == test(rows - 1));
    }
}

/// The profile of a scan counts its rows by how far they get: those of a wanted part, of these
/// those whose order has a year, of these those whose supplier sells the part, and of these
/// those with all amounts.
pub proof fn law_profile_counts_rows<V>(
    profile: ProfitProfile,
    keys: ProfitKeys,
    amounts: Seq<bool>,
    amounts_first: bool,
    parts: Set<i64>,
    years: Map<i64, i32>,
    costs: SupplyCosts<V>,
    rows: int,
)
    requires
        profiles(
            profile,
            batch_stages(keys, amounts, amounts_first, parts, years, costs),
            rows,
        ),
    ensures
        profile.part_hits == how_many(
            rows,
            |row: int| sells_part(keys, amounts, amounts_first, parts, row),
        ),
        profile.order_hits == how_many(
            rows,
            |row: int|
                sells_part(keys, amounts, amounts_first, parts, row) && has_year(keys, years, row),
        ),
        profile.supplier_hits == how_many(
            rows,
            |row: int|
                sells_part(keys, amounts, amounts_first, parts, row) && has_year(keys, years, row)
                    && sold_by(keys, costs, row) is Some,
        ),
        profile.supply_hits == profile.supplier_hits,
        profile.amount_rows == how_many(
            rows,
            |row: int| makes_profit(keys, amounts, parts, years, costs, row),
        ),
{
    let stages = batch_stages(keys, amounts, amounts_first, parts, years, costs);
    lemma_reaching_is_how_many(
        stages,
        reached_part(),
        |row: int| sells_part(keys, amounts, amounts_first, parts, row),
        rows,
    );
    lemma_reaching_is_how_many(
        stages,
        reached_year(),
        |row: int|
            sells_part(keys, amounts, amounts_first, parts, row) && has_year(keys, years, row),
        rows,
    );
    lemma_reaching_is_how_many(
        stages,
        reached_supply(),
        |row: int|
            sells_part(keys, amounts, amounts_first, parts, row) && has_year(keys, years, row)
                && sold_by(keys, costs, row) is Some,
        rows,
    );
    lemma_reaching_is_how_many(
        stages,
        reached_amount(),
        |row: int| makes_profit(keys, amounts, parts, years, costs, row),
        rows,
    );
}

/// The terms of a pricing summary hold, each in its own field, what stands in the columns of
/// its row, and go to the group of the row's return flag and line status.
pub proof fn law_terms_hold_their_columns(
    term: PricingTerm,
    columns: PricingColumns,
    row: int,
    groups: PricingSummaryGroupSlots,
)
    requires
        is_term_of(term, columns, row, groups),
    ensures
        columns.quantities.at(row) == Some(term.quantity as int),
        columns.extendedprices.at(row) == Some(term.extendedprice as int),
        columns.discounts.at(row) == Some(term.discount as int),
        columns.taxes.at(row) == Some(term.tax as int),
        groups.group_at(term.slot) matches Some(group) && group.0
            == columns.returnflags.values@[row]@ && group.1 == columns.linestatuses.values@[row]@,
{
}

/// A group counts the rows of its return flag and line status that are shipped by the cutoff
/// and lack nothing.
pub proof fn law_groups_count_their_rows(
    columns: PricingColumns,
    cutoff_days: i32,
    group: PricingGroup,
    rows: int,
)
    ensures
        columns.group_count(rows, cutoff_days, group) == how_many(
            rows,
            |row: int|
                (columns.shipdates@[row] matches Some(day) && day <= cutoff_days)
                    && columns.returnflags.valid_at(row) && columns.linestatuses.valid_at(row)
                    && columns.quantities.at(row) is Some && columns.extendedprices.at(row) is Some
                    && columns.discounts.at(row) is Some && columns.taxes.at(row) is Some
                    && columns.returnflags.values@[row]@ == group.0
                    && columns.linestatuses.values@[row]@ == group.1,
        ),
    decreases rows,
{
    if rows > 0 {
        law_groups_count_their_rows(columns, cutoff_days, group, rows - 1);
        assert(columns.group_of(rows - 1) == group <==> columns.returnflags.values@[rows - 1]@
            == group.0 && columns.linestatuses.values@[rows - 1]@ == group.1);
    }
}

/// The integer of a column in a row, if it holds one.
pub open spec fn integer_cell_of(column: ColumnArray, row: int) -> Option<i64> {
    match column.data {
        ColumnData::Int32(vector) => if vector.valid_at(row) {
            Some(vector.values@[row] as i64)
        } else {
            None
        },
        ColumnData::Int64(vector) => if vector.valid_at(row) {
            Some(vector.values@[row])
        } else {
            None
        },
        _ => None,
    }
}

/// The day of a column in a row, if it holds one.
pub open spec fn day_cell_of(column: ColumnArray, row: int) -> Option<i32> {
    match column.data {
        ColumnData::Date32(vector) => if vector.valid_at(row) {
            Some(vector.values@[row])
        } else {
            None
        },
        ColumnData::Int32(vector) => if vector.valid_at(row) {
            Some(vector.values@[row])
        } else {
            None
        },
        ColumnData::Date64(vector) => if vector.valid_at(row) {
            Some(truncated_days(vector.values@[row]))
        } else {
            None
        },
        _ => None,
    }
}

/// What a row hands to the function that makes its pair: the integers of its first two
/// columns, the day of the third where one is read, and the integer of the fourth, or the
/// value that goes for every row.
pub proof fn law_rows_hand_out_their_cells(columns: Seq<ColumnArray>, shape: PairShape, row: int)
    requires
        row_outcome(columns, shape, row) is Ok,
    ensures
        row_outcome(columns, shape, row)->Ok_0 matches Some(values) ==> {
            &&& integer_cell_of(columns[0], row) == Some(values.first)
            &&& integer_cell_of(columns[1], row) == Some(values.second)
            &&& (!(shape is TwoKeys) ==> day_cell_of(columns[2], row) == Some(values.date))
            &&& (shape is TwoKeysDateValue ==> integer_cell_of(columns[3], row) == Some(
                values.value,
            ))
            &&& (shape matches PairShape::TwoKeysDateConst(value) ==> values.value == value)
        },
        row_outcome(columns, shape, row)->Ok_0 is None ==> {
            ||| integer_cell_of(columns[0], row) is None
            ||| integer_cell_of(columns[1], row) is None
            ||| !(shape is TwoKeys) && day_cell_of(columns[2], row) is None
            ||| shape is TwoKeysDateValue && integer_cell_of(columns[3], row) is None
        },
{
}

/// Whether places are rows, first row first, none twice.
pub open spec fn are_rows_of(places: Seq<int>, rows: int) -> bool {
    &&& forall|place: int| 0 <= place < places.len() ==> 0 <= #[trigger] places[place] < rows
    &&& forall|left: int, right: int|
        0 <= left < right < places.len() ==> #[trigger] places[left] < #[trigger] places[right]
}

/// The pairs of a collection are those of the rows for which a value was made, in order: the
/// integer of the first column with the value.
pub proof fn law_pairs_of_rows<V>(
    columns: Seq<ColumnArray>,
    shape: PairShape,
    rows: int,
    asked: spec_fn(PairRow, SqlResult<Option<V>>) -> bool,
    answers: Seq<SqlResult<Option<V>>>,
    pairs: Seq<(i64, V)>,
) -> (places: Seq<int>)
    requires
        0 <= rows,
        is_collection(columns, shape, rows, asked, answers, Ok(pairs)),
    ensures
        are_rows_of(places, rows),
        places.len() == pairs.len(),
        answers.len() == rows,
        forall|place: int|
            0 <= place < pairs.len() ==> integer_cell_of(columns[0], #[trigger] places[place])
                == Some(pairs[place].0) && answers[places[place]] == Ok::<
                Option<V>,
                SqlError,
            >(Some(pairs[place].1)),
        forall|row: int|
            0 <= row < rows ==> (#[trigger] places.contains(row) <==> (answers[row] matches Ok(
                Some(_),
            ))),
{
    lemma_pairs_of_rows(columns, shape, rows, asked, answers, rows)
}

proof fn lemma_pairs_of_rows<V>(
    columns: Seq<ColumnArray>,
    shape: PairShape,
    rows: int,
    asked: spec_fn(PairRow, SqlResult<Option<V>>) -> bool,
    answers: Seq<SqlResult<Option<V>>>,
    count: int,
) -> (places: Seq<int>)
    requires
        0 <= count <= rows,
        answers.len() == rows,
        answers_rows(columns, shape, asked, answers),
    ensures
        are_rows_of(places, count),
        places.len() == valued_pairs(columns, shape, answers, count).len(),
        forall|place: int|
            0 <= place < places.len() ==> integer_cell_of(columns[0], #[trigger] places[place])
                == Some(valued_pairs(columns, shape, answers, count)[place].0)
                && answers[places[place]] == Ok::<Option<V>, SqlError>(
                Some(valued_pairs(columns, shape, answers, count)[place].1),
            ),
        forall|row: int|
            0 <= row < count ==> (#[trigger] places.contains(row) <==> (answers[row] matches Ok(
                Some(_),
            ))),
    decreases count,
{
    if count == 0 {
        Seq::empty()
    } else {
        let before = lemma_pairs_of_rows(columns, shape, rows, asked, answers, count - 1);
        let row = count - 1;
        let answer = answers[row];
        assert(row_outcome(columns, shape, row) is Ok);
        law_rows_hand_out_their_cells(columns, shape, row);
        let earlier = valued_pairs(columns, shape, answers, count - 1);
        match answer {
            Ok(Some(value)) => {
                let places = before.push(row);
                assert forall|other: int| 0 <= other < count implies (#[trigger] places.contains(
                    other,
                ) <==> (answers[other] matches Ok(Some(_)))) by {
                    assert(before.contains(other) ==> places.contains(other)) by {
                        if before.contains(other) {
                            let at = choose|at: int|
                                0 <= at < before.len() && before[at] == other;
                            assert(places[at] == other);
                        }
                    }
                    if other == row {
                        assert(places[before.len() as int] == row);
                    } else if places.contains(other) {
                        let at = choose|at: int| 0 <= at < places.len() && places[at] == other;
                        assert(before[at] == other);
                    }
                }
                places
            },
            _ => {
                assert(!before.contains(row)) by {
                    if before.contains(row) {
                        let at = choose|at: int| 0 <= at < before.len() && before[at] == row;
                        assert(before[at] < count - 1);
                    }
                }
                before
            },
        }
    }
}

/// A scan that goes up finds exactly the rows that match, each once, first row first.
pub proof fn law_positions_going_up(end: int, matching: spec_fn(int) -> bool, row: int)
    requires
        0 <= end <= usize::MAX,
    ensures
        0 <= row < end ==> (positions_ascending(end, matching).contains(row as usize)
            <==> matching(row)),
        forall|left: int, right: int|
            0 <= left < right < positions_ascending(end, matching).len()
                ==> #[trigger] positions_ascending(end, matching)[left]
                < #[trigger] positions_ascending(end, matching)[right],
    decreases end,
{
    lemma_positions_ascending(end, matching);
    let all = positions_ascending(end, matching);
    if end > 0 && 0 <= row < end {
        law_positions_going_up(end - 1, matching, row);
        let before = positions_ascending(end - 1, matching);
        if row < end - 1 {
            if before.contains(row as usize) {
                let at = choose|at: int| 0 <= at < before.len() && before[at] == row as usize;
                assert(all[at] == row as usize);
            }
        } else if matching(row) {
            assert(all[before.len() as int] == row as usize);
        }
        if all.contains(row as usize) {
            let at = choose|at: int| 0 <= at < all.len() && all[at] == row as usize;
            assert(matching(all[at] as int));
        }
    }
}

/// A scan that goes down finds exactly the rows that match, each once, last row first.
pub proof fn law_positions_going_down(
    start: int,
    end: int,
    matching: spec_fn(int) -> bool,
    row: int,
)
    requires
        0 <= start,
        end <= usize::MAX,
    ensures
        forall|place: int|
            0 <= place < positions_descending(start, end, matching).len() ==> start
                <= #[trigger] positions_descending(start, end, matching)[place] < end && matching(
                positions_descending(start, end, matching)[place] as int,
            ),
        start <= row < end && matching(row) ==> positions_descending(start, end, matching).contains(
            row as usize,
        ),
        forall|left: int, right: int|
            0 <= left < right < positions_descending(start, end, matching).len()
                ==> #[trigger] positions_descending(start, end, matching)[left]
                > #[trigger] positions_descending(start, end, matching)[right],
    decreases end - start,
{
    if start < end {
        law_positions_going_down(start + 1, end, matching, row);
        let all = positions_descending(start, end, matching);
        let before = positions_descending(start + 1, end, matching);
        if start < row < end && matching(row) {
            let at = choose|at: int| 0 <= at < before.len() && before[at] == row as usize;
            assert(all[at] == row as usize);
        }
        if row == start && matching(row) {
            assert(all[before.len() as int] == row as usize);
        }
        assert forall|place: int| 0 <= place < all.len() implies start
            <= #[trigger] all[place] < end && matching(all[place] as int) by {
            if place < before.len() {
                assert(all[place] == before[place]);
            }
        }
        assert forall|left: int, right: int| 0 <= left < right < all.len() implies
            #[trigger] all[left] > #[trigger] all[right] by {
            assert(all[left] == before[left]);
            if right < before.len() {
                assert(all[right] == before[right]);
            }
        }
    }
}

/// A cell is put behind those that are there, and none of them changes.
pub proof fn law_cells_put_behind(
    before: PrimitiveColumnOutput,
    after: PrimitiveColumnOutput,
    types_agree: bool,
    cell: Option<int>,
    result: SqlResult<()>,
)
    requires
        appended(before, after, types_agree, cell, result),
    ensures
        result is Ok <==> types_agree && cell is Some,
        result is Err ==> after == before,
        result is Ok ==> {
            &&& after.cells().len() == before.cells().len() + 1
            &&& after.cells().last() == cell->0
            &&& forall|place: int|
                0 <= place < before.cells().len() ==> #[trigger] after.cells()[place]
                    == before.cells()[place]
        },
{
}

/// A cell takes the place of the one at the slot, and no other changes.
pub proof fn law_cells_put_over(
    before: PrimitiveColumnOutput,
    after: PrimitiveColumnOutput,
    slot: int,
    types_agree: bool,
    cell: Option<int>,
    result: SqlResult<()>,
)
    requires
        0 <= slot,
        overwritten(before, after, slot, types_agree, cell, result),
    ensures
        result is Ok <==> types_agree && cell is Some && slot < before.cells().len(),
        result is Err ==> after == before,
        result is Ok ==> {
            &&& after.cells().len() == before.cells().len()
            &&& after.cells()[slot] == cell->0
            &&& forall|place: int|
                0 <= place < before.cells().len() && place != slot ==> #[trigger]
                    after.cells()[place] == before.cells()[place]
        },
{
}

/// A map made of pairs holds for each key what the last pair of the key says, and no other
/// key.
pub proof fn law_last_pair_counts<V>(pairs: Seq<(i64, V)>, key: i64) -> (place: int)
    ensures
        entries_of(pairs).contains_key(key) ==> 0 <= place < pairs.len() && pairs[place] == (
            key,
            entries_of(pairs)[key],
        ) && forall|later: int|
            place < later < pairs.len() ==> (#[trigger] pairs[later]).0 != key,
        !entries_of(pairs).contains_key(key) ==> forall|other: int|
            0 <= other < pairs.len() ==> (#[trigger] pairs[other]).0 != key,
    decreases pairs.len(),
{
    if pairs.len() == 0 {
        0
    } else {
        let shorter = pairs.drop_last();
        let found = law_last_pair_counts(shorter, key);
        assert forall|other: int| 0 <= other < shorter.len() implies #[trigger] pairs[other]
            == shorter[other] by {}
        if pairs.last().0 == key {
            pairs.len() - 1
        } else {
            found
        }
    }
}

/// A key is in a table of flags, of bits or of values exactly where its own place says so; no
/// negative key is, and none past the end.
pub proof fn law_lookups_at_keys<V>(
    flags: Seq<bool>,
    words: Seq<u64>,
    values: Seq<Option<V>>,
    key: i64,
)
    ensures
        flag_at(flags, key) <==> 0 <= key < flags.len() && flags.skip(key as int)[0],
        dense_entry(values, key) is Some <==> 0 <= key < values.len() && values[key as int] is Some,
        dense_entry(values, key) is Some ==> dense_entry(values, key) == values[key as int],
        word_flag(words, key) ==> 0 <= key < 64 * words.len(),
        0 <= key < 64 * words.len() ==> (word_flag(words, key) <==> (words[key / 64] >> ((key % 64)
            as u64)) & 1 == 1),
{
    if 0 <= key < flags.len() {
        assert(flags.skip(key as int)[0] == flags[key as int]);
    }
}

/// The year of an order is that at its distance from the base key, unless the year there
/// stands for a missing one.
pub proof fn law_years_from_a_base(
    values: Seq<i32>,
    base_key: i64,
    missing: i32,
    distance: int,
    key: i64,
)
    requires
        values.len() <= i64::MAX,
        key == base_key + distance,
    ensures
        dense_year(values, base_key, missing, key) is Some <==> 0 <= distance < values.len()
            && values[distance] != missing,
        dense_year(values, base_key, missing, key) matches Some(year) ==> year == values[distance],
{
}

/// A window leaves out as many entries as the offset says and holds at most as many as the
/// limit says: the next ones, in their order, as far as there are any.
pub proof fn law_window_follows_the_offset<T>(list: Seq<T>, offset: int, limit: int, place: int)
    requires
        0 <= offset,
        0 <= limit,
    ensures
        window(list, offset, limit).len() <= limit,
        offset >= list.len() ==> window(list, offset, limit).len() == 0,
        offset + limit <= list.len() ==> window(list, offset, limit).len() == limit,
        offset <= list.len() < offset + limit ==> window(list, offset, limit).len() == list.len()
            - offset,
        0 <= place < window(list, offset, limit).len() ==> window(list, offset, limit)[place]
            == list[offset + place],
{
}

/// Whether a range of keys is worth filtering by: eight values at most for each key, or 1024
/// in all, none of them negative.
pub proof fn law_ranges_worth_filtering(min_key: i64, max_key: i64, len: int)
    ensures
        is_selective(min_key, max_key, len) ==> len > 0 && 0 <= min_key <= max_key && (max_key
            - min_key < 1024 || max_key - min_key < 8 * len),
        len > 0 && 0 <= min_key <= max_key < i64::MAX && max_key - min_key < 1024 ==> is_selective(
            min_key,
            max_key,
            len,
        ),
        len > 0 && 0 <= min_key <= max_key && max_key - min_key + 1 <= i64::MAX && max_key - min_key
            < 8 * len <= usize::MAX ==> is_selective(min_key, max_key, len),
{
}

/// A setting that writes a number counts as that number, any other leaves the default; one
/// that must be positive leaves it for zero too. Of two settings the first that is given
/// counts.
pub proof fn law_settings_over_defaults(
    first: Option<&str>,
    second: Option<&str>,
    default: int,
    size: int,
)
    requires
        size > 0,
    ensures
        given_count(None) is None,
        given_count(first) is None ==> count_or(first, default) == default && positive_or(
            first,
            default,
        ) == default && entries_in(first, default, size) == default / size,
        given_count(first) matches Some(number) ==> {
            &&& count_or(first, default) == number
            &&& (number > 0 ==> positive_or(first, default) == number)
            &&& (number <= 0 ==> positive_or(first, default) == default)
            &&& (number >= size ==> entries_in(first, default, size) * size <= number < (entries_in(
                first,
                default,
                size,
            ) + 1) * size)
            &&& (0 <= number < size ==> entries_in(first, default, size) == default / size)
        },
        first is Some ==> first_given(first, second) == first,
        first is None ==> first_given(first, second) == second,
{
    if let Some(number) = given_count(first) {
        if number >= size {
            assert(number / size >= 1) by (nonlinear_arith)
                requires
                    number >= size,
                    size > 0,
            ;
            let count = number / size;
            assert(count * size <= number < (count + 1) * size) by (nonlinear_arith)
                requires
                    count == number / size,
                    size > 0,
            ;
        } else if 0 <= number {
            assert(number / size == 0) by (nonlinear_arith)
                requires
                    0 <= number < size,
            ;
        }
    }
}

} // verus!
