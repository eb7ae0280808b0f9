//! The first rows of one batch in the order of its integer columns.

use vstd::prelude::*;
use vstd::set_lib::lemma_len_subset;
use crate::columns::{ColumnArray, ColumnData, RecordBatch, Vector};
use crate::error::{fails_unsupported, SqlError, SqlResult};
use crate::plan::SortKey;
use crate::streaming_topk::{
    any_descending, asked_shape, first_missing, fits_shape, has_descending, has_name, index_named,
    output_batch_column_index, row_key, shape_key, sort_names, StreamingTopKSortShape,
};
use crate::topk::{comes_after_all, is_top, rank_views, ranks_before, smaller_at, Rank, TopK};

verus! {

/// The rank of a row: its keys, then its number.
pub open spec fn row_rank(keys: spec_fn(int) -> Seq<i128>, row: int) -> Seq<i128> {
    keys(row).push(row as i128)
}

/// The ranks of the first `rows` rows.
pub open spec fn row_ranks(keys: spec_fn(int) -> Seq<i128>, rows: int) -> Seq<Seq<i128>> {
    Seq::new(rows as nat, |row: int| row_rank(keys, row))
}

/// Whether `selected` are the first `limit` of `rows` rows by their keys; rows with
/// equal keys keep their order.
pub open spec fn first_by_keys(
    keys: spec_fn(int) -> Seq<i128>,
    rows: int,
    selected: Seq<usize>,
    limit: int,
) -> bool {
    is_top(
        row_ranks(keys, rows),
        selected.map_values(|row: usize| row_rank(keys, row as int)),
        limit,
    )
}

/// A row's rank differs from those of the rows before.
proof fn lemma_row_rank_is_new(keys: spec_fn(int) -> Seq<i128>, width: int, row: int)
    requires
        0 <= row <= usize::MAX,
        forall|other: int| (#[trigger] keys(other)).len() == width,
    ensures
        !row_ranks(keys, row).contains(row_rank(keys, row)),
{
    let rank = row_rank(keys, row);
    if row_ranks(keys, row).contains(rank) {
        let earlier = choose|earlier: int| 0 <= earlier < row && row_ranks(keys, row)[earlier] == rank;
        assert(row_rank(keys, earlier)[width] == earlier as i128);
        assert(rank[width] == row as i128);
    }
}

/// The first `limit` rows, given the keys of every row.
fn first_rows_by_keys(
    row_keys: Vec<Rank>,
    width: usize,
    limit: usize,
    Ghost(keys): Ghost<spec_fn(int) -> Seq<i128>>,
) -> (selected: Vec<usize>)
    requires
        width < usize::MAX,
        forall|row: int| 0 <= row < row_keys@.len() ==> (#[trigger] row_keys@[row])@ == keys(row),
        forall|row: int| (#[trigger] keys(row)).len() == width,
    ensures
        first_by_keys(keys, row_keys@.len() as int, selected@, limit as int),
        forall|index: int| 0 <= index < selected@.len() ==> selected@[index] < row_keys@.len(),
{
    let ghost all = row_keys@;
    let rows: usize = row_keys.len();
    let mut top = TopK::new(limit, width + 1);
    let mut row: usize = 0;
    assert(top.offered() =~= row_ranks(keys, 0));
    for key in rest: row_keys
        invariant
            rest.seq() == all,
            all.len() == rows,
            row == rest.index(),
            forall|row: int| 0 <= row < all.len() ==> (#[trigger] all[row])@ == keys(row),
            forall|row: int| (#[trigger] keys(row)).len() == width,
            width < usize::MAX,
            top.well_formed(),
            top.limit() == limit,
            top.width() == width + 1,
            top.offered() == row_ranks(keys, row as int),
    {
        let mut rank: Rank = key;
        rank.push(row as i128);
        assert(rank@ =~= row_rank(keys, row as int));
        proof {
            lemma_row_rank_is_new(keys, width as int, row as int);
        }
        top.push(rank);
        assert(top.offered() =~= row_ranks(keys, row + 1));
        row += 1;
    }
    let ghost offered = top.offered();
    let ranks = top.into_ranks();
    let mut selected: Vec<usize> = Vec::new();
    let mut index: usize = 0;
    while index < ranks.len()
        invariant
            index <= ranks@.len(),
            all.len() == rows,
            offered == row_ranks(keys, all.len() as int),
            is_top(offered, rank_views(ranks@), limit as int),
            width < usize::MAX,
            forall|row: int| (#[trigger] keys(row)).len() == width,
            forall|position: int|
                0 <= position < ranks@.len() ==> (#[trigger] ranks@[position])@.len() == width + 1,
            selected@.len() == index,
            forall|done: int|
                0 <= done < index ==> (#[trigger] selected@[done]) < all.len() && ranks@[done]@
                    == row_rank(keys, selected@[done] as int),
        decreases ranks@.len() - index,
    {
        let ghost rank = ranks@[index as int]@;
        assert(rank_views(ranks@)[index as int] == rank);
        assert(offered.contains(rank));
        let ghost source = choose|source: int| 0 <= source < all.len() && offered[source] == rank;
        assert(rank == row_rank(keys, source));
        assert(rank[width as int] == source as i128);
        selected.push(ranks[index][width] as usize);
        index += 1;
    }
    assert(selected@.map_values(|row: usize| row_rank(keys, row as int)) =~= rank_views(ranks@));
    selected
}

/// The outcome of sorting a batch by a fixed shape of integer columns: the first
/// rows where the columns fit the shape that the order asks for, and an error
/// where one is missing.
pub open spec fn is_fixed_sort(
    batch: RecordBatch,
    order_by: SortKey,
    limit: int,
    result: SqlResult<Option<Vec<usize>>>,
) -> bool {
    match asked_shape(batch, order_by) {
        None => result matches Ok(None),
        Some(shape) => match first_missing(batch, sort_names(order_by)) {
            Some(name) => result matches Err(error) && error.is_unknown_column(name),
            None => if fits_shape(batch, shape) {
                result matches Ok(Some(rows)) && first_by_keys(
                    |row: int| shape_key(batch, shape, row),
                    batch.num_rows as int,
                    rows@,
                    limit,
                )
            } else {
                result matches Ok(None)
            },
        },
    }
}

/// The sort keys of every row under a shape.
fn all_row_keys(batch: &RecordBatch, shape: StreamingTopKSortShape) -> (keys: Vec<Rank>)
    requires
        batch.well_formed(),
        fits_shape(*batch, shape),
    ensures
        keys@.len() == batch.num_rows,
        forall|row: int|
            0 <= row < keys@.len() ==> (#[trigger] keys@[row])@ == shape_key(*batch, shape, row),
{
    let mut keys: Vec<Rank> = Vec::new();
    let mut row: usize = 0;
    while row < batch.num_rows
        invariant
            batch.well_formed(),
            fits_shape(*batch, shape),
            row <= batch.num_rows,
            keys@.len() == row,
            forall|done: int|
                0 <= done < row ==> (#[trigger] keys@[done])@ == shape_key(*batch, shape, done),
        decreases batch.num_rows - row,
    {
        keys.push(row_key(batch, shape, row));
        row += 1;
    }
    keys
}

/// The first `limit` rows by a shape that the batch fits.
fn first_rows_by_shape(
    batch: &RecordBatch,
    shape: StreamingTopKSortShape,
    limit: usize,
) -> (rows: Vec<
    usize,
>)
    requires
        batch.well_formed(),
        fits_shape(*batch, shape),
    ensures
        first_by_keys(
            |row: int| shape_key(*batch, shape, row),
            batch.num_rows as int,
            rows@,
            limit as int,
        ),
{
    let ghost keys = |row: int| shape_key(*batch, shape, row);
    let row_keys = all_row_keys(batch, shape);
    assert(forall|row: int| (#[trigger] keys(row)).len() == 3);
    first_rows_by_keys(row_keys, 3, limit, Ghost(keys))
}

/// Whether the column holds 32-bit integers without nulls.
fn is_non_null_i32(column: &ColumnArray) -> (is: bool)
    requires
        column.well_formed(),
    ensures
        is == (column.data matches ColumnData::Int32(vector) && vector.null_free()),
{
    match &column.data {
        ColumnData::Int32(vector) => vector.values_if_null_free().is_some(),
        _ => false,
    }
}

/// Whether the column holds 64-bit integers without nulls.
fn is_non_null_i64(column: &ColumnArray) -> (is: bool)
    requires
        column.well_formed(),
    ensures
        is == (column.data matches ColumnData::Int64(vector) && vector.null_free()),
{
    match &column.data {
        ColumnData::Int64(vector) => vector.values_if_null_free().is_some(),
        _ => false,
    }
}

/// The first `limit` rows by a 32-bit column and two 64-bit columns without nulls,
/// or by a 32-bit column with its nulls first and a 64-bit column without nulls.
pub fn sort_fixed_shape_output_batch(
    batch: &RecordBatch,
    order_by: &SortKey,
    limit: usize,
) -> (result: SqlResult<Option<Vec<usize>>>)
    requires
        batch.well_formed(),
    ensures
        is_fixed_sort(*batch, *order_by, limit as int, result),
{
    let sorts = &order_by.expressions;
    let ghost names = sort_names(*order_by);
    reveal_with_fuel(first_missing, 4);
    if sorts.len() == 3 && !sorts[0].nulls_first && !sorts[1].nulls_first && !sorts[2].nulls_first {
        assert(names[0] == sorts@[0].column@);
        assert(names.skip(1)[0] == sorts@[1].column@);
        assert(names.skip(1).skip(1)[0] == sorts@[2].column@);
        let first: usize = output_batch_column_index(batch, sorts[0].column.as_str())?;
        let second: usize = output_batch_column_index(batch, sorts[1].column.as_str())?;
        let third: usize = output_batch_column_index(batch, sorts[2].column.as_str())?;
        let shape = StreamingTopKSortShape::I32I64I64(first, second, third);
        assert(batch.columns@[first as int].well_formed());
        assert(batch.columns@[second as int].well_formed());
        assert(batch.columns@[third as int].well_formed());
        if is_non_null_i32(&batch.columns[first]) && is_non_null_i64(&batch.columns[second])
            && is_non_null_i64(&batch.columns[third]) {
            return Ok(Some(first_rows_by_shape(batch, shape, limit)));
        }
        return Ok(None);
    }
    if sorts.len() == 2 && sorts[0].nulls_first && !sorts[1].nulls_first {
        assert(names[0] == sorts@[0].column@);
        assert(names.skip(1)[0] == sorts@[1].column@);
        let first: usize = output_batch_column_index(batch, sorts[0].column.as_str())?;
        let second: usize = output_batch_column_index(batch, sorts[1].column.as_str())?;
        let shape = StreamingTopKSortShape::NullableI32I64(first, second);
        assert(batch.columns@[first as int].well_formed());
        assert(batch.columns@[second as int].well_formed());
        let narrow = matches!(&batch.columns[first].data, ColumnData::Int32(_));
        if narrow && is_non_null_i64(&batch.columns[second]) {
            return Ok(Some(first_rows_by_shape(batch, shape, limit)));
        }
        return Ok(None);
    }
    Ok(None)
}

/// Whether a limit cuts a batch short.
pub open spec fn cuts_short(limit: Option<usize>, rows: int) -> bool {
    limit matches Some(limit) && 0 < limit < rows
}

/// The first rows by a fixed shape of integer columns, where that way is switched
/// on, the limit cuts the batch short and no column goes down.
pub fn sort_fixed_primitive_output_batch(
    batch: &RecordBatch,
    order_by: &SortKey,
    limit: Option<usize>,
    enabled: bool,
) -> (result: SqlResult<Option<Vec<usize>>>)
    requires
        batch.well_formed(),
    ensures
        if enabled && cuts_short(limit, batch.num_rows as int) && !any_descending(*order_by) {
            is_fixed_sort(*batch, *order_by, limit->0 as int, result)
        } else {
            result matches Ok(None)
        },
{
    if !enabled {
        return Ok(None);
    }
    let limit: usize = match limit {
        Some(limit) => limit,
        None => {
            return Ok(None);
        },
    };
    if batch.num_rows == 0 || limit == 0 || limit >= batch.num_rows {
        return Ok(None);
    }
    if has_descending(order_by) {
        return Ok(None);
    }
    sort_fixed_shape_output_batch(batch, order_by, limit)
}

/// Whether a column holds integers without nulls that never go down.
pub open spec fn integers_ascend(column: ColumnArray) -> bool {
    &&& column.is_integer()
    &&& forall|row: int| 0 <= row < column.rows() ==> !#[trigger] column.null_at(row)
    &&& forall|row: int|
        1 <= row < column.rows() ==> column.integer_at(row - 1) <= #[trigger] column.integer_at(row)
}

/// Whether a column holds integers without nulls that never go down.
pub fn primitive_integer_array_is_ascending(column: &ColumnArray) -> (ascends: bool)
    requires
        column.well_formed(),
    ensures
        ascends == integers_ascend(*column),
{
    let rows: usize = match &column.data {
        ColumnData::Int32(vector) => vector.len(),
        ColumnData::Int64(vector) => vector.len(),
        _ => {
            return false;
        },
    };
    let mut row: usize = 0;
    while row < rows
        invariant
            column.well_formed(),
            column.is_integer(),
            rows == column.rows(),
            row <= rows,
            forall|earlier: int| 0 <= earlier < row ==> !#[trigger] column.null_at(earlier),
            forall|earlier: int|
                1 <= earlier < row ==> column.integer_at(earlier - 1) <= #[trigger] column.integer_at(
                    earlier,
                ),
        decreases rows - row,
    {
        if column.is_null(row) {
            return false;
        }
        let down = match &column.data {
            ColumnData::Int32(vector) => row > 0 && vector.values[row - 1] > vector.values[row],
            ColumnData::Int64(vector) => row > 0 && vector.values[row - 1] > vector.values[row],
            _ => false,
        };
        if down {
            assert(column.integer_at(row - 1) > column.integer_at(row as int));
            return false;
        }
        row += 1;
    }
    true
}

/// Going up step by step is going up at a distance.
proof fn lemma_integers_ascend(column: ColumnArray, earlier: int, later: int)
    requires
        integers_ascend(column),
        0 <= earlier <= later < column.rows(),
    ensures
        column.integer_at(earlier) <= column.integer_at(later),
    decreases later - earlier,
{
    if earlier < later {
        lemma_integers_ascend(column, earlier, later - 1);
    }
}

/// Whether some row holds a value.
pub open spec fn any_value(column: Vector<i32>) -> bool {
    exists|row: int| 0 <= row < column@.len() && #[trigger] column.valid_at(row)
}

/// Whether the values of a column reach from `least` to `greatest`.
pub open spec fn spans(column: Vector<i32>, least: i32, greatest: i32) -> bool {
    &&& exists|row: int|
        0 <= row < column@.len() && #[trigger] column.valid_at(row) && column.values@[row] == least
    &&& exists|row: int|
        0 <= row < column@.len() && #[trigger] column.valid_at(row) && column.values@[row] == greatest
    &&& forall|row: int|
        0 <= row < column@.len() && #[trigger] column.valid_at(row) ==> least <= column.values@[row]
            <= greatest
}

/// Whether values that reach from `least` to `greatest` over `rows` rows are dense:
/// at most four slots per row and a million in all.
pub open spec fn dense_enough(least: int, greatest: int, rows: int) -> bool {
    &&& greatest - least + 1 <= 4 * rows
    &&& greatest - least + 1 <= 1_000_000
}

/// The smallest value and the number of slots of a column whose values are dense.
/// A column without values takes no slot.
pub fn dense_i32_array_range(column: &Vector<i32>) -> (range: Option<(i32, usize)>)
    requires
        column.well_formed(),
    ensures
        !any_value(*column) ==> range == Some((0i32, 0usize)),
        forall|least: i32, greatest: i32| #[trigger]
            spans(*column, least, greatest) ==> range == (if dense_enough(
                least as int,
                greatest as int,
                column@.len() as int,
            ) {
                Some((least, (greatest - least + 1) as usize))
            } else {
                None::<(i32, usize)>
            }),
        any_value(*column) ==> (range matches Some((least, slots)) ==> spans(
            *column,
            least,
            (least + slots - 1) as i32,
        ) && 0 < slots <= 1_000_000 && least + slots - 1 <= i32::MAX),
{
    let mut least: i32 = i32::MAX;
    let mut greatest: i32 = i32::MIN;
    let mut has_value = false;
    let mut row: usize = 0;
    while row < column.len()
        invariant
            column.well_formed(),
            row <= column@.len(),
            has_value <==> exists|earlier: int|
                0 <= earlier < row && #[trigger] column.valid_at(earlier),
            has_value ==> exists|earlier: int|
                0 <= earlier < row && #[trigger] column.valid_at(earlier) && column.values@[earlier]
                    == least,
            has_value ==> exists|earlier: int|
                0 <= earlier < row && #[trigger] column.valid_at(earlier) && column.values@[earlier]
                    == greatest,
            forall|earlier: int|
                0 <= earlier < row && #[trigger] column.valid_at(earlier) ==> least
                    <= column.values@[earlier] <= greatest,
        decreases column@.len() - row,
    {
        if !column.is_null(row) {
            let value: i32 = column.value(row);
            if value < least || !has_value {
                least = value;
            }
            if value > greatest || !has_value {
                greatest = value;
            }
            has_value = true;
        }
        row += 1;
    }
    if !has_value {
        return Some((0, 0));
    }
    assert(spans(*column, least, greatest));
    let slots: i64 = greatest as i64 - least as i64 + 1;
    let rows: usize = column.len();
    if slots <= 1_000_000 {
        let slot_count: usize = slots as usize;
        let per_row: usize = slot_count / 4 + (if slot_count % 4 == 0 {
            0
        } else {
            1
        });
        if per_row <= rows {
            return Some((least, slot_count));
        }
    }
    None
}

/// The sort keys of a row by a 32-bit column with its nulls first, then by another
/// integer column.
pub open spec fn nulls_first_keys(first: Vector<i32>, second: ColumnArray) -> spec_fn(int) -> Seq<
    i128,
> {
    |row: int|
        if first.valid_at(row) {
            seq![1i128, first.values@[row] as i128, second.integer_at(row) as i128]
        } else {
            seq![0i128, 0i128, second.integer_at(row) as i128]
        }
}

/// Whether a row comes before another by the first column alone, or by its number.
spec fn bucket_before(first: Vector<i32>, left: int, right: int) -> bool {
    if first.valid_at(left) != first.valid_at(right) {
        first.valid_at(right)
    } else if first.valid_at(left) && first.values@[left] != first.values@[right] {
        first.values@[left] < first.values@[right]
    } else {
        left < right
    }
}

/// Where the second column goes up with the rows, the first column and the row
/// number decide the order.
proof fn lemma_bucket_order(first: Vector<i32>, second: ColumnArray, left: int, right: int)
    requires
        integers_ascend(second),
        0 <= left < first@.len(),
        0 <= right < first@.len(),
        first@.len() == second.rows(),
        first@.len() <= usize::MAX,
        bucket_before(first, left, right),
    ensures
        ranks_before(
            row_rank(nulls_first_keys(first, second), left),
            row_rank(nulls_first_keys(first, second), right),
        ),
{
    let keys = nulls_first_keys(first, second);
    let a = row_rank(keys, left);
    let b = row_rank(keys, right);
    assert(a.len() == 4 && b.len() == 4);
    if first.valid_at(left) != first.valid_at(right) {
        assert(a.take(0) =~= b.take(0));
        assert(smaller_at(a, b, 0));
    } else if first.valid_at(left) && first.values@[left] != first.values@[right] {
        assert(a.take(1) =~= b.take(1));
        assert(smaller_at(a, b, 1));
    } else {
        lemma_integers_ascend(second, left, right);
        match second.data {
            ColumnData::Int32(_) => {},
            ColumnData::Int64(_) => {},
            _ => {},
        }
        if a[2] != b[2] {
            assert(a.take(2) =~= b.take(2));
            assert(smaller_at(a, b, 2));
        } else {
            assert(a.take(3) =~= b.take(3));
            assert(smaller_at(a, b, 3));
        }
    }
}

/// Whether `order` lists the rows of the first `slots` buckets, and the nulls, in
/// order.
spec fn lists_buckets(first: Vector<i32>, least: int, slots: int, order: Seq<usize>) -> bool {
    &&& forall|left: int, right: int|
        0 <= left < right < order.len() ==> bucket_before(
            first,
            #[trigger] order[left] as int,
            #[trigger] order[right] as int,
        )
    &&& forall|index: int|
        0 <= index < order.len() ==> (#[trigger] order[index]) < first@.len() && (first.valid_at(
            order[index] as int,
        ) ==> first.values@[order[index] as int] - least < slots)
    &&& forall|row: int|
        0 <= row < first@.len() && (first.valid_at(row) ==> first.values@[row] - least < slots)
            ==> #[trigger] order.contains(row as usize)
}

/// Rows that strictly follow one another.
spec fn rows_ascend(rows: Seq<usize>, end: int) -> bool {
    &&& forall|index: int| 0 <= index < rows.len() ==> #[trigger] rows[index] < end
    &&& forall|left: int, right: int|
        0 <= left < right < rows.len() ==> #[trigger] rows[left] < #[trigger] rows[right]
}

/// A full list of rows in order starts with the first rows.
proof fn lemma_prefix_is_first(
    first: Vector<i32>,
    second: ColumnArray,
    least: int,
    slots: int,
    order: Seq<usize>,
    limit: int,
)
    requires
        first@.len() == second.rows(),
        first@.len() <= usize::MAX,
        integers_ascend(second),
        lists_buckets(first, least, slots, order),
        forall|row: int|
            0 <= row < first@.len() && #[trigger] first.valid_at(row) ==> first.values@[row] - least
                < slots,
        0 <= limit < first@.len(),
    ensures
        limit <= order.len(),
        first_by_keys(
            nulls_first_keys(first, second),
            first@.len() as int,
            order.take(limit),
            limit,
        ),
{
    let rows = first@.len() as int;
    let keys = nulls_first_keys(first, second);
    let offered = row_ranks(keys, rows);
    let full = order.map_values(|row: usize| row_rank(keys, row as int));
    let numbers = order.map_values(|row: usize| row as int);
    let every = vstd::set_lib::set_int_range(0, rows);
    vstd::set_lib::lemma_int_range(0, rows);
    numbers.lemma_cardinality_of_set();
    assert forall|row: int| every.contains(row) implies numbers.to_set().contains(row) by {
        assert(order.contains(row as usize));
        let index = choose|index: int| 0 <= index < order.len() && order[index] == row as usize;
        assert(numbers[index] == row);
    }
    lemma_len_subset(every, numbers.to_set());
    let kept = order.take(limit).map_values(|row: usize| row_rank(keys, row as int));
    assert forall|left: int, right: int| 0 <= left < right < kept.len() implies ranks_before(
        #[trigger] kept[left],
        #[trigger] kept[right],
    ) by {
        assert(bucket_before(first, order[left] as int, order[right] as int));
        lemma_bucket_order(first, second, order[left] as int, order[right] as int);
    }
    assert forall|index: int| 0 <= index < kept.len() implies offered.contains(
        #[trigger] kept[index],
    ) by {
        assert(offered[order[index] as int] == kept[index]);
    }
    assert forall|rank: Seq<i128>| #[trigger] offered.contains(rank) implies kept.contains(rank) || (
    offered.len() > limit && comes_after_all(kept, rank)) by {
        let row = choose|row: int| 0 <= row < rows && offered[row] == rank;
        assert(order.contains(row as usize));
        let index = choose|index: int| 0 <= index < order.len() && order[index] == row as usize;
        if index < limit {
            assert(kept[index] == rank);
        } else {
            assert forall|place: int| 0 <= place < kept.len() implies ranks_before(
                #[trigger] kept[place],
                rank,
            ) by {
                assert(bucket_before(first, order[place] as int, order[index] as int));
                lemma_bucket_order(first, second, order[place] as int, order[index] as int);
            }
        }
    }
}

/// The null rows of a column and the rows of each of its values, each in order.
fn fill_buckets(first: &Vector<i32>, least: i32, slots: usize) -> (filled: (
    Vec<usize>,
    Vec<Vec<usize>>,
))
    requires
        first.well_formed(),
        forall|row: int|
            0 <= row < first@.len() && #[trigger] first.valid_at(row) ==> 0 <= first.values@[row]
                - least < slots,
    ensures
        rows_ascend(filled.0@, first@.len() as int),
        forall|index: int|
            0 <= index < filled.0@.len() ==> !first.valid_at(#[trigger] filled.0@[index] as int),
        forall|row: int|
            0 <= row < first@.len() && !first.valid_at(row) ==> #[trigger] filled.0@.contains(
                row as usize,
            ),
        filled.1@.len() == slots,
        forall|slot: int|
            0 <= slot < slots ==> is_bucket(
                *first,
                least as int,
                slot,
                #[trigger] filled.1@[slot]@,
                first@.len() as int,
            ),
{
    let mut null_rows: Vec<usize> = Vec::new();
    let mut buckets: Vec<Vec<usize>> = Vec::new();
    let mut slot: usize = 0;
    while slot < slots
        invariant
            slot <= slots,
            buckets@.len() == slot,
            forall|done: int| 0 <= done < slot ==> (#[trigger] buckets@[done])@.len() == 0,
        decreases slots - slot,
    {
        buckets.push(Vec::new());
        slot += 1;
    }
    let mut row: usize = 0;
    while row < first.len()
        invariant
            first.well_formed(),
            forall|row: int|
                0 <= row < first@.len() && #[trigger] first.valid_at(row) ==> 0
                    <= first.values@[row] - least < slots,
            row <= first@.len(),
            rows_ascend(null_rows@, row as int),
            forall|index: int|
                0 <= index < null_rows@.len() ==> !first.valid_at(
                    #[trigger] null_rows@[index] as int,
                ),
            forall|earlier: int|
                0 <= earlier < row && !first.valid_at(earlier) ==> #[trigger] null_rows@.contains(
                    earlier as usize,
                ),
            buckets@.len() == slots,
            forall|slot: int|
                0 <= slot < slots ==> is_bucket(
                    *first,
                    least as int,
                    slot,
                    #[trigger] buckets@[slot]@,
                    row as int,
                ),
        decreases first@.len() - row,
    {
        if first.is_null(row) {
            let ghost before = null_rows@;
            null_rows.push(row);
            proof {
                assert forall|earlier: int| 0 <= earlier < row + 1 && !first.valid_at(
                    earlier,
                ) implies #[trigger] null_rows@.contains(earlier as usize) by {
                    if earlier == row {
                        assert(null_rows@[before.len() as int] == row);
                    } else {
                        assert(before.contains(earlier as usize));
                        let index = choose|index: int|
                            0 <= index < before.len() && before[index] == earlier as usize;
                        assert(null_rows@[index] == earlier as usize);
                    }
                }
                assert forall|slot: int| 0 <= slot < slots implies is_bucket(
                    *first,
                    least as int,
                    slot,
                    #[trigger] buckets@[slot]@,
                    row + 1,
                ) by {}
            }
        } else {
            assert(first.valid_at(row as int));
            let target: usize = (first.value(row) as i64 - least as i64) as usize;
            let ghost before = buckets@;
            buckets[target].push(row);
            proof {
                assert forall|slot: int| 0 <= slot < slots implies is_bucket(
                    *first,
                    least as int,
                    slot,
                    #[trigger] buckets@[slot]@,
                    row + 1,
                ) by {
                    let bucket = before[slot]@;
                    assert(is_bucket(*first, least as int, slot, bucket, row as int));
                    if slot == target {
                        assert(buckets@[slot]@ == bucket.push(row));
                        assert forall|earlier: int| 0 <= earlier < row + 1 && first.valid_at(earlier)
                            && first.values@[earlier] - least == slot implies #[trigger] buckets@[slot]@.contains(
                        earlier as usize) by {
                            if earlier == row {
                                assert(buckets@[slot]@[bucket.len() as int] == row);
                            } else {
                                assert(bucket.contains(earlier as usize));
                                let index = choose|index: int|
                                    0 <= index < bucket.len() && bucket[index] == earlier as usize;
                                assert(buckets@[slot]@[index] == earlier as usize);
                            }
                        }
                    } else {
                        assert(buckets@[slot]@ == bucket);
                    }
                }
            }
        }
        row += 1;
    }
    (null_rows, buckets)
}

/// Whether `bucket` lists the rows below `end` that hold the value of the slot, in
/// order.
spec fn is_bucket(first: Vector<i32>, least: int, slot: int, bucket: Seq<usize>, end: int) -> bool {
    &&& rows_ascend(bucket, end)
    &&& forall|index: int|
        0 <= index < bucket.len() ==> first.valid_at(#[trigger] bucket[index] as int)
            && first.values@[bucket[index] as int] - least == slot
    &&& forall|row: int|
        0 <= row < end && first.valid_at(row) && first.values@[row] - least == slot
            ==> #[trigger] bucket.contains(row as usize)
}

/// The rows of a column, nulls first, then by value, by bucket.
fn bucket_order(first: &Vector<i32>, least: i32, slots: usize) -> (order: Vec<usize>)
    requires
        first.well_formed(),
        forall|row: int|
            0 <= row < first@.len() && #[trigger] first.valid_at(row) ==> 0 <= first.values@[row]
                - least < slots,
    ensures
        lists_buckets(*first, least as int, slots as int, order@),
{
    let (null_rows, buckets) = fill_buckets(first, least, slots);
    let mut order: Vec<usize> = null_rows;
    let mut slot: usize = 0;
    while slot < slots
        invariant
            slot <= slots,
            buckets@.len() == slots,
            forall|slot: int|
                0 <= slot < slots ==> is_bucket(
                    *first,
                    least as int,
                    slot,
                    #[trigger] buckets@[slot]@,
                    first@.len() as int,
                ),
            forall|row: int|
                0 <= row < first@.len() && #[trigger] first.valid_at(row) ==> 0
                    <= first.values@[row] - least < slots,
            lists_buckets(*first, least as int, slot as int, order@),
        decreases slots - slot,
    {
        let ghost before = order@;
        let ghost bucket = buckets@[slot as int]@;
        assert(is_bucket(*first, least as int, slot as int, bucket, first@.len() as int));
        let mut index: usize = 0;
        assert(order@ =~= before + bucket.take(0));
        while index < buckets[slot].len()
            invariant
                slot < slots,
                buckets@.len() == slots,
                bucket == buckets@[slot as int]@,
                index <= bucket.len(),
                order@ == before + bucket.take(index as int),
            decreases bucket.len() - index,
        {
            order.push(buckets[slot][index]);
            index += 1;
            assert(order@ =~= before + bucket.take(index as int));
        }
        assert(order@ =~= before + bucket);
        proof {
            assert forall|row: int| 0 <= row < first@.len() && (first.valid_at(row)
                ==> first.values@[row] - least < slot + 1) implies #[trigger] order@.contains(
                row as usize,
            ) by {
                if first.valid_at(row) && first.values@[row] - least == slot {
                    assert(bucket.contains(row as usize));
                    let place = choose|place: int|
                        0 <= place < bucket.len() && bucket[place] == row as usize;
                    assert(order@[before.len() + place] == row as usize);
                } else {
                    assert(before.contains(row as usize));
                    let place = choose|place: int|
                        0 <= place < before.len() && before[place] == row as usize;
                    assert(order@[place] == row as usize);
                }
            }
            assert forall|left: int, right: int| 0 <= left < right < order@.len() implies bucket_before(
                *first,
                #[trigger] order@[left] as int,
                #[trigger] order@[right] as int,
            ) by {
                if right < before.len() {
                    assert(bucket_before(*first, before[left] as int, before[right] as int));
                } else {
                    assert(order@[right] == bucket[right - before.len()]);
                    if left >= before.len() {
                        assert(order@[left] == bucket[left - before.len()]);
                    } else {
                        assert(order@[left] == before[left]);
                    }
                }
            }
            assert forall|place: int| 0 <= place < order@.len() implies (#[trigger] order@[place])
                < first@.len() && (first.valid_at(order@[place] as int)
                ==> first.values@[order@[place] as int] - least < slot + 1) by {
                if place < before.len() {
                    assert(order@[place] == before[place]);
                } else {
                    assert(order@[place] == bucket[place - before.len()]);
                }
            }
        }
        slot += 1;
    }
    order
}

/// Whether an order is by two ascending columns, the nulls of the first first.
pub open spec fn nulls_first_pair(order_by: SortKey) -> bool {
    let sorts = order_by.expressions@;
    &&& sorts.len() == 2
    &&& !sorts[0].descending
    &&& !sorts[1].descending
    &&& sorts[0].nulls_first
    &&& !sorts[1].nulls_first
}

/// The outcome of a bucket sort: by two ascending columns, the first a 32-bit
/// column with dense values and its nulls first, the second an integer column that
/// goes up with the rows already.
pub open spec fn is_bucket_sort(
    batch: RecordBatch,
    order_by: SortKey,
    limit: Option<usize>,
    result: SqlResult<Option<Vec<usize>>>,
) -> bool {
    if !cuts_short(limit, batch.num_rows as int) || !nulls_first_pair(order_by) {
        result matches Ok(None)
    } else {
        match first_missing(batch, sort_names(order_by)) {
            Some(name) => result matches Err(error) && error.is_unknown_column(name),
            None => {
                let first = batch.columns@[index_named(batch, order_by.expressions@[0].column@)];
                let second = batch.columns@[index_named(batch, order_by.expressions@[1].column@)];
                match first.data {
                    ColumnData::Int32(vector) => if !integers_ascend(second) || (exists|
                        least: i32,
                        greatest: i32,
                    | #[trigger]
                        spans(vector, least, greatest) && !dense_enough(
                            least as int,
                            greatest as int,
                            batch.num_rows as int,
                        )) {
                        result matches Ok(None)
                    } else if batch.num_rows > 0x1_0000_0000 {
                        fails_unsupported(result, "nullable i32/i64 ordered sort row overflow"@)
                    } else {
                        result matches Ok(Some(rows)) && first_by_keys(
                            nulls_first_keys(vector, second),
                            batch.num_rows as int,
                            rows@,
                            limit->0 as int,
                        )
                    },
                    _ => result matches Ok(None),
                }
            },
        }
    }
}

/// The first rows by a 32-bit column with its nulls first and a column that goes
/// up with the rows already, found by bucket.
pub fn sort_nullable_i32_then_ordered_i64_batch(
    batch: &RecordBatch,
    order_by: &SortKey,
    limit: Option<usize>,
) -> (result: SqlResult<Option<Vec<usize>>>)
    requires
        batch.well_formed(),
    ensures
        is_bucket_sort(*batch, *order_by, limit, result),
{
    let count: usize = match limit {
        Some(count) => count,
        None => {
            return Ok(None);
        },
    };
    if count == 0 || batch.num_rows == 0 || count >= batch.num_rows {
        return Ok(None);
    }
    let sorts = &order_by.expressions;
    if sorts.len() != 2 {
        return Ok(None);
    }
    if sorts[0].descending || sorts[1].descending || !sorts[0].nulls_first || sorts[1].nulls_first {
        return Ok(None);
    }
    let ghost names = sort_names(*order_by);
    reveal_with_fuel(first_missing, 3);
    assert(names[0] == sorts@[0].column@);
    assert(names.skip(1)[0] == sorts@[1].column@);
    let first_index: usize = output_batch_column_index(batch, sorts[0].column.as_str())?;
    let second_index: usize = output_batch_column_index(batch, sorts[1].column.as_str())?;
    assert(batch.columns@[first_index as int].well_formed());
    assert(batch.columns@[second_index as int].well_formed());
    let second = &batch.columns[second_index];
    let first: &Vector<i32> = match &batch.columns[first_index].data {
        ColumnData::Int32(first) => first,
        _ => {
            return Ok(None);
        },
    };
    if !primitive_integer_array_is_ascending(second) {
        return Ok(None);
    }
    let (least, slots): (i32, usize) = match dense_i32_array_range(first) {
        Some(range) => range,
        None => {
            assert(any_value(*first));
            proof {
                lemma_spans_exist(*first);
            }
            return Ok(None);
        },
    };
    assert(forall|low: i32, high: i32| #[trigger]
        spans(*first, low, high) ==> dense_enough(low as int, high as int, first@.len() as int));
    if batch.num_rows as u64 > 0x1_0000_0000u64 {
        return Err(SqlError::unsupported("nullable i32/i64 ordered sort row overflow"));
    }
    let mut order = bucket_order(first, least, slots);
    proof {
        lemma_prefix_is_first(*first, *second, least as int, slots as int, order@, count as int);
    }
    order.truncate(count);
    Ok(Some(order))
}

/// A column with values reaches from some value to some value.
proof fn lemma_spans_exist(column: Vector<i32>)
    requires
        any_value(column),
    ensures
        exists|least: i32, greatest: i32| #[trigger] spans(column, least, greatest),
{
    let (least, greatest) = lemma_extent(column, column@.len() as int);
    assert(spans(column, least, greatest));
}

proof fn lemma_extent(column: Vector<i32>, rows: int) -> (extent: (i32, i32))
    requires
        0 <= rows <= column@.len(),
        exists|row: int| 0 <= row < rows && #[trigger] column.valid_at(row),
    ensures
        exists|row: int|
            0 <= row < rows && #[trigger] column.valid_at(row) && column.values@[row] == extent.0,
        exists|row: int|
            0 <= row < rows && #[trigger] column.valid_at(row) && column.values@[row] == extent.1,
        forall|row: int|
            0 <= row < rows && #[trigger] column.valid_at(row) ==> extent.0 <= column.values@[row]
                <= extent.1,
    decreases rows,
{
    if exists|row: int| 0 <= row < rows - 1 && #[trigger] column.valid_at(row) {
        let (least, greatest) = lemma_extent(column, rows - 1);
        if column.valid_at(rows - 1) {
            let value = column.values@[rows - 1];
            (
                if value < least { value } else { least },
                if value > greatest { value } else { greatest },
            )
        } else {
            (least, greatest)
        }
    } else {
        assert(column.valid_at(rows - 1));
        (column.values@[rows - 1], column.values@[rows - 1])
    }
}

/// Whether a column can be sorted as integers.
pub open spec fn sortable(column: ColumnArray) -> bool {
    ||| column.data is Int32
    ||| column.data is Int64
    ||| column.data is UInt64
    ||| column.data is Float64Order
    ||| column.data is Date32
}

/// The integer that a row of a sortable column is sorted by.
pub open spec fn sort_integer(column: ColumnArray, row: int) -> int {
    match column.data {
        ColumnData::Int32(vector) => vector.values@[row] as int,
        ColumnData::Int64(vector) => vector.values@[row] as int,
        ColumnData::UInt64(vector) => vector.values@[row] as int,
        ColumnData::Float64Order(vector) => vector.values@[row] as int,
        ColumnData::Date32(vector) => vector.values@[row] as int,
        _ => 0,
    }
}

/// Whether no row of a column is null.
pub open spec fn no_nulls(column: ColumnArray) -> bool {
    forall|row: int| 0 <= row < column.rows() ==> !#[trigger] column.null_at(row)
}

/// Whether the sort columns from `from` on can all be sorted as integers, or the
/// first name that is missing.
pub open spec fn sort_columns_usable(batch: RecordBatch, order_by: SortKey, from: int) -> Result<
    bool,
    Seq<char>,
>
    decreases order_by.expressions@.len() - from,
{
    if from < 0 || from >= order_by.expressions@.len() {
        Ok(true)
    } else {
        let sort = order_by.expressions@[from];
        if !has_name(batch, sort.column@) {
            Err(sort.column@)
        } else {
            let column = batch.columns@[index_named(batch, sort.column@)];
            if !no_nulls(column) || sort.nulls_first || !sortable(column) {
                Ok(false)
            } else {
                sort_columns_usable(batch, order_by, from + 1)
            }
        }
    }
}

/// Whether every column of a batch can be sorted as integers.
pub open spec fn all_sortable(batch: RecordBatch) -> bool {
    forall|index: int|
        0 <= index < batch.columns@.len() ==> sortable(#[trigger] batch.columns@[index]) && no_nulls(
            batch.columns@[index],
        )
}

/// The sort keys of a row: the integer of each sort column, negated where the
/// column goes down.
pub open spec fn sort_keys(batch: RecordBatch, order_by: SortKey) -> spec_fn(int) -> Seq<i128> {
    |row: int|
        Seq::new(
            order_by.expressions@.len(),
            |index: int|
                {
                    let sort = order_by.expressions@[index];
                    let value = sort_integer(
                        batch.columns@[index_named(batch, sort.column@)],
                        row,
                    );
                    if sort.descending {
                        (-value) as i128
                    } else {
                        value as i128
                    }
                },
        )
}

/// The outcome of sorting a batch by up to four integer columns.
pub open spec fn is_primitive_sort(
    batch: RecordBatch,
    order_by: SortKey,
    limit: Option<usize>,
    enabled: bool,
    result: SqlResult<Option<Vec<usize>>>,
) -> bool {
    if !enabled || !cuts_short(limit, batch.num_rows as int) || order_by.expressions@.len() == 0
        || order_by.expressions@.len() > 4 {
        result matches Ok(None)
    } else {
        match sort_columns_usable(batch, order_by, 0) {
            Err(name) => result matches Err(error) && error.is_unknown_column(name),
            Ok(usable) => if !usable || !all_sortable(batch) {
                result matches Ok(None)
            } else if batch.num_rows > u32::MAX {
                fails_unsupported(result, "primitive partial sort row count overflow"@)
            } else {
                result matches Ok(Some(rows)) && first_by_keys(
                    sort_keys(batch, order_by),
                    batch.num_rows as int,
                    rows@,
                    limit->0 as int,
                )
            },
        }
    }
}

/// Whether no row of a column is null.
fn column_has_no_nulls(column: &ColumnArray, rows: usize) -> (none: bool)
    requires
        column.well_formed(),
        rows == column.rows(),
    ensures
        none == no_nulls(*column),
{
    let mut row: usize = 0;
    while row < rows
        invariant
            column.well_formed(),
            rows == column.rows(),
            row <= rows,
            forall|earlier: int| 0 <= earlier < row ==> !#[trigger] column.null_at(earlier),
        decreases rows - row,
    {
        if column.is_null(row) {
            return false;
        }
        row += 1;
    }
    true
}

/// Whether a column can be sorted as integers.
pub fn is_sortable(column: &ColumnArray) -> (is: bool)
    ensures
        is == sortable(*column),
{
    match &column.data {
        ColumnData::Int32(_) => true,
        ColumnData::Int64(_) => true,
        ColumnData::UInt64(_) => true,
        ColumnData::Float64Order(_) => true,
        ColumnData::Date32(_) => true,
        _ => false,
    }
}

/// The integer that a row of a sortable column is sorted by, negated where the
/// column goes down.
fn sort_key_integer(column: &ColumnArray, row: usize, descending: bool) -> (key: i128)
    requires
        row < column.rows(),
        sortable(*column),
    ensures
        key == (if descending {
            -sort_integer(*column, row as int)
        } else {
            sort_integer(*column, row as int)
        }),
        -0x1_0000_0000_0000_0000 <= key <= 0x1_0000_0000_0000_0000,
{
    let value: i128 = match &column.data {
        ColumnData::Int32(vector) => vector.values[row] as i128,
        ColumnData::Int64(vector) => vector.values[row] as i128,
        ColumnData::UInt64(vector) => vector.values[row] as i128,
        ColumnData::Float64Order(vector) => vector.values[row] as i128,
        ColumnData::Date32(vector) => vector.values[row] as i128,
        _ => 0,
    };
    if descending {
        -value
    } else {
        value
    }
}

/// Whether every column of a batch can be sorted as integers.
fn every_column_sortable(batch: &RecordBatch) -> (all: bool)
    requires
        batch.well_formed(),
    ensures
        all == all_sortable(*batch),
{
    let mut index: usize = 0;
    while index < batch.columns.len()
        invariant
            batch.well_formed(),
            index <= batch.columns@.len(),
            forall|earlier: int|
                0 <= earlier < index ==> sortable(#[trigger] batch.columns@[earlier]) && no_nulls(
                    batch.columns@[earlier],
                ),
        decreases batch.columns@.len() - index,
    {
        let column = &batch.columns[index];
        assert(column.well_formed());
        if !is_sortable(column) || !column_has_no_nulls(column, batch.num_rows) {
            assert(!(sortable(batch.columns@[index as int]) && no_nulls(
                batch.columns@[index as int],
            )));
            return false;
        }
        index += 1;
    }
    true
}

/// The columns that a batch is sorted by, or `None` where one cannot be sorted as
/// integers.
fn sort_column_indices(batch: &RecordBatch, order_by: &SortKey) -> (result: SqlResult<
    Option<Vec<usize>>,
>)
    requires
        batch.well_formed(),
    ensures
        match sort_columns_usable(*batch, *order_by, 0) {
            Err(name) => result matches Err(error) && error.is_unknown_column(name),
            Ok(false) => result matches Ok(None),
            Ok(true) => result matches Ok(Some(indices)) && indices@.len()
                == order_by.expressions@.len() && forall|index: int|
                0 <= index < indices@.len() ==> (#[trigger] indices@[index]) == index_named(
                    *batch,
                    order_by.expressions@[index].column@,
                ) && indices@[index] < batch.columns@.len() && sortable(
                    batch.columns@[indices@[index] as int],
                ),
        },
{
    let mut indices: Vec<usize> = Vec::new();
    let mut index: usize = 0;
    while index < order_by.expressions.len()
        invariant
            batch.well_formed(),
            index <= order_by.expressions@.len(),
            indices@.len() == index,
            sort_columns_usable(*batch, *order_by, 0) == sort_columns_usable(
                *batch,
                *order_by,
                index as int,
            ),
            forall|done: int|
                0 <= done < index ==> (#[trigger] indices@[done]) == index_named(
                    *batch,
                    order_by.expressions@[done].column@,
                ) && indices@[done] < batch.columns@.len() && sortable(
                    batch.columns@[indices@[done] as int],
                ),
        decreases order_by.expressions@.len() - index,
    {
        let sort = &order_by.expressions[index];
        let position: usize = match output_batch_column_index(batch, sort.column.as_str()) {
            Ok(position) => position,
            Err(error) => {
                return Err(error);
            },
        };
        let column = &batch.columns[position];
        assert(column.well_formed());
        if !column_has_no_nulls(column, batch.num_rows) || sort.nulls_first || !is_sortable(
            column,
        ) {
            return Ok(None);
        }
        indices.push(position);
        index += 1;
    }
    Ok(Some(indices))
}

/// The sort keys of a row.
fn row_sort_key(
    batch: &RecordBatch,
    order_by: &SortKey,
    indices: &Vec<usize>,
    row: usize,
) -> (key: Rank)
    requires
        batch.well_formed(),
        row < batch.num_rows,
        indices@.len() == order_by.expressions@.len(),
        forall|index: int|
            0 <= index < indices@.len() ==> (#[trigger] indices@[index]) == index_named(
                *batch,
                order_by.expressions@[index].column@,
            ) && indices@[index] < batch.columns@.len() && sortable(
                batch.columns@[indices@[index] as int],
            ),
    ensures
        key@ == sort_keys(*batch, *order_by)(row as int),
{
    let ghost whole = sort_keys(*batch, *order_by)(row as int);
    let mut key: Rank = Vec::new();
    let mut index: usize = 0;
    while index < indices.len()
        invariant
            batch.well_formed(),
            row < batch.num_rows,
            indices@.len() == order_by.expressions@.len(),
            forall|index: int|
                0 <= index < indices@.len() ==> (#[trigger] indices@[index]) == index_named(
                    *batch,
                    order_by.expressions@[index].column@,
                ) && indices@[index] < batch.columns@.len() && sortable(
                    batch.columns@[indices@[index] as int],
                ),
            whole == sort_keys(*batch, *order_by)(row as int),
            index <= indices@.len(),
            key@.len() == index,
            forall|done: int| 0 <= done < index ==> #[trigger] key@[done] == whole[done],
        decreases indices@.len() - index,
    {
        let position: usize = indices[index];
        let column = &batch.columns[position];
        assert(column.rows() == batch.num_rows);
        key.push(sort_key_integer(column, row, order_by.expressions[index].descending));
        index += 1;
    }
    assert(key@ =~= whole);
    key
}

/// The first rows by up to four integer columns, where that way is switched on,
/// the limit cuts the batch short and every column holds integers without nulls.
pub fn sort_primitive_output_batch(
    batch: &RecordBatch,
    order_by: &SortKey,
    limit: Option<usize>,
    enabled: bool,
) -> (result: SqlResult<Option<Vec<usize>>>)
    requires
        batch.well_formed(),
    ensures
        is_primitive_sort(*batch, *order_by, limit, enabled, result),
{
    if !enabled {
        return Ok(None);
    }
    let count: usize = match limit {
        Some(count) => count,
        None => {
            return Ok(None);
        },
    };
    if batch.num_rows == 0 || count == 0 || count >= batch.num_rows {
        return Ok(None);
    }
    if order_by.expressions.len() == 0 || order_by.expressions.len() > 4 {
        return Ok(None);
    }
    let indices: Vec<usize> = match sort_column_indices(batch, order_by) {
        Err(error) => {
            return Err(error);
        },
        Ok(None) => {
            return Ok(None);
        },
        Ok(Some(indices)) => indices,
    };
    if !every_column_sortable(batch) {
        return Ok(None);
    }
    if batch.num_rows > u32::MAX as usize {
        return Err(SqlError::unsupported("primitive partial sort row count overflow"));
    }
    let ghost keys = sort_keys(*batch, *order_by);
    let mut row_keys: Vec<Rank> = Vec::new();
    let mut row: usize = 0;
    while row < batch.num_rows
        invariant
            batch.well_formed(),
            row <= batch.num_rows,
            indices@.len() == order_by.expressions@.len(),
            forall|index: int|
                0 <= index < indices@.len() ==> (#[trigger] indices@[index]) == index_named(
                    *batch,
                    order_by.expressions@[index].column@,
                ) && indices@[index] < batch.columns@.len() && sortable(
                    batch.columns@[indices@[index] as int],
                ),
            keys == sort_keys(*batch, *order_by),
            row_keys@.len() == row,
            forall|done: int| 0 <= done < row ==> (#[trigger] row_keys@[done])@ == keys(done),
        decreases batch.num_rows - row,
    {
        row_keys.push(row_sort_key(batch, order_by, &indices, row));
        row += 1;
    }
    let rows = first_rows_by_keys(row_keys, order_by.expressions.len(), count, Ghost(keys));
    Ok(Some(rows))
}

/// Which of the ways to sort a batch are switched on.
#[derive(Clone, Copy)]
pub struct SortSettings {
    pub fixed_primitive_partial_sort: bool,
    pub primitive_partial_sort: bool,
}

/// A column that a general sort goes by.
#[derive(Clone, Copy, Debug, PartialEq, Eq, Structural)]
pub struct SortColumn {
    pub column: usize,
    pub descending: bool,
    pub nulls_first: bool,
}

/// How a batch is sorted.
pub enum SortPlan {
    /// These rows, in this order.
    Rows(Vec<usize>),
    /// By a general sort over these columns, up to the limit.
    General(Vec<SortColumn>),
}

/// Whether the columns are those of the order, with their directions.
pub open spec fn is_general_sort(
    batch: RecordBatch,
    order_by: SortKey,
    columns: Seq<SortColumn>,
) -> bool {
    &&& columns.len() == order_by.expressions@.len()
    &&& forall|index: int|
        0 <= index < columns.len() ==> {
            let sort = order_by.expressions@[index];
            &&& (#[trigger] columns[index]).column == index_named(batch, sort.column@)
            &&& columns[index].column < batch.columns@.len()
            &&& columns[index].descending == sort.descending
            &&& columns[index].nulls_first == sort.nulls_first
        }
}

/// The outcome of planning a sort: the first of the bucket, fixed and primitive
/// ways that applies or fails, and otherwise a general sort.
pub open spec fn is_sort_plan(
    batch: RecordBatch,
    order_by: SortKey,
    limit: Option<usize>,
    settings: SortSettings,
    result: SqlResult<SortPlan>,
) -> bool {
    let fixed_applies = settings.fixed_primitive_partial_sort && cuts_short(
        limit,
        batch.num_rows as int,
    ) && !any_descending(order_by);
    if !is_bucket_sort(batch, order_by, limit, Ok(None)) {
        exists|rows: SqlResult<Option<Vec<usize>>>| #[trigger]
            is_bucket_sort(batch, order_by, limit, rows) && carries(rows, result)
    } else if fixed_applies && !is_fixed_sort(batch, order_by, limit->0 as int, Ok(None)) {
        exists|rows: SqlResult<Option<Vec<usize>>>| #[trigger]
            is_fixed_sort(batch, order_by, limit->0 as int, rows) && carries(rows, result)
    } else if !is_primitive_sort(
        batch,
        order_by,
        limit,
        settings.primitive_partial_sort,
        Ok(None),
    ) {
        exists|rows: SqlResult<Option<Vec<usize>>>| #[trigger]
            is_primitive_sort(batch, order_by, limit, settings.primitive_partial_sort, rows)
                && carries(rows, result)
    } else {
        match first_missing(batch, sort_names(order_by)) {
            Some(name) => result matches Err(error) && error.is_unknown_column(name),
            None => result matches Ok(SortPlan::General(columns)) && is_general_sort(
                batch,
                order_by,
                columns@,
            ),
        }
    }
}

/// Whether a plan hands on the rows or the error of a way to sort.
pub open spec fn carries(rows: SqlResult<Option<Vec<usize>>>, result: SqlResult<SortPlan>) -> bool {
    match rows {
        Err(error) => result == Err::<SortPlan, SqlError>(error),
        Ok(Some(rows)) => result == Ok::<SortPlan, SqlError>(SortPlan::Rows(rows)),
        Ok(None) => false,
    }
}

/// A missing name among the rest of a list is the missing name of the list where
/// all names before it are there.
proof fn lemma_first_missing_from(batch: RecordBatch, names: Seq<Seq<char>>, from: int)
    requires
        0 <= from <= names.len(),
        forall|index: int| 0 <= index < from ==> has_name(batch, #[trigger] names[index]),
    ensures
        first_missing(batch, names) == first_missing(batch, names.skip(from)),
    decreases from,
{
    if from == 0 {
        assert(names.skip(0) =~= names);
    } else {
        assert(has_name(batch, names[0]));
        assert forall|index: int| 0 <= index < from - 1 implies has_name(
            batch,
            #[trigger] names.skip(1)[index],
        ) by {
            assert(names.skip(1)[index] == names[index + 1]);
        }
        lemma_first_missing_from(batch, names.skip(1), from - 1);
        assert(names.skip(1).skip(from - 1) =~= names.skip(from));
    }
}

/// The columns of a general sort.
fn general_sort_columns(batch: &RecordBatch, order_by: &SortKey) -> (result: SqlResult<
    Vec<SortColumn>,
>)
    requires
        batch.well_formed(),
    ensures
        match first_missing(*batch, sort_names(*order_by)) {
            Some(name) => result matches Err(error) && error.is_unknown_column(name),
            None => result matches Ok(columns) && is_general_sort(*batch, *order_by, columns@),
        },
{
    let ghost names = sort_names(*order_by);
    let mut columns: Vec<SortColumn> = Vec::new();
    let mut index: usize = 0;
    while index < order_by.expressions.len()
        invariant
            batch.well_formed(),
            names == sort_names(*order_by),
            index <= order_by.expressions@.len(),
            columns@.len() == index,
            forall|done: int| 0 <= done < index ==> has_name(*batch, #[trigger] names[done]),
            forall|done: int|
                0 <= done < index ==> {
                    let sort = order_by.expressions@[done];
                    &&& (#[trigger] columns@[done]).column == index_named(*batch, sort.column@)
                    &&& columns@[done].column < batch.columns@.len()
                    &&& columns@[done].descending == sort.descending
                    &&& columns@[done].nulls_first == sort.nulls_first
                },
        decreases order_by.expressions@.len() - index,
    {
        let sort = &order_by.expressions[index];
        assert(names[index as int] == sort.column@);
        match output_batch_column_index(batch, sort.column.as_str()) {
            Ok(column) => {
                columns.push(
                    SortColumn {
                        column,
                        descending: sort.descending,
                        nulls_first: sort.nulls_first,
                    },
                );
            },
            Err(error) => {
                proof {
                    lemma_first_missing_from(*batch, names, index as int);
                    assert(names.skip(index as int)[0] == names[index as int]);
                }
                return Err(error);
            },
        }
        index += 1;
    }
    proof {
        lemma_first_missing_from(*batch, names, index as int);
        assert(names.skip(index as int) =~= Seq::empty());
    }
    Ok(columns)
}

/// How a batch is sorted.
pub fn sort_output_batch(
    batch: &RecordBatch,
    order_by: &SortKey,
    limit: Option<usize>,
    settings: SortSettings,
) -> (result: SqlResult<SortPlan>)
    requires
        batch.well_formed(),
    ensures
        is_sort_plan(*batch, *order_by, limit, settings, result),
{
    let bucket = sort_nullable_i32_then_ordered_i64_batch(batch, order_by, limit);
    match bucket {
        Err(error) => {
            let ghost rows: SqlResult<Option<Vec<usize>>> = Err(error);
            assert(is_bucket_sort(*batch, *order_by, limit, rows));
            return Err(error);
        },
        Ok(Some(rows)) => {
            let ghost outcome: SqlResult<Option<Vec<usize>>> = Ok(Some(rows));
            assert(is_bucket_sort(*batch, *order_by, limit, outcome));
            return Ok(SortPlan::Rows(rows));
        },
        Ok(None) => {},
    }
    let fixed = sort_fixed_primitive_output_batch(
        batch,
        order_by,
        limit,
        settings.fixed_primitive_partial_sort,
    );
    match fixed {
        Err(error) => {
            let ghost rows: SqlResult<Option<Vec<usize>>> = Err(error);
            assert(is_fixed_sort(*batch, *order_by, limit->0 as int, rows));
            return Err(error);
        },
        Ok(Some(rows)) => {
            let ghost outcome: SqlResult<Option<Vec<usize>>> = Ok(Some(rows));
            assert(is_fixed_sort(*batch, *order_by, limit->0 as int, outcome));
            return Ok(SortPlan::Rows(rows));
        },
        Ok(None) => {},
    }
    let primitive = sort_primitive_output_batch(
        batch,
        order_by,
        limit,
        settings.primitive_partial_sort,
    );
    match primitive {
        Err(error) => {
            let ghost rows: SqlResult<Option<Vec<usize>>> = Err(error);
            assert(is_primitive_sort(
                *batch,
                *order_by,
                limit,
                settings.primitive_partial_sort,
                rows,
            ));
            return Err(error);
        },
        Ok(Some(rows)) => {
            let ghost outcome: SqlResult<Option<Vec<usize>>> = Ok(Some(rows));
            assert(is_primitive_sort(
                *batch,
                *order_by,
                limit,
                settings.primitive_partial_sort,
                outcome,
            ));
            return Ok(SortPlan::Rows(rows));
        },
        Ok(None) => {},
    }
    match general_sort_columns(batch, order_by) {
        Ok(columns) => Ok(SortPlan::General(columns)),
        Err(error) => Err(error),
    }
}

} // verus!
