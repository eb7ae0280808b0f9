//! The orders in which rows of batches are sorted, said over the values of their columns.

use vstd::prelude::*;
use crate::columns::{ColumnArray, ColumnData, RecordBatch};
use crate::output_order::{is_batch_order, sort_column, value_at};
use crate::output_sort::{
    first_by_keys, is_bucket_sort, is_fixed_sort, is_general_sort, is_primitive_sort,
    nulls_first_keys, row_rank, row_ranks, sort_integer, sort_keys, SortColumn,
};
use crate::plan::SortKey;
use crate::streaming_topk::{
    all_ranks, descending_keys, first_rows, fits_shape, has_name, index_named, named_at,
    non_null_int64, shape_key, RowPosition, StreamingTopKSortShape,
};
use crate::text::comes_before;
use crate::topk::{comes_after_all, ranks_before, smaller_at};

verus! {

/// Whether keys come no later than others: at the first place where they differ they are
/// smaller.
pub open spec fn keys_no_later(left: Seq<i128>, right: Seq<i128>) -> bool {
    forall|index: int|
        0 <= index < left.len() && index < right.len() && (forall|earlier: int|
            0 <= earlier < index ==> left[earlier] == right[earlier]) ==> #[trigger] left[index]
            <= #[trigger] right[index]
}

proof fn lemma_rank_keys(left: Seq<i128>, right: Seq<i128>, width: int)
    requires
        ranks_before(left, right),
        0 <= width < left.len(),
        left.len() == right.len(),
    ensures
        keys_no_later(left.take(width), right.take(width)),
        left.take(width) == right.take(width) ==> left[width] <= right[width],
        left.take(width) == right.take(width) && left.len() == width + 1 ==> left[width]
            < right[width],
{
    let place = choose|place: int| smaller_at(left, right, place);
    let first = left.take(width);
    let second = right.take(width);
    assert forall|index: int| 0 <= index < place implies left[index] == right[index] by {
        assert(left.take(place)[index] == right.take(place)[index]);
    }
    assert forall|index: int|
        0 <= index < first.len() && index < second.len() && (forall|earlier: int|
            0 <= earlier < index ==> first[earlier] == second[earlier])
                implies #[trigger] first[index]
        <= #[trigger] second[index] by {
        if place < index {
            assert(first[place] == second[place]);
        }
    }
    if first == second && place < width {
        assert(first[place] == second[place]);
    }
}

/// The rows that are first by their keys are as many as the limit allows, none twice; their
/// keys never get smaller, of equal keys the earlier row comes first, and no row that is left
/// out has smaller keys.
pub proof fn law_first_by_keys(
    keys: spec_fn(int) -> Seq<i128>,
    width: int,
    rows: int,
    selected: Seq<usize>,
    limit: int,
)
    requires
        first_by_keys(keys, rows, selected, limit),
        0 <= rows <= usize::MAX,
        forall|row: int| (#[trigger] keys(row)).len() == width,
    ensures
        selected.len() == (if rows <= limit {
            rows
        } else {
            limit
        }),
        forall|place: int| 0 <= place < selected.len() ==> #[trigger] selected[place] < rows,
        forall|left: int, right: int|
            0 <= left < right < selected.len() ==> keys_no_later(
                keys(#[trigger] selected[left] as int),
                keys(#[trigger] selected[right] as int),
            ) && (keys(selected[left] as int) == keys(selected[right] as int) ==> selected[left]
                < selected[right]) && selected[left] != selected[right],
        forall|row: usize, place: int|
            row < rows && !#[trigger] selected.contains(row) && 0 <= place < selected.len()
                ==> keys_no_later(keys(#[trigger] selected[place] as int), keys(row as int)),
{
    let ranks = selected.map_values(|row: usize| row_rank(keys, row as int));
    let offered = row_ranks(keys, rows);
    assert forall|place: int| 0 <= place < selected.len() implies #[trigger] selected[place]
        < rows by {
        assert(offered.contains(ranks[place]));
        let row = choose|row: int| 0 <= row < offered.len() && offered[row] == ranks[place];
        assert(row_rank(keys, row)[width] == row_rank(keys, selected[place] as int)[width]);
    }
    assert forall|left: int, right: int| 0 <= left < right < selected.len() implies keys_no_later(
        keys(#[trigger] selected[left] as int),
        keys(#[trigger] selected[right] as int),
    ) && (keys(selected[left] as int) == keys(selected[right] as int) ==> selected[left]
        < selected[right]) && selected[left] != selected[right] by {
        let first = row_rank(keys, selected[left] as int);
        let second = row_rank(keys, selected[right] as int);
        assert(ranks_before(ranks[left], ranks[right]));
        lemma_rank_keys(first, second, width);
        assert(first.take(width) =~= keys(selected[left] as int));
        assert(second.take(width) =~= keys(selected[right] as int));
        assert(first[width] == selected[left]);
        assert(second[width] == selected[right]);
    }
    assert forall|row: usize, place: int|
        row < rows && !#[trigger] selected.contains(row) && 0 <= place < selected.len()
            implies keys_no_later(
    keys(#[trigger] selected[place] as int), keys(row as int)) by {
        let rank = row_rank(keys, row as int);
        assert(offered[row as int] == rank);
        assert(offered.contains(rank));
        if ranks.contains(rank) {
            let other = choose|other: int| 0 <= other < ranks.len() && ranks[other] == rank;
            assert(row_rank(keys, selected[other] as int)[width] == rank[width]);
            assert(selected[other] == row);
        }
        assert(comes_after_all(ranks, rank));
        let first = row_rank(keys, selected[place] as int);
        assert(ranks_before(ranks[place], rank));
        lemma_rank_keys(first, rank, width);
        assert(first.take(width) =~= keys(selected[place] as int));
        assert(rank.take(width) =~= keys(row as int));
    }
}

/// The integer that orders the value of a row: the value itself, or where it stands among
/// floating-point numbers.
pub open spec fn order_at(column: ColumnArray, row: int) -> int {
    match column.data {
        ColumnData::Int32(vector) => vector.values@[row] as int,
        ColumnData::Int64(vector) => vector.values@[row] as int,
        ColumnData::UInt64(vector) => vector.values@[row] as int,
        ColumnData::Float64Order(vector) => vector.values@[row] as int,
        ColumnData::Date32(vector) => vector.values@[row] as int,
        _ => 0,
    }
}

/// The value that a row has under the name that a sort key sorts by.
pub open spec fn sorted_at(batch: RecordBatch, order_by: SortKey, index: int, row: int) -> int {
    order_at(batch.columns@[index_named(batch, order_by.expressions@[index].column@)], row)
}

/// Whether a row may stand before another in an order: where they agree in the keys before it,
/// a key is no greater if it ascends, and no less if it descends.
pub open spec fn may_precede(batch: RecordBatch, order_by: SortKey, left: int, right: int) -> bool {
    forall|index: int|
        0 <= index < order_by.expressions@.len() && (forall|earlier: int|
            0 <= earlier < index ==> sorted_at(batch, order_by, earlier, left) == sorted_at(
                batch,
                order_by,
                earlier,
                right,
            )) ==> if (#[trigger] order_by.expressions@[index]).descending {
            sorted_at(batch, order_by, index, left) >= sorted_at(batch, order_by, index, right)
        } else {
            sorted_at(batch, order_by, index, left) <= sorted_at(batch, order_by, index, right)
        }
}

proof fn lemma_keys_may_precede(batch: RecordBatch, order_by: SortKey, left: int, right: int)
    requires
        keys_no_later(sort_keys(batch, order_by)(left), sort_keys(batch, order_by)(right)),
    ensures
        may_precede(batch, order_by, left, right),
{
    let first = sort_keys(batch, order_by)(left);
    let second = sort_keys(batch, order_by)(right);
    assert forall|index: int|
        0 <= index < order_by.expressions@.len() && (forall|earlier: int|
            0 <= earlier < index ==> sorted_at(batch, order_by, earlier, left) == sorted_at(
                batch,
                order_by,
                earlier,
                right,
            )) implies if (#[trigger] order_by.expressions@[index]).descending {
        sorted_at(batch, order_by, index, left) >= sorted_at(batch, order_by, index, right)
    } else {
        sorted_at(batch, order_by, index, left) <= sorted_at(batch, order_by, index, right)
    } by {
        assert forall|earlier: int| 0 <= earlier < index implies first[earlier]
            == second[earlier] by {
            assert(sorted_at(batch, order_by, earlier, left) == sorted_at(
                batch,
                order_by,
                earlier,
                right,
            ));
        }
        assert(first[index] <= second[index]);
        let sort = order_by.expressions@[index];
        let column = batch.columns@[index_named(batch, sort.column@)];
        assert(sort_integer(column, left) == order_at(column, left));
        assert(sort_integer(column, right) == order_at(column, right));
    }
}

/// A sort by integer columns gives the first rows: each row may precede the next by the keys
/// and directions of the order, rows that agree in every key stay in their order, and no row
/// that is left out comes before one that is kept.
pub proof fn law_primitive_sort_orders(
    batch: RecordBatch,
    order_by: SortKey,
    limit: Option<usize>,
    enabled: bool,
    rows: Vec<usize>,
)
    requires
        is_primitive_sort(batch, order_by, limit, enabled, Ok(Some(rows))),
    ensures
        limit matches Some(limit) && rows@.len() == limit,
        forall|place: int| 0 <= place < rows@.len() ==> #[trigger] rows@[place] < batch.num_rows,
        forall|left: int, right: int|
            0 <= left < right < rows@.len() ==> may_precede(
                batch,
                order_by,
                #[trigger] rows@[left] as int,
                #[trigger] rows@[right] as int,
            ) && rows@[left] != rows@[right],
        forall|left: int, right: int|
            0 <= left < right < rows@.len() && may_precede(
                batch,
                order_by,
                #[trigger] rows@[right] as int,
                #[trigger] rows@[left] as int,
            ) ==> rows@[left] < rows@[right],
        forall|row: usize, place: int|
            row < batch.num_rows && !#[trigger] rows@.contains(row) && 0 <= place < rows@.len()
                ==> may_precede(batch, order_by, #[trigger] rows@[place] as int, row as int),
{
    let keys = sort_keys(batch, order_by);
    let width = order_by.expressions@.len() as int;
    law_first_by_keys(keys, width, batch.num_rows as int, rows@, limit->0 as int);
    assert forall|left: int, right: int| 0 <= left < right < rows@.len() implies may_precede(
        batch,
        order_by,
        #[trigger] rows@[left] as int,
        #[trigger] rows@[right] as int,
    ) && rows@[left] != rows@[right] by {
        lemma_keys_may_precede(batch, order_by, rows@[left] as int, rows@[right] as int);
    }
    assert forall|left: int, right: int|
        0 <= left < right < rows@.len() && may_precede(
            batch,
            order_by,
            #[trigger] rows@[right] as int,
            #[trigger] rows@[left] as int,
        ) implies rows@[left] < rows@[right] by {
        lemma_keys_may_precede(batch, order_by, rows@[left] as int, rows@[right] as int);
        lemma_both_may_precede(batch, order_by, rows@[left] as int, rows@[right] as int, width);
        assert(keys(rows@[left] as int) =~= keys(rows@[right] as int));
    }
    assert forall|row: usize, place: int|
        row < batch.num_rows && !#[trigger] rows@.contains(row) && 0 <= place < rows@.len()
            implies may_precede(
    batch, order_by, #[trigger] rows@[place] as int, row as int) by {
        lemma_keys_may_precede(batch, order_by, rows@[place] as int, row as int);
    }
}

proof fn lemma_both_may_precede(
    batch: RecordBatch,
    order_by: SortKey,
    left: int,
    right: int,
    count: int,
)
    requires
        may_precede(batch, order_by, left, right),
        may_precede(batch, order_by, right, left),
        0 <= count <= order_by.expressions@.len(),
    ensures
        forall|index: int|
            0 <= index < count ==> #[trigger] sort_keys(batch, order_by)(left)[index] == sort_keys(
                batch,
                order_by,
            )(right)[index],
        forall|index: int|
            0 <= index < count ==> #[trigger] sorted_at(batch, order_by, index, left) == sorted_at(
                batch,
                order_by,
                index,
                right,
            ),
    decreases count,
{
    if count > 0 {
        lemma_both_may_precede(batch, order_by, left, right, count - 1);
        let sort = order_by.expressions@[count - 1];
        assert(sorted_at(batch, order_by, count - 1, left) == sorted_at(
            batch,
            order_by,
            count - 1,
            right,
        ));
    }
}

/// A sort by buckets puts the nulls of the first column first, then the smaller values; of the
/// same value the smaller value of the second column.
pub proof fn law_bucket_sort_orders(
    batch: RecordBatch,
    order_by: SortKey,
    limit: Option<usize>,
    rows: Vec<usize>,
)
    requires
        is_bucket_sort(batch, order_by, limit, Ok(Some(rows))),
    ensures
        limit matches Some(limit) && rows@.len() == limit,
        order_by.expressions@.len() == 2,
        forall|left: int, right: int|
            0 <= left < right < rows@.len() ==> nulls_then_values(
                batch.columns@[index_named(batch, order_by.expressions@[0].column@)],
                batch.columns@[index_named(batch, order_by.expressions@[1].column@)],
                #[trigger] rows@[left] as int,
                #[trigger] rows@[right] as int,
            ) && rows@[left] != rows@[right],
{
    let first = batch.columns@[index_named(batch, order_by.expressions@[0].column@)];
    let second = batch.columns@[index_named(batch, order_by.expressions@[1].column@)];
    match first.data {
        ColumnData::Int32(vector) => {
            let keys = nulls_first_keys(vector, second);
            law_first_by_keys(keys, 3, batch.num_rows as int, rows@, limit->0 as int);
            assert forall|left: int, right: int|
                0 <= left < right < rows@.len() implies nulls_then_values(
                first,
                second,
                #[trigger] rows@[left] as int,
                #[trigger] rows@[right] as int,
            ) && rows@[left] != rows@[right] by {
                let one = keys(rows@[left] as int);
                let other = keys(rows@[right] as int);
                assert(one[0] <= other[0]);
                if one[0] == other[0] {
                    assert(one[1] <= other[1]);
                    if one[1] == other[1] {
                        assert(one[2] <= other[2]);
                    }
                }
            }
        },
        _ => {},
    }
}

/// Whether a row may stand before another where nulls of the first column come first, then the
/// smaller values, then the smaller values of the second column.
pub open spec fn nulls_then_values(
    first: ColumnArray,
    second: ColumnArray,
    left: int,
    right: int,
) -> bool {
    if first.null_at(left) != first.null_at(right) {
        first.null_at(left)
    } else if !first.null_at(left) && order_at(first, left) != order_at(first, right) {
        order_at(first, left) < order_at(first, right)
    } else {
        second.data is Int32 || second.data is Int64 ==> order_at(second, left) <= order_at(
            second,
            right,
        )
    }
}

/// Keys of a shape order as its columns do, from the first on: three columns by their values,
/// or two by nulls first, then by values.
pub proof fn law_shape_orders(
    batch: RecordBatch,
    other: RecordBatch,
    shape: StreamingTopKSortShape,
    left: int,
    right: int,
)
    requires
        fits_shape(batch, shape),
        fits_shape(other, shape),
        keys_no_later(shape_key(batch, shape, left), shape_key(other, shape, right)),
    ensures
        match shape {
            StreamingTopKSortShape::I32I64I64(first, second, third) => {
                let one = batch.columns@;
                let two = other.columns@;
                &&& order_at(one[first as int], left) <= order_at(two[first as int], right)
                &&& order_at(one[first as int], left) == order_at(two[first as int], right)
                    ==> order_at(one[second as int], left) <= order_at(two[second as int], right)
                &&& order_at(one[first as int], left) == order_at(two[first as int], right)
                    && order_at(one[second as int], left) == order_at(two[second as int], right)
                    ==> order_at(one[third as int], left) <= order_at(two[third as int], right)
            },
            StreamingTopKSortShape::NullableI32I64(first, second) => {
                let one = batch.columns@;
                let two = other.columns@;
                &&& two[first as int].null_at(right) ==> one[first as int].null_at(left)
                &&& !one[first as int].null_at(left) && !two[first as int].null_at(right)
                    ==> order_at(one[first as int], left) <= order_at(two[first as int], right)
                &&& one[first as int].null_at(left) && two[first as int].null_at(right)
                    ==> order_at(one[second as int], left) <= order_at(two[second as int], right)
                &&& !one[first as int].null_at(left) && !two[first as int].null_at(right)
                    && order_at(one[first as int], left) == order_at(two[first as int], right)
                    ==> order_at(one[second as int], left) <= order_at(two[second as int], right)
            },
        },
{
    let one = shape_key(batch, shape, left);
    let two = shape_key(other, shape, right);
    assert(one[0] <= two[0]);
    if one[0] == two[0] {
        assert(one[1] <= two[1]);
        if one[1] == two[1] {
            assert(one[2] <= two[2]);
        }
    }
}

/// The rows that a fixed sort gives are in the order of its shape.
pub proof fn law_fixed_sort_orders(
    batch: RecordBatch,
    order_by: SortKey,
    limit: int,
    shape: StreamingTopKSortShape,
    rows: Vec<usize>,
)
    requires
        is_fixed_sort(batch, order_by, limit, Ok(Some(rows))),
        crate::streaming_topk::asked_shape(batch, order_by) == Some(shape),
    ensures
        fits_shape(batch, shape),
        rows@.len() == (if batch.num_rows <= limit {
            batch.num_rows as int
        } else {
            limit
        }),
        forall|left: int, right: int|
            0 <= left < right < rows@.len() ==> keys_no_later(
                shape_key(batch, shape, #[trigger] rows@[left] as int),
                shape_key(batch, shape, #[trigger] rows@[right] as int),
            ) && rows@[left] != rows@[right],
        match shape {
            StreamingTopKSortShape::I32I64I64(first, second, third) => {
                &&& order_by.expressions@.len() == 3
                &&& batch.names@[first as int]@ == order_by.expressions@[0].column@
                &&& batch.names@[second as int]@ == order_by.expressions@[1].column@
                &&& batch.names@[third as int]@ == order_by.expressions@[2].column@
            },
            StreamingTopKSortShape::NullableI32I64(first, second) => {
                &&& order_by.expressions@.len() == 2
                &&& batch.names@[first as int]@ == order_by.expressions@[0].column@
                &&& batch.names@[second as int]@ == order_by.expressions@[1].column@
                &&& order_by.expressions@[0].nulls_first
                &&& !order_by.expressions@[1].nulls_first
            },
        },
{
    let keys = |row: int| shape_key(batch, shape, row);
    law_first_by_keys(keys, 3, batch.num_rows as int, rows@, limit);
    reveal_with_fuel(crate::streaming_topk::first_missing, 4);
    let names = crate::streaming_topk::sort_names(order_by);
    let sorts = order_by.expressions@;
    assert(batch.names.len() == batch.names@.len());
    assert(names[0] == sorts[0].column@);
    assert(names.skip(1)[0] == sorts[1].column@);
    assert(names.skip(1).skip(1) =~= names.skip(2));
    assert(has_name(batch, sorts[0].column@));
    assert(has_name(batch, sorts[1].column@));
    assert(named_at(batch, sorts[0].column@, index_named(batch, sorts[0].column@)));
    assert(named_at(batch, sorts[1].column@, index_named(batch, sorts[1].column@)));
    if sorts.len() == 3 {
        assert(names.skip(1).skip(1)[0] == sorts[2].column@);
        assert(has_name(batch, sorts[2].column@));
        assert(named_at(batch, sorts[2].column@, index_named(batch, sorts[2].column@)));
    }
}

/// A general sort goes by the columns of the order, in its order, each in its direction.
pub proof fn law_general_sort_columns(
    batch: RecordBatch,
    order_by: SortKey,
    columns: Seq<SortColumn>,
)
    requires
        is_general_sort(batch, order_by, columns),
        forall|index: int|
            0 <= index < order_by.expressions@.len() ==> has_name(
                batch,
                (#[trigger] order_by.expressions@[index]).column@,
            ),
    ensures
        columns.len() == order_by.expressions@.len(),
        forall|index: int|
            0 <= index < columns.len() ==> {
                let sort = order_by.expressions@[index];
                &&& batch.names@[(#[trigger] columns[index]).column as int]@ == sort.column@
                &&& columns[index].descending <==> sort.descending
                &&& columns[index].nulls_first <==> sort.nulls_first
            },
{
    assert forall|index: int| 0 <= index < columns.len() implies {
        let sort = order_by.expressions@[index];
        &&& batch.names@[(#[trigger] columns[index]).column as int]@ == sort.column@
        &&& columns[index].descending <==> sort.descending
        &&& columns[index].nulls_first <==> sort.nulls_first
    } by {
        let sort = order_by.expressions@[index];
        assert(has_name(batch, sort.column@));
        assert(named_at(batch, sort.column@, index_named(batch, sort.column@)));
    }
}

/// The rows that are first over all batches have keys that never get smaller, and are as many
/// as the limit allows.
pub proof fn law_first_rows(
    batches: Seq<RecordBatch>,
    keys: spec_fn(int, int) -> Seq<i128>,
    width: int,
    rows: Seq<RowPosition>,
    limit: int,
)
    requires
        first_rows(batches, keys, rows, limit),
        forall|batch: int, row: int| (#[trigger] keys(batch, row)).len() == width,
    ensures
        rows.len() == (if all_ranks(batches, keys, batches.len() as int).len() <= limit {
            all_ranks(batches, keys, batches.len() as int).len() as int
        } else {
            limit
        }),
        forall|left: int, right: int|
            0 <= left < right < rows.len() ==> keys_no_later(
                keys((#[trigger] rows[left]).batch as int, rows[left].row as int),
                keys((#[trigger] rows[right]).batch as int, rows[right].row as int),
            ),
{
    let ranks = crate::streaming_topk::row_ranks(batches, keys, rows);
    assert forall|left: int, right: int| 0 <= left < right < rows.len() implies keys_no_later(
        keys((#[trigger] rows[left]).batch as int, rows[left].row as int),
        keys((#[trigger] rows[right]).batch as int, rows[right].row as int),
    ) by {
        assert(ranks_before(ranks[left], ranks[right]));
        let one = keys(rows[left].batch as int, rows[left].row as int);
        let two = keys(rows[right].batch as int, rows[right].row as int);
        assert(ranks[left].take(width) =~= one);
        assert(ranks[right].take(width) =~= two);
        lemma_rank_keys(ranks[left], ranks[right], width);
    }
}

/// The rows that are first by one column that descends have values that never get larger.
pub proof fn law_descending_rows(
    batches: Seq<RecordBatch>,
    column: int,
    rows: Seq<RowPosition>,
    limit: int,
)
    requires
        first_rows(batches, descending_keys(batches, column), rows, limit),
        forall|batch: int|
            0 <= batch < batches.len() ==> non_null_int64(#[trigger] batches[batch], column),
    ensures
        forall|left: int, right: int|
            0 <= left < right < rows.len() && (#[trigger] rows[left]).batch < batches.len() && (
            #[trigger] rows[right]).batch < batches.len() ==> order_at(
                batches[rows[left].batch as int].columns@[column],
                rows[left].row as int,
            ) >= order_at(
                batches[rows[right].batch as int].columns@[column],
                rows[right].row as int,
            ),
{
    let keys = descending_keys(batches, column);
    law_first_rows(batches, keys, 1, rows, limit);
    assert forall|left: int, right: int|
        0 <= left < right < rows.len() && (#[trigger] rows[left]).batch < batches.len() && (
        #[trigger] rows[right]).batch < batches.len() implies order_at(
        batches[rows[left].batch as int].columns@[column],
        rows[left].row as int,
    ) >= order_at(
        batches[rows[right].batch as int].columns@[column],
        rows[right].row as int,
    ) by {
        let one = keys(rows[left].batch as int, rows[left].row as int);
        let two = keys(rows[right].batch as int, rows[right].row as int);
        assert(non_null_int64(batches[rows[left].batch as int], column));
        assert(non_null_int64(batches[rows[right].batch as int], column));
        assert(one[0] <= two[0]);
    }
}

/// A batch that is found to be in order has a column without nulls whose values never get
/// smaller from one row to the next: integers and days by their size, texts by theirs.
pub proof fn law_batch_in_order(batch: RecordBatch, order_by: SortKey, row: int)
    requires
        is_batch_order(batch, order_by, Ok(true)),
        1 <= row < sort_column(batch, order_by).rows(),
    ensures
        order_by.expressions@.len() == 1,
        !order_by.expressions@[0].descending,
        !sort_column(batch, order_by).null_at(row),
        !sort_column(batch, order_by).null_at(row - 1),
        match sort_column(batch, order_by).data {
            ColumnData::Int32(vector) => vector.values@[row - 1] <= vector.values@[row],
            ColumnData::Date32(vector) => vector.values@[row - 1] <= vector.values@[row],
            ColumnData::Int64(vector) => vector.values@[row - 1] <= vector.values@[row],
            ColumnData::Utf8(vector) => !comes_before(
                vector.values@[row]@,
                vector.values@[row - 1]@,
            ),
            _ => false,
        },
{
    let column = sort_column(batch, order_by);
    assert(!value_at(column, row).precedes(value_at(column, row - 1)));
}

} // verus!
