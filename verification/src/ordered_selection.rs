//! Selected rows of a batch, last row first, as finished columns.

use vstd::prelude::*;
use crate::columns::{BatchView, ColumnData, Vector};
use crate::primitive_buffers::{
    column_cells_at, gather_null_free_primitive_column, gathered, i32_cells, i64_cells,
    is_empty_batch, is_finished_column, primitive_empty_batch, primitive_output_batch_from_columns,
    push_null_free_primitive_row, DirectPrimitiveColumnType, PrimitiveBatch, PrimitiveColumnOutput,
    PrimitiveWidth,
};
use crate::primitive_selection::{
    lemma_descending_is_reversed, lemma_positions_ascending, lemma_positions_descending_agree,
    positions_ascending, positions_descending, primitive_filter_i32_positions_desc,
    primitive_filter_i64_positions_desc, small_i32_filter_values_contains,
    small_i64_filter_values_contains, NullFreePrimitiveColumn, PrimitiveFilterValues,
};

verus! {

/// The width of a plain integer column of a view.
pub open spec fn stored_width(data: Option<ColumnData>) -> Option<PrimitiveWidth> {
    match data {
        Some(ColumnData::Int32(_)) => Some(PrimitiveWidth::I32),
        Some(ColumnData::Int64(_)) => Some(PrimitiveWidth::I64),
        _ => None,
    }
}

/// The stored integers of a plain integer column of a view.
pub open spec fn stored_cells(data: Option<ColumnData>) -> Seq<int> {
    match data {
        Some(ColumnData::Int32(vector)) => i32_cells(vector.values@),
        Some(ColumnData::Int64(vector)) => i64_cells(vector.values@),
        _ => Seq::empty(),
    }
}

/// Whether a row of a plain integer column of a view holds a value.
pub open spec fn stored_valid(data: Option<ColumnData>, row: int) -> bool {
    match data {
        Some(ColumnData::Int32(vector)) => vector.valid_at(row),
        Some(ColumnData::Int64(vector)) => vector.valid_at(row),
        _ => false,
    }
}

/// Whether a row holds one of the wanted values.
pub open spec fn row_wanted(
    data: Option<ColumnData>,
    filter: PrimitiveFilterValues,
    row: int,
) -> bool {
    match (data, filter) {
        (Some(ColumnData::Int32(vector)), PrimitiveFilterValues::I32(wanted)) => vector.valid_at(
            row,
        ) && wanted@.contains(vector.values@[row]),
        (Some(ColumnData::Int64(vector)), PrimitiveFilterValues::I64(wanted)) => vector.valid_at(
            row,
        ) && wanted@.contains(vector.values@[row]),
        _ => false,
    }
}

/// The width of the filter values.
pub open spec fn filter_width(filter: PrimitiveFilterValues) -> PrimitiveWidth {
    match filter {
        PrimitiveFilterValues::I32(_) => PrimitiveWidth::I32,
        PrimitiveFilterValues::I64(_) => PrimitiveWidth::I64,
    }
}

/// The rows of a view that hold a wanted value, last row first.
pub open spec fn wanted_positions(
    view: BatchView,
    filter_index: int,
    filter: PrimitiveFilterValues,
) -> Seq<usize> {
    positions_descending(
        0,
        view.batch.num_rows as int,
        |row: int| row_wanted(view.column(filter_index), filter, row),
    )
}

/// Whether the filter column, its declared type and the filter values are of one
/// width.
pub open spec fn filter_readable(
    view: BatchView,
    column_types: Seq<DirectPrimitiveColumnType>,
    filter_index: int,
    filter: PrimitiveFilterValues,
) -> bool {
    &&& column_types[filter_index].plain_width() == Some(filter_width(filter))
    &&& stored_width(view.column(filter_index)) == Some(filter_width(filter))
}

/// Whether the column at `index` is a plain integer column of its declared type
/// that holds a value at each of the positions.
pub open spec fn column_readable(
    view: BatchView,
    column_types: Seq<DirectPrimitiveColumnType>,
    index: int,
    positions: Seq<usize>,
) -> bool {
    &&& column_types[index].plain_width() is Some
    &&& stored_width(view.column(index)) == column_types[index].plain_width()
    &&& forall|position: int|
        0 <= position < positions.len() ==> stored_valid(
            view.column(index),
            #[trigger] positions[position] as int,
        )
}

/// The stored integers of a column at the positions.
pub open spec fn stored_cells_at(data: Option<ColumnData>, positions: Seq<usize>) -> Seq<int> {
    Seq::new(positions.len(), |index: int| stored_cells(data)[positions[index] as int])
}

/// The selected rows as a batch: the rows that hold a wanted value, last row
/// first, of every column; or nothing where a column cannot be read.
pub open spec fn is_ordered_selection(
    view: BatchView,
    column_names: Seq<String>,
    column_types: Seq<DirectPrimitiveColumnType>,
    filter_index: int,
    filter: PrimitiveFilterValues,
    result: Option<PrimitiveBatch>,
) -> bool {
    let positions = wanted_positions(view, filter_index, filter);
    if !filter_readable(view, column_types, filter_index, filter) {
        result.is_none()
    } else if positions.len() == 0 {
        result matches Some(batch) && is_empty_batch(batch, column_names, column_types)
    } else if forall|index: int|
        0 <= index < column_types.len() ==> #[trigger] column_readable(
            view,
            column_types,
            index,
            positions,
        ) {
        result matches Some(batch) && has_selected_columns(
            batch,
            view,
            column_names,
            column_types,
            positions,
        )
    } else {
        result.is_none()
    }
}

/// Whether a batch holds the given rows of every column, under the given names.
pub open spec fn has_selected_columns(
    batch: PrimitiveBatch,
    view: BatchView,
    column_names: Seq<String>,
    column_types: Seq<DirectPrimitiveColumnType>,
    positions: Seq<usize>,
) -> bool {
    &&& batch.columns@.len() == (if column_names.len() <= column_types.len() {
        column_names.len()
    } else {
        column_types.len()
    })
    &&& forall|index: int|
        0 <= index < batch.columns@.len() ==> is_finished_column(
            #[trigger] batch.columns@[index],
            column_names[index]@,
            column_types[index],
            column_types[index].buffer_width(),
            stored_cells_at(view.column(index), positions),
        )
}

/// Whether every column is a null-free plain integer column of its declared type
/// and the filter values are of the filter column's type.
pub open spec fn null_free_readable(
    view: BatchView,
    column_types: Seq<DirectPrimitiveColumnType>,
    filter_index: int,
    filter: PrimitiveFilterValues,
) -> bool {
    &&& filter_index < column_types.len()
    &&& forall|index: int|
        0 <= index < column_types.len() ==> #[trigger] null_free_column(view, column_types, index)
    &&& column_types[filter_index].plain_width() == Some(filter_width(filter))
}

/// Whether the column at `index` is a null-free plain integer column of its
/// declared type.
pub open spec fn null_free_column(
    view: BatchView,
    column_types: Seq<DirectPrimitiveColumnType>,
    index: int,
) -> bool {
    &&& column_types[index].plain_width() is Some
    &&& stored_width(view.column(index)) == column_types[index].plain_width()
    &&& forall|row: int|
        0 <= row < view.batch.num_rows ==> #[trigger] stored_valid(view.column(index), row)
}

/// Whether a borrowed column holds exactly the stored integers.
spec fn borrows(column: NullFreePrimitiveColumn, data: Option<ColumnData>) -> bool {
    &&& stored_width(data) == Some(column.width())
    &&& column.rows() == stored_cells(data).len()
    &&& forall|row: int|
        0 <= row < column.rows() ==> #[trigger] column.key(row) == stored_cells(data)[row]
}

/// The values of the column at `index`, where it is null-free and of its type.
fn null_free_values<'a>(
    view: &'a BatchView,
    column_type: &DirectPrimitiveColumnType,
    index: usize,
) -> (column: Option<NullFreePrimitiveColumn<'a>>)
    requires
        view.well_formed(),
    ensures
        column.is_some() <==> {
            &&& column_type.plain_width() is Some
            &&& stored_width(view.column(index as int)) == column_type.plain_width()
            &&& forall|row: int|
                0 <= row < view.batch.num_rows ==> #[trigger] stored_valid(
                    view.column(index as int),
                    row,
                )
        },
        column matches Some(column) ==> borrows(column, view.column(index as int)) && column.rows()
            == view.batch.num_rows && column_type.plain_width() == Some(column.width()),
{
    let ghost data = view.column(index as int);
    match column_type {
        DirectPrimitiveColumnType::I32 => match view.i32_vector(index) {
            Some(vector) => match vector.values_if_null_free() {
                Some(values) => {
                    assert forall|row: int| 0 <= row < view.batch.num_rows implies #[trigger] stored_valid(
                        data,
                        row,
                    ) by {
                        assert(vector.valid_at(row));
                    }
                    Some(NullFreePrimitiveColumn::I32(values.as_slice()))
                },
                None => {
                    proof {
                        let row = choose|row: int|
                            0 <= row < vector.values@.len() && !vector.valid_at(row);
                        assert(!stored_valid(data, row));
                    }
                    None
                },
            },
            None => None,
        },
        DirectPrimitiveColumnType::I64 => match view.i64_vector(index) {
            Some(vector) => match vector.values_if_null_free() {
                Some(values) => {
                    assert forall|row: int| 0 <= row < view.batch.num_rows implies #[trigger] stored_valid(
                        data,
                        row,
                    ) by {
                        assert(vector.valid_at(row));
                    }
                    Some(NullFreePrimitiveColumn::I64(values.as_slice()))
                },
                None => {
                    proof {
                        let row = choose|row: int|
                            0 <= row < vector.values@.len() && !vector.valid_at(row);
                        assert(!stored_valid(data, row));
                    }
                    None
                },
            },
            None => None,
        },
        _ => None,
    }
}

/// Positions found going down lie below the end.
proof fn lemma_descending_in_range(end: int, matching: spec_fn(int) -> bool)
    requires
        0 <= end <= usize::MAX,
    ensures
        forall|index: int|
            0 <= index < positions_descending(0, end, matching).len() ==> {
                let row = #[trigger] positions_descending(0, end, matching)[index];
                row < end && matching(row as int)
            },
{
    lemma_descending_is_reversed(end, matching);
    lemma_positions_ascending(end, matching);
    let up = positions_ascending(end, matching);
    assert forall|index: int| 0 <= index < up.reverse().len() implies {
        let row = #[trigger] up.reverse()[index];
        row < end && matching(row as int)
    } by {
        assert(up.reverse()[index] == up[up.len() - 1 - index]);
    }
}

/// The selected rows of null-free columns, last row first.
///
/// `None` where a column has nulls or is not a plain integer column.
pub fn primitive_ordered_selected_batch_null_free_fast(
    view: &BatchView,
    column_names: &[String],
    column_types: &[DirectPrimitiveColumnType],
    filter_index: usize,
    filter_values: &PrimitiveFilterValues,
) -> (result: Option<PrimitiveBatch>)
    requires
        view.well_formed(),
    ensures
        result.is_some() == null_free_readable(
            *view,
            column_types@,
            filter_index as int,
            *filter_values,
        ),
        result.is_some() ==> is_ordered_selection(
            *view,
            column_names@,
            column_types@,
            filter_index as int,
            *filter_values,
            result,
        ),
{
    if filter_index >= column_types.len() {
        return None;
    }
    let row_count: usize = view.num_rows();
    let mut columns: Vec<NullFreePrimitiveColumn<'_>> = Vec::new();
    let mut output: Vec<PrimitiveColumnOutput> = Vec::new();
    let mut index: usize = 0;
    while index < column_types.len()
        invariant
            view.well_formed(),
            row_count == view.batch.num_rows,
            index <= column_types@.len(),
            columns@.len() == index,
            output@.len() == index,
            forall|done: int|
                0 <= done < index ==> #[trigger] null_free_column(*view, column_types@, done),
            forall|done: int|
                0 <= done < index ==> borrows(#[trigger] columns@[done], view.column(done))
                    && columns@[done].rows() == row_count && column_types@[done].plain_width()
                    == Some(columns@[done].width()),
            forall|done: int|
                0 <= done < index ==> (#[trigger] output@[done]).width() == columns@[done].width()
                    && output@[done].cells() == Seq::<int>::empty(),
        decreases column_types@.len() - index,
    {
        match null_free_values(view, &column_types[index], index) {
            Some(column) => {
                columns.push(column);
                let buffer = match column {
                    NullFreePrimitiveColumn::I32(_) => PrimitiveColumnOutput::I32(Vec::new()),
                    NullFreePrimitiveColumn::I64(_) => PrimitiveColumnOutput::I64(Vec::new()),
                };
                assert(buffer.cells() =~= Seq::<int>::empty());
                output.push(buffer);
            },
            None => {
                assert(!null_free_column(*view, column_types@, index as int));
                return None;
            },
        }
        index += 1;
    }
    let ghost end = row_count as int;
    let ghost wanted = |row: int|
        row_wanted(view.column(filter_index as int), *filter_values, row);
    assert(null_free_column(*view, column_types@, filter_index as int));
    assert forall|row: int| 0 <= row < end implies stored_valid(
        view.column(filter_index as int),
        row,
    ) by {}
    let mut selected: Vec<usize> = Vec::new();
    let ghost filter_column = columns@[filter_index as int];
    assert(borrows(filter_column, view.column(filter_index as int)));
    match (filter_values, columns[filter_index]) {
        (PrimitiveFilterValues::I32(values), NullFreePrimitiveColumn::I32(column)) => {
            primitive_filter_i32_positions_desc(column, values.as_slice(), &mut selected);
            proof {
                assert forall|row: int| 0 <= row < end implies values@.contains(#[trigger] column@[row])
                    == wanted(row) by {
                    assert(filter_column.key(row) == stored_cells(view.column(filter_index as int))[row]);
                    assert(stored_valid(view.column(filter_index as int), row));
                    assert(view.column(filter_index as int) matches Some(ColumnData::Int32(vector))
                        && vector.valid_at(row) && vector.values@[row] == column@[row]);
                }
                lemma_positions_descending_agree(
                    0,
                    end,
                    |row: int| values@.contains(column@[row]),
                    wanted,
                );
            }
        },
        (PrimitiveFilterValues::I64(values), NullFreePrimitiveColumn::I64(column)) => {
            primitive_filter_i64_positions_desc(column, values.as_slice(), &mut selected);
            proof {
                assert forall|row: int| 0 <= row < end implies values@.contains(#[trigger] column@[row])
                    == wanted(row) by {
                    assert(filter_column.key(row) == stored_cells(view.column(filter_index as int))[row]);
                    assert(stored_valid(view.column(filter_index as int), row));
                    assert(view.column(filter_index as int) matches Some(ColumnData::Int64(vector))
                        && vector.valid_at(row) && vector.values@[row] == column@[row]);
                }
                lemma_positions_descending_agree(
                    0,
                    end,
                    |row: int| values@.contains(column@[row]),
                    wanted,
                );
            }
        },
        _ => {
            return None;
        },
    }
    let ghost positions = wanted_positions(*view, filter_index as int, *filter_values);
    assert(selected@ =~= positions);
    proof {
        lemma_descending_in_range(end, wanted);
    }
    if selected.len() == 0 {
        return Some(primitive_empty_batch(column_names, column_types));
    }
    if selected.len() >= row_count / 2 + row_count % 2 {
        index = 0;
        while index < columns.len()
            invariant
                index <= columns@.len(),
                columns@.len() == column_types@.len(),
                output@.len() == columns@.len(),
                selected@ == positions,
                forall|position: int|
                    0 <= position < positions.len() ==> #[trigger] positions[position] < row_count,
                forall|done: int|
                    0 <= done < columns@.len() ==> (#[trigger] columns@[done]).rows() == row_count,
                forall|done: int|
                    0 <= done < columns@.len() ==> (#[trigger] output@[done]).width()
                        == columns@[done].width(),
                forall|done: int|
                    0 <= done < index ==> (#[trigger] output@[done]).cells() == column_cells_at(
                        columns@[done],
                        positions,
                    ),
                forall|later: int|
                    index <= later < columns@.len() ==> (#[trigger] output@[later]).cells() == Seq::<
                        int,
                    >::empty(),
            decreases columns@.len() - index,
        {
            let ghost before = output@;
            assert(output@[index as int].width() == columns@[index as int].width());
            let gathered = gather_null_free_primitive_column(
                &columns[index],
                selected.as_slice(),
                &mut output[index],
            );
            assert(gathered is Ok);
            assert(output@[index as int].cells() =~= column_cells_at(
                columns@[index as int],
                positions,
            ));
            assert(forall|other: int|
                0 <= other < columns@.len() && other != index ==> #[trigger] output@[other]
                    == before[other]);
            index += 1;
        }
    } else {
        let mut taken: usize = 0;
        assert(forall|done: int|
            0 <= done < columns@.len() ==> (#[trigger] output@[done]).cells() =~= column_cells_at(
                columns@[done],
                positions.take(0),
            ));
        while taken < selected.len()
            invariant
                taken <= selected@.len(),
                columns@.len() == column_types@.len(),
                output@.len() == columns@.len(),
                selected@ == positions,
                forall|position: int|
                    0 <= position < positions.len() ==> #[trigger] positions[position] < row_count,
                forall|done: int|
                    0 <= done < columns@.len() ==> (#[trigger] columns@[done]).rows() == row_count,
                forall|done: int|
                    0 <= done < columns@.len() ==> (#[trigger] output@[done]).width()
                        == columns@[done].width(),
                forall|done: int|
                    0 <= done < columns@.len() ==> (#[trigger] output@[done]).cells()
                        == column_cells_at(columns@[done], positions.take(taken as int)),
            decreases selected@.len() - taken,
        {
            assert(forall|done: int|
                0 <= done < columns@.len() ==> (#[trigger] columns@[done]).width()
                    == output@[done].width());
            let pushed = push_null_free_primitive_row(
                columns.as_slice(),
                &mut output,
                selected[taken],
            );
            assert(pushed is Ok);
            assert forall|done: int| 0 <= done < columns@.len() implies (
            #[trigger] output@[done]).cells() == column_cells_at(
                columns@[done],
                positions.take(taken + 1),
            ) by {
                assert(output@[done].cells() =~= column_cells_at(
                    columns@[done],
                    positions.take(taken + 1),
                ));
            }
            taken += 1;
        }
        assert(positions.take(taken as int) =~= positions);
    }
    proof {
        assert forall|column: int| 0 <= column < column_types@.len() implies #[trigger] column_readable(
            *view,
            column_types@,
            column,
            positions,
        ) by {
            assert(null_free_column(*view, column_types@, column));
        }
        assert forall|column: int| 0 <= column < column_types@.len() implies (
        #[trigger] output@[column]).cells() == stored_cells_at(view.column(column), positions) by {
            assert(borrows(columns@[column], view.column(column)));
            assert(output@[column].cells() =~= stored_cells_at(view.column(column), positions));
        }
    }
    let batch = primitive_output_batch_from_columns(output, column_names, column_types);
    Some(batch)
}

/// The rows of a nullable 32-bit column that hold a wanted value, last row first.
fn wanted_i32_rows(column: &Vector<i32>, wanted: &[i32]) -> (selected: Vec<usize>)
    requires
        column.well_formed(),
    ensures
        selected@ == positions_descending(
            0,
            column@.len() as int,
            |row: int| column.valid_at(row) && wanted@.contains(column.values@[row]),
        ),
{
    let ghost end = column@.len() as int;
    let ghost matching = |row: int| column.valid_at(row) && wanted@.contains(column.values@[row]);
    let mut selected: Vec<usize> = Vec::new();
    let mut row: usize = column.len();
    while row > 0
        invariant
            column.well_formed(),
            end == column@.len(),
            row <= end,
            matching == (|row: int|
                column.valid_at(row) && wanted@.contains(column.values@[row])),
            selected@ == positions_descending(row as int, end, matching),
        decreases row,
    {
        row -= 1;
        if !column.is_null(row) && small_i32_filter_values_contains(wanted, column.value(row)) {
            selected.push(row);
        }
    }
    selected
}

/// The rows of a nullable 64-bit column that hold a wanted value, last row first.
fn wanted_i64_rows(column: &Vector<i64>, wanted: &[i64]) -> (selected: Vec<usize>)
    requires
        column.well_formed(),
    ensures
        selected@ == positions_descending(
            0,
            column@.len() as int,
            |row: int| column.valid_at(row) && wanted@.contains(column.values@[row]),
        ),
{
    let ghost end = column@.len() as int;
    let ghost matching = |row: int| column.valid_at(row) && wanted@.contains(column.values@[row]);
    let mut selected: Vec<usize> = Vec::new();
    let mut row: usize = column.len();
    while row > 0
        invariant
            column.well_formed(),
            end == column@.len(),
            row <= end,
            matching == (|row: int|
                column.valid_at(row) && wanted@.contains(column.values@[row])),
            selected@ == positions_descending(row as int, end, matching),
        decreases row,
    {
        row -= 1;
        if !column.is_null(row) && small_i64_filter_values_contains(wanted, column.value(row)) {
            selected.push(row);
        }
    }
    selected
}

/// The rows of a nullable column at the positions, `None` where one is null.
fn values_at<T: Copy>(column: &Vector<T>, positions: &[usize]) -> (values: Option<Vec<T>>)
    requires
        column.well_formed(),
        forall|index: int| 0 <= index < positions@.len() ==> positions@[index] < column@.len(),
    ensures
        values.is_some() <==> forall|index: int|
            0 <= index < positions@.len() ==> column.valid_at(#[trigger] positions@[index] as int),
        values matches Some(values) ==> values@ == gathered(column.values@, positions@),
{
    let mut values: Vec<T> = Vec::new();
    let mut index: usize = 0;
    while index < positions.len()
        invariant
            column.well_formed(),
            forall|position: int|
                0 <= position < positions@.len() ==> positions@[position] < column@.len(),
            index <= positions@.len(),
            forall|earlier: int|
                0 <= earlier < index ==> column.valid_at(#[trigger] positions@[earlier] as int),
            values@.len() == index,
            forall|earlier: int|
                0 <= earlier < index ==> values@[earlier]
                    == column.values@[#[trigger] positions@[earlier] as int],
        decreases positions@.len() - index,
    {
        let row: usize = positions[index];
        if column.is_null(row) {
            return None;
        }
        values.push(column.value(row));
        index += 1;
    }
    assert(values@ =~= gathered(column.values@, positions@));
    Some(values)
}

/// The selected rows of a batch, last row first.
///
/// Null-free columns are read as a whole. Others are read row by row where
/// `row_at_time_fallback` allows it; without it there is no result for them.
pub fn primitive_ordered_selected_batch(
    view: &BatchView,
    column_names: &[String],
    column_types: &[DirectPrimitiveColumnType],
    filter_index: usize,
    filter_values: &PrimitiveFilterValues,
    row_at_time_fallback: bool,
) -> (result: Option<PrimitiveBatch>)
    requires
        view.well_formed(),
        row_at_time_fallback ==> filter_index < column_types@.len(),
        row_at_time_fallback ==> column_names@.len() >= column_types@.len(),
    ensures
        if row_at_time_fallback || null_free_readable(
            *view,
            column_types@,
            filter_index as int,
            *filter_values,
        ) {
            is_ordered_selection(
                *view,
                column_names@,
                column_types@,
                filter_index as int,
                *filter_values,
                result,
            )
        } else {
            result.is_none()
        },
{
    let fast = primitive_ordered_selected_batch_null_free_fast(
        view,
        column_names,
        column_types,
        filter_index,
        filter_values,
    );
    if fast.is_some() {
        return fast;
    }
    if !row_at_time_fallback {
        return None;
    }
    let ghost end = view.batch.num_rows as int;
    let ghost data = view.column(filter_index as int);
    let ghost wanted = |row: int| row_wanted(data, *filter_values, row);
    let ghost positions = wanted_positions(*view, filter_index as int, *filter_values);
    let selected: Vec<usize>;
    match (filter_values, &column_types[filter_index]) {
        (PrimitiveFilterValues::I32(values), DirectPrimitiveColumnType::I32) => {
            match view.i32_vector(filter_index) {
                Some(column) => {
                    selected = wanted_i32_rows(column, values.as_slice());
                    proof {
                        lemma_positions_descending_agree(
                            0,
                            end,
                            |row: int|
                                column.valid_at(row) && values@.contains(column.values@[row]),
                            wanted,
                        );
                    }
                },
                None => {
                    return None;
                },
            }
        },
        (PrimitiveFilterValues::I64(values), DirectPrimitiveColumnType::I64) => {
            match view.i64_vector(filter_index) {
                Some(column) => {
                    selected = wanted_i64_rows(column, values.as_slice());
                    proof {
                        lemma_positions_descending_agree(
                            0,
                            end,
                            |row: int|
                                column.valid_at(row) && values@.contains(column.values@[row]),
                            wanted,
                        );
                    }
                },
                None => {
                    return None;
                },
            }
        },
        _ => {
            return None;
        },
    }
    assert(selected@ =~= positions);
    proof {
        lemma_descending_in_range(end, wanted);
    }
    if selected.len() == 0 {
        return Some(primitive_empty_batch(column_names, column_types));
    }
    let mut output: Vec<PrimitiveColumnOutput> = Vec::new();
    let mut index: usize = 0;
    while index < column_types.len()
        invariant
            view.well_formed(),
            index <= column_types@.len(),
            output@.len() == index,
            selected@ == positions,
            positions.len() > 0,
            positions == wanted_positions(*view, filter_index as int, *filter_values),
            filter_readable(*view, column_types@, filter_index as int, *filter_values),
            forall|position: int|
                0 <= position < positions.len() ==> #[trigger] positions[position]
                    < view.batch.num_rows,
            forall|done: int|
                0 <= done < index ==> #[trigger] column_readable(
                    *view,
                    column_types@,
                    done,
                    positions,
                ),
            forall|done: int|
                0 <= done < index ==> (#[trigger] output@[done]).width()
                    == column_types@[done].buffer_width() && output@[done].cells()
                    == stored_cells_at(view.column(done), positions),
        decreases column_types@.len() - index,
    {
        let ghost stored = view.column(index as int);
        let mut buffer: Option<PrimitiveColumnOutput> = None;
        match &column_types[index] {
            DirectPrimitiveColumnType::I32 => match view.i32_vector(index) {
                Some(column) => match values_at(column, selected.as_slice()) {
                    Some(values) => {
                        assert(i32_cells(values@) =~= stored_cells_at(stored, positions));
                        buffer = Some(PrimitiveColumnOutput::I32(values));
                    },
                    None => {},
                },
                None => {},
            },
            DirectPrimitiveColumnType::I64 => match view.i64_vector(index) {
                Some(column) => match values_at(column, selected.as_slice()) {
                    Some(values) => {
                        assert(i64_cells(values@) =~= stored_cells_at(stored, positions));
                        buffer = Some(PrimitiveColumnOutput::I64(values));
                    },
                    None => {},
                },
                None => {},
            },
            _ => {},
        }
        match buffer {
            Some(buffer) => {
                assert(column_readable(*view, column_types@, index as int, positions));
                output.push(buffer);
            },
            None => {
                assert(!column_readable(*view, column_types@, index as int, positions));
                return None;
            },
        }
        index += 1;
    }
    Some(primitive_output_batch_from_columns(output, column_names, column_types))
}

/// Where a batch starts within a file.
#[derive(Clone, Copy)]
pub struct DirectPrimitiveBatchLocation {
    pub row_group: usize,
    pub row_offset: usize,
}

/// A number that orders batches by row group, then by row offset.
pub fn primitive_topk_sequence_base(location: DirectPrimitiveBatchLocation) -> (base: Option<u64>)
    ensures
        base == Some(((location.row_group as u64) << 32) | location.row_offset as u64),
{
    let row_group: u64 = location.row_group as u64;
    let row_offset: u64 = location.row_offset as u64;
    Some((row_group << 32) | row_offset)
}

/// Batches keep their order: an earlier row group comes first, and within a row
/// group the smaller offset, as long as both fit in 32 bits.
pub proof fn law_sequence_base_orders(
    left: DirectPrimitiveBatchLocation,
    right: DirectPrimitiveBatchLocation,
)
    requires
        left.row_group <= u32::MAX,
        left.row_offset <= u32::MAX,
        right.row_group <= u32::MAX,
        right.row_offset <= u32::MAX,
    ensures
        (((left.row_group as u64) << 32) | left.row_offset as u64) < (((right.row_group as u64)
            << 32) | right.row_offset as u64) <==> (left.row_group < right.row_group || (
        left.row_group == right.row_group && left.row_offset < right.row_offset)),
{
    let a = left.row_group as u64;
    let b = left.row_offset as u64;
    let c = right.row_group as u64;
    let d = right.row_offset as u64;
    assert(((a << 32) | b) < ((c << 32) | d) <==> (a < c || (a == c && b < d))) by (bit_vector)
        requires
            a <= 0xffff_ffffu64,
            b <= 0xffff_ffffu64,
            c <= 0xffff_ffffu64,
            d <= 0xffff_ffffu64,
    ;
}

} // verus!
