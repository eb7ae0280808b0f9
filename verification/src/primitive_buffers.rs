//! Buffers that hold the selected rows of primitive columns.

use vstd::prelude::*;
use crate::error::{fails_unsupported, SqlError, SqlResult};
use crate::primitive_selection::NullFreePrimitiveColumn;

verus! {

/// How a column is stored on disk when it is read directly.
#[derive(Clone, Copy, Debug, PartialEq, Eq, Structural)]
pub enum DirectPrimitiveColumnType {
    I32,
    I64,
    Date32,
    Decimal128Int64 { precision: u8, scale: i8 },
    Decimal128Int64Raw { precision: u8, scale: i8 },
}

/// The logical type of an output column.
#[derive(Clone, Copy, Debug, PartialEq, Eq, Structural)]
pub enum DataType {
    Int32,
    Int64,
    Date32,
    Decimal128(u8, i8),
}

/// The width of the integers in a buffer.
#[derive(Clone, Copy, Debug, PartialEq, Eq, Structural)]
pub enum PrimitiveWidth {
    I32,
    I64,
}

/// The values of a finished column.
pub enum PrimitiveColumnValues {
    I32(Vec<i32>),
    I64(Vec<i64>),
}

/// A column under construction.
pub enum PrimitiveColumnOutput {
    I32(Vec<i32>),
    I64(Vec<i64>),
}

/// A finished column with its name and type.
pub struct PrimitiveColumn {
    pub name: String,
    pub data_type: DataType,
    pub nullable: bool,
    pub values: PrimitiveColumnValues,
}

/// Finished columns.
pub struct PrimitiveBatch {
    pub columns: Vec<PrimitiveColumn>,
}

/// A column of a direct ordered scan.
pub enum DirectOrderedPrimitiveColumnValues {
    I32(Vec<i32>),
    I64(Vec<i64>),
}

/// The columns of a direct ordered scan.
pub struct DirectOrderedPrimitiveBatch {
    pub columns: Vec<DirectOrderedPrimitiveColumnValues>,
}

/// A page of selected rows as it lies in the file.
pub enum DirectSelectedPrimitiveColumnPageView {
    I32Plain(Vec<i32>),
    I32Dictionary { dictionary: Vec<i32>, indices: Vec<u32> },
    I64Plain(Vec<i64>),
}

/// The integers of a 32-bit buffer.
pub open spec fn i32_cells(values: Seq<i32>) -> Seq<int> {
    values.map_values(|value: i32| value as int)
}

/// The integers of a 64-bit buffer.
pub open spec fn i64_cells(values: Seq<i64>) -> Seq<int> {
    values.map_values(|value: i64| value as int)
}

impl PrimitiveColumnValues {
    /// The width of the integers.
    pub open spec fn width(self) -> PrimitiveWidth {
        match self {
            PrimitiveColumnValues::I32(_) => PrimitiveWidth::I32,
            PrimitiveColumnValues::I64(_) => PrimitiveWidth::I64,
        }
    }

    /// The integers, row by row.
    pub open spec fn cells(self) -> Seq<int> {
        match self {
            PrimitiveColumnValues::I32(values) => i32_cells(values@),
            PrimitiveColumnValues::I64(values) => i64_cells(values@),
        }
    }
}

impl PrimitiveColumnOutput {
    /// The width of the integers.
    pub open spec fn width(self) -> PrimitiveWidth {
        match self {
            PrimitiveColumnOutput::I32(_) => PrimitiveWidth::I32,
            PrimitiveColumnOutput::I64(_) => PrimitiveWidth::I64,
        }
    }

    /// The integers, row by row.
    pub open spec fn cells(self) -> Seq<int> {
        match self {
            PrimitiveColumnOutput::I32(values) => i32_cells(values@),
            PrimitiveColumnOutput::I64(values) => i64_cells(values@),
        }
    }
}

impl DirectOrderedPrimitiveColumnValues {
    /// The width of the integers.
    pub open spec fn width(self) -> PrimitiveWidth {
        match self {
            DirectOrderedPrimitiveColumnValues::I32(_) => PrimitiveWidth::I32,
            DirectOrderedPrimitiveColumnValues::I64(_) => PrimitiveWidth::I64,
        }
    }

    /// The integers, row by row.
    pub open spec fn cells(self) -> Seq<int> {
        match self {
            DirectOrderedPrimitiveColumnValues::I32(values) => i32_cells(values@),
            DirectOrderedPrimitiveColumnValues::I64(values) => i64_cells(values@),
        }
    }
}

impl<'a> NullFreePrimitiveColumn<'a> {
    /// The width of the integers.
    pub open spec fn width(self) -> PrimitiveWidth {
        match self {
            NullFreePrimitiveColumn::I32(_) => PrimitiveWidth::I32,
            NullFreePrimitiveColumn::I64(_) => PrimitiveWidth::I64,
        }
    }
}

impl DirectPrimitiveColumnType {
    /// The width of a plain integer column, `None` for dates and decimals.
    pub open spec fn plain_width(self) -> Option<PrimitiveWidth> {
        match self {
            DirectPrimitiveColumnType::I32 => Some(PrimitiveWidth::I32),
            DirectPrimitiveColumnType::I64 => Some(PrimitiveWidth::I64),
            _ => None,
        }
    }

    /// The width of the buffer that holds a column of this type.
    pub open spec fn buffer_width(self) -> PrimitiveWidth {
        match self {
            DirectPrimitiveColumnType::I32 | DirectPrimitiveColumnType::Date32 => PrimitiveWidth::I32,
            _ => PrimitiveWidth::I64,
        }
    }

    /// The logical type of a column of this type.
    pub open spec fn data_type(self) -> DataType {
        match self {
            DirectPrimitiveColumnType::I32 => DataType::Int32,
            DirectPrimitiveColumnType::I64 => DataType::Int64,
            DirectPrimitiveColumnType::Date32 => DataType::Date32,
            DirectPrimitiveColumnType::Decimal128Int64 { precision, scale } => DataType::Decimal128(
                precision,
                scale,
            ),
            DirectPrimitiveColumnType::Decimal128Int64Raw { precision, scale } => DataType::Decimal128(
                precision,
                scale,
            ),
        }
    }
}

impl DirectSelectedPrimitiveColumnPageView {
    /// The width of the integers.
    pub open spec fn width(self) -> PrimitiveWidth {
        match self {
            DirectSelectedPrimitiveColumnPageView::I64Plain(_) => PrimitiveWidth::I64,
            _ => PrimitiveWidth::I32,
        }
    }

    /// The value of a row, `None` where the page has no such row.
    pub open spec fn cell(self, row: int) -> Option<int> {
        match self {
            DirectSelectedPrimitiveColumnPageView::I32Plain(values) => if 0 <= row
                < values@.len() {
                Some(values@[row] as int)
            } else {
                None
            },
            DirectSelectedPrimitiveColumnPageView::I32Dictionary { dictionary, indices } => if 0
                <= row < indices@.len() && indices@[row] < dictionary@.len() {
                Some(dictionary@[indices@[row] as int] as int)
            } else {
                None
            },
            DirectSelectedPrimitiveColumnPageView::I64Plain(values) => if 0 <= row
                < values@.len() {
                Some(values@[row] as int)
            } else {
                None
            },
        }
    }

    /// The 32-bit value of a row.
    pub fn value_i32(&self, row: usize) -> (value: Option<i32>)
        ensures
            self.width() == PrimitiveWidth::I32 ==> (match self.cell(row as int) {
                Some(cell) => value matches Some(value) && value == cell,
                None => value.is_none(),
            }),
            self.width() == PrimitiveWidth::I64 ==> value.is_none(),
    {
        match self {
            DirectSelectedPrimitiveColumnPageView::I32Plain(values) => {
                if row < values.len() {
                    Some(values[row])
                } else {
                    None
                }
            },
            DirectSelectedPrimitiveColumnPageView::I32Dictionary { dictionary, indices } => {
                if row < indices.len() {
                    let index: usize = indices[row] as usize;
                    if index < dictionary.len() {
                        Some(dictionary[index])
                    } else {
                        None
                    }
                } else {
                    None
                }
            },
            DirectSelectedPrimitiveColumnPageView::I64Plain(_) => None,
        }
    }

    /// The 64-bit value of a row.
    pub fn value_i64(&self, row: usize) -> (value: Option<i64>)
        ensures
            self.width() == PrimitiveWidth::I64 ==> (match self.cell(row as int) {
                Some(cell) => value matches Some(value) && value == cell,
                None => value.is_none(),
            }),
            self.width() == PrimitiveWidth::I32 ==> value.is_none(),
    {
        match self {
            DirectSelectedPrimitiveColumnPageView::I64Plain(values) => {
                if row < values.len() {
                    Some(values[row])
                } else {
                    None
                }
            },
            _ => None,
        }
    }
}

/// The sort key of a row.
pub fn primitive_topk_key(column: NullFreePrimitiveColumn<'_>, row: usize) -> (key: Option<i128>)
    requires
        row < column.rows(),
    ensures
        key matches Some(key) && key == column.key(row as int),
{
    match column {
        NullFreePrimitiveColumn::I32(values) => Some(values[row] as i128),
        NullFreePrimitiveColumn::I64(values) => Some(values[row] as i128),
    }
}

/// The sort key of a row of a finished column, `None` past its end.
pub fn primitive_column_values_key(column: &PrimitiveColumnValues, row: usize) -> (key: Option<
    i128,
>)
    ensures
        key.is_some() == (row < column.cells().len()),
        key matches Some(key) ==> key == column.cells()[row as int],
{
    match column {
        PrimitiveColumnValues::I32(values) => {
            if row < values.len() {
                Some(values[row] as i128)
            } else {
                None
            }
        },
        PrimitiveColumnValues::I64(values) => {
            if row < values.len() {
                Some(values[row] as i128)
            } else {
                None
            }
        },
    }
}

/// The number of rows collected.
pub fn primitive_output_len(output: &PrimitiveColumnOutput) -> (len: usize)
    ensures
        len == output.cells().len(),
{
    match output {
        PrimitiveColumnOutput::I32(values) => values.len(),
        PrimitiveColumnOutput::I64(values) => values.len(),
    }
}

/// Whether a row of a source was taken over as the next cell of a buffer, or
/// why not.
pub open spec fn appended(
    before: PrimitiveColumnOutput,
    after: PrimitiveColumnOutput,
    types_agree: bool,
    cell: Option<int>,
    result: SqlResult<()>,
) -> bool {
    &&& after.width() == before.width()
    &&& if !types_agree {
        &&& fails_unsupported(result, "primitive selected top-k column type mismatch"@)
        &&& after == before
    } else {
        match cell {
            Some(cell) => result is Ok && after.cells() == before.cells().push(cell),
            None => {
                &&& fails_unsupported(result, "primitive selected top-k row out of range"@)
                &&& after == before
            },
        }
    }
}

/// Whether a row of a source replaced the cell at `slot` of a buffer, or why not.
pub open spec fn overwritten(
    before: PrimitiveColumnOutput,
    after: PrimitiveColumnOutput,
    slot: int,
    types_agree: bool,
    cell: Option<int>,
    result: SqlResult<()>,
) -> bool {
    &&& after.width() == before.width()
    &&& if !types_agree {
        &&& fails_unsupported(result, "primitive selected top-k column type mismatch"@)
        &&& after == before
    } else {
        match cell {
            Some(cell) => if slot < before.cells().len() {
                result is Ok && after.cells() == before.cells().update(slot, cell)
            } else {
                &&& fails_unsupported(result, "primitive selected top-k slot out of range"@)
                &&& after == before
            },
            None => {
                &&& fails_unsupported(result, "primitive selected top-k row out of range"@)
                &&& after == before
            },
        }
    }
}

/// The cell at `row`, `None` past the end.
pub open spec fn cell_at(cells: Seq<int>, row: int) -> Option<int> {
    if 0 <= row < cells.len() {
        Some(cells[row])
    } else {
        None
    }
}

fn selected_type_mismatch() -> (error: SqlError)
    ensures
        error.is_unsupported("primitive selected top-k column type mismatch"@),
{
    SqlError::unsupported("primitive selected top-k column type mismatch")
}

fn selected_row_out_of_range() -> (error: SqlError)
    ensures
        error.is_unsupported("primitive selected top-k row out of range"@),
{
    SqlError::unsupported("primitive selected top-k row out of range")
}

fn selected_slot_out_of_range() -> (error: SqlError)
    ensures
        error.is_unsupported("primitive selected top-k slot out of range"@),
{
    SqlError::unsupported("primitive selected top-k slot out of range")
}

fn topk_type_mismatch() -> (error: SqlError)
    ensures
        error.is_unsupported("primitive top-k column type mismatch"@),
{
    SqlError::unsupported("primitive top-k column type mismatch")
}

fn ordered_type_mismatch() -> (error: SqlError)
    ensures
        error.is_unsupported("primitive ordered fast path column type mismatch"@),
{
    SqlError::unsupported("primitive ordered fast path column type mismatch")
}

/// Appends a row of a finished column to a buffer of the same type.
pub fn push_primitive_batch_value(
    source: &PrimitiveColumnValues,
    column_type: &DirectPrimitiveColumnType,
    row: usize,
    target: &mut PrimitiveColumnOutput,
) -> (result: SqlResult<()>)
    ensures
        appended(
            *old(target),
            *final(target),
            column_type.plain_width() == Some(source.width()) && source.width() == old(
                target,
            ).width(),
            cell_at(source.cells(), row as int),
            result,
        ),
{
    match (source, column_type) {
        (PrimitiveColumnValues::I32(values), DirectPrimitiveColumnType::I32) => match target {
            PrimitiveColumnOutput::I32(buffer) => {
                if row < values.len() {
                    let ghost cells = i32_cells(buffer@);
                    buffer.push(values[row]);
                    assert(i32_cells(buffer@) =~= cells.push(values@[row as int] as int));
                    Ok(())
                } else {
                    Err(selected_row_out_of_range())
                }
            },
            _ => Err(selected_type_mismatch()),
        },
        (PrimitiveColumnValues::I64(values), DirectPrimitiveColumnType::I64) => match target {
            PrimitiveColumnOutput::I64(buffer) => {
                if row < values.len() {
                    let ghost cells = i64_cells(buffer@);
                    buffer.push(values[row]);
                    assert(i64_cells(buffer@) =~= cells.push(values@[row as int] as int));
                    Ok(())
                } else {
                    Err(selected_row_out_of_range())
                }
            },
            _ => Err(selected_type_mismatch()),
        },
        _ => Err(selected_type_mismatch()),
    }
}

/// Replaces the cell at `slot` by a row of a finished column of the same type.
pub fn overwrite_primitive_batch_value(
    source: &PrimitiveColumnValues,
    column_type: &DirectPrimitiveColumnType,
    row: usize,
    target: &mut PrimitiveColumnOutput,
    slot: usize,
) -> (result: SqlResult<()>)
    ensures
        overwritten(
            *old(target),
            *final(target),
            slot as int,
            column_type.plain_width() == Some(source.width()) && source.width() == old(
                target,
            ).width(),
            cell_at(source.cells(), row as int),
            result,
        ),
{
    match (source, column_type) {
        (PrimitiveColumnValues::I32(values), DirectPrimitiveColumnType::I32) => match target {
            PrimitiveColumnOutput::I32(buffer) => {
                if row >= values.len() {
                    Err(selected_row_out_of_range())
                } else if slot >= buffer.len() {
                    Err(selected_slot_out_of_range())
                } else {
                    let ghost cells = i32_cells(buffer@);
                    buffer[slot] = values[row];
                    assert(i32_cells(buffer@) =~= cells.update(
                        slot as int,
                        values@[row as int] as int,
                    ));
                    Ok(())
                }
            },
            _ => Err(selected_type_mismatch()),
        },
        (PrimitiveColumnValues::I64(values), DirectPrimitiveColumnType::I64) => match target {
            PrimitiveColumnOutput::I64(buffer) => {
                if row >= values.len() {
                    Err(selected_row_out_of_range())
                } else if slot >= buffer.len() {
                    Err(selected_slot_out_of_range())
                } else {
                    let ghost cells = i64_cells(buffer@);
                    buffer[slot] = values[row];
                    assert(i64_cells(buffer@) =~= cells.update(
                        slot as int,
                        values@[row as int] as int,
                    ));
                    Ok(())
                }
            },
            _ => Err(selected_type_mismatch()),
        },
        _ => Err(selected_type_mismatch()),
    }
}

/// Appends a row of a selected page to a buffer of the same type.
pub fn push_direct_selected_page_value(
    source: &DirectSelectedPrimitiveColumnPageView,
    column_type: &DirectPrimitiveColumnType,
    row: usize,
    target: &mut PrimitiveColumnOutput,
) -> (result: SqlResult<()>)
    ensures
        appended(
            *old(target),
            *final(target),
            column_type.plain_width() == Some(source.width()) && source.width() == old(
                target,
            ).width(),
            source.cell(row as int),
            result,
        ),
{
    let wide = matches!(source, DirectSelectedPrimitiveColumnPageView::I64Plain(_));
    match column_type {
        DirectPrimitiveColumnType::I32 => match target {
            PrimitiveColumnOutput::I32(buffer) => {
                if !wide {
                    match source.value_i32(row) {
                        Some(value) => {
                            let ghost cells = i32_cells(buffer@);
                            buffer.push(value);
                            assert(i32_cells(buffer@) =~= cells.push(value as int));
                            Ok(())
                        },
                        None => Err(selected_row_out_of_range()),
                    }
                } else {
                    Err(selected_type_mismatch())
                }
            },
            _ => Err(selected_type_mismatch()),
        },
        DirectPrimitiveColumnType::I64 => match target {
            PrimitiveColumnOutput::I64(buffer) => {
                if wide {
                    match source.value_i64(row) {
                        Some(value) => {
                            let ghost cells = i64_cells(buffer@);
                            buffer.push(value);
                            assert(i64_cells(buffer@) =~= cells.push(value as int));
                            Ok(())
                        },
                        None => Err(selected_row_out_of_range()),
                    }
                } else {
                    Err(selected_type_mismatch())
                }
            },
            _ => Err(selected_type_mismatch()),
        },
        _ => Err(selected_type_mismatch()),
    }
}

/// Replaces the cell at `slot` by a row of a selected page of the same type.
pub fn overwrite_direct_selected_page_value(
    source: &DirectSelectedPrimitiveColumnPageView,
    column_type: &DirectPrimitiveColumnType,
    row: usize,
    target: &mut PrimitiveColumnOutput,
    slot: usize,
) -> (result: SqlResult<()>)
    ensures
        overwritten(
            *old(target),
            *final(target),
            slot as int,
            column_type.plain_width() == Some(source.width()) && source.width() == old(
                target,
            ).width(),
            source.cell(row as int),
            result,
        ),
{
    let wide = matches!(source, DirectSelectedPrimitiveColumnPageView::I64Plain(_));
    match column_type {
        DirectPrimitiveColumnType::I32 => match target {
            PrimitiveColumnOutput::I32(buffer) => {
                if !wide {
                    match source.value_i32(row) {
                        Some(value) => {
                            if slot < buffer.len() {
                                let ghost cells = i32_cells(buffer@);
                                buffer[slot] = value;
                                assert(i32_cells(buffer@) =~= cells.update(
                                    slot as int,
                                    value as int,
                                ));
                                Ok(())
                            } else {
                                Err(selected_slot_out_of_range())
                            }
                        },
                        None => Err(selected_row_out_of_range()),
                    }
                } else {
                    Err(selected_type_mismatch())
                }
            },
            _ => Err(selected_type_mismatch()),
        },
        DirectPrimitiveColumnType::I64 => match target {
            PrimitiveColumnOutput::I64(buffer) => {
                if wide {
                    match source.value_i64(row) {
                        Some(value) => {
                            if slot < buffer.len() {
                                let ghost cells = i64_cells(buffer@);
                                buffer[slot] = value;
                                assert(i64_cells(buffer@) =~= cells.update(
                                    slot as int,
                                    value as int,
                                ));
                                Ok(())
                            } else {
                                Err(selected_slot_out_of_range())
                            }
                        },
                        None => Err(selected_row_out_of_range()),
                    }
                } else {
                    Err(selected_type_mismatch())
                }
            },
            _ => Err(selected_type_mismatch()),
        },
        _ => Err(selected_type_mismatch()),
    }
}

/// Appends a row of a null-free column to a buffer of the same type.
pub fn push_null_free_primitive_value(
    source: &NullFreePrimitiveColumn<'_>,
    row: usize,
    target: &mut PrimitiveColumnOutput,
) -> (result: SqlResult<()>)
    requires
        source.width() == old(target).width() ==> row < source.rows(),
    ensures
        final(target).width() == old(target).width(),
        source.width() == old(target).width() ==> result is Ok && final(target).cells() == old(
            target,
        ).cells().push(source.key(row as int)),
        source.width() != old(target).width() ==> fails_unsupported(
            result,
            "primitive top-k column type mismatch"@,
        ) && *final(target) == *old(target),
{
    match source {
        NullFreePrimitiveColumn::I32(values) => match target {
            PrimitiveColumnOutput::I32(buffer) => {
                let ghost cells = i32_cells(buffer@);
                buffer.push(values[row]);
                assert(i32_cells(buffer@) =~= cells.push(values@[row as int] as int));
                Ok(())
            },
            _ => Err(topk_type_mismatch()),
        },
        NullFreePrimitiveColumn::I64(values) => match target {
            PrimitiveColumnOutput::I64(buffer) => {
                let ghost cells = i64_cells(buffer@);
                buffer.push(values[row]);
                assert(i64_cells(buffer@) =~= cells.push(values@[row as int] as int));
                Ok(())
            },
            _ => Err(topk_type_mismatch()),
        },
    }
}

/// Replaces the cell at `slot` by a row of a null-free column of the same type.
pub fn overwrite_null_free_primitive_value(
    source: &NullFreePrimitiveColumn<'_>,
    row: usize,
    target: &mut PrimitiveColumnOutput,
    slot: usize,
) -> (result: SqlResult<()>)
    requires
        source.width() == old(target).width() ==> row < source.rows() && slot < old(target).cells().len(),
    ensures
        final(target).width() == old(target).width(),
        source.width() == old(target).width() ==> result is Ok && final(target).cells() == old(
            target,
        ).cells().update(slot as int, source.key(row as int)),
        source.width() != old(target).width() ==> fails_unsupported(
            result,
            "primitive top-k column type mismatch"@,
        ) && *final(target) == *old(target),
{
    match source {
        NullFreePrimitiveColumn::I32(values) => match target {
            PrimitiveColumnOutput::I32(buffer) => {
                let ghost cells = i32_cells(buffer@);
                buffer[slot] = values[row];
                assert(i32_cells(buffer@) =~= cells.update(
                    slot as int,
                    values@[row as int] as int,
                ));
                Ok(())
            },
            _ => Err(topk_type_mismatch()),
        },
        NullFreePrimitiveColumn::I64(values) => match target {
            PrimitiveColumnOutput::I64(buffer) => {
                let ghost cells = i64_cells(buffer@);
                buffer[slot] = values[row];
                assert(i64_cells(buffer@) =~= cells.update(
                    slot as int,
                    values@[row as int] as int,
                ));
                Ok(())
            },
            _ => Err(topk_type_mismatch()),
        },
    }
}

/// Appends a cell of one buffer to another of the same type.
pub fn push_primitive_output_slot(
    source: &PrimitiveColumnOutput,
    source_slot: usize,
    target: &mut PrimitiveColumnOutput,
) -> (result: SqlResult<()>)
    requires
        source.width() == old(target).width() ==> source_slot < source.cells().len(),
    ensures
        final(target).width() == old(target).width(),
        source.width() == old(target).width() ==> result is Ok && final(target).cells() == old(
            target,
        ).cells().push(source.cells()[source_slot as int]),
        source.width() != old(target).width() ==> fails_unsupported(
            result,
            "primitive top-k column type mismatch"@,
        ) && *final(target) == *old(target),
{
    match source {
        PrimitiveColumnOutput::I32(values) => match target {
            PrimitiveColumnOutput::I32(buffer) => {
                let ghost cells = i32_cells(buffer@);
                buffer.push(values[source_slot]);
                assert(i32_cells(buffer@) =~= cells.push(values@[source_slot as int] as int));
                Ok(())
            },
            _ => Err(topk_type_mismatch()),
        },
        PrimitiveColumnOutput::I64(values) => match target {
            PrimitiveColumnOutput::I64(buffer) => {
                let ghost cells = i64_cells(buffer@);
                buffer.push(values[source_slot]);
                assert(i64_cells(buffer@) =~= cells.push(values@[source_slot as int] as int));
                Ok(())
            },
            _ => Err(topk_type_mismatch()),
        },
    }
}

/// Replaces the cell at `target_slot` by a cell of another buffer of the same type.
pub fn overwrite_primitive_output_slot(
    source: &PrimitiveColumnOutput,
    source_slot: usize,
    target: &mut PrimitiveColumnOutput,
    target_slot: usize,
) -> (result: SqlResult<()>)
    requires
        source.width() == old(target).width() ==> source_slot < source.cells().len() && target_slot < old(target).cells().len(),
    ensures
        final(target).width() == old(target).width(),
        source.width() == old(target).width() ==> result is Ok && final(target).cells() == old(
            target,
        ).cells().update(target_slot as int, source.cells()[source_slot as int]),
        source.width() != old(target).width() ==> fails_unsupported(
            result,
            "primitive top-k column type mismatch"@,
        ) && *final(target) == *old(target),
{
    match source {
        PrimitiveColumnOutput::I32(values) => match target {
            PrimitiveColumnOutput::I32(buffer) => {
                let ghost cells = i32_cells(buffer@);
                buffer[target_slot] = values[source_slot];
                assert(i32_cells(buffer@) =~= cells.update(
                    target_slot as int,
                    values@[source_slot as int] as int,
                ));
                Ok(())
            },
            _ => Err(topk_type_mismatch()),
        },
        PrimitiveColumnOutput::I64(values) => match target {
            PrimitiveColumnOutput::I64(buffer) => {
                let ghost cells = i64_cells(buffer@);
                buffer[target_slot] = values[source_slot];
                assert(i64_cells(buffer@) =~= cells.update(
                    target_slot as int,
                    values@[source_slot as int] as int,
                ));
                Ok(())
            },
            _ => Err(topk_type_mismatch()),
        },
    }
}

/// The logical type of a column read directly.
pub fn primitive_output_data_type(column_type: &DirectPrimitiveColumnType) -> (data_type: DataType)
    ensures
        data_type == column_type.data_type(),
{
    match column_type {
        DirectPrimitiveColumnType::I32 => DataType::Int32,
        DirectPrimitiveColumnType::I64 => DataType::Int64,
        DirectPrimitiveColumnType::Date32 => DataType::Date32,
        DirectPrimitiveColumnType::Decimal128Int64 { precision, scale } => DataType::Decimal128(
            *precision,
            *scale,
        ),
        DirectPrimitiveColumnType::Decimal128Int64Raw { precision, scale } => DataType::Decimal128(
            *precision,
            *scale,
        ),
    }
}

/// Whether a finished column holds integers of a plain column type.
pub fn primitive_column_matches_direct_type(
    column: &PrimitiveColumn,
    column_type: &DirectPrimitiveColumnType,
) -> (same: bool)
    ensures
        same == (column_type.plain_width() == Some(column.values.width())),
{
    match (&column.values, column_type) {
        (PrimitiveColumnValues::I32(_), DirectPrimitiveColumnType::I32) => true,
        (PrimitiveColumnValues::I64(_), DirectPrimitiveColumnType::I64) => true,
        _ => false,
    }
}

/// Whether a column carries the name and type given, is not nullable and holds
/// the given integers.
pub open spec fn is_finished_column(
    column: PrimitiveColumn,
    name: Seq<char>,
    column_type: DirectPrimitiveColumnType,
    width: PrimitiveWidth,
    cells: Seq<int>,
) -> bool {
    &&& column.name@ == name
    &&& column.data_type == column_type.data_type()
    &&& !column.nullable
    &&& column.values.width() == width
    &&& column.values.cells() == cells
}

/// The least of three lengths.
pub open spec fn least_len(first: int, second: int, third: int) -> int {
    if first <= second && first <= third {
        first
    } else if second <= third {
        second
    } else {
        third
    }
}

/// Turns the buffers into finished columns, as many as there are buffers, names
/// and types for.
pub fn primitive_output_batch_from_columns(
    output: Vec<PrimitiveColumnOutput>,
    column_names: &[String],
    column_types: &[DirectPrimitiveColumnType],
) -> (batch: PrimitiveBatch)
    ensures
        batch.columns@.len() == least_len(
            output@.len() as int,
            column_names@.len() as int,
            column_types@.len() as int,
        ),
        forall|index: int|
            0 <= index < batch.columns@.len() ==> is_finished_column(
                #[trigger] batch.columns@[index],
                column_names@[index]@,
                column_types@[index],
                output@[index].width(),
                output@[index].cells(),
            ),
{
    let mut columns: Vec<PrimitiveColumn> = Vec::new();
    let ghost buffers = output@;
    let mut index: usize = 0;
    for buffer in rest: output
        invariant
            rest.seq() == buffers,
            index == columns@.len(),
            index <= rest.index(),
            index < rest.index() ==> index == column_names@.len() || index == column_types@.len(),
            index <= column_names@.len(),
            index <= column_types@.len(),
            forall|done: int|
                0 <= done < index ==> is_finished_column(
                    #[trigger] columns@[done],
                    column_names@[done]@,
                    column_types@[done],
                    buffers[done].width(),
                    buffers[done].cells(),
                ),
    {
        if index < column_names.len() && index < column_types.len() {
            let values = match buffer {
                PrimitiveColumnOutput::I32(values) => PrimitiveColumnValues::I32(values),
                PrimitiveColumnOutput::I64(values) => PrimitiveColumnValues::I64(values),
            };
            columns.push(
                PrimitiveColumn {
                    name: column_names[index].clone(),
                    data_type: primitive_output_data_type(&column_types[index]),
                    nullable: false,
                    values,
                },
            );
            index += 1;
        }
    }
    PrimitiveBatch { columns }
}

/// A batch without rows.
pub fn primitive_empty_batch(
    column_names: &[String],
    column_types: &[DirectPrimitiveColumnType],
) -> (batch: PrimitiveBatch)
    ensures
        is_empty_batch(batch, column_names@, column_types@),
{
    let mut columns: Vec<PrimitiveColumn> = Vec::new();
    let mut index: usize = 0;
    while index < column_names.len() && index < column_types.len()
        invariant
            index == columns@.len(),
            index <= column_names@.len(),
            index <= column_types@.len(),
            forall|done: int|
                0 <= done < index ==> is_finished_column(
                    #[trigger] columns@[done],
                    column_names@[done]@,
                    column_types@[done],
                    column_types@[done].buffer_width(),
                    Seq::empty(),
                ),
        decreases column_names@.len() - index,
    {
        let values = match &column_types[index] {
            DirectPrimitiveColumnType::I32 | DirectPrimitiveColumnType::Date32 => {
                PrimitiveColumnValues::I32(Vec::new())
            },
            _ => PrimitiveColumnValues::I64(Vec::new()),
        };
        assert(values.cells() =~= Seq::empty());
        columns.push(
            PrimitiveColumn {
                name: column_names[index].clone(),
                data_type: primitive_output_data_type(&column_types[index]),
                nullable: false,
                values,
            },
        );
        index += 1;
    }
    PrimitiveBatch { columns }
}

/// Whether a batch has a column without rows for each name and type.
pub open spec fn is_empty_batch(
    batch: PrimitiveBatch,
    column_names: Seq<String>,
    column_types: Seq<DirectPrimitiveColumnType>,
) -> bool {
    &&& batch.columns@.len() == (if column_names.len() <= column_types.len() {
        column_names.len()
    } else {
        column_types.len()
    })
    &&& forall|index: int|
        0 <= index < batch.columns@.len() ==> is_finished_column(
            #[trigger] batch.columns@[index],
            column_names[index]@,
            column_types[index],
            column_types[index].buffer_width(),
            Seq::empty(),
        )
}

/// Whether each scanned column is of its column type.
pub open spec fn widths_agree(
    columns: Seq<DirectOrderedPrimitiveColumnValues>,
    column_types: Seq<DirectPrimitiveColumnType>,
) -> bool {
    forall|index: int|
        0 <= index < columns.len() ==> column_types[index].plain_width() == Some(
            (#[trigger] columns[index]).width(),
        )
}

/// Names and types the columns of a direct ordered scan.
///
/// There must be as many names and types as columns, and each column must be of
/// its type.
pub fn direct_ordered_primitive_batch_to_primitive_batch(
    batch: DirectOrderedPrimitiveBatch,
    names: &[String],
    column_types: &[DirectPrimitiveColumnType],
) -> (result: SqlResult<PrimitiveBatch>)
    ensures
        (batch.columns@.len() != names@.len() || names@.len() != column_types@.len())
            ==> fails_unsupported(result, "primitive batch schema mismatch"@),
        (batch.columns@.len() == names@.len() && names@.len() == column_types@.len()
            && !widths_agree(batch.columns@, column_types@)) ==> fails_unsupported(
            result,
            "primitive batch value type mismatch"@,
        ),
        (batch.columns@.len() == names@.len() && names@.len() == column_types@.len()
            && widths_agree(batch.columns@, column_types@)) ==> (result matches Ok(finished)
            && finished.columns@.len() == names@.len() && forall|index: int|
            0 <= index < names@.len() ==> is_finished_column(
                #[trigger] finished.columns@[index],
                names@[index]@,
                column_types@[index],
                batch.columns@[index].width(),
                batch.columns@[index].cells(),
            )),
{
    if batch.columns.len() != names.len() || names.len() != column_types.len() {
        return Err(SqlError::unsupported("primitive batch schema mismatch"));
    }
    let ghost scanned = batch.columns@;
    let mut columns: Vec<PrimitiveColumn> = Vec::new();
    for column in rest: batch.columns
        invariant
            rest.seq() == scanned,
            scanned.len() == names@.len(),
            scanned.len() == column_types@.len(),
            columns@.len() == rest.index(),
            forall|done: int|
                0 <= done < columns@.len() ==> column_types@[done].plain_width() == Some(
                    (#[trigger] scanned[done]).width(),
                ),
            forall|done: int|
                0 <= done < columns@.len() ==> is_finished_column(
                    #[trigger] columns@[done],
                    names@[done]@,
                    column_types@[done],
                    scanned[done].width(),
                    scanned[done].cells(),
                ),
    {
        let index: usize = columns.len();
        assert(column == scanned[index as int]);
        let values = match (column, &column_types[index]) {
            (
                DirectOrderedPrimitiveColumnValues::I32(values),
                DirectPrimitiveColumnType::I32,
            ) => PrimitiveColumnValues::I32(values),
            (
                DirectOrderedPrimitiveColumnValues::I64(values),
                DirectPrimitiveColumnType::I64,
            ) => PrimitiveColumnValues::I64(values),
            _ => {
                return Err(SqlError::unsupported("primitive batch value type mismatch"));
            },
        };
        columns.push(
            PrimitiveColumn {
                name: names[index].clone(),
                data_type: primitive_output_data_type(&column_types[index]),
                nullable: false,
                values,
            },
        );
    }
    Ok(PrimitiveBatch { columns })
}

/// The values at the given positions.
pub open spec fn gathered<T>(values: Seq<T>, positions: Seq<usize>) -> Seq<T> {
    Seq::new(positions.len(), |index: int| values[positions[index] as int])
}

/// Appends the values at the given positions. Runs of positions that go down by
/// one are read as one stretch, backwards.
pub fn extend_i32_desc_positions(values: &[i32], positions: &[usize], output: &mut Vec<i32>)
    requires
        forall|index: int| 0 <= index < positions@.len() ==> positions@[index] < values@.len(),
    ensures
        final(output)@ == old(output)@ + gathered(values@, positions@),
{
    let ghost before = output@;
    let mut index: usize = 0;
    assert(output@ =~= before + gathered(values@, positions@.take(0)));
    while index < positions.len()
        invariant
            forall|position: int|
                0 <= position < positions@.len() ==> positions@[position] < values@.len(),
            index <= positions@.len(),
            output@ == before + gathered(values@, positions@.take(index as int)),
        decreases positions@.len() - index,
    {
        let end: usize = positions[index];
        let mut len: usize = 1;
        while len < positions.len() - index && positions[index + len] < usize::MAX
            && positions[index + len - 1] == positions[index + len] + 1
            invariant
                1 <= len,
                index + len <= positions@.len(),
                end == positions@[index as int],
                len <= end + 1,
                forall|step: int|
                    0 <= step < len ==> #[trigger] positions@[index + step] == end - step,
            decreases positions@.len() - index - len,
        {
            assert(positions@[index + (len - 1)] == end - (len - 1));
            len += 1;
        }
        let mut taken: usize = 0;
        while taken < len
            invariant
                taken <= len <= end + 1,
                index + len <= positions@.len(),
                end < values@.len(),
                forall|step: int|
                    0 <= step < len ==> #[trigger] positions@[index + step] == end - step,
                output@ == before + gathered(values@, positions@.take(index + taken)),
            decreases len - taken,
        {
            assert(positions@[index + taken] == end - taken);
            output.push(values[end - taken]);
            assert(output@ =~= before + gathered(values@, positions@.take(index + taken + 1)));
            taken += 1;
        }
        index += len;
    }
    assert(positions@.take(index as int) =~= positions@);
}

/// Appends the values at the given positions. Runs of positions that go down by
/// one are read as one stretch, backwards.
pub fn extend_i64_desc_positions(values: &[i64], positions: &[usize], output: &mut Vec<i64>)
    requires
        forall|index: int| 0 <= index < positions@.len() ==> positions@[index] < values@.len(),
    ensures
        final(output)@ == old(output)@ + gathered(values@, positions@),
{
    let ghost before = output@;
    let mut index: usize = 0;
    assert(output@ =~= before + gathered(values@, positions@.take(0)));
    while index < positions.len()
        invariant
            forall|position: int|
                0 <= position < positions@.len() ==> positions@[position] < values@.len(),
            index <= positions@.len(),
            output@ == before + gathered(values@, positions@.take(index as int)),
        decreases positions@.len() - index,
    {
        let end: usize = positions[index];
        let mut len: usize = 1;
        while len < positions.len() - index && positions[index + len] < usize::MAX
            && positions[index + len - 1] == positions[index + len] + 1
            invariant
                1 <= len,
                index + len <= positions@.len(),
                end == positions@[index as int],
                len <= end + 1,
                forall|step: int|
                    0 <= step < len ==> #[trigger] positions@[index + step] == end - step,
            decreases positions@.len() - index - len,
        {
            assert(positions@[index + (len - 1)] == end - (len - 1));
            len += 1;
        }
        let mut taken: usize = 0;
        while taken < len
            invariant
                taken <= len <= end + 1,
                index + len <= positions@.len(),
                end < values@.len(),
                forall|step: int|
                    0 <= step < len ==> #[trigger] positions@[index + step] == end - step,
                output@ == before + gathered(values@, positions@.take(index + taken)),
            decreases len - taken,
        {
            assert(positions@[index + taken] == end - taken);
            output.push(values[end - taken]);
            assert(output@ =~= before + gathered(values@, positions@.take(index + taken + 1)));
            taken += 1;
        }
        index += len;
    }
    assert(positions@.take(index as int) =~= positions@);
}

/// Appends the rows at the given positions to a buffer of the column's type.
pub fn gather_null_free_primitive_column(
    column: &NullFreePrimitiveColumn<'_>,
    positions: &[usize],
    output: &mut PrimitiveColumnOutput,
) -> (result: SqlResult<()>)
    requires
        forall|index: int| 0 <= index < positions@.len() ==> positions@[index] < column.rows(),
    ensures
        final(output).width() == old(output).width(),
        column.width() == old(output).width() ==> result is Ok && final(output).cells() == old(
            output,
        ).cells() + column_cells_at(*column, positions@),
        column.width() != old(output).width() ==> fails_unsupported(
            result,
            "primitive ordered fast path column type mismatch"@,
        ) && *final(output) == *old(output),
{
    match column {
        NullFreePrimitiveColumn::I32(values) => match output {
            PrimitiveColumnOutput::I32(buffer) => {
                let ghost cells = i32_cells(buffer@);
                buffer.reserve(positions.len());
                extend_i32_desc_positions(values, positions, buffer);
                assert(i32_cells(buffer@) =~= cells + column_cells_at(*column, positions@));
                Ok(())
            },
            _ => Err(ordered_type_mismatch()),
        },
        NullFreePrimitiveColumn::I64(values) => match output {
            PrimitiveColumnOutput::I64(buffer) => {
                let ghost cells = i64_cells(buffer@);
                buffer.reserve(positions.len());
                extend_i64_desc_positions(values, positions, buffer);
                assert(i64_cells(buffer@) =~= cells + column_cells_at(*column, positions@));
                Ok(())
            },
            _ => Err(ordered_type_mismatch()),
        },
    }
}

/// The integers of a column at the given positions.
pub open spec fn column_cells_at(column: NullFreePrimitiveColumn, positions: Seq<usize>) -> Seq<
    int,
> {
    Seq::new(positions.len(), |index: int| column.key(positions[index] as int))
}

/// Appends one row of each column to its buffer.
///
/// Stops at the first column whose buffer is of another type; the buffers before
/// it keep the row.
pub fn push_null_free_primitive_row(
    columns: &[NullFreePrimitiveColumn<'_>],
    output: &mut Vec<PrimitiveColumnOutput>,
    row: usize,
) -> (result: SqlResult<()>)
    requires
        old(output)@.len() == columns@.len(),
        forall|index: int| 0 <= index < columns@.len() ==> row < (#[trigger] columns@[index]).rows(),
    ensures
        final(output)@.len() == old(output)@.len(),
        result is Ok <==> forall|index: int|
            0 <= index < columns@.len() ==> (#[trigger] columns@[index]).width() == old(
                output,
            )@[index].width(),
        result is Err ==> fails_unsupported(
            result,
            "primitive ordered fast path column type mismatch"@,
        ),
        forall|index: int|
            0 <= index < columns@.len() ==> (#[trigger] final(output)@[index]).width() == old(
                output,
            )@[index].width(),
        result is Ok ==> forall|index: int|
            0 <= index < columns@.len() ==> (#[trigger] final(output)@[index]).cells() == old(
                output,
            )@[index].cells().push(columns@[index].key(row as int)),
{
    let ghost before = output@;
    let mut index: usize = 0;
    while index < columns.len()
        invariant
            index <= columns@.len(),
            before == old(output)@,
            output@.len() == columns@.len(),
            before.len() == columns@.len(),
            forall|position: int|
                0 <= position < columns@.len() ==> row < (#[trigger] columns@[position]).rows(),
            forall|position: int|
                index <= position < columns@.len() ==> #[trigger] output@[position]
                    == before[position],
            forall|position: int|
                0 <= position < index ==> (#[trigger] columns@[position]).width()
                    == before[position].width(),
            forall|position: int|
                0 <= position < columns@.len() ==> (#[trigger] output@[position]).width()
                    == before[position].width(),
            forall|position: int|
                0 <= position < index ==> (#[trigger] output@[position]).cells()
                    == before[position].cells().push(columns@[position].key(row as int)),
        decreases columns@.len() - index,
    {
        match push_null_free_primitive_value(&columns[index], row, &mut output[index]) {
            Ok(()) => {},
            Err(_) => {
                return Err(ordered_type_mismatch());
            },
        }
        index += 1;
    }
    Ok(())
}

} // verus!
