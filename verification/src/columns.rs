//! Column vectors with optional null flags.

use vstd::prelude::*;
use crate::error::{fails_unsupported, SqlError, SqlResult};
use crate::text::{eq_ignore_ascii_case, joined, same_ignoring_case};

verus! {

/// A column of values, some of which may be null.
///
/// `validity` holds one flag per row, `false` for a null row; a column without
/// flags has no nulls. The value stored at a null row carries no meaning.
pub struct Vector<T> {
    pub values: Vec<T>,
    pub validity: Option<Vec<bool>>,
}

impl<T> View for Vector<T> {
    type V = Seq<Option<T>>;

    /// The rows of the column, with `None` for a null.
    open spec fn view(&self) -> Seq<Option<T>> {
        Seq::new(self.values@.len(), |row: int| self.cell(row))
    }
}

impl<T> Vector<T> {
    /// Whether there is one flag per row where there are flags at all.
    pub open spec fn well_formed(&self) -> bool {
        self.validity matches Some(flags) ==> flags@.len() == self.values@.len()
    }

    /// Whether the row holds a value.
    pub open spec fn valid_at(&self, row: int) -> bool {
        match self.validity {
            Some(flags) => flags@[row],
            None => true,
        }
    }

    /// What the row holds.
    pub open spec fn cell(&self, row: int) -> Option<T> {
        if self.valid_at(row) {
            Some(self.values@[row])
        } else {
            None
        }
    }

    /// Whether no row is null.
    pub open spec fn null_free(&self) -> bool {
        forall|row: int| 0 <= row < self.values@.len() ==> self.valid_at(row)
    }

    /// A column without nulls.
    pub fn from_values(values: Vec<T>) -> (column: Vector<T>)
        ensures
            column.well_formed(),
            column.null_free(),
            column.values@ == values@,
            column@ == values@.map_values(|value: T| Some(value)),
    {
        let column = Vector { values, validity: None };
        assert(column@ =~= values@.map_values(|value: T| Some(value)));
        column
    }

    /// The number of rows.
    pub fn len(&self) -> (rows: usize)
        ensures
            rows == self@.len(),
            rows == self.values@.len(),
    {
        self.values.len()
    }

    /// Whether the row is null.
    pub fn is_null(&self, row: usize) -> (null: bool)
        requires
            self.well_formed(),
            row < self@.len(),
        ensures
            null == self@[row as int].is_none(),
            null == !self.valid_at(row as int),
    {
        match &self.validity {
            Some(flags) => !flags[row],
            None => false,
        }
    }

    /// The values, where no row is null.
    pub fn values_if_null_free(&self) -> (values: Option<&Vec<T>>)
        requires
            self.well_formed(),
        ensures
            values.is_some() == self.null_free(),
            values matches Some(values) ==> *values == self.values,
    {
        match &self.validity {
            None => Some(&self.values),
            Some(flags) => {
                let mut row: usize = 0;
                while row < flags.len()
                    invariant
                        self.well_formed(),
                        self.validity == Some(*flags),
                        row <= flags@.len(),
                        forall|earlier: int| 0 <= earlier < row ==> flags@[earlier],
                    decreases flags@.len() - row,
                {
                    if !flags[row] {
                        assert(!self.valid_at(row as int));
                        return None;
                    }
                    row += 1;
                }
                Some(&self.values)
            },
        }
    }
}

impl<T: Copy> Vector<T> {
    /// The value of a row that is not null.
    pub fn value(&self, row: usize) -> (value: T)
        requires
            row < self@.len(),
        ensures
            value == self.values@[row as int],
            self.valid_at(row as int) ==> self@[row as int] == Some(value),
    {
        self.values[row]
    }

    /// What the row holds, `None` for a null.
    pub fn get(&self, row: usize) -> (cell: Option<T>)
        requires
            self.well_formed(),
            row < self@.len(),
        ensures
            cell == self@[row as int],
    {
        if self.is_null(row) {
            None
        } else {
            Some(self.values[row])
        }
    }
}

/// The values of a column, by the way they are stored.
///
/// A column of a kind that no kernel reads keeps only its null flags.
pub enum ColumnData {
    Int32(Vector<i32>),
    Int64(Vector<i64>),
    UInt64(Vector<u64>),
    /// Floating-point numbers, each as an integer that orders as the number does.
    Float64Order(Vector<i64>),
    Date32(Vector<i32>),
    Date64(Vector<i64>),
    Decimal128 { values: Vector<i128>, scale: i8 },
    /// Decimals whose unscaled values fit in 64 bits and are stored so.
    DecimalInt64 { units: Vector<i64>, scale: i8 },
    Utf8(Vector<String>),
    DictionaryUtf8 { keys: Vector<i32>, strings: Vec<String> },
    Other(Vector<()>),
}

/// A column together with the name of its type.
pub struct ColumnArray {
    pub type_label: String,
    pub data: ColumnData,
}

impl ColumnArray {
    /// The number of rows.
    pub open spec fn rows(self) -> int {
        match self.data {
            ColumnData::Int32(vector) => vector@.len() as int,
            ColumnData::Int64(vector) => vector@.len() as int,
            ColumnData::UInt64(vector) => vector@.len() as int,
            ColumnData::Float64Order(vector) => vector@.len() as int,
            ColumnData::Date32(vector) => vector@.len() as int,
            ColumnData::Date64(vector) => vector@.len() as int,
            ColumnData::Decimal128 { values, .. } => values@.len() as int,
            ColumnData::DecimalInt64 { units, .. } => units@.len() as int,
            ColumnData::Utf8(vector) => vector@.len() as int,
            ColumnData::DictionaryUtf8 { keys, .. } => keys@.len() as int,
            ColumnData::Other(vector) => vector@.len() as int,
        }
    }

    /// Whether the null flags agree with the values.
    pub open spec fn well_formed(self) -> bool {
        match self.data {
            ColumnData::Int32(vector) => vector.well_formed(),
            ColumnData::Int64(vector) => vector.well_formed(),
            ColumnData::UInt64(vector) => vector.well_formed(),
            ColumnData::Float64Order(vector) => vector.well_formed(),
            ColumnData::Date32(vector) => vector.well_formed(),
            ColumnData::Date64(vector) => vector.well_formed(),
            ColumnData::Decimal128 { values, .. } => values.well_formed(),
            ColumnData::DecimalInt64 { units, .. } => units.well_formed(),
            ColumnData::Utf8(vector) => vector.well_formed(),
            ColumnData::DictionaryUtf8 { keys, .. } => keys.well_formed(),
            ColumnData::Other(vector) => vector.well_formed(),
        }
    }

    /// Whether the row is null.
    pub open spec fn null_at(self, row: int) -> bool {
        match self.data {
            ColumnData::Int32(vector) => !vector.valid_at(row),
            ColumnData::Int64(vector) => !vector.valid_at(row),
            ColumnData::UInt64(vector) => !vector.valid_at(row),
            ColumnData::Float64Order(vector) => !vector.valid_at(row),
            ColumnData::Date32(vector) => !vector.valid_at(row),
            ColumnData::Date64(vector) => !vector.valid_at(row),
            ColumnData::Decimal128 { values, .. } => !values.valid_at(row),
            ColumnData::DecimalInt64 { units, .. } => !units.valid_at(row),
            ColumnData::Utf8(vector) => !vector.valid_at(row),
            ColumnData::DictionaryUtf8 { keys, .. } => !keys.valid_at(row),
            ColumnData::Other(vector) => !vector.valid_at(row),
        }
    }

    /// Whether the column holds integers.
    pub open spec fn is_integer(self) -> bool {
        self.data is Int32 || self.data is Int64
    }

    /// Whether the column holds dates, or day numbers in place of dates.
    pub open spec fn is_date(self) -> bool {
        self.data is Date32 || self.data is Date64 || self.data is Int32
    }

    /// The integer of a row that is not null, of an integer column.
    pub open spec fn integer_at(self, row: int) -> int {
        match self.data {
            ColumnData::Int32(vector) => vector.values@[row] as int,
            ColumnData::Int64(vector) => vector.values@[row] as int,
            _ => 0,
        }
    }

    /// The day number of a row that is not null, of a date column. Milliseconds
    /// are cut to whole days, towards the day of the epoch, in 32 bits.
    pub open spec fn day_at(self, row: int) -> i32 {
        match self.data {
            ColumnData::Date32(vector) => vector.values@[row],
            ColumnData::Date64(vector) => truncated_days(vector.values@[row]),
            ColumnData::Int32(vector) => vector.values@[row],
            _ => 0,
        }
    }

    /// What an integer column holds at a row.
    pub open spec fn integer_cell(self, row: int) -> Option<i64> {
        if self.null_at(row) {
            None
        } else {
            Some(self.integer_at(row) as i64)
        }
    }

    /// Whether the row is null.
    pub fn is_null(&self, row: usize) -> (null: bool)
        requires
            self.well_formed(),
            row < self.rows(),
        ensures
            null == self.null_at(row as int),
    {
        match &self.data {
            ColumnData::Int32(vector) => vector.is_null(row),
            ColumnData::Int64(vector) => vector.is_null(row),
            ColumnData::UInt64(vector) => vector.is_null(row),
            ColumnData::Float64Order(vector) => vector.is_null(row),
            ColumnData::Date32(vector) => vector.is_null(row),
            ColumnData::Date64(vector) => vector.is_null(row),
            ColumnData::Decimal128 { values, .. } => values.is_null(row),
            ColumnData::DecimalInt64 { units, .. } => units.is_null(row),
            ColumnData::Utf8(vector) => vector.is_null(row),
            ColumnData::DictionaryUtf8 { keys, .. } => keys.is_null(row),
            ColumnData::Other(vector) => vector.is_null(row),
        }
    }
}

/// Milliseconds since the epoch as whole days, cut towards zero and to 32 bits.
pub open spec fn truncated_days(milliseconds: i64) -> i32 {
    let days = if milliseconds >= 0 {
        milliseconds as int / 86_400_000
    } else {
        -((-(milliseconds as int)) / 86_400_000)
    };
    days as i64 as i32
}

/// The outcome of reading a row as an integer: nulls read as `None` whatever the
/// column holds, other rows need an integer column.
pub open spec fn integer_reading(
    column: ColumnArray,
    row: int,
    result: SqlResult<Option<i64>>,
) -> bool {
    if column.null_at(row) {
        result matches Ok(None)
    } else if column.is_integer() {
        result matches Ok(Some(value)) && value == column.integer_at(row)
    } else {
        fails_unsupported(result, "expected integer column, got "@ + column.type_label@)
    }
}

/// The outcome of reading a row as a day number.
pub open spec fn day_reading(
    column: ColumnArray,
    row: int,
    result: SqlResult<Option<i32>>,
) -> bool {
    if column.null_at(row) {
        result matches Ok(None)
    } else if column.is_date() {
        result matches Ok(Some(value)) && value == column.day_at(row)
    } else {
        fails_unsupported(result, "expected date column, got "@ + column.type_label@)
    }
}

/// Reads a row as an integer.
pub fn numeric_i64_value(column: &ColumnArray, row: usize) -> (result: SqlResult<Option<i64>>)
    requires
        column.well_formed(),
        row < column.rows(),
    ensures
        integer_reading(*column, row as int, result),
{
    if column.is_null(row) {
        return Ok(None);
    }
    match &column.data {
        ColumnData::Int32(vector) => Ok(Some(vector.values[row] as i64)),
        ColumnData::Int64(vector) => Ok(Some(vector.values[row])),
        _ => {
            let message = joined("expected integer column, got ", column.type_label.as_str());
            Err(SqlError::UnsupportedSql(message))
        },
    }
}

/// Whole days in the given milliseconds, cut towards zero and to 32 bits.
fn days_in(milliseconds: i64) -> (days: i32)
    ensures
        days == truncated_days(milliseconds),
{
    let whole: i64 = if milliseconds >= 0 {
        milliseconds / 86_400_000
    } else if milliseconds == i64::MIN {
        -106_751_991_167
    } else {
        -((-milliseconds) / 86_400_000)
    };
    whole as i32
}

/// Reads a row as a day number.
pub fn date32_value(column: &ColumnArray, row: usize) -> (result: SqlResult<Option<i32>>)
    requires
        column.well_formed(),
        row < column.rows(),
    ensures
        day_reading(*column, row as int, result),
{
    if column.is_null(row) {
        return Ok(None);
    }
    match &column.data {
        ColumnData::Date32(vector) => Ok(Some(vector.values[row])),
        ColumnData::Date64(vector) => Ok(Some(days_in(vector.values[row]))),
        ColumnData::Int32(vector) => Ok(Some(vector.values[row])),
        _ => {
            let message = joined("expected date column, got ", column.type_label.as_str());
            Err(SqlError::UnsupportedSql(message))
        },
    }
}

/// Named columns of one length.
pub struct RecordBatch {
    pub names: Vec<String>,
    pub columns: Vec<ColumnArray>,
    pub num_rows: usize,
}

impl RecordBatch {
    /// Whether there is a name for each column and each column has every row.
    pub open spec fn well_formed(self) -> bool {
        &&& self.names@.len() == self.columns@.len()
        &&& forall|index: int|
            0 <= index < self.columns@.len() ==> (#[trigger] self.columns@[index]).well_formed()
                && self.columns@[index].rows() == self.num_rows
    }

    /// Whether the first column named `name`, in any case, stands at `index`.
    pub open spec fn first_named(self, name: Seq<char>, index: int) -> bool {
        &&& 0 <= index < self.columns@.len()
        &&& same_ignoring_case(self.names@[index]@, name)
        &&& forall|earlier: int|
            0 <= earlier < index ==> !same_ignoring_case((#[trigger] self.names@[earlier])@, name)
    }

    /// Whether some column is named `name`, in any case.
    pub open spec fn has_column(self, name: Seq<char>) -> bool {
        exists|index: int| self.first_named(name, index)
    }

    /// The first column named `name`, in any case.
    pub open spec fn column_named(self, name: Seq<char>) -> ColumnArray {
        self.columns@[choose|index: int| self.first_named(name, index)]
    }
}

/// The first column named `name`, in any case.
pub fn batch_column<'a>(batch: &'a RecordBatch, name: &str) -> (result: SqlResult<&'a ColumnArray>)
    requires
        batch.well_formed(),
    ensures
        match result {
            Ok(column) => batch.has_column(name@) && *column == batch.column_named(name@)
                && column.well_formed() && column.rows() == batch.num_rows,
            Err(error) => !batch.has_column(name@) && error.is_unknown_column(name@),
        },
{
    let mut index: usize = 0;
    while index < batch.names.len()
        invariant
            batch.well_formed(),
            index <= batch.names@.len(),
            forall|earlier: int|
                0 <= earlier < index ==> !same_ignoring_case(
                    (#[trigger] batch.names@[earlier])@,
                    name@,
                ),
        decreases batch.names@.len() - index,
    {
        if eq_ignore_ascii_case(batch.names[index].as_str(), name) {
            assert(batch.first_named(name@, index as int));
            let ghost found = choose|position: int| batch.first_named(name@, position);
            assert(found == index);
            return Ok(&batch.columns[index]);
        }
        index += 1;
    }
    Err(SqlError::unknown_column(name))
}

/// The first column named `name`, which must hold strings.
pub fn batch_string_column<'a>(batch: &'a RecordBatch, name: &str) -> (result: SqlResult<
    &'a Vector<String>,
>)
    requires
        batch.well_formed(),
    ensures
        match result {
            Ok(strings) => batch.has_column(name@) && batch.column_named(name@).data
                == ColumnData::Utf8(*strings) && strings.well_formed() && strings@.len()
                == batch.num_rows,
            Err(error) => if batch.has_column(name@) {
                !(batch.column_named(name@).data is Utf8) && error.is_unsupported(
                    name@ + " must be Utf8"@,
                )
            } else {
                error.is_unknown_column(name@)
            },
        },
{
    match batch_column(batch, name) {
        Ok(column) => match &column.data {
            ColumnData::Utf8(strings) => Ok(strings),
            _ => Err(SqlError::UnsupportedSql(joined(name, " must be Utf8"))),
        },
        Err(error) => Err(error),
    }
}

/// A batch as a kernel sees it: by column position, and by name where it is
/// backed by a record batch.
pub struct BatchView {
    pub batch: RecordBatch,
    pub record_backed: bool,
}

impl BatchView {
    /// Whether the underlying columns are in order.
    pub open spec fn well_formed(self) -> bool {
        self.batch.well_formed()
    }

    /// The column at a position, `None` past the last.
    pub open spec fn column(self, index: int) -> Option<ColumnData> {
        if 0 <= index < self.batch.columns@.len() {
            Some(self.batch.columns@[index].data)
        } else {
            None
        }
    }

    /// The number of rows.
    pub fn num_rows(&self) -> (rows: usize)
        ensures
            rows == self.batch.num_rows,
    {
        self.batch.num_rows
    }

    /// The number of columns.
    pub fn num_columns(&self) -> (columns: usize)
        ensures
            columns == self.batch.columns@.len(),
    {
        self.batch.columns.len()
    }

    /// The record batch behind the view.
    pub fn try_record_batch(&self) -> (batch: Option<&RecordBatch>)
        ensures
            batch.is_some() == self.record_backed,
            batch matches Some(batch) ==> *batch == self.batch,
    {
        if self.record_backed {
            Some(&self.batch)
        } else {
            None
        }
    }

    /// The column at a position, where it is of type `Int32`.
    pub fn i32_vector(&self, index: usize) -> (vector: Option<&Vector<i32>>)
        requires
            self.well_formed(),
        ensures
            vector.is_some() == (self.column(index as int) matches Some(ColumnData::Int32(_))),
            vector matches Some(vector) ==> self.column(index as int) == Some(
                ColumnData::Int32(*vector),
            ) && vector.well_formed() && vector@.len() == self.batch.num_rows,
    {
        if index < self.batch.columns.len() {
            assert(self.batch.columns@[index as int].well_formed());
            match &self.batch.columns[index].data {
                ColumnData::Int32(vector) => Some(vector),
                _ => None,
            }
        } else {
            None
        }
    }

    /// The column at a position, where it is of type `Int64`.
    pub fn i64_vector(&self, index: usize) -> (vector: Option<&Vector<i64>>)
        requires
            self.well_formed(),
        ensures
            vector.is_some() == (self.column(index as int) matches Some(ColumnData::Int64(_))),
            vector matches Some(vector) ==> self.column(index as int) == Some(
                ColumnData::Int64(*vector),
            ) && vector.well_formed() && vector@.len() == self.batch.num_rows,
    {
        if index < self.batch.columns.len() {
            assert(self.batch.columns@[index as int].well_formed());
            match &self.batch.columns[index].data {
                ColumnData::Int64(vector) => Some(vector),
                _ => None,
            }
        } else {
            None
        }
    }

    /// The column at a position, where it is of type `Date32`.
    pub fn date32_vector(&self, index: usize) -> (vector: Option<&Vector<i32>>)
        requires
            self.well_formed(),
        ensures
            vector.is_some() == (self.column(index as int) matches Some(ColumnData::Date32(_))),
            vector matches Some(vector) ==> self.column(index as int) == Some(
                ColumnData::Date32(*vector),
            ) && vector.well_formed() && vector@.len() == self.batch.num_rows,
    {
        if index < self.batch.columns.len() {
            assert(self.batch.columns@[index as int].well_formed());
            match &self.batch.columns[index].data {
                ColumnData::Date32(vector) => Some(vector),
                _ => None,
            }
        } else {
            None
        }
    }

    /// The column at a position, where it is of type `Utf8`.
    pub fn utf8_vector(&self, index: usize) -> (vector: Option<&Vector<String>>)
        requires
            self.well_formed(),
        ensures
            vector.is_some() == (self.column(index as int) matches Some(ColumnData::Utf8(_))),
            vector matches Some(vector) ==> self.column(index as int) == Some(
                ColumnData::Utf8(*vector),
            ) && vector.well_formed() && vector@.len() == self.batch.num_rows,
    {
        if index < self.batch.columns.len() {
            assert(self.batch.columns@[index as int].well_formed());
            match &self.batch.columns[index].data {
                ColumnData::Utf8(vector) => Some(vector),
                _ => None,
            }
        } else {
            None
        }
    }
}

} // verus!
