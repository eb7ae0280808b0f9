//! Reading the rows of a batch one by one.
//!
//! A step reads what it needs of a row. It keeps something of the row, skips it, or
//! fails; the first failure ends the scan.

use vstd::prelude::*;
use crate::columns::{
    batch_column, date32_value, numeric_i64_value, ColumnArray, ColumnData, RecordBatch, Vector,
};
use crate::error::{fails_unsupported, SqlError, SqlResult};
use crate::text::joined;

verus! {

/// What a step makes of a row: `Fail` carries the message of the error.
pub enum Step<T> {
    Skip,
    Keep(T),
    Fail(Seq<char>),
}

/// Whether a result is what a step says.
pub open spec fn follows<T>(result: SqlResult<Option<T>>, step: Step<T>) -> bool {
    match step {
        Step::Skip => result matches Ok(None),
        Step::Keep(value) => result matches Ok(Some(kept)) && kept == value,
        Step::Fail(message) => fails_unsupported(result, message),
    }
}

/// Both values, where both are kept. The first failure counts.
pub open spec fn both<A, B>(first: Step<A>, second: Step<B>) -> Step<(A, B)> {
    match (first, second) {
        (Step::Fail(message), _) => Step::Fail(message),
        (_, Step::Fail(message)) => Step::Fail(message),
        (Step::Keep(left), Step::Keep(right)) => Step::Keep((left, right)),
        _ => Step::Skip,
    }
}

/// Both values, where both are kept. The first failure counts.
pub fn read_both<A, B>(first: SqlResult<Option<A>>, second: SqlResult<Option<B>>) -> (result:
    SqlResult<Option<(A, B)>>)
    ensures
        forall|left: Step<A>, right: Step<B>|
            #[trigger] follows(first, left) && #[trigger] follows(second, right) ==> follows(
                result,
                both(left, right),
            ),
{
    match first {
        Err(error) => Err(error),
        Ok(left) => match second {
            Err(error) => Err(error),
            Ok(right) => match (left, right) {
                (Some(left), Some(right)) => Ok(Some((left, right))),
                _ => Ok(None),
            },
        },
    }
}

/// What the steps over the first `rows` rows keep, and the message of the failure that
/// ended them.
pub open spec fn gathered<T>(steps: spec_fn(int) -> Step<T>, rows: int) -> (
    Seq<T>,
    Option<Seq<char>>,
)
    decreases rows,
{
    if rows <= 0 {
        (Seq::empty(), None)
    } else {
        let (kept, failure) = gathered(steps, rows - 1);
        if failure is Some {
            (kept, failure)
        } else {
            match steps(rows - 1) {
                Step::Skip => (kept, None),
                Step::Keep(value) => (kept.push(value), None),
                Step::Fail(message) => (kept, Some(message)),
            }
        }
    }
}

/// A failure stays the outcome of the scan.
pub proof fn lemma_failure_stays<T>(steps: spec_fn(int) -> Step<T>, rows: int, more: int)
    requires
        rows <= more,
        gathered(steps, rows).1 is Some,
    ensures
        gathered(steps, more) == gathered(steps, rows),
    decreases more - rows,
{
    if rows < more {
        lemma_failure_stays(steps, rows, more - 1);
    }
}

/// Reading a row as an integer.
pub open spec fn integer_step(column: ColumnArray, row: int) -> Step<i64> {
    if column.null_at(row) {
        Step::Skip
    } else if column.is_integer() {
        Step::Keep(column.integer_at(row) as i64)
    } else {
        Step::Fail("expected integer column, got "@ + column.type_label@)
    }
}

/// Reading a row as a day number.
pub open spec fn day_step(column: ColumnArray, row: int) -> Step<i32> {
    if column.null_at(row) {
        Step::Skip
    } else if column.is_date() {
        Step::Keep(column.day_at(row))
    } else {
        Step::Fail("expected date column, got "@ + column.type_label@)
    }
}

/// Reads a row as an integer.
pub fn read_integer(column: &ColumnArray, row: usize) -> (result: SqlResult<Option<i64>>)
    requires
        column.well_formed(),
        row < column.rows(),
    ensures
        follows(result, integer_step(*column, row as int)),
{
    numeric_i64_value(column, row)
}

/// Reads a row as a day number.
pub fn read_day(column: &ColumnArray, row: usize) -> (result: SqlResult<Option<i32>>)
    requires
        column.well_formed(),
        row < column.rows(),
    ensures
        follows(result, day_step(*column, row as int)),
{
    date32_value(column, row)
}

/// A number of a numeric column: an integer, a floating-point number by the integer
/// that orders as it does, or a decimal by its units.
#[derive(Clone, Copy, Debug, PartialEq, Eq, Structural)]
pub enum Amount {
    Integer(i64),
    FloatOrder(i64),
    Decimal { units: i128, scale: i8 },
}

/// Reading a row as a number.
pub open spec fn amount_step(column: ColumnArray, row: int) -> Step<Amount> {
    if column.null_at(row) {
        Step::Skip
    } else {
        match column.data {
            ColumnData::Int32(values) => Step::Keep(Amount::Integer(values.values@[row] as i64)),
            ColumnData::Int64(values) => Step::Keep(Amount::Integer(values.values@[row])),
            ColumnData::Float64Order(values) => Step::Keep(
                Amount::FloatOrder(values.values@[row]),
            ),
            ColumnData::Decimal128 { values, scale } => Step::Keep(
                Amount::Decimal { units: values.values@[row], scale },
            ),
            ColumnData::DecimalInt64 { units, scale } => Step::Keep(
                Amount::Decimal { units: units.values@[row] as i128, scale },
            ),
            _ => Step::Fail("expected numeric column, got "@ + column.type_label@),
        }
    }
}

/// Reads a row as a number.
pub fn read_amount(column: &ColumnArray, row: usize) -> (result: SqlResult<Option<Amount>>)
    requires
        column.well_formed(),
        row < column.rows(),
    ensures
        follows(result, amount_step(*column, row as int)),
{
    if column.is_null(row) {
        return Ok(None);
    }
    match &column.data {
        ColumnData::Int32(values) => Ok(Some(Amount::Integer(values.values[row] as i64))),
        ColumnData::Int64(values) => Ok(Some(Amount::Integer(values.values[row]))),
        ColumnData::Float64Order(values) => Ok(Some(Amount::FloatOrder(values.values[row]))),
        ColumnData::Decimal128 { values, scale } => Ok(
            Some(Amount::Decimal { units: values.values[row], scale: *scale }),
        ),
        ColumnData::DecimalInt64 { units, scale } => Ok(
            Some(Amount::Decimal { units: units.values[row] as i128, scale: *scale }),
        ),
        _ => Err(
            SqlError::UnsupportedSql(
                joined("expected numeric column, got ", column.type_label.as_str()),
            ),
        ),
    }
}

/// A column that a scan asks for: any column of a name, or one that holds strings.
#[derive(Clone, Copy)]
pub enum ColumnWant<'a> {
    Any(&'a str),
    Strings(&'a str),
}

/// What a scan asks for, as a value.
pub struct WantedColumn {
    pub name: Seq<char>,
    pub strings: bool,
}

impl WantedColumn {
    /// Whether the batch has such a column.
    pub open spec fn met(self, batch: RecordBatch) -> bool {
        &&& batch.has_column(self.name)
        &&& self.strings ==> batch.column_named(self.name).data is Utf8
    }

    /// Whether an error says why the batch has no such column.
    pub open spec fn refused(self, batch: RecordBatch, error: SqlError) -> bool {
        if batch.has_column(self.name) {
            error.is_unsupported(self.name + " must be Utf8"@)
        } else {
            error.is_unknown_column(self.name)
        }
    }
}

/// Any column of a name.
pub open spec fn any_column(name: Seq<char>) -> WantedColumn {
    WantedColumn { name, strings: false }
}

/// A column of strings of a name.
pub open spec fn string_column(name: Seq<char>) -> WantedColumn {
    WantedColumn { name, strings: true }
}

/// What is asked for, as values.
pub open spec fn wanted(wants: Seq<ColumnWant>) -> Seq<WantedColumn> {
    wants.map_values(
        |want: ColumnWant|
            match want {
                ColumnWant::Any(name) => any_column(name@),
                ColumnWant::Strings(name) => string_column(name@),
            },
    )
}

/// Whether `index` is the first of the columns asked for that the batch lacks.
pub open spec fn first_unmet(batch: RecordBatch, wants: Seq<WantedColumn>, index: int) -> bool {
    &&& 0 <= index < wants.len()
    &&& !wants[index].met(batch)
    &&& forall|earlier: int| 0 <= earlier < index ==> (#[trigger] wants[earlier]).met(batch)
}

/// Whether the batch has every column asked for.
pub open spec fn all_met(batch: RecordBatch, wants: Seq<WantedColumn>) -> bool {
    forall|index: int| 0 <= index < wants.len() ==> (#[trigger] wants[index]).met(batch)
}

/// Whether an error speaks of the first column that the batch lacks.
pub open spec fn refused_first(
    batch: RecordBatch,
    wants: Seq<WantedColumn>,
    error: SqlError,
) -> bool {
    exists|index: int|
        #[trigger] first_unmet(batch, wants, index) && wants[index].refused(batch, error)
}

/// The columns asked for.
pub fn resolve_columns<'a>(batch: &'a RecordBatch, wants: &[ColumnWant<'_>]) -> (result: SqlResult<
    Vec<&'a ColumnArray>,
>)
    requires
        batch.well_formed(),
    ensures
        match result {
            Ok(columns) => {
                &&& all_met(*batch, wanted(wants@))
                &&& columns@.len() == wants@.len()
                &&& forall|index: int|
                    0 <= index < wants@.len() ==> resolved(
                        *batch,
                        wanted(wants@)[index],
                        *#[trigger] columns@[index],
                    )
            },
            Err(error) => !all_met(*batch, wanted(wants@)) && refused_first(
                *batch,
                wanted(wants@),
                error,
            ),
        },
{
    let mut columns: Vec<&'a ColumnArray> = Vec::new();
    let mut index: usize = 0;
    while index < wants.len()
        invariant
            batch.well_formed(),
            index <= wants@.len(),
            columns@.len() == index,
            forall|earlier: int|
                0 <= earlier < index ==> (#[trigger] wanted(wants@)[earlier]).met(*batch),
            forall|earlier: int|
                0 <= earlier < index ==> resolved(
                    *batch,
                    wanted(wants@)[earlier],
                    *#[trigger] columns@[earlier],
                ),
        decreases wants@.len() - index,
    {
        let (name, strings) = match wants[index] {
            ColumnWant::Any(name) => (name, false),
            ColumnWant::Strings(name) => (name, true),
        };
        let ghost want = wanted(wants@)[index as int];
        assert(want.name == name@ && want.strings == strings);
        match batch_column(batch, name) {
            Ok(column) => {
                let is_strings = match &column.data {
                    ColumnData::Utf8(_) => true,
                    _ => false,
                };
                if strings && !is_strings {
                    assert(first_unmet(*batch, wanted(wants@), index as int));
                    return Err(SqlError::UnsupportedSql(joined(name, " must be Utf8")));
                }
                columns.push(column);
            },
            Err(error) => {
                assert(first_unmet(*batch, wanted(wants@), index as int));
                return Err(error);
            },
        }
        index += 1;
    }
    Ok(columns)
}

/// Whether a column is the one asked for, with every row of the batch.
pub open spec fn resolved(batch: RecordBatch, want: WantedColumn, column: ColumnArray) -> bool {
    &&& column == batch.column_named(want.name)
    &&& column.well_formed()
    &&& column.rows() == batch.num_rows
    &&& want.strings ==> column.data is Utf8
}

/// The outcome of a scan: what the steps keep, where the batch has every column asked
/// for and no step fails.
pub open spec fn scanned<T>(
    batch: RecordBatch,
    wants: Seq<WantedColumn>,
    steps: spec_fn(int) -> Step<T>,
    result: SqlResult<Vec<T>>,
) -> bool {
    match result {
        Ok(kept) => all_met(batch, wants) && gathered(steps, batch.num_rows as int) == (
            kept@,
            None::<Seq<char>>,
        ),
        Err(error) => if all_met(batch, wants) {
            gathered(steps, batch.num_rows as int).1 matches Some(message)
                && error.is_unsupported(message)
        } else {
            refused_first(batch, wants, error)
        },
    }
}

/// The strings of a column that holds them.
pub open spec fn strings_in(column: ColumnArray) -> Vector<String> {
    column.data->Utf8_0
}

/// Whether a row of a column of strings is `expected`.
pub open spec fn string_is(column: ColumnArray, row: int, expected: Seq<char>) -> bool {
    strings_in(column).valid_at(row) && strings_in(column).values@[row]@ == expected
}

/// The string of a row, `None` where it is null.
pub fn read_string<'a>(column: &'a ColumnArray, row: usize) -> (string: Option<&'a String>)
    requires
        column.well_formed(),
        column.data is Utf8,
        row < column.rows(),
    ensures
        string == (if strings_in(*column).valid_at(row as int) {
            Some(&strings_in(*column).values@[row as int])
        } else {
            None
        }),
{
    match &column.data {
        ColumnData::Utf8(strings) => {
            if strings.is_null(row) {
                None
            } else {
                Some(&strings.values[row])
            }
        },
        _ => None,
    }
}

} // verus!
