//! Pairs collected from the rows of a batch by a function of several columns.
//!
//! Rows are taken in order. A row with a null in any column read is left out. The
//! first row that cannot be read, or for which the function fails, ends the
//! collection with its error.

use vstd::prelude::*;
use crate::columns::{date32_value, numeric_i64_value, BatchView, ColumnArray, ColumnData};
use crate::error::{fails_unsupported, SqlError, SqlResult};

verus! {

/// The values of a row. What a shape does not read is zero.
#[derive(Clone, Copy, Debug, PartialEq, Eq, Structural)]
pub struct PairRow {
    pub first: i64,
    pub second: i64,
    pub date: i32,
    pub value: i64,
}

/// Which columns of a row are read.
#[derive(Clone, Copy, Debug, PartialEq, Eq, Structural)]
pub enum PairShape {
    /// Two integers.
    TwoKeys,
    /// Two integers and a date.
    TwoKeysDate,
    /// Two integers and a date, with the same value for every row.
    TwoKeysDateConst(i64),
    /// Two integers, a date and an integer.
    TwoKeysDateValue,
}

impl PairShape {
    /// How many columns are read.
    pub open spec fn width(self) -> int {
        match self {
            PairShape::TwoKeys => 2,
            PairShape::TwoKeysDate => 3,
            PairShape::TwoKeysDateConst(_) => 3,
            PairShape::TwoKeysDateValue => 4,
        }
    }

    /// Whether a date is read.
    pub open spec fn dated(self) -> bool {
        !(self is TwoKeys)
    }
}

/// What comes of reading an integer: a null, a value, or the type that is no
/// integer.
pub open spec fn integer_outcome(column: ColumnArray, row: int) -> Result<Option<i64>, Seq<char>> {
    if column.null_at(row) {
        Ok(None)
    } else if column.is_integer() {
        Ok(Some(column.integer_at(row) as i64))
    } else {
        Err("expected integer column, got "@ + column.type_label@)
    }
}

/// What comes of reading a date.
pub open spec fn day_outcome(column: ColumnArray, row: int) -> Result<Option<i32>, Seq<char>> {
    if column.null_at(row) {
        Ok(None)
    } else if column.is_date() {
        Ok(Some(column.day_at(row)))
    } else {
        Err("expected date column, got "@ + column.type_label@)
    }
}

/// What comes of reading a row: the error of the first column that cannot be read,
/// nothing where one is null, and otherwise the values.
pub open spec fn row_outcome(columns: Seq<ColumnArray>, shape: PairShape, row: int) -> Result<
    Option<PairRow>,
    Seq<char>,
> {
    match (integer_outcome(columns[0], row), integer_outcome(columns[1], row)) {
        (Err(message), _) => Err(message),
        (_, Err(message)) => Err(message),
        (Ok(first), Ok(second)) => {
            let date: Result<Option<i32>, Seq<char>> = if shape.dated() {
                day_outcome(columns[2], row)
            } else {
                Ok(Some(0i32))
            };
            let value: Result<Option<i64>, Seq<char>> = match shape {
                PairShape::TwoKeysDateConst(value) => Ok(Some(value)),
                PairShape::TwoKeysDateValue => integer_outcome(columns[3], row),
                _ => Ok(Some(0i64)),
            };
            match (date, value) {
                (Err(message), _) => Err(message),
                (_, Err(message)) => Err(message),
                (Ok(date), Ok(value)) => match (first, second, date, value) {
                    (Some(first), Some(second), Some(date), Some(value)) => Ok(
                        Some(PairRow { first, second, date, value }),
                    ),
                    _ => Ok(None),
                },
            }
        },
    }
}

/// Whether the columns of a shape are there, with the given number of rows.
pub open spec fn columns_fit(columns: Seq<ColumnArray>, shape: PairShape, rows: int) -> bool {
    &&& columns.len() >= shape.width()
    &&& forall|index: int|
        0 <= index < columns.len() ==> (#[trigger] columns[index]).well_formed()
            && columns[index].rows() == rows
}

/// Reads a row.
fn read_row(
    columns: &[ColumnArray],
    shape: PairShape,
    row: usize,
    Ghost(rows): Ghost<int>,
) -> (result: SqlResult<Option<PairRow>>)
    requires
        columns_fit(columns@, shape, rows),
        row < rows,
    ensures
        match row_outcome(columns@, shape, row as int) {
            Ok(expected) => result == Ok::<Option<PairRow>, SqlError>(expected),
            Err(message) => fails_unsupported(result, message),
        },
{
    assert(columns@[0].well_formed() && columns@[1].well_formed());
    let first: Option<i64> = numeric_i64_value(&columns[0], row)?;
    let second: Option<i64> = numeric_i64_value(&columns[1], row)?;
    let date: Option<i32> = match shape {
        PairShape::TwoKeys => Some(0),
        _ => {
            assert(columns@[2].well_formed());
            date32_value(&columns[2], row)?
        },
    };
    let value: Option<i64> = match shape {
        PairShape::TwoKeysDateConst(value) => Some(value),
        PairShape::TwoKeysDateValue => {
            assert(columns@[3].well_formed());
            numeric_i64_value(&columns[3], row)?
        },
        _ => Some(0),
    };
    match (first, second, date, value) {
        (Some(first), Some(second), Some(date), Some(value)) => Ok(
            Some(PairRow { first, second, date, value }),
        ),
        _ => Ok(None),
    }
}

/// The pairs of the first `rows` rows whose answers hold a value.
pub open spec fn valued_pairs<V>(
    columns: Seq<ColumnArray>,
    shape: PairShape,
    answers: Seq<SqlResult<Option<V>>>,
    rows: int,
) -> Seq<(i64, V)>
    decreases rows,
{
    if rows <= 0 {
        Seq::empty()
    } else {
        match (row_outcome(columns, shape, rows - 1), answers[rows - 1]) {
            (Ok(Some(row)), Ok(Some(value))) => valued_pairs(
                columns,
                shape,
                answers,
                rows - 1,
            ).push(
                (row.first, value),
            ),
            _ => valued_pairs(columns, shape, answers, rows - 1),
        }
    }
}

/// Whether `answers` are what a function answered to the rows read in order: it is
/// asked about rows without nulls, and nothing is asked after it failed.
pub open spec fn answers_rows<V>(
    columns: Seq<ColumnArray>,
    shape: PairShape,
    asked: spec_fn(PairRow, SqlResult<Option<V>>) -> bool,
    answers: Seq<SqlResult<Option<V>>>,
) -> bool {
    &&& forall|row: int|
        0 <= row < answers.len() ==> match row_outcome(columns, shape, row) {
            Ok(Some(values)) => asked(values, #[trigger] answers[row]),
            Ok(None) => answers[row] == Ok::<Option<V>, SqlError>(None),
            Err(_) => false,
        }
    &&& forall|row: int| 0 <= row < answers.len() - 1 ==> (#[trigger] answers[row]) is Ok
}

/// The outcome of a collection over `rows` rows: all pairs where every row could be
/// read and no answer failed, and otherwise the error of the row that ended it.
pub open spec fn is_collection<V>(
    columns: Seq<ColumnArray>,
    shape: PairShape,
    rows: int,
    asked: spec_fn(PairRow, SqlResult<Option<V>>) -> bool,
    answers: Seq<SqlResult<Option<V>>>,
    result: SqlResult<Seq<(i64, V)>>,
) -> bool {
    &&& answers_rows(columns, shape, asked, answers)
    &&& answers.len() <= rows
    &&& match result {
        Ok(pairs) => answers.len() == rows && (rows > 0 ==> answers.last() is Ok) && pairs
            == valued_pairs(columns, shape, answers, rows),
        Err(error) => if answers.len() > 0 && answers.last() is Err {
            answers.last() == Err::<Option<V>, SqlError>(error)
        } else {
            &&& answers.len() < rows
            &&& row_outcome(columns, shape, answers.len() as int) matches Err(message)
                && error.is_unsupported(message)
        },
    }
}

/// The pairs of a result.
pub open spec fn pairs_of<V>(result: SqlResult<Vec<(i64, V)>>) -> SqlResult<Seq<(i64, V)>> {
    match result {
        Ok(pairs) => Ok(pairs@),
        Err(error) => Err(error),
    }
}

/// The pairs do not depend on answers to later rows.
proof fn lemma_valued_pairs_prefix<V>(
    columns: Seq<ColumnArray>,
    shape: PairShape,
    answers: Seq<SqlResult<Option<V>>>,
    next: SqlResult<Option<V>>,
    rows: int,
)
    requires
        0 <= rows <= answers.len(),
    ensures
        valued_pairs(columns, shape, answers.push(next), rows) == valued_pairs(
            columns,
            shape,
            answers,
            rows,
        ),
    decreases rows,
{
    if rows > 0 {
        lemma_valued_pairs_prefix(columns, shape, answers, next, rows - 1);
    }
}

/// Asks about the rows of columns in order and adds the pairs as they come.
fn collect_rows_into<V, F: Fn(PairRow) -> SqlResult<Option<V>>>(
    columns: &[ColumnArray],
    shape: PairShape,
    rows: usize,
    ask: F,
    Ghost(asked): Ghost<spec_fn(PairRow, SqlResult<Option<V>>) -> bool>,
    pairs: &mut Vec<(i64, V)>,
) -> (collected: (SqlResult<()>, Ghost<Seq<SqlResult<Option<V>>>>))
    requires
        columns_fit(columns@, shape, rows as int),
        forall|row: PairRow| #[trigger] ask.requires((row,)),
        forall|row: PairRow, answer: SqlResult<Option<V>>| #[trigger]
            ask.ensures((row,), answer) ==> asked(row, answer),
    ensures
        is_collection(
            columns@,
            shape,
            rows as int,
            asked,
            collected.1@,
            match collected.0 {
                Ok(_) => Ok(
                    valued_pairs(columns@, shape, collected.1@, collected.1@.len() as int),
                ),
                Err(error) => Err(error),
            },
        ),
        final(pairs)@ == old(pairs)@ + valued_pairs(
            columns@,
            shape,
            collected.1@,
            collected.1@.len() as int,
        ),
{
    let ghost start = pairs@;
    assert(pairs@ =~= start + valued_pairs(
        columns@,
        shape,
        Seq::<SqlResult<Option<V>>>::empty(),
        0,
    ));
    let ghost mut answers: Seq<SqlResult<Option<V>>> = Seq::empty();
    let mut row: usize = 0;
    while row < rows
        invariant
            columns_fit(columns@, shape, rows as int),
            forall|row: PairRow| #[trigger] ask.requires((row,)),
            forall|row: PairRow, answer: SqlResult<Option<V>>| #[trigger]
                ask.ensures((row,), answer) ==> asked(row, answer),
            row <= rows,
            answers.len() == row,
            answers_rows(columns@, shape, asked, answers),
            row > 0 ==> answers.last() is Ok,
            start == old(pairs)@,
            pairs@ == start + valued_pairs(columns@, shape, answers, row as int),
        decreases rows - row,
    {
        let ghost before = answers;
        match read_row(columns, shape, row, Ghost(rows as int)) {
            Err(error) => {
                return (Err(error), Ghost(answers));
            },
            Ok(None) => {
                proof {
                    answers = before.push(Ok(None));
                    lemma_valued_pairs_prefix(columns@, shape, before, Ok(None), row as int);
                    assert forall|done: int| 0 <= done < answers.len() - 1 implies (
                    #[trigger] answers[done]) is Ok by {
                        if done == row - 1 {
                            assert(before.last() is Ok);
                        } else {
                            assert(before[done] is Ok);
                        }
                    }
                    assert forall|done: int| 0 <= done < answers.len() implies match row_outcome(
                        columns@,
                        shape,
                        done,
                    ) {
                        Ok(Some(values)) => asked(values, #[trigger] answers[done]),
                        Ok(None) => answers[done] == Ok::<Option<V>, SqlError>(None),
                        Err(_) => false,
                    } by {
                        if done < row {
                            assert(answers[done] == before[done]);
                        }
                    }
                }
            },
            Ok(Some(values)) => {
                let answer = ask(values);
                proof {
                    answers = before.push(answer);
                    lemma_valued_pairs_prefix(columns@, shape, before, answer, row as int);
                    assert forall|done: int| 0 <= done < answers.len() - 1 implies (
                    #[trigger] answers[done]) is Ok by {
                        if done == row - 1 {
                            assert(before.last() is Ok);
                        } else {
                            assert(before[done] is Ok);
                        }
                    }
                    assert forall|done: int| 0 <= done < answers.len() implies match row_outcome(
                        columns@,
                        shape,
                        done,
                    ) {
                        Ok(Some(values)) => asked(values, #[trigger] answers[done]),
                        Ok(None) => answers[done] == Ok::<Option<V>, SqlError>(None),
                        Err(_) => false,
                    } by {
                        if done < row {
                            assert(answers[done] == before[done]);
                        }
                    }
                }
                match answer {
                    Ok(Some(value)) => {
                        pairs.push((values.first, value));
                        assert(pairs@ =~= start + valued_pairs(columns@, shape, answers, row + 1));
                    },
                    Ok(None) => {},
                    Err(error) => {
                        return (Err(error), Ghost(answers));
                    },
                }
            },
        }
        row += 1;
    }
    (Ok(()), Ghost(answers))
}

/// Asks about the rows of columns in order.
fn collect_rows<V, F: Fn(PairRow) -> SqlResult<Option<V>>>(
    columns: &[ColumnArray],
    shape: PairShape,
    rows: usize,
    ask: F,
    Ghost(asked): Ghost<spec_fn(PairRow, SqlResult<Option<V>>) -> bool>,
) -> (collected: (SqlResult<Vec<(i64, V)>>, Ghost<Seq<SqlResult<Option<V>>>>))
    requires
        columns_fit(columns@, shape, rows as int),
        forall|row: PairRow| #[trigger] ask.requires((row,)),
        forall|row: PairRow, answer: SqlResult<Option<V>>| #[trigger]
            ask.ensures((row,), answer) ==> asked(row, answer),
    ensures
        is_collection(
            columns@,
            shape,
            rows as int,
            asked,
            collected.1@,
            pairs_of(collected.0),
        ),
{
    let mut pairs: Vec<(i64, V)> = Vec::new();
    let (result, answers) = collect_rows_into(columns, shape, rows, ask, Ghost(asked), &mut pairs);
    match result {
        Ok(()) => {
            assert(pairs@ =~= valued_pairs(columns@, shape, answers@, answers@.len() as int));
            (Ok(pairs), answers)
        },
        Err(error) => (Err(error), answers),
    }
}

/// Whether columns hold integers stored in 64 bits, and a date where one is read.
pub open spec fn stored_as_vectors(columns: Seq<ColumnArray>, shape: PairShape) -> bool {
    &&& columns.len() == shape.width()
    &&& columns[0].data is Int64
    &&& columns[1].data is Int64
    &&& shape.dated() ==> columns[2].data is Date32
    &&& shape is TwoKeysDateValue ==> columns[3].data is Int64
}

/// Whether a view can be read: its columns are stored as vectors, or there is a
/// record batch behind it.
pub open spec fn view_readable(view: BatchView, shape: PairShape) -> bool {
    stored_as_vectors(view.batch.columns@, shape) || view.record_backed
}

/// Whether columns are stored as vectors.
fn are_vectors(columns: &[ColumnArray], shape: PairShape) -> (are: bool)
    ensures
        are == stored_as_vectors(columns@, shape),
{
    let width: usize = match shape {
        PairShape::TwoKeys => 2,
        PairShape::TwoKeysDate => 3,
        PairShape::TwoKeysDateConst(_) => 3,
        PairShape::TwoKeysDateValue => 4,
    };
    if columns.len() != width {
        return false;
    }
    let keys = matches!(&columns[0].data, ColumnData::Int64(_)) && matches!(
        &columns[1].data,
        ColumnData::Int64(_)
    );
    if !keys {
        return false;
    }
    match shape {
        PairShape::TwoKeys => true,
        PairShape::TwoKeysDateValue => matches!(&columns[2].data, ColumnData::Date32(_))
            && matches!(&columns[3].data, ColumnData::Int64(_)),
        _ => matches!(&columns[2].data, ColumnData::Date32(_)),
    }
}

/// What a function of two integers may answer to a row.
pub open spec fn asked_two<V, F: Fn(i64, i64) -> SqlResult<Option<V>>>(map: F) -> spec_fn(
    PairRow,
    SqlResult<Option<V>>,
) -> bool {
    |row: PairRow, answer: SqlResult<Option<V>>| map.ensures((row.first, row.second), answer)
}

/// What a function of two integers and a date may answer to a row.
pub open spec fn asked_dated<V, F: Fn(i64, i64, i32) -> SqlResult<Option<V>>>(map: F) -> spec_fn(
    PairRow,
    SqlResult<Option<V>>,
) -> bool {
    |row: PairRow, answer: SqlResult<Option<V>>| map.ensures(
        (row.first, row.second, row.date),
        answer,
    )
}

/// What a function of two integers, a date and a value may answer to a row.
pub open spec fn asked_valued<V, F: Fn(i64, i64, i32, i64) -> SqlResult<Option<V>>>(map: F) -> spec_fn(
    PairRow,
    SqlResult<Option<V>>,
) -> bool {
    |row: PairRow, answer: SqlResult<Option<V>>| map.ensures(
        (row.first, row.second, row.date, row.value),
        answer,
    )
}

/// Pairs the first integer of each row with what `map` makes of both.
pub fn collect_i64_i64_pairs_view<V, F: Fn(i64, i64) -> SqlResult<Option<V>>>(
    view: &BatchView,
    unsupported_message: &str,
    map: F,
) -> (result: SqlResult<Vec<(i64, V)>>)
    requires
        view.well_formed(),
        view_readable(*view, PairShape::TwoKeys) ==> view.batch.columns@.len() >= 2,
        forall|first: i64, second: i64| #[trigger] map.requires((first, second)),
    ensures
        if view_readable(*view, PairShape::TwoKeys) {
            exists|answers: Seq<SqlResult<Option<V>>>| #[trigger]
                is_collection(
                    view.batch.columns@,
                    PairShape::TwoKeys,
                    view.batch.num_rows as int,
                    asked_two::<V, F>(map),
                    answers,
                    pairs_of(result),
                )
        } else {
            fails_unsupported(result, unsupported_message@)
        },
{
    if !are_vectors(view.batch.columns.as_slice(), PairShape::TwoKeys) && !view.record_backed {
        return Err(SqlError::unsupported(unsupported_message));
    }
    let mapping = &map;
    let ask = |row: PairRow| -> (answer: SqlResult<Option<V>>)
        requires
            mapping.requires((row.first, row.second)),
        ensures
            mapping.ensures((row.first, row.second), answer),
    {
        mapping(row.first, row.second)
    };
    let (result, answers) = collect_rows(
        view.batch.columns.as_slice(),
        PairShape::TwoKeys,
        view.batch.num_rows,
        ask,
        Ghost(asked_two::<V, F>(map)),
    );
    proof {
        assert(is_collection(
            view.batch.columns@,
            PairShape::TwoKeys,
            view.batch.num_rows as int,
            asked_two::<V, F>(map),
            answers@,
            pairs_of(result),
        ));
    }
    result
}

/// Pairs the first integer of each row with what `map` makes of both and a date.
pub fn collect_i64_i64_date32_pairs_view<V, F: Fn(i64, i64, i32) -> SqlResult<Option<V>>>(
    view: &BatchView,
    unsupported_message: &str,
    map: F,
) -> (result: SqlResult<Vec<(i64, V)>>)
    requires
        view.well_formed(),
        view_readable(*view, PairShape::TwoKeysDate) ==> view.batch.columns@.len() >= 3,
        forall|first: i64, second: i64, date: i32| #[trigger] map.requires((first, second, date)),
    ensures
        if view_readable(*view, PairShape::TwoKeysDate) {
            exists|answers: Seq<SqlResult<Option<V>>>| #[trigger]
                is_collection(
                    view.batch.columns@,
                    PairShape::TwoKeysDate,
                    view.batch.num_rows as int,
                    asked_dated::<V, F>(map),
                    answers,
                    pairs_of(result),
                )
        } else {
            fails_unsupported(result, unsupported_message@)
        },
{
    if !are_vectors(view.batch.columns.as_slice(), PairShape::TwoKeysDate) && !view.record_backed {
        return Err(SqlError::unsupported(unsupported_message));
    }
    let mapping = &map;
    let ask = |row: PairRow| -> (answer: SqlResult<Option<V>>)
        requires
            mapping.requires((row.first, row.second, row.date)),
        ensures
            mapping.ensures((row.first, row.second, row.date), answer),
    {
        mapping(row.first, row.second, row.date)
    };
    let (result, answers) = collect_rows(
        view.batch.columns.as_slice(),
        PairShape::TwoKeysDate,
        view.batch.num_rows,
        ask,
        Ghost(asked_dated::<V, F>(map)),
    );
    proof {
        assert(is_collection(
            view.batch.columns@,
            PairShape::TwoKeysDate,
            view.batch.num_rows as int,
            asked_dated::<V, F>(map),
            answers@,
            pairs_of(result),
        ));
    }
    result
}

/// The shape of a view that may lack its value column: four columns, or three with
/// a value for every row given.
pub open spec fn optional_shape(view: BatchView, optional_value: Option<i64>) -> Option<PairShape> {
    let columns = view.batch.columns@;
    if columns.len() == 3 && optional_value is Some {
        Some(PairShape::TwoKeysDateConst(optional_value->0))
    } else if columns.len() == 4 {
        Some(PairShape::TwoKeysDateValue)
    } else {
        None
    }
}

/// Whether a result is the pairs of a view, or the error that ended their collection.
pub open spec fn collects_alone<V>(
    view: BatchView,
    unsupported_message: Seq<char>,
    optional_value: Option<i64>,
    asked: spec_fn(PairRow, SqlResult<Option<V>>) -> bool,
    result: SqlResult<Vec<(i64, V)>>,
) -> bool {
    match optional_shape(view, optional_value) {
        Some(shape) => if view_readable(view, shape) {
            exists|answers: Seq<SqlResult<Option<V>>>| #[trigger]
                is_collection(
                    view.batch.columns@,
                    shape,
                    view.batch.num_rows as int,
                    asked,
                    answers,
                    pairs_of(result),
                )
        } else {
            fails_unsupported(result, unsupported_message)
        },
        None => fails_unsupported(result, unsupported_message),
    }
}

/// Whether pairs are those before with what the collection of a view added.
pub open spec fn collects_behind<V>(
    view: BatchView,
    unsupported_message: Seq<char>,
    optional_value: Option<i64>,
    asked: spec_fn(PairRow, SqlResult<Option<V>>) -> bool,
    before: Seq<(i64, V)>,
    after: Seq<(i64, V)>,
    result: SqlResult<()>,
) -> bool {
    match optional_shape(view, optional_value) {
        Some(shape) => if view_readable(view, shape) {
            exists|answers: Seq<SqlResult<Option<V>>>, added: SqlResult<Seq<(i64, V)>>| #[trigger]
                is_collection(
                    view.batch.columns@,
                    shape,
                    view.batch.num_rows as int,
                    asked,
                    answers,
                    added,
                ) && match added {
                    Ok(more) => result is Ok && after == before + more,
                    Err(error) => result == Err::<(), SqlError>(error) && after == (
                    if stored_as_vectors(view.batch.columns@, shape) {
                        before + found_pairs(view.batch.columns@, shape, answers)
                    } else {
                        before
                    }),
                }
        } else {
            fails_unsupported(result, unsupported_message) && after == before
        },
        None => fails_unsupported(result, unsupported_message) && after == before,
    }
}

/// Pairs depend on the answers to their rows alone.
proof fn lemma_valued_pairs_agree<V>(
    columns: Seq<ColumnArray>,
    shape: PairShape,
    left: Seq<SqlResult<Option<V>>>,
    right: Seq<SqlResult<Option<V>>>,
    rows: int,
)
    requires
        forall|row: int| 0 <= row < rows ==> #[trigger] left[row] == right[row],
    ensures
        valued_pairs(columns, shape, left, rows) == valued_pairs(columns, shape, right, rows),
    decreases rows,
{
    if rows > 0 {
        lemma_valued_pairs_agree(columns, shape, left, right, rows - 1);
        assert(left[rows - 1] == right[rows - 1]);
    }
}

/// A function that gives one answer to each row and never fails answers every row that can
/// be read before one that cannot.
proof fn lemma_pure_answers<V>(
    columns: Seq<ColumnArray>,
    shape: PairShape,
    rows: int,
    asked: spec_fn(PairRow, SqlResult<Option<V>>) -> bool,
    pure: spec_fn(PairRow) -> Option<V>,
    answers: Seq<SqlResult<Option<V>>>,
    result: SqlResult<Seq<(i64, V)>>,
)
    requires
        is_collection(columns, shape, rows, asked, answers, result),
        forall|row: PairRow, answer: SqlResult<Option<V>>| #[trigger]
            asked(row, answer) ==> answer == Ok::<Option<V>, SqlError>(pure(row)),
    ensures
        forall|row: int|
            0 <= row < answers.len() ==> #[trigger] answers[row] == (match row_outcome(
                columns,
                shape,
                row,
            ) {
                Ok(Some(values)) => Ok::<Option<V>, SqlError>(pure(values)),
                _ => Ok::<Option<V>, SqlError>(None),
            }),
        result is Err ==> answers.len() < rows && row_outcome(
            columns,
            shape,
            answers.len() as int,
        ) is Err,
{
    assert forall|row: int| 0 <= row < answers.len() implies #[trigger] answers[row] == (
    match row_outcome(columns, shape, row) {
        Ok(Some(values)) => Ok::<Option<V>, SqlError>(pure(values)),
        _ => Ok::<Option<V>, SqlError>(None),
    }) by {
        match row_outcome(columns, shape, row) {
            Ok(Some(values)) => {
                assert(asked(values, answers[row]));
            },
            _ => {},
        }
    }
    if answers.len() > 0 {
        assert(answers[answers.len() - 1] is Ok);
    }
}

/// Collecting behind a list gives that list followed by what collecting alone gives, for a
/// function that gives one answer to each row and never fails. Where collecting alone
/// fails, so does collecting behind the list, which stays as it was.
pub proof fn law_collecting_behind_a_list<V>(
    view: BatchView,
    unsupported_message: Seq<char>,
    optional_value: Option<i64>,
    asked: spec_fn(PairRow, SqlResult<Option<V>>) -> bool,
    pure: spec_fn(PairRow) -> Option<V>,
    alone: SqlResult<Vec<(i64, V)>>,
    before: Seq<(i64, V)>,
    after: Seq<(i64, V)>,
    behind: SqlResult<()>,
)
    requires
        forall|row: PairRow, answer: SqlResult<Option<V>>| #[trigger]
            asked(row, answer) ==> answer == Ok::<Option<V>, SqlError>(pure(row)),
        collects_alone(view, unsupported_message, optional_value, asked, alone),
        collects_behind(
            view,
            unsupported_message,
            optional_value,
            asked,
            before,
            after,
            behind,
        ),
    ensures
        match alone {
            Ok(pairs) => behind is Ok && after == before + pairs@,
            Err(_) => behind is Err && after == before,
        },
{
    match optional_shape(view, optional_value) {
        Some(shape) => {
            if view_readable(view, shape) {
                let columns = view.batch.columns@;
                let rows = view.batch.num_rows as int;
                let first = choose|answers: Seq<SqlResult<Option<V>>>| #[trigger]
                    is_collection(columns, shape, rows, asked, answers, pairs_of(alone));
                let (second, added) = choose|
                    answers: Seq<SqlResult<Option<V>>>,
                    added: SqlResult<Seq<(i64, V)>>,
                | #[trigger]
                    is_collection(columns, shape, rows, asked, answers, added) && match added {
                        Ok(more) => behind is Ok && after == before + more,
                        Err(error) => behind == Err::<(), SqlError>(error) && after == (
                        if stored_as_vectors(columns, shape) {
                            before + found_pairs(columns, shape, answers)
                        } else {
                            before
                        }),
                    };
                lemma_pure_answers(columns, shape, rows, asked, pure, first, pairs_of(alone));
                lemma_pure_answers(columns, shape, rows, asked, pure, second, added);
                if alone is Ok && added is Err {
                    let answer = first[second.len() as int];
                    assert(row_outcome(columns, shape, second.len() as int) is Ok);
                }
                if alone is Err && added is Ok {
                    let answer = second[first.len() as int];
                    assert(row_outcome(columns, shape, first.len() as int) is Ok);
                }
                if alone is Ok {
                    lemma_valued_pairs_agree(columns, shape, first, second, rows);
                } else {
                    assert(row_outcome(columns, shape, second.len() as int) is Err);
                    assert(!stored_as_vectors(columns, shape));
                }
            }
        },
        None => {},
    }
}

/// Pairs the first integer of each row with what `map` makes of two integers, a
/// date and a value, which is `optional_value` where the view has no column for it.
pub fn collect_i64_i64_date32_optional_i64_pairs_view<
    V,
    F: Fn(i64, i64, i32, i64) -> SqlResult<Option<V>>,
>(
    view: &BatchView,
    unsupported_message: &str,
    optional_value: Option<i64>,
    map: F,
) -> (result: SqlResult<
    Vec<(i64, V)>,
>)
    requires
        view.well_formed(),
        forall|first: i64, second: i64, date: i32, value: i64| #[trigger]
            map.requires((first, second, date, value)),
    ensures
        collects_alone(
            *view,
            unsupported_message@,
            optional_value,
            asked_valued::<V, F>(map),
            result,
        ),
{
    let width: usize = view.batch.columns.len();
    let shape: PairShape = match optional_value {
        Some(value) => if width == 3 {
            PairShape::TwoKeysDateConst(value)
        } else if width == 4 {
            PairShape::TwoKeysDateValue
        } else {
            return Err(SqlError::unsupported(unsupported_message));
        },
        None => if width == 4 {
            PairShape::TwoKeysDateValue
        } else {
            return Err(SqlError::unsupported(unsupported_message));
        },
    };
    if !are_vectors(view.batch.columns.as_slice(), shape) && !view.record_backed {
        return Err(SqlError::unsupported(unsupported_message));
    }
    let mapping = &map;
    let ask = |row: PairRow| -> (answer: SqlResult<Option<V>>)
        requires
            mapping.requires((row.first, row.second, row.date, row.value)),
        ensures
            mapping.ensures((row.first, row.second, row.date, row.value), answer),
    {
        mapping(row.first, row.second, row.date, row.value)
    };
    let (result, answers) = collect_rows(
        view.batch.columns.as_slice(),
        shape,
        view.batch.num_rows,
        ask,
        Ghost(asked_valued::<V, F>(map)),
    );
    proof {
        assert(is_collection(
            view.batch.columns@,
            shape,
            view.batch.num_rows as int,
            asked_valued::<V, F>(map),
            answers@,
            pairs_of(result),
        ));
    }
    result
}

/// The pairs that a collection found before it ended.
pub open spec fn found_pairs<V>(
    columns: Seq<ColumnArray>,
    shape: PairShape,
    answers: Seq<SqlResult<Option<V>>>,
) -> Seq<(i64, V)> {
    valued_pairs(columns, shape, answers, answers.len() as int)
}

/// Adds the pairs of a view to those collected so far.
///
/// Pairs of columns stored as vectors are added as they are found, also where the
/// collection ends in an error; otherwise they are added only where it does not.
pub fn collect_i64_i64_date32_optional_i64_pairs_view_into<
    V,
    F: Fn(i64, i64, i32, i64) -> SqlResult<Option<V>>,
>(
    view: &BatchView,
    unsupported_message: &str,
    optional_value: Option<i64>,
    pairs: &mut Vec<(i64, V)>,
    map: F,
) -> (result: SqlResult<()>)
    requires
        view.well_formed(),
        forall|first: i64, second: i64, date: i32, value: i64| #[trigger]
            map.requires((first, second, date, value)),
    ensures
        collects_behind(
            *view,
            unsupported_message@,
            optional_value,
            asked_valued::<V, F>(map),
            old(pairs)@,
            final(pairs)@,
            result,
        ),
{
    let width: usize = view.batch.columns.len();
    let shape: PairShape = match optional_value {
        Some(value) if width == 3 => PairShape::TwoKeysDateConst(value),
        _ => PairShape::TwoKeysDateValue,
    };
    if !are_vectors(view.batch.columns.as_slice(), shape) {
        let found = collect_i64_i64_date32_optional_i64_pairs_view(
            view,
            unsupported_message,
            optional_value,
            map,
        );
        return match found {
            Ok(more) => {
                let mut more = more;
                pairs.append(&mut more);
                Ok(())
            },
            Err(error) => Err(error),
        };
    }
    let mapping = &map;
    let ask = |row: PairRow| -> (answer: SqlResult<Option<V>>)
        requires
            mapping.requires((row.first, row.second, row.date, row.value)),
        ensures
            mapping.ensures((row.first, row.second, row.date, row.value), answer),
    {
        mapping(row.first, row.second, row.date, row.value)
    };
    let (result, answers) = collect_rows_into(
        view.batch.columns.as_slice(),
        shape,
        view.batch.num_rows,
        ask,
        Ghost(asked_valued::<V, F>(map)),
        pairs,
    );
    proof {
        let added: SqlResult<Seq<(i64, V)>> = if result is Ok {
            Ok(found_pairs(view.batch.columns@, shape, answers@))
        } else {
            Err(result->Err_0)
        };
        assert(is_collection(
            view.batch.columns@,
            shape,
            view.batch.num_rows as int,
            asked_valued::<V, F>(map),
            answers@,
            added,
        ));
    }
    result
}

} // verus!
