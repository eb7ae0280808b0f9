//! Ordering the rows of finished batches.

use vstd::prelude::*;
use crate::columns::{ColumnArray, ColumnData, RecordBatch};
use crate::error::{fails_unsupported, SqlError, SqlResult};
use crate::plan::{SortExpr, SortKey};
use crate::streaming_topk::{has_name, index_named, output_batch_column_index};
use crate::text::{
    comes_before, law_comes_before_irreflexive, law_comes_before_total, law_comes_before_transitive,
    str_less,
};

verus! {

/// A value that a batch can be ordered by.
pub enum OrderValue {
    Int32(i32),
    Date32(i32),
    Int64(i64),
    Utf8(Seq<char>),
}

impl OrderValue {
    /// Where values of this kind stand among the kinds.
    pub open spec fn kind(self) -> int {
        match self {
            OrderValue::Int32(_) => 0,
            OrderValue::Date32(_) => 1,
            OrderValue::Int64(_) => 2,
            OrderValue::Utf8(_) => 3,
        }
    }

    /// Whether this value comes before `other`; values of different kinds order by
    /// kind.
    pub open spec fn precedes(self, other: OrderValue) -> bool {
        match (self, other) {
            (OrderValue::Int32(left), OrderValue::Int32(right)) => left < right,
            (OrderValue::Date32(left), OrderValue::Date32(right)) => left < right,
            (OrderValue::Int64(left), OrderValue::Int64(right)) => left < right,
            (OrderValue::Utf8(left), OrderValue::Utf8(right)) => comes_before(left, right),
            _ => self.kind() < other.kind(),
        }
    }
}

/// A value that a batch can be ordered by, read from a column.
pub enum ScalarOrderValue {
    Int32(i32),
    Date32(i32),
    Int64(i64),
    Utf8(String),
}

impl ScalarOrderValue {
    /// The value.
    pub open spec fn value(self) -> OrderValue {
        match self {
            ScalarOrderValue::Int32(value) => OrderValue::Int32(value),
            ScalarOrderValue::Date32(value) => OrderValue::Date32(value),
            ScalarOrderValue::Int64(value) => OrderValue::Int64(value),
            ScalarOrderValue::Utf8(text) => OrderValue::Utf8(text@),
        }
    }

    /// Whether this value comes before `other`.
    pub fn less(&self, other: &ScalarOrderValue) -> (less: bool)
        ensures
            less == self.value().precedes(other.value()),
    {
        match (self, other) {
            (ScalarOrderValue::Int32(left), ScalarOrderValue::Int32(right)) => *left < *right,
            (ScalarOrderValue::Date32(left), ScalarOrderValue::Date32(right)) => *left < *right,
            (ScalarOrderValue::Int64(left), ScalarOrderValue::Int64(right)) => *left < *right,
            (ScalarOrderValue::Utf8(left), ScalarOrderValue::Utf8(right)) => {
                str_less(left.as_str(), right.as_str())
            },
            _ => self.kind_number() < other.kind_number(),
        }
    }

    fn kind_number(&self) -> (kind: u8)
        ensures
            kind == self.value().kind(),
    {
        match self {
            ScalarOrderValue::Int32(_) => 0,
            ScalarOrderValue::Date32(_) => 1,
            ScalarOrderValue::Int64(_) => 2,
            ScalarOrderValue::Utf8(_) => 3,
        }
    }
}

/// Whether rows can be ordered by such a column.
pub open spec fn orderable(column: ColumnArray) -> bool {
    column.data is Int32 || column.data is Date32 || column.data is Int64 || column.data is Utf8
}

/// The value of a row that is not null, of a column that rows can be ordered by.
pub open spec fn value_at(column: ColumnArray, row: int) -> OrderValue {
    match column.data {
        ColumnData::Int32(vector) => OrderValue::Int32(vector.values@[row]),
        ColumnData::Date32(vector) => OrderValue::Date32(vector.values@[row]),
        ColumnData::Int64(vector) => OrderValue::Int64(vector.values@[row]),
        ColumnData::Utf8(vector) => OrderValue::Utf8(vector.values@[row]@),
        _ => OrderValue::Int32(0),
    }
}

/// Reads the value of a row for ordering.
pub fn scalar_order_value(column: &ColumnArray, row: usize) -> (result: SqlResult<ScalarOrderValue>)
    requires
        column.well_formed(),
        row < column.rows(),
    ensures
        if !orderable(*column) {
            fails_unsupported(result, "ordered batch boundary type is unsupported"@)
        } else if column.null_at(row as int) {
            fails_unsupported(result, "ordered batch boundary contains NULL"@)
        } else {
            result matches Ok(value) && value.value() == value_at(*column, row as int)
        },
{
    let value = match &column.data {
        ColumnData::Int32(vector) => ScalarOrderValue::Int32(vector.values[row]),
        ColumnData::Date32(vector) => ScalarOrderValue::Date32(vector.values[row]),
        ColumnData::Int64(vector) => ScalarOrderValue::Int64(vector.values[row]),
        ColumnData::Utf8(vector) => ScalarOrderValue::Utf8(vector.values[row].clone()),
        _ => {
            return Err(SqlError::unsupported("ordered batch boundary type is unsupported"));
        },
    };
    if column.is_null(row) {
        return Err(SqlError::unsupported("ordered batch boundary contains NULL"));
    }
    Ok(value)
}

/// Whether each row but the first holds a value no smaller than the row before,
/// which holds one too.
pub open spec fn column_ascends(column: ColumnArray) -> bool {
    forall|row: int|
        1 <= row < column.rows() ==> !column.null_at(row - 1) && !column.null_at(row)
            && !(#[trigger] value_at(column, row)).precedes(value_at(column, row - 1))
}

/// Whether an order is by one column, smallest value first, nulls last.
pub open spec fn single_ascending(order_by: SortKey) -> bool {
    &&& order_by.expressions@.len() == 1
    &&& !order_by.expressions@[0].descending
    &&& !order_by.expressions@[0].nulls_first
}

/// The column that a batch is ordered by.
pub open spec fn sort_column(batch: RecordBatch, order_by: SortKey) -> ColumnArray {
    batch.columns@[index_named(batch, order_by.expressions@[0].column@)]
}

/// The outcome of asking whether a batch is in order already. It is only found to
/// be for an order by one column, smallest first, nulls last.
pub open spec fn is_batch_order(
    batch: RecordBatch,
    order_by: SortKey,
    result: SqlResult<bool>,
) -> bool {
    if !single_ascending(order_by) {
        result == Ok::<bool, SqlError>(false)
    } else if !has_name(batch, order_by.expressions@[0].column@) {
        result matches Err(error) && error.is_unknown_column(order_by.expressions@[0].column@)
    } else {
        result == Ok::<bool, SqlError>(
            orderable(sort_column(batch, order_by)) && column_ascends(sort_column(batch, order_by)),
        )
    }
}

/// Whether a batch is in order already.
pub fn output_batch_satisfies_order(batch: &RecordBatch, order_by: &SortKey) -> (result: SqlResult<
    bool,
>)
    requires
        batch.well_formed(),
    ensures
        is_batch_order(*batch, *order_by, result),
{
    if order_by.expressions.len() != 1 {
        return Ok(false);
    }
    let sort = &order_by.expressions[0];
    if sort.descending || sort.nulls_first {
        return Ok(false);
    }
    let index: usize = match output_batch_column_index(batch, sort.column.as_str()) {
        Ok(index) => index,
        Err(error) => {
            return Err(error);
        },
    };
    let column = &batch.columns[index];
    assert(column.well_formed() && column.rows() == batch.num_rows);
    match &column.data {
        ColumnData::Int32(_) | ColumnData::Date32(_) | ColumnData::Int64(_) | ColumnData::Utf8(
            _,
        ) => {},
        _ => {
            return Ok(false);
        },
    }
    let mut row: usize = 1;
    while row < batch.num_rows
        invariant
            batch.well_formed(),
            column.well_formed(),
            column.rows() == batch.num_rows,
            orderable(*column),
            1 <= row,
            forall|earlier: int|
                1 <= earlier < row && earlier < batch.num_rows ==> !column.null_at(earlier - 1)
                    && !column.null_at(earlier) && !(#[trigger] value_at(
                    *column,
                    earlier,
                )).precedes(value_at(*column, earlier - 1)),
        ensures
            row < batch.num_rows ==> !column_ascends(*column),
            row >= batch.num_rows ==> column_ascends(*column),
        decreases batch.num_rows - row,
    {
        let ghost current = value_at(*column, row as int);
        match (scalar_order_value(column, row - 1), scalar_order_value(column, row)) {
            (Ok(before), Ok(value)) => {
                if value.less(&before) {
                    assert(!column_ascends(*column));
                    break;
                }
            },
            _ => {
                assert(!column_ascends(*column));
                break;
            },
        }
        row += 1;
    }
    Ok(row >= batch.num_rows)
}

/// Whether every batch is in order by itself, with the error of the first that
/// cannot be asked.
pub open spec fn each_in_order(
    batches: Seq<RecordBatch>,
    order_by: SortKey,
    from: int,
    result: SqlResult<bool>,
) -> bool
    decreases batches.len() - from,
{
    if from < 0 || from >= batches.len() {
        result == Ok::<bool, SqlError>(true)
    } else if is_batch_order(batches[from], order_by, Ok(true)) {
        each_in_order(batches, order_by, from + 1, result)
    } else {
        is_batch_order(batches[from], order_by, result)
    }
}

/// Whether each batch that has rows starts no lower than the last row of the one
/// before; a null there is an error.
pub open spec fn boundaries_in_order(
    batches: Seq<RecordBatch>,
    order_by: SortKey,
    from: int,
    previous: Option<OrderValue>,
    result: SqlResult<bool>,
) -> bool
    decreases batches.len() - from,
{
    if from < 0 || from >= batches.len() {
        result == Ok::<bool, SqlError>(true)
    } else if batches[from].num_rows == 0 {
        boundaries_in_order(batches, order_by, from + 1, previous, result)
    } else {
        let column = sort_column(batches[from], order_by);
        let last = batches[from].num_rows - 1;
        if column.null_at(0) || column.null_at(last) {
            fails_unsupported(result, "ordered batch boundary contains NULL"@)
        } else if previous matches Some(previous) && value_at(column, 0).precedes(previous) {
            result == Ok::<bool, SqlError>(false)
        } else {
            boundaries_in_order(
                batches,
                order_by,
                from + 1,
                Some(value_at(column, last)),
                result,
            )
        }
    }
}

/// The outcome of asking whether batches are in order as a whole.
pub open spec fn is_batches_order(
    batches: Seq<RecordBatch>,
    order_by: SortKey,
    result: SqlResult<bool>,
) -> bool {
    if each_in_order(batches, order_by, 0, Ok(true)) {
        boundaries_in_order(batches, order_by, 0, None, result)
    } else {
        each_in_order(batches, order_by, 0, result)
    }
}

/// Whether batches are in order as a whole.
pub fn output_batches_satisfy_order(
    batches: &[RecordBatch],
    order_by: &SortKey,
) -> (result: SqlResult<
    bool,
>)
    requires
        forall|index: int| 0 <= index < batches@.len() ==> (#[trigger] batches@[index]).well_formed(),
    ensures
        is_batches_order(batches@, *order_by, result),
{
    let mut batch: usize = 0;
    while batch < batches.len()
        invariant
            forall|index: int|
                0 <= index < batches@.len() ==> (#[trigger] batches@[index]).well_formed(),
            batch <= batches@.len(),
            forall|earlier: int|
                0 <= earlier < batch ==> is_batch_order(
                    #[trigger] batches@[earlier],
                    *order_by,
                    Ok(true),
                ),
            forall|outcome: SqlResult<bool>| #[trigger]
                each_in_order(batches@, *order_by, 0, outcome) == each_in_order(
                    batches@,
                    *order_by,
                    batch as int,
                    outcome,
                ),
        decreases batches@.len() - batch,
    {
        match output_batch_satisfies_order(&batches[batch], order_by) {
            Ok(true) => {},
            Ok(false) => {
                return Ok(false);
            },
            Err(error) => {
                return Err(error);
            },
        }
        batch += 1;
    }
    let mut previous: Option<ScalarOrderValue> = None;
    let ghost mut before: Option<OrderValue> = None;
    batch = 0;
    while batch < batches.len()
        invariant
            forall|index: int|
                0 <= index < batches@.len() ==> (#[trigger] batches@[index]).well_formed(),
            batch <= batches@.len(),
            forall|index: int|
                0 <= index < batches@.len() ==> is_batch_order(
                    #[trigger] batches@[index],
                    *order_by,
                    Ok(true),
                ),
            each_in_order(batches@, *order_by, 0, Ok(true)),
            before == (match previous {
                Some(value) => Some(value.value()),
                None => None,
            }),
            forall|outcome: SqlResult<bool>| #[trigger]
                boundaries_in_order(batches@, *order_by, 0, None, outcome) == boundaries_in_order(
                    batches@,
                    *order_by,
                    batch as int,
                    before,
                    outcome,
                ),
        decreases batches@.len() - batch,
    {
        let current = &batches[batch];
        assert(is_batch_order(*current, *order_by, Ok(true)));
        if current.num_rows > 0 {
            let name = order_by.expressions[0].column.as_str();
            let index: usize = match output_batch_column_index(current, name) {
                Ok(index) => index,
                Err(error) => {
                    return Err(error);
                },
            };
            let column = &current.columns[index];
            assert(column.well_formed() && column.rows() == current.num_rows);
            let first = match scalar_order_value(column, 0) {
                Ok(first) => first,
                Err(error) => {
                    return Err(error);
                },
            };
            let last = match scalar_order_value(column, current.num_rows - 1) {
                Ok(last) => last,
                Err(error) => {
                    return Err(error);
                },
            };
            match &previous {
                Some(value) => {
                    if first.less(value) {
                        return Ok(false);
                    }
                },
                None => {},
            }
            proof {
                before = Some(last.value());
            }
            previous = Some(last);
        }
        batch += 1;
    }
    Ok(true)
}

/// Values order transitively.
pub proof fn law_precedes_transitive(first: OrderValue, second: OrderValue, third: OrderValue)
    requires
        !second.precedes(first),
        !third.precedes(second),
    ensures
        !third.precedes(first),
{
    match (first, second, third) {
        (OrderValue::Utf8(a), OrderValue::Utf8(b), OrderValue::Utf8(c)) => {
            if comes_before(c, a) {
                if b == c {
                } else {
                    law_comes_before_total(b, c);
                    law_comes_before_transitive(b, c, a);
                }
            }
        },
        _ => {},
    }
}

/// Within a batch in order, no later row holds a smaller value.
proof fn lemma_rows_ascend(column: ColumnArray, earlier: int, later: int)
    requires
        column_ascends(column),
        0 <= earlier <= later < column.rows(),
    ensures
        !value_at(column, later).precedes(value_at(column, earlier)),
    decreases later - earlier,
{
    if earlier == later {
        match value_at(column, later) {
            OrderValue::Utf8(text) => {
                law_comes_before_irreflexive(text);
            },
            _ => {},
        }
    } else {
        lemma_rows_ascend(column, earlier, later - 1);
        law_precedes_transitive(
            value_at(column, earlier),
            value_at(column, later - 1),
            value_at(column, later),
        );
    }
}

/// Whether each batch is in order by itself.
spec fn all_in_order(batches: Seq<RecordBatch>, order_by: SortKey) -> bool {
    forall|index: int|
        0 <= index < batches.len() ==> (#[trigger] batches[index]).well_formed() && is_batch_order(
            batches[index],
            order_by,
            Ok(true),
        )
}

proof fn lemma_each_in_order(batches: Seq<RecordBatch>, order_by: SortKey, from: int, index: int)
    requires
        each_in_order(batches, order_by, from, Ok(true)),
        0 <= from <= index < batches.len(),
    ensures
        is_batch_order(batches[index], order_by, Ok(true)),
    decreases index - from,
{
    if from < index {
        lemma_each_in_order(batches, order_by, from + 1, index);
    }
}

/// What came before a batch is no larger than its first value.
proof fn lemma_starts_no_lower(
    batches: Seq<RecordBatch>,
    order_by: SortKey,
    from: int,
    previous: OrderValue,
    batch: int,
)
    requires
        all_in_order(batches, order_by),
        boundaries_in_order(batches, order_by, from, Some(previous), Ok(true)),
        0 <= from <= batch < batches.len(),
        batches[batch].num_rows > 0,
    ensures
        !value_at(sort_column(batches[batch], order_by), 0).precedes(previous),
    decreases batch - from,
{
    if from < batch {
        assert(batches[from].well_formed());
        if batches[from].num_rows == 0 {
            lemma_starts_no_lower(batches, order_by, from + 1, previous, batch);
        } else {
            let column = sort_column(batches[from], order_by);
            let last = batches[from].num_rows - 1;
            assert(is_batch_order(batches[from], order_by, Ok(true)));
            assert(column.rows() == batches[from].num_rows);
            lemma_rows_ascend(column, 0, last);
            lemma_starts_no_lower(batches, order_by, from + 1, value_at(column, last), batch);
            law_precedes_transitive(previous, value_at(column, 0), value_at(column, last));
            law_precedes_transitive(
                previous,
                value_at(column, last),
                value_at(sort_column(batches[batch], order_by), 0),
            );
        }
    }
}

proof fn lemma_boundary_between(
    batches: Seq<RecordBatch>,
    order_by: SortKey,
    from: int,
    previous: Option<OrderValue>,
    earlier: int,
    later: int,
)
    requires
        all_in_order(batches, order_by),
        boundaries_in_order(batches, order_by, from, previous, Ok(true)),
        0 <= from <= earlier < later < batches.len(),
        batches[earlier].num_rows > 0,
        batches[later].num_rows > 0,
    ensures
        !value_at(sort_column(batches[later], order_by), 0).precedes(
            value_at(sort_column(batches[earlier], order_by), batches[earlier].num_rows - 1),
        ),
    decreases earlier - from,
{
    let column = sort_column(batches[from], order_by);
    if from == earlier {
        lemma_starts_no_lower(
            batches,
            order_by,
            from + 1,
            value_at(column, batches[from].num_rows - 1),
            later,
        );
    } else if batches[from].num_rows == 0 {
        lemma_boundary_between(batches, order_by, from + 1, previous, earlier, later);
    } else {
        lemma_boundary_between(
            batches,
            order_by,
            from + 1,
            Some(value_at(column, batches[from].num_rows - 1)),
            earlier,
            later,
        );
    }
}

/// Batches found to be in order are so over all their rows: no row holds a smaller
/// value than a row before it, in the same batch or an earlier one.
pub proof fn law_batches_in_order(
    batches: Seq<RecordBatch>,
    order_by: SortKey,
    earlier: (int, int),
    later: (int, int),
)
    requires
        forall|index: int| 0 <= index < batches.len() ==> (#[trigger] batches[index]).well_formed(),
        is_batches_order(batches, order_by, Ok(true)),
        0 <= earlier.0 <= later.0 < batches.len(),
        0 <= earlier.1 < batches[earlier.0].num_rows,
        0 <= later.1 < batches[later.0].num_rows,
        earlier.0 == later.0 ==> earlier.1 <= later.1,
    ensures
        !value_at(sort_column(batches[later.0], order_by), later.1).precedes(
            value_at(sort_column(batches[earlier.0], order_by), earlier.1),
        ),
{
    assert forall|index: int| 0 <= index < batches.len() implies (
    #[trigger] batches[index]).well_formed() && is_batch_order(
        batches[index],
        order_by,
        Ok(true),
    ) by {
        lemma_each_in_order(batches, order_by, 0, index);
    }
    assert(is_batch_order(batches[earlier.0], order_by, Ok(true)));
    assert(is_batch_order(batches[later.0], order_by, Ok(true)));
    let left = sort_column(batches[earlier.0], order_by);
    let right = sort_column(batches[later.0], order_by);
    assert(left.rows() == batches[earlier.0].num_rows);
    assert(right.rows() == batches[later.0].num_rows);
    if earlier.0 == later.0 {
        lemma_rows_ascend(left, earlier.1, later.1);
    } else {
        let last = batches[earlier.0].num_rows - 1;
        lemma_rows_ascend(left, earlier.1, last);
        lemma_rows_ascend(right, 0, later.1);
        lemma_boundary_between(batches, order_by, 0, None, earlier.0, later.0);
        law_precedes_transitive(
            value_at(left, earlier.1),
            value_at(left, last),
            value_at(right, 0),
        );
        law_precedes_transitive(
            value_at(left, earlier.1),
            value_at(right, 0),
            value_at(right, later.1),
        );
    }
}

/// The value of a group key, `None` for a null.
pub enum GroupValue {
    Int64(Option<i64>),
    UInt64(Option<u64>),
    Decimal128(Option<i128>, u8, i8),
    Date32(Option<i32>),
    Date64(Option<i64>),
    Utf8(Option<String>),
}

impl GroupValue {
    /// Whether the key is null.
    pub open spec fn null(self) -> bool {
        match self {
            GroupValue::Int64(value) => value.is_none(),
            GroupValue::UInt64(value) => value.is_none(),
            GroupValue::Decimal128(value, _, _) => value.is_none(),
            GroupValue::Date32(value) => value.is_none(),
            GroupValue::Date64(value) => value.is_none(),
            GroupValue::Utf8(value) => value.is_none(),
        }
    }
}

/// Whether a group key is null.
pub fn group_value_is_null(value: &GroupValue) -> (null: bool)
    ensures
        null == value.null(),
{
    match value {
        GroupValue::Int64(value) => value.is_none(),
        GroupValue::UInt64(value) => value.is_none(),
        GroupValue::Decimal128(value, _, _) => value.is_none(),
        GroupValue::Date32(value) => value.is_none(),
        GroupValue::Date64(value) => value.is_none(),
        GroupValue::Utf8(value) => value.is_none(),
    }
}

/// Whether some group has a null at a key position.
pub open spec fn any_null_key(groups: Seq<Vec<GroupValue>>, position: int) -> bool {
    exists|group: int|
        0 <= group < groups.len() && position < (#[trigger] groups[group])@.len()
            && groups[group]@[position].null()
}

/// Whether the groups come out in the order asked for: the sort columns are the
/// leading group columns, all ascending, and where nulls go last there are none.
pub open spec fn groups_ordered(
    groups: Seq<Vec<GroupValue>>,
    group_by: Seq<String>,
    order_by: SortKey,
) -> bool {
    &&& 0 < order_by.expressions@.len() <= group_by.len()
    &&& forall|index: int|
        0 <= index < order_by.expressions@.len() ==> {
            let sort = #[trigger] order_by.expressions@[index];
            &&& !sort.descending
            &&& sort.column@ == group_by[index]@
            &&& sort.nulls_first || !any_null_key(groups, index)
        }
}

/// Whether some group has a null at a key position.
fn has_null_key(groups: &[Vec<GroupValue>], position: usize) -> (found: bool)
    ensures
        found == any_null_key(groups@, position as int),
{
    let mut group: usize = 0;
    while group < groups.len()
        invariant
            group <= groups@.len(),
            forall|earlier: int|
                0 <= earlier < group ==> !(position < (#[trigger] groups@[earlier])@.len()
                    && groups@[earlier]@[position as int].null()),
        decreases groups@.len() - group,
    {
        if position < groups[group].len() && group_value_is_null(&groups[group][position]) {
            return true;
        }
        group += 1;
    }
    false
}

/// Whether the groups come out in the order asked for.
pub fn aggregate_output_already_ordered(
    groups: &[Vec<GroupValue>],
    group_by: &[String],
    order_by: Option<&SortKey>,
) -> (ordered: bool)
    ensures
        ordered == (order_by matches Some(order_by) && groups_ordered(
            groups@,
            group_by@,
            *order_by,
        )),
{
    let key: &SortKey = match order_by {
        Some(key) => key,
        None => {
            return false;
        },
    };
    if key.expressions.len() == 0 || key.expressions.len() > group_by.len() {
        return false;
    }
    let mut index: usize = 0;
    while index < key.expressions.len()
        invariant
            order_by == Some(key),
            index <= key.expressions@.len() <= group_by@.len(),
            forall|earlier: int|
                0 <= earlier < index ==> {
                    let sort = #[trigger] key.expressions@[earlier];
                    &&& !sort.descending
                    &&& sort.column@ == group_by@[earlier]@
                    &&& sort.nulls_first || !any_null_key(groups@, earlier)
                },
        decreases key.expressions@.len() - index,
    {
        let sort: &SortExpr = &key.expressions[index];
        assert(key.expressions@[index as int] == *sort);
        if sort.descending || sort.column != group_by[index] {
            return false;
        }
        if !sort.nulls_first && has_null_key(groups, index) {
            return false;
        }
        index += 1;
    }
    true
}

/// Whether every sort column is among the columns of the first batch.
pub open spec fn sort_key_available(batches: Seq<RecordBatch>, order_by: Option<&SortKey>) -> bool {
    &&& batches.len() > 0
    &&& order_by matches Some(order_by) && forall|index: int|
        0 <= index < order_by.expressions@.len() ==> has_name(
            batches[0],
            (#[trigger] order_by.expressions@[index]).column@,
        )
}

/// Whether every sort column is among the columns of the first batch. Rows are
/// then ordered before the projection is computed, otherwise after.
pub fn sort_key_available_in_batches(
    batches: &[RecordBatch],
    order_by: Option<&SortKey>,
) -> (available: bool)
    ensures
        available == sort_key_available(batches@, order_by),
{
    let key: &SortKey = match order_by {
        Some(key) => key,
        None => {
            return false;
        },
    };
    if batches.len() == 0 {
        return false;
    }
    let mut index: usize = 0;
    while index < key.expressions.len()
        invariant
            order_by == Some(key),
            batches@.len() > 0,
            index <= key.expressions@.len(),
            forall|earlier: int|
                0 <= earlier < index ==> has_name(
                    batches@[0],
                    (#[trigger] key.expressions@[earlier]).column@,
                ),
        decreases key.expressions@.len() - index,
    {
        let name = key.expressions[index].column.as_str();
        if output_batch_column_index(&batches[0], name).is_err() {
            proof {
                if sort_key_available(batches@, order_by) {
                    assert(has_name(batches@[0], (order_by->0).expressions@[index as int].column@));
                }
            }
            return false;
        }
        index += 1;
    }
    true
}

} // verus!
