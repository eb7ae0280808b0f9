//! Row selection over null-free primitive columns.
//!
//! The kernels scan a column eight rows at a time and collect the positions of
//! the rows that match, either first row first or last row first.

use vstd::prelude::*;
use vstd::slice::slice_subrange;

verus! {

/// The rows below `end` that satisfy `matching`, first row first.
pub open spec fn positions_ascending(end: int, matching: spec_fn(int) -> bool) -> Seq<usize>
    decreases end,
{
    if end <= 0 {
        Seq::empty()
    } else if matching(end - 1) {
        positions_ascending(end - 1, matching).push((end - 1) as usize)
    } else {
        positions_ascending(end - 1, matching)
    }
}

/// The rows from `start` up to `end` that satisfy `matching`, last row first.
pub open spec fn positions_descending(
    start: int,
    end: int,
    matching: spec_fn(int) -> bool,
) -> Seq<usize>
    decreases end - start,
{
    if start >= end {
        Seq::empty()
    } else if matching(start) {
        positions_descending(start + 1, end, matching).push(start as usize)
    } else {
        positions_descending(start + 1, end, matching)
    }
}

/// Every position found going up lies below the end and satisfies the test, and
/// positions grow strictly.
pub proof fn lemma_positions_ascending(end: int, matching: spec_fn(int) -> bool)
    requires
        0 <= end <= usize::MAX + 1,
    ensures
        forall|index: int|
            0 <= index < positions_ascending(end, matching).len() ==> {
                let row = #[trigger] positions_ascending(end, matching)[index];
                row < end && matching(row as int)
            },
        forall|left: int, right: int|
            0 <= left < right < positions_ascending(end, matching).len() ==> #[trigger]
                positions_ascending(end, matching)[left] < #[trigger] positions_ascending(end, matching)[right],
        positions_ascending(end, matching).len() <= end,
    decreases end,
{
    if end > 0 {
        lemma_positions_ascending(end - 1, matching);
    }
}

/// Every row below the end that satisfies the test is found going up.
pub proof fn lemma_positions_ascending_complete(end: int, matching: spec_fn(int) -> bool, row: int)
    requires
        0 <= row < end <= usize::MAX + 1,
        matching(row),
    ensures
        positions_ascending(end, matching).contains(row as usize),
    decreases end,
{
    let found = positions_ascending(end - 1, matching);
    if row == end - 1 {
        assert(found.push(row as usize)[found.len() as int] == row as usize);
    } else {
        lemma_positions_ascending_complete(end - 1, matching, row);
        let index = choose|index: int| 0 <= index < found.len() && found[index] == row as usize;
        if matching(end - 1) {
            assert(found.push((end - 1) as usize)[index] == row as usize);
        }
    }
}

/// Going down finds what going up finds, in the opposite order.
pub proof fn lemma_descending_is_reversed(end: int, matching: spec_fn(int) -> bool)
    requires
        0 <= end <= usize::MAX + 1,
    ensures
        positions_descending(0, end, matching) =~= positions_ascending(end, matching).reverse(),
    decreases end,
{
    if end > 0 {
        lemma_descending_is_reversed(end - 1, matching);
        lemma_descending_last(0, end, matching);
    }
}

/// Going down, the last row comes first where it matches.
proof fn lemma_descending_last(start: int, end: int, matching: spec_fn(int) -> bool)
    requires
        start < end,
    ensures
        positions_descending(start, end, matching) =~= (if matching(end - 1) {
            seq![(end - 1) as usize] + positions_descending(start, end - 1, matching)
        } else {
            positions_descending(start, end - 1, matching)
        }),
    decreases end - start,
{
    if start + 1 < end {
        lemma_descending_last(start + 1, end, matching);
    } else {
        assert(positions_descending(start + 1, end, matching) =~= Seq::empty());
        assert(positions_descending(start, end - 1, matching) =~= Seq::empty());
    }
}

/// The positions depend only on the test's outcome on the rows looked at.
pub proof fn lemma_positions_ascending_agree(
    end: int,
    left: spec_fn(int) -> bool,
    right: spec_fn(int) -> bool,
)
    requires
        forall|row: int| 0 <= row < end ==> #[trigger] left(row) == right(row),
    ensures
        positions_ascending(end, left) == positions_ascending(end, right),
    decreases end,
{
    if end > 0 {
        lemma_positions_ascending_agree(end - 1, left, right);
    }
}

/// The positions depend only on the test's outcome on the rows looked at.
pub proof fn lemma_positions_descending_agree(
    start: int,
    end: int,
    left: spec_fn(int) -> bool,
    right: spec_fn(int) -> bool,
)
    requires
        forall|row: int| start <= row < end ==> #[trigger] left(row) == right(row),
    ensures
        positions_descending(start, end, left) == positions_descending(start, end, right),
    decreases end - start,
{
    if start < end {
        lemma_positions_descending_agree(start + 1, end, left, right);
    }
}

/// Whether `test` can be called on any value and answers as `accepts` says.
spec fn decides<T, F: Fn(T) -> bool>(test: F, accepts: spec_fn(T) -> bool) -> bool {
    &&& forall|value: T| #[trigger] test.requires((value,))
    &&& forall|value: T, answer: bool| #[trigger]
        test.ensures((value,), answer) ==> answer == accepts(value)
}

/// Whether `test` can be called on any pair and answers as `accepts` says.
spec fn decides_pair<T, U, F: Fn(T, U) -> bool>(
    test: F,
    accepts: spec_fn(T, U) -> bool,
) -> bool {
    &&& forall|value: T, key: U| #[trigger] test.requires((value, key))
    &&& forall|value: T, key: U, answer: bool| #[trigger]
        test.ensures((value, key), answer) ==> answer == accepts(value, key)
}

/// Each position moved up by `offset`.
spec fn shifted(positions: Seq<usize>, offset: int) -> Seq<usize> {
    Seq::new(positions.len(), |index: int| (positions[index] + offset) as usize)
}

/// Going up over a range joins what is found below a row and from that row on.
proof fn lemma_positions_ascending_split(start: int, len: int, matching: spec_fn(int) -> bool)
    requires
        0 <= start,
        0 <= len,
        start + len <= usize::MAX,
    ensures
        positions_ascending(start + len, matching) =~= positions_ascending(start, matching)
            + shifted(positions_ascending(len, |row: int| matching(start + row)), start),
    decreases len,
{
    if len > 0 {
        let tail = |row: int| matching(start + row);
        lemma_positions_ascending_split(start, len - 1, matching);
        lemma_positions_ascending(len, tail);
        assert(tail(len - 1) == matching(start + len - 1));
        if matching(start + len - 1) {
            assert(shifted(positions_ascending(len, tail), start) =~= shifted(
                positions_ascending(len - 1, tail),
                start,
            ).push((start + len - 1) as usize));
        }
    }
}

/// Nothing is found where nothing matches.
proof fn lemma_positions_ascending_none(end: int, matching: spec_fn(int) -> bool)
    requires
        forall|row: int| 0 <= row < end ==> !#[trigger] matching(row),
    ensures
        positions_ascending(end, matching) =~= Seq::empty(),
    decreases end,
{
    if end > 0 {
        lemma_positions_ascending_none(end - 1, matching);
    }
}

/// Adds `position` where the row matched.
fn push_position_if(matched: bool, position: usize, selected: &mut Vec<usize>)
    ensures
        final(selected)@ == (if matched {
            old(selected)@.push(position)
        } else {
            old(selected)@
        }),
{
    if matched {
        selected.push(position);
    }
}

/// Adds the rows of `values` that `matches` accepts, first row first.
#[verifier::spinoff_prover]
#[verifier::rlimit(60)]
fn push_primitive_positions_unrolled<T: Copy, F: Fn(T) -> bool>(
    values: &[T],
    selected: &mut Vec<usize>,
    matches: F,
    Ghost(accepts): Ghost<spec_fn(T) -> bool>,
)
    requires
        decides(matches, accepts),
    ensures
        final(selected)@ == old(selected)@ + positions_ascending(
            values@.len() as int,
            |row: int| accepts(values@[row]),
        ),
{
    let ghost before = selected@;
    let ghost matching = |row: int| accepts(values@[row]);
    let mut row: usize = 0;
    let chunks: usize = values.len() / 8 * 8;
    assert(selected@ =~= before + positions_ascending(0, matching));
    while row < chunks
        invariant
            decides(matches, accepts),
            matching == (|row: int| accepts(values@[row])),
            row % 8 == 0,
            chunks == values@.len() / 8 * 8,
            row <= chunks <= values@.len(),
            selected@ == before + positions_ascending(row as int, matching),
        decreases chunks - row,
    {
        reveal_with_fuel(positions_ascending, 5);
        let m0 = matches(values[row]);
        push_position_if(m0, row, selected);
        let m1 = matches(values[row + 1]);
        push_position_if(m1, row + 1, selected);
        let m2 = matches(values[row + 2]);
        push_position_if(m2, row + 2, selected);
        let m3 = matches(values[row + 3]);
        push_position_if(m3, row + 3, selected);
        assert(selected@ =~= before + positions_ascending(row + 4, matching));
        let m4 = matches(values[row + 4]);
        push_position_if(m4, row + 4, selected);
        let m5 = matches(values[row + 5]);
        push_position_if(m5, row + 5, selected);
        let m6 = matches(values[row + 6]);
        push_position_if(m6, row + 6, selected);
        let m7 = matches(values[row + 7]);
        push_position_if(m7, row + 7, selected);
        assert(selected@ =~= before + positions_ascending(row + 8, matching));
        row += 8;
    }
    while row < values.len()
        invariant
            decides(matches, accepts),
            matching == (|row: int| accepts(values@[row])),
            row <= values@.len(),
            selected@ == before + positions_ascending(row as int, matching),
        decreases values@.len() - row,
    {
        let matched = matches(values[row]);
        push_position_if(matched, row, selected);
        assert(selected@ =~= before + positions_ascending(row + 1, matching));
        row += 1;
    }
}

/// Adds `offset` plus each row that `matches` accepts together with its key,
/// first row first. Rows beyond the shorter of the two columns are left out.
#[verifier::spinoff_prover]
#[verifier::rlimit(60)]
fn push_primitive_position_pairs_unrolled_with_offset<T: Copy, U: Copy, F: Fn(T, U) -> bool>(
    values: &[T],
    keys: &[U],
    offset: usize,
    selected: &mut Vec<usize>,
    matches: F,
    Ghost(accepts): Ghost<spec_fn(T, U) -> bool>,
)
    requires
        decides_pair(matches, accepts),
        offset + paired_len(values.len() as int, keys.len() as int) <= usize::MAX,
    ensures
        final(selected)@ == old(selected)@ + shifted(
            positions_ascending(
                paired_len(values@.len() as int, keys@.len() as int),
                |row: int| accepts(values@[row], keys@[row]),
            ),
            offset as int,
        ),
{
    let ghost before = selected@;
    let ghost matching = |row: int| accepts(values@[row], keys@[row]);
    let len: usize = if values.len() <= keys.len() {
        values.len()
    } else {
        keys.len()
    };
    let mut row: usize = 0;
    let chunks: usize = len / 8 * 8;
    assert(selected@ =~= before + shifted(positions_ascending(0, matching), offset as int));
    while row < chunks
        invariant
            decides_pair(matches, accepts),
            matching == (|row: int| accepts(values@[row], keys@[row])),
            offset + len <= usize::MAX,
            len <= values@.len(),
            len <= keys@.len(),
            row % 8 == 0,
            chunks == len / 8 * 8,
            row <= chunks <= len,
            selected@ == before + shifted(positions_ascending(row as int, matching), offset as int),
        decreases chunks - row,
    {
        let m0 = matches(values[row], keys[row]);
        push_position_if(m0, offset + row, selected);
        proof {
            lemma_shifted_step(row as int, matching, offset as int, before, m0, selected@);
        }
        let m1 = matches(values[row + 1], keys[row + 1]);
        push_position_if(m1, offset + row + 1, selected);
        proof {
            lemma_shifted_step(row + 1, matching, offset as int, before, m1, selected@);
        }
        let m2 = matches(values[row + 2], keys[row + 2]);
        push_position_if(m2, offset + row + 2, selected);
        proof {
            lemma_shifted_step(row + 2, matching, offset as int, before, m2, selected@);
        }
        let m3 = matches(values[row + 3], keys[row + 3]);
        push_position_if(m3, offset + row + 3, selected);
        proof {
            lemma_shifted_step(row + 3, matching, offset as int, before, m3, selected@);
        }
        let m4 = matches(values[row + 4], keys[row + 4]);
        push_position_if(m4, offset + row + 4, selected);
        proof {
            lemma_shifted_step(row + 4, matching, offset as int, before, m4, selected@);
        }
        let m5 = matches(values[row + 5], keys[row + 5]);
        push_position_if(m5, offset + row + 5, selected);
        proof {
            lemma_shifted_step(row + 5, matching, offset as int, before, m5, selected@);
        }
        let m6 = matches(values[row + 6], keys[row + 6]);
        push_position_if(m6, offset + row + 6, selected);
        proof {
            lemma_shifted_step(row + 6, matching, offset as int, before, m6, selected@);
        }
        let m7 = matches(values[row + 7], keys[row + 7]);
        push_position_if(m7, offset + row + 7, selected);
        proof {
            lemma_shifted_step(row + 7, matching, offset as int, before, m7, selected@);
        }
        row += 8;
    }
    while row < len
        invariant
            decides_pair(matches, accepts),
            matching == (|row: int| accepts(values@[row], keys@[row])),
            offset + len <= usize::MAX,
            row <= len <= values@.len(),
            len <= keys@.len(),
            selected@ == before + shifted(positions_ascending(row as int, matching), offset as int),
        decreases len - row,
    {
        let matched = matches(values[row], keys[row]);
        push_position_if(matched, offset + row, selected);
        proof {
            lemma_shifted_step(row as int, matching, offset as int, before, matched, selected@);
        }
        row += 1;
    }
}

/// The rows that two columns share.
pub open spec fn paired_len(left: int, right: int) -> int {
    if left <= right {
        left
    } else {
        right
    }
}

/// One more row looked at adds its shifted position where it matches.
proof fn lemma_shifted_step(
    row: int,
    matching: spec_fn(int) -> bool,
    offset: int,
    before: Seq<usize>,
    matched: bool,
    after: Seq<usize>,
)
    requires
        0 <= row,
        0 <= offset,
        offset + row < usize::MAX,
        matched == matching(row),
        after == (if matched {
            (before + shifted(positions_ascending(row, matching), offset)).push(
                (offset + row) as usize,
            )
        } else {
            before + shifted(positions_ascending(row, matching), offset)
        }),
    ensures
        after == before + shifted(positions_ascending(row + 1, matching), offset),
{
    lemma_positions_ascending(row + 1, matching);
    assert(after =~= before + shifted(positions_ascending(row + 1, matching), offset));
}

/// Adds the rows of `values` that `matches` accepts, last row first.
fn push_primitive_positions_desc_unrolled<T: Copy, F: Fn(T) -> bool>(
    values: &[T],
    selected: &mut Vec<usize>,
    matches: F,
    Ghost(accepts): Ghost<spec_fn(T) -> bool>,
)
    requires
        decides(matches, accepts),
    ensures
        final(selected)@ == old(selected)@ + positions_descending(
            0,
            values@.len() as int,
            |row: int| accepts(values@[row]),
        ),
{
    let ghost before = selected@;
    let ghost matching = |row: int| accepts(values@[row]);
    let ghost end = values@.len() as int;
    let mut row: usize = values.len();
    assert(selected@ =~= before + positions_descending(end, end, matching));
    while row >= 8
        invariant
            decides(matches, accepts),
            matching == (|row: int| accepts(values@[row])),
            end == values@.len(),
            row <= end,
            selected@ == before + positions_descending(row as int, end, matching),
        decreases row,
    {
        reveal_with_fuel(positions_descending, 5);
        row -= 8;
        let m7 = matches(values[row + 7]);
        push_position_if(m7, row + 7, selected);
        let m6 = matches(values[row + 6]);
        push_position_if(m6, row + 6, selected);
        let m5 = matches(values[row + 5]);
        push_position_if(m5, row + 5, selected);
        let m4 = matches(values[row + 4]);
        push_position_if(m4, row + 4, selected);
        assert(selected@ =~= before + positions_descending(row + 4, end, matching));
        let m3 = matches(values[row + 3]);
        push_position_if(m3, row + 3, selected);
        let m2 = matches(values[row + 2]);
        push_position_if(m2, row + 2, selected);
        let m1 = matches(values[row + 1]);
        push_position_if(m1, row + 1, selected);
        let m0 = matches(values[row]);
        push_position_if(m0, row, selected);
        assert(selected@ =~= before + positions_descending(row as int, end, matching));
    }
    while row > 0
        invariant
            decides(matches, accepts),
            matching == (|row: int| accepts(values@[row])),
            end == values@.len(),
            row <= end,
            selected@ == before + positions_descending(row as int, end, matching),
        decreases row,
    {
        row -= 1;
        let matched = matches(values[row]);
        push_position_if(matched, row, selected);
        assert(selected@ =~= before + positions_descending(row as int, end, matching));
    }
}

/// The values that a row's filter column is compared with.
pub enum PrimitiveFilterValues {
    I32(Vec<i32>),
    I64(Vec<i64>),
}

/// A column without nulls.
#[derive(Clone, Copy)]
pub enum NullFreePrimitiveColumn<'a> {
    I32(&'a [i32]),
    I64(&'a [i64]),
}

impl<'a> NullFreePrimitiveColumn<'a> {
    /// The number of rows.
    pub open spec fn rows(self) -> int {
        match self {
            NullFreePrimitiveColumn::I32(values) => values@.len() as int,
            NullFreePrimitiveColumn::I64(values) => values@.len() as int,
        }
    }

    /// The value of a row, as a sort key.
    pub open spec fn key(self, row: int) -> int {
        match self {
            NullFreePrimitiveColumn::I32(values) => values@[row] as int,
            NullFreePrimitiveColumn::I64(values) => values@[row] as int,
        }
    }

    /// The smallest value that the column's type can hold.
    pub open spec fn least_key(self) -> int {
        match self {
            NullFreePrimitiveColumn::I32(_) => i32::MIN as int,
            NullFreePrimitiveColumn::I64(_) => i64::MIN as int,
        }
    }

    /// Whether the row's value is among `filter`, which must be of the column's type.
    pub open spec fn accepted_by(self, filter: PrimitiveFilterValues, row: int) -> bool {
        match (self, filter) {
            (
                NullFreePrimitiveColumn::I32(values),
                PrimitiveFilterValues::I32(wanted),
            ) => wanted@.contains(values@[row]),
            (
                NullFreePrimitiveColumn::I64(values),
                PrimitiveFilterValues::I64(wanted),
            ) => wanted@.contains(values@[row]),
            _ => false,
        }
    }

}

/// The rows whose filter value is wanted and whose sort key is at least `min_key`.
///
/// A bound below every key of the sort column's type keeps every wanted row.
pub open spec fn positions_at_least(
    filter_column: NullFreePrimitiveColumn,
    filter: PrimitiveFilterValues,
    sort_column: NullFreePrimitiveColumn,
    min_key: int,
) -> Seq<usize> {
    if min_key < sort_column.least_key() {
        positions_ascending(
            filter_column.rows(),
            |row: int| filter_column.accepted_by(filter, row),
        )
    } else {
        positions_ascending(
            paired_len(filter_column.rows(), sort_column.rows()),
            |row: int| filter_column.accepted_by(filter, row) && sort_column.key(row) >= min_key,
        )
    }
}

/// Membership in a sequence of at most four values, spelled out.
proof fn lemma_short_contains<T>(values: Seq<T>, value: T)
    requires
        values.len() <= 4,
    ensures
        values.contains(value) == ({
            ||| values.len() > 0 && values[0] == value
            ||| values.len() > 1 && values[1] == value
            ||| values.len() > 2 && values[2] == value
            ||| values.len() > 3 && values[3] == value
        }),
{
}

/// Nothing is found where nothing matches.
proof fn lemma_positions_descending_none(start: int, end: int, matching: spec_fn(int) -> bool)
    requires
        forall|row: int| start <= row < end ==> !#[trigger] matching(row),
    ensures
        positions_descending(start, end, matching) =~= Seq::empty(),
    decreases end - start,
{
    if start < end {
        lemma_positions_descending_none(start + 1, end, matching);
    }
}

/// Whether `value` occurs in `values`.
fn i32_values_contain(values: &[i32], value: i32) -> (found: bool)
    ensures
        found == values@.contains(value),
{
    let mut index: usize = 0;
    while index < values.len()
        invariant
            index <= values@.len(),
            forall|earlier: int| 0 <= earlier < index ==> values@[earlier] != value,
        decreases values@.len() - index,
    {
        if values[index] == value {
            return true;
        }
        index += 1;
    }
    false
}

/// Whether `value` occurs in `values`, without a loop for up to four values.
pub fn small_i32_filter_values_contains(values: &[i32], value: i32) -> (found: bool)
    ensures
        found == values@.contains(value),
{
    match values.len() {
        0 => false,
        1 => {
            proof {
                lemma_short_contains(values@, value);
            }
            value == values[0]
        },
        2 => {
            proof {
                lemma_short_contains(values@, value);
            }
            value == values[0] || value == values[1]
        },
        3 => {
            proof {
                lemma_short_contains(values@, value);
            }
            value == values[0] || value == values[1] || value == values[2]
        },
        4 => {
            proof {
                lemma_short_contains(values@, value);
            }
            value == values[0] || value == values[1] || value == values[2] || value == values[3]
        },
        _ => i32_values_contain(values, value),
    }
}

/// Adds the rows equal to `a`, first row first.
pub fn push_i32_eq_positions(values: &[i32], a: i32, selected: &mut Vec<usize>)
    ensures
        final(selected)@ == old(selected)@ + positions_ascending(
            values@.len() as int,
            |row: int| values@[row] == a,
        ),
{
    let ghost accepts = |value: i32| value == a;
    let matches = |value: i32| -> (matched: bool)
        ensures
            matched == (value == a),
    {
        value == a
    };
    push_primitive_positions_unrolled(
        values,
        selected,
        matches,
        Ghost(accepts),
    );
    proof {
        lemma_positions_ascending_agree(
            values@.len() as int,
            |row: int| accepts(values@[row]),
            |row: int| values@[row] == a,
        );
    }
}

/// Adds the rows equal to `a`, last row first.
pub fn push_i32_eq_positions_desc(values: &[i32], a: i32, selected: &mut Vec<usize>)
    ensures
        final(selected)@ == old(selected)@ + positions_descending(
            0,
            values@.len() as int,
            |row: int| values@[row] == a,
        ),
{
    let ghost accepts = |value: i32| value == a;
    let matches = |value: i32| -> (matched: bool)
        ensures
            matched == (value == a),
    {
        value == a
    };
    push_primitive_positions_desc_unrolled(
        values,
        selected,
        matches,
        Ghost(accepts),
    );
    proof {
        lemma_positions_descending_agree(
            0,
            values@.len() as int,
            |row: int| accepts(values@[row]),
            |row: int| values@[row] == a,
        );
    }
}

/// Adds the rows equal to `a` or `b`, first row first.
pub fn push_i32_eq2_positions(values: &[i32], a: i32, b: i32, selected: &mut Vec<usize>)
    ensures
        final(selected)@ == old(selected)@ + positions_ascending(
            values@.len() as int,
            |row: int| values@[row] == a || values@[row] == b,
        ),
{
    let ghost accepts = |value: i32| value == a || value == b;
    let matches = |value: i32| -> (matched: bool)
        ensures
            matched == (value == a || value == b),
    {
        value == a || value == b
    };
    push_primitive_positions_unrolled(
        values,
        selected,
        matches,
        Ghost(accepts),
    );
    proof {
        lemma_positions_ascending_agree(
            values@.len() as int,
            |row: int| accepts(values@[row]),
            |row: int| values@[row] == a || values@[row] == b,
        );
    }
}

/// Adds the rows equal to `a`, `b` or `c`, first row first.
pub fn push_i32_eq3_positions(values: &[i32], a: i32, b: i32, c: i32, selected: &mut Vec<usize>)
    ensures
        final(selected)@ == old(selected)@ + positions_ascending(
            values@.len() as int,
            |row: int| values@[row] == a || values@[row] == b || values@[row] == c,
        ),
{
    let ghost accepts = |value: i32| value == a || value == b || value == c;
    let matches = |value: i32| -> (matched: bool)
        ensures
            matched == (value == a || value == b || value == c),
    {
        value == a || value == b || value == c
    };
    push_primitive_positions_unrolled(
        values,
        selected,
        matches,
        Ghost(accepts),
    );
    proof {
        lemma_positions_ascending_agree(
            values@.len() as int,
            |row: int| accepts(values@[row]),
            |row: int| values@[row] == a || values@[row] == b || values@[row] == c,
        );
    }
}

/// Adds the rows equal to `a`, `b`, `c` or `d`, first row first.
pub fn push_i32_eq4_positions(
    values: &[i32],
    a: i32,
    b: i32,
    c: i32,
    d: i32,
    selected: &mut Vec<usize>,
)
    ensures
        final(selected)@ == old(selected)@ + positions_ascending(
            values@.len() as int,
            |row: int| values@[row] == a || values@[row] == b || values@[row] == c || values@[row] == d,
        ),
{
    let ghost accepts = |value: i32| value == a || value == b || value == c || value == d;
    let matches = |value: i32| -> (matched: bool)
        ensures
            matched == (value == a || value == b || value == c || value == d),
    {
        value == a || value == b || value == c || value == d
    };
    push_primitive_positions_unrolled(
        values,
        selected,
        matches,
        Ghost(accepts),
    );
    proof {
        lemma_positions_ascending_agree(
            values@.len() as int,
            |row: int| accepts(values@[row]),
            |row: int| values@[row] == a || values@[row] == b || values@[row] == c || values@[row] == d,
        );
    }
}

/// Adds the rows equal to `a` or `b`, last row first.
pub fn push_i32_eq2_positions_desc(values: &[i32], a: i32, b: i32, selected: &mut Vec<usize>)
    ensures
        final(selected)@ == old(selected)@ + positions_descending(
            0,
            values@.len() as int,
            |row: int| values@[row] == a || values@[row] == b,
        ),
{
    let ghost accepts = |value: i32| value == a || value == b;
    let matches = |value: i32| -> (matched: bool)
        ensures
            matched == (value == a || value == b),
    {
        value == a || value == b
    };
    push_primitive_positions_desc_unrolled(
        values,
        selected,
        matches,
        Ghost(accepts),
    );
    proof {
        lemma_positions_descending_agree(
            0,
            values@.len() as int,
            |row: int| accepts(values@[row]),
            |row: int| values@[row] == a || values@[row] == b,
        );
    }
}

/// Adds the rows whose value is among `filter_values`, first row first.
pub fn primitive_topk_filter_i32_positions(
    values: &[i32],
    filter_values: &[i32],
    selected: &mut Vec<usize>,
)
    ensures
        final(selected)@ == old(selected)@ + positions_ascending(
            values@.len() as int,
            |row: int| filter_values@.contains(values@[row]),
        ),
{
    let ghost before = selected@;
    let ghost wanted = filter_values@;
    let ghost matching = |row: int| wanted.contains(values@[row]);
    match filter_values.len() {
        0 => {
            proof {
                lemma_positions_ascending_none(values@.len() as int, matching);
                assert(selected@ =~= before + positions_ascending(values@.len() as int, matching));
            }
        },
        1 => {
            let a: i32 = filter_values[0];
            push_i32_eq_positions(values, a, selected);
            proof {
                assert forall|value: i32| wanted.contains(value) == (value == a) by {
                    lemma_short_contains(wanted, value);
                }
                lemma_positions_ascending_agree(
                    values@.len() as int,
                    |row: int| values@[row] == a,
                    |row: int| wanted.contains(values@[row]),
                );
            }
        },
        2 => {
            let a: i32 = filter_values[0];
            let b: i32 = filter_values[1];
            push_i32_eq2_positions(values, a, b, selected);
            proof {
                assert forall|value: i32| wanted.contains(value) == (value == a || value == b) by {
                    lemma_short_contains(wanted, value);
                }
                lemma_positions_ascending_agree(
                    values@.len() as int,
                    |row: int| values@[row] == a || values@[row] == b,
                    |row: int| wanted.contains(values@[row]),
                );
            }
        },
        3 => {
            let a: i32 = filter_values[0];
            let b: i32 = filter_values[1];
            let c: i32 = filter_values[2];
            push_i32_eq3_positions(values, a, b, c, selected);
            proof {
                assert forall|value: i32| wanted.contains(value) == (value == a || value == b || value == c) by {
                    lemma_short_contains(wanted, value);
                }
                lemma_positions_ascending_agree(
                    values@.len() as int,
                    |row: int| values@[row] == a || values@[row] == b || values@[row] == c,
                    |row: int| wanted.contains(values@[row]),
                );
            }
        },
        4 => {
            let a: i32 = filter_values[0];
            let b: i32 = filter_values[1];
            let c: i32 = filter_values[2];
            let d: i32 = filter_values[3];
            push_i32_eq4_positions(values, a, b, c, d, selected);
            proof {
                assert forall|value: i32| wanted.contains(value) == (value == a || value == b || value == c || value == d) by {
                    lemma_short_contains(wanted, value);
                }
                lemma_positions_ascending_agree(
                    values@.len() as int,
                    |row: int| values@[row] == a || values@[row] == b || values@[row] == c || values@[row] == d,
                    |row: int| wanted.contains(values@[row]),
                );
            }
        },
        _ => {
            let mut row: usize = 0;
            assert(selected@ =~= before + positions_ascending(0, matching));
            while row < values.len()
                invariant
                    wanted == filter_values@,
                    matching == (|row: int| wanted.contains(values@[row])),
                    row <= values@.len(),
                    selected@ == before + positions_ascending(row as int, matching),
                decreases values@.len() - row,
            {
                let matched = i32_values_contain(filter_values, values[row]);
                push_position_if(matched, row, selected);
                assert(selected@ =~= before + positions_ascending(row + 1, matching));
                row += 1;
            }
        },
    }
}

/// Adds the rows whose value is among `filter_values`, last row first.
pub fn primitive_filter_i32_positions_desc(
    values: &[i32],
    filter_values: &[i32],
    selected: &mut Vec<usize>,
)
    ensures
        final(selected)@ == old(selected)@ + positions_descending(
            0,
            values@.len() as int,
            |row: int| filter_values@.contains(values@[row]),
        ),
{
    let ghost before = selected@;
    let ghost wanted = filter_values@;
    let ghost matching = |row: int| wanted.contains(values@[row]);
    match filter_values.len() {
        0 => {
            proof {
                lemma_positions_descending_none(0, values@.len() as int, matching);
                assert(selected@ =~= before + positions_descending(
                    0,
                    values@.len() as int,
                    matching,
                ));
            }
        },
        1 => {
            let a: i32 = filter_values[0];
            push_i32_eq_positions_desc(values, a, selected);
            proof {
                assert forall|value: i32| wanted.contains(value) == (value == a) by {
                    lemma_short_contains(wanted, value);
                }
                lemma_positions_descending_agree(
            0,
                    values@.len() as int,
                    |row: int| values@[row] == a,
                    |row: int| wanted.contains(values@[row]),
                );
            }
        },
        2 => {
            let a: i32 = filter_values[0];
            let b: i32 = filter_values[1];
            push_i32_eq2_positions_desc(values, a, b, selected);
            proof {
                assert forall|value: i32| wanted.contains(value) == (value == a || value == b) by {
                    lemma_short_contains(wanted, value);
                }
                lemma_positions_descending_agree(
            0,
                    values@.len() as int,
                    |row: int| values@[row] == a || values@[row] == b,
                    |row: int| wanted.contains(values@[row]),
                );
            }
        },
        3 => {
            let a: i32 = filter_values[0];
            let b: i32 = filter_values[1];
            let c: i32 = filter_values[2];
            let ghost accepts = |value: i32| value == a || value == b || value == c;
            let matches = |value: i32| -> (matched: bool)
                ensures
                    matched == (value == a || value == b || value == c),
            {
                value == a || value == b || value == c
            };
            push_primitive_positions_desc_unrolled(
                values,
                selected,
                matches,
                Ghost(accepts),
            );
            proof {
                assert forall|value: i32| wanted.contains(value) == (value == a || value == b || value == c) by {
                    lemma_short_contains(wanted, value);
                }
                lemma_positions_descending_agree(
            0,
                    values@.len() as int,
                    |row: int| accepts(values@[row]),
                    |row: int| wanted.contains(values@[row]),
                );
            }
        },
        4 => {
            let a: i32 = filter_values[0];
            let b: i32 = filter_values[1];
            let c: i32 = filter_values[2];
            let d: i32 = filter_values[3];
            let ghost accepts = |value: i32| value == a || value == b || value == c || value == d;
            let matches = |value: i32| -> (matched: bool)
                ensures
                    matched == (value == a || value == b || value == c || value == d),
            {
                value == a || value == b || value == c || value == d
            };
            push_primitive_positions_desc_unrolled(
                values,
                selected,
                matches,
                Ghost(accepts),
            );
            proof {
                assert forall|value: i32| wanted.contains(value) == (value == a || value == b || value == c || value == d) by {
                    lemma_short_contains(wanted, value);
                }
                lemma_positions_descending_agree(
            0,
                    values@.len() as int,
                    |row: int| accepts(values@[row]),
                    |row: int| wanted.contains(values@[row]),
                );
            }
        },
        _ => {
            let ghost end = values@.len() as int;
            let mut row: usize = values.len();
            assert(selected@ =~= before + positions_descending(end, end, matching));
            while row > 0
                invariant
                    end == values@.len(),
                    wanted == filter_values@,
                    matching == (|row: int| wanted.contains(values@[row])),
                    row <= end,
                    selected@ == before + positions_descending(row as int, end, matching),
                decreases row,
            {
                row -= 1;
                let matched = i32_values_contain(filter_values, values[row]);
                push_position_if(matched, row, selected);
                assert(selected@ =~= before + positions_descending(row as int, end, matching));
            }
        },
    }
}

/// Adds the rows whose value is among `filter_values` and whose key is at least
/// `min_key`, first row first.
fn primitive_topk_filter_i32_positions_with_i32_min_key(
    values: &[i32],
    filter_values: &[i32],
    sort_values: &[i32],
    min_key: i32,
    selected: &mut Vec<usize>,
)
    ensures
        final(selected)@ == old(selected)@ + positions_ascending(
            paired_len(values@.len() as int, sort_values@.len() as int),
            |row: int| filter_values@.contains(values@[row]) && sort_values@[row] >= min_key,
        ),
{
    let ghost accepts = |value: i32, key: i32| filter_values@.contains(value) && key >= min_key;
    let matches = |value: i32, key: i32| -> (matched: bool)
        ensures
            matched == (filter_values@.contains(value) && key >= min_key),
    {
        key >= min_key && small_i32_filter_values_contains(filter_values, value)
    };
    push_primitive_position_pairs_unrolled_with_offset(
        values,
        sort_values,
        0,
        selected,
        matches,
        Ghost(accepts),
    );
    proof {
        let end = paired_len(values@.len() as int, sort_values@.len() as int);
        let left = |row: int| accepts(values@[row], sort_values@[row]);
        assert(shifted(positions_ascending(end, left), 0) =~= positions_ascending(end, left));
        lemma_positions_ascending_agree(
            end,
            left,
            |row: int| filter_values@.contains(values@[row]) && sort_values@[row] >= min_key,
        );
    }
}

/// Whether `value` occurs in `values`.
fn i64_values_contain(values: &[i64], value: i64) -> (found: bool)
    ensures
        found == values@.contains(value),
{
    let mut index: usize = 0;
    while index < values.len()
        invariant
            index <= values@.len(),
            forall|earlier: int| 0 <= earlier < index ==> values@[earlier] != value,
        decreases values@.len() - index,
    {
        if values[index] == value {
            return true;
        }
        index += 1;
    }
    false
}

/// Whether `value` occurs in `values`, without a loop for up to four values.
pub fn small_i64_filter_values_contains(values: &[i64], value: i64) -> (found: bool)
    ensures
        found == values@.contains(value),
{
    match values.len() {
        0 => false,
        1 => {
            proof {
                lemma_short_contains(values@, value);
            }
            value == values[0]
        },
        2 => {
            proof {
                lemma_short_contains(values@, value);
            }
            value == values[0] || value == values[1]
        },
        3 => {
            proof {
                lemma_short_contains(values@, value);
            }
            value == values[0] || value == values[1] || value == values[2]
        },
        4 => {
            proof {
                lemma_short_contains(values@, value);
            }
            value == values[0] || value == values[1] || value == values[2] || value == values[3]
        },
        _ => i64_values_contain(values, value),
    }
}

/// Adds the rows equal to `a`, first row first.
pub fn push_i64_eq_positions(values: &[i64], a: i64, selected: &mut Vec<usize>)
    ensures
        final(selected)@ == old(selected)@ + positions_ascending(
            values@.len() as int,
            |row: int| values@[row] == a,
        ),
{
    let ghost accepts = |value: i64| value == a;
    let matches = |value: i64| -> (matched: bool)
        ensures
            matched == (value == a),
    {
        value == a
    };
    push_primitive_positions_unrolled(
        values,
        selected,
        matches,
        Ghost(accepts),
    );
    proof {
        lemma_positions_ascending_agree(
            values@.len() as int,
            |row: int| accepts(values@[row]),
            |row: int| values@[row] == a,
        );
    }
}

/// Adds the rows equal to `a`, last row first.
pub fn push_i64_eq_positions_desc(values: &[i64], a: i64, selected: &mut Vec<usize>)
    ensures
        final(selected)@ == old(selected)@ + positions_descending(
            0,
            values@.len() as int,
            |row: int| values@[row] == a,
        ),
{
    let ghost accepts = |value: i64| value == a;
    let matches = |value: i64| -> (matched: bool)
        ensures
            matched == (value == a),
    {
        value == a
    };
    push_primitive_positions_desc_unrolled(
        values,
        selected,
        matches,
        Ghost(accepts),
    );
    proof {
        lemma_positions_descending_agree(
            0,
            values@.len() as int,
            |row: int| accepts(values@[row]),
            |row: int| values@[row] == a,
        );
    }
}

/// Adds the rows equal to `a` or `b`, first row first.
pub fn push_i64_eq2_positions(values: &[i64], a: i64, b: i64, selected: &mut Vec<usize>)
    ensures
        final(selected)@ == old(selected)@ + positions_ascending(
            values@.len() as int,
            |row: int| values@[row] == a || values@[row] == b,
        ),
{
    let ghost accepts = |value: i64| value == a || value == b;
    let matches = |value: i64| -> (matched: bool)
        ensures
            matched == (value == a || value == b),
    {
        value == a || value == b
    };
    push_primitive_positions_unrolled(
        values,
        selected,
        matches,
        Ghost(accepts),
    );
    proof {
        lemma_positions_ascending_agree(
            values@.len() as int,
            |row: int| accepts(values@[row]),
            |row: int| values@[row] == a || values@[row] == b,
        );
    }
}

/// Adds the rows equal to `a`, `b` or `c`, first row first.
pub fn push_i64_eq3_positions(values: &[i64], a: i64, b: i64, c: i64, selected: &mut Vec<usize>)
    ensures
        final(selected)@ == old(selected)@ + positions_ascending(
            values@.len() as int,
            |row: int| values@[row] == a || values@[row] == b || values@[row] == c,
        ),
{
    let ghost accepts = |value: i64| value == a || value == b || value == c;
    let matches = |value: i64| -> (matched: bool)
        ensures
            matched == (value == a || value == b || value == c),
    {
        value == a || value == b || value == c
    };
    push_primitive_positions_unrolled(
        values,
        selected,
        matches,
        Ghost(accepts),
    );
    proof {
        lemma_positions_ascending_agree(
            values@.len() as int,
            |row: int| accepts(values@[row]),
            |row: int| values@[row] == a || values@[row] == b || values@[row] == c,
        );
    }
}

/// Adds the rows equal to `a`, `b`, `c` or `d`, first row first.
pub fn push_i64_eq4_positions(
    values: &[i64],
    a: i64,
    b: i64,
    c: i64,
    d: i64,
    selected: &mut Vec<usize>,
)
    ensures
        final(selected)@ == old(selected)@ + positions_ascending(
            values@.len() as int,
            |row: int| values@[row] == a || values@[row] == b || values@[row] == c || values@[row] == d,
        ),
{
    let ghost accepts = |value: i64| value == a || value == b || value == c || value == d;
    let matches = |value: i64| -> (matched: bool)
        ensures
            matched == (value == a || value == b || value == c || value == d),
    {
        value == a || value == b || value == c || value == d
    };
    push_primitive_positions_unrolled(
        values,
        selected,
        matches,
        Ghost(accepts),
    );
    proof {
        lemma_positions_ascending_agree(
            values@.len() as int,
            |row: int| accepts(values@[row]),
            |row: int| values@[row] == a || values@[row] == b || values@[row] == c || values@[row] == d,
        );
    }
}

/// Adds the rows equal to `a` or `b`, last row first.
pub fn push_i64_eq2_positions_desc(values: &[i64], a: i64, b: i64, selected: &mut Vec<usize>)
    ensures
        final(selected)@ == old(selected)@ + positions_descending(
            0,
            values@.len() as int,
            |row: int| values@[row] == a || values@[row] == b,
        ),
{
    let ghost accepts = |value: i64| value == a || value == b;
    let matches = |value: i64| -> (matched: bool)
        ensures
            matched == (value == a || value == b),
    {
        value == a || value == b
    };
    push_primitive_positions_desc_unrolled(
        values,
        selected,
        matches,
        Ghost(accepts),
    );
    proof {
        lemma_positions_descending_agree(
            0,
            values@.len() as int,
            |row: int| accepts(values@[row]),
            |row: int| values@[row] == a || values@[row] == b,
        );
    }
}

/// Adds the rows whose value is among `filter_values`, first row first.
pub fn primitive_topk_filter_i64_positions(
    values: &[i64],
    filter_values: &[i64],
    selected: &mut Vec<usize>,
)
    ensures
        final(selected)@ == old(selected)@ + positions_ascending(
            values@.len() as int,
            |row: int| filter_values@.contains(values@[row]),
        ),
{
    let ghost before = selected@;
    let ghost wanted = filter_values@;
    let ghost matching = |row: int| wanted.contains(values@[row]);
    match filter_values.len() {
        0 => {
            proof {
                lemma_positions_ascending_none(values@.len() as int, matching);
                assert(selected@ =~= before + positions_ascending(values@.len() as int, matching));
            }
        },
        1 => {
            let a: i64 = filter_values[0];
            push_i64_eq_positions(values, a, selected);
            proof {
                assert forall|value: i64| wanted.contains(value) == (value == a) by {
                    lemma_short_contains(wanted, value);
                }
                lemma_positions_ascending_agree(
                    values@.len() as int,
                    |row: int| values@[row] == a,
                    |row: int| wanted.contains(values@[row]),
                );
            }
        },
        2 => {
            let a: i64 = filter_values[0];
            let b: i64 = filter_values[1];
            push_i64_eq2_positions(values, a, b, selected);
            proof {
                assert forall|value: i64| wanted.contains(value) == (value == a || value == b) by {
                    lemma_short_contains(wanted, value);
                }
                lemma_positions_ascending_agree(
                    values@.len() as int,
                    |row: int| values@[row] == a || values@[row] == b,
                    |row: int| wanted.contains(values@[row]),
                );
            }
        },
        3 => {
            let a: i64 = filter_values[0];
            let b: i64 = filter_values[1];
            let c: i64 = filter_values[2];
            push_i64_eq3_positions(values, a, b, c, selected);
            proof {
                assert forall|value: i64| wanted.contains(value) == (value == a || value == b || value == c) by {
                    lemma_short_contains(wanted, value);
                }
                lemma_positions_ascending_agree(
                    values@.len() as int,
                    |row: int| values@[row] == a || values@[row] == b || values@[row] == c,
                    |row: int| wanted.contains(values@[row]),
                );
            }
        },
        4 => {
            let a: i64 = filter_values[0];
            let b: i64 = filter_values[1];
            let c: i64 = filter_values[2];
            let d: i64 = filter_values[3];
            push_i64_eq4_positions(values, a, b, c, d, selected);
            proof {
                assert forall|value: i64| wanted.contains(value) == (value == a || value == b || value == c || value == d) by {
                    lemma_short_contains(wanted, value);
                }
                lemma_positions_ascending_agree(
                    values@.len() as int,
                    |row: int| values@[row] == a || values@[row] == b || values@[row] == c || values@[row] == d,
                    |row: int| wanted.contains(values@[row]),
                );
            }
        },
        _ => {
            let mut row: usize = 0;
            assert(selected@ =~= before + positions_ascending(0, matching));
            while row < values.len()
                invariant
                    wanted == filter_values@,
                    matching == (|row: int| wanted.contains(values@[row])),
                    row <= values@.len(),
                    selected@ == before + positions_ascending(row as int, matching),
                decreases values@.len() - row,
            {
                let matched = i64_values_contain(filter_values, values[row]);
                push_position_if(matched, row, selected);
                assert(selected@ =~= before + positions_ascending(row + 1, matching));
                row += 1;
            }
        },
    }
}

/// Adds the rows whose value is among `filter_values`, last row first.
pub fn primitive_filter_i64_positions_desc(
    values: &[i64],
    filter_values: &[i64],
    selected: &mut Vec<usize>,
)
    ensures
        final(selected)@ == old(selected)@ + positions_descending(
            0,
            values@.len() as int,
            |row: int| filter_values@.contains(values@[row]),
        ),
{
    let ghost before = selected@;
    let ghost wanted = filter_values@;
    let ghost matching = |row: int| wanted.contains(values@[row]);
    match filter_values.len() {
        0 => {
            proof {
                lemma_positions_descending_none(0, values@.len() as int, matching);
                assert(selected@ =~= before + positions_descending(
                    0,
                    values@.len() as int,
                    matching,
                ));
            }
        },
        1 => {
            let a: i64 = filter_values[0];
            push_i64_eq_positions_desc(values, a, selected);
            proof {
                assert forall|value: i64| wanted.contains(value) == (value == a) by {
                    lemma_short_contains(wanted, value);
                }
                lemma_positions_descending_agree(
            0,
                    values@.len() as int,
                    |row: int| values@[row] == a,
                    |row: int| wanted.contains(values@[row]),
                );
            }
        },
        2 => {
            let a: i64 = filter_values[0];
            let b: i64 = filter_values[1];
            push_i64_eq2_positions_desc(values, a, b, selected);
            proof {
                assert forall|value: i64| wanted.contains(value) == (value == a || value == b) by {
                    lemma_short_contains(wanted, value);
                }
                lemma_positions_descending_agree(
            0,
                    values@.len() as int,
                    |row: int| values@[row] == a || values@[row] == b,
                    |row: int| wanted.contains(values@[row]),
                );
            }
        },
        3 => {
            let a: i64 = filter_values[0];
            let b: i64 = filter_values[1];
            let c: i64 = filter_values[2];
            let ghost accepts = |value: i64| value == a || value == b || value == c;
            let matches = |value: i64| -> (matched: bool)
                ensures
                    matched == (value == a || value == b || value == c),
            {
                value == a || value == b || value == c
            };
            push_primitive_positions_desc_unrolled(
                values,
                selected,
                matches,
                Ghost(accepts),
            );
            proof {
                assert forall|value: i64| wanted.contains(value) == (value == a || value == b || value == c) by {
                    lemma_short_contains(wanted, value);
                }
                lemma_positions_descending_agree(
            0,
                    values@.len() as int,
                    |row: int| accepts(values@[row]),
                    |row: int| wanted.contains(values@[row]),
                );
            }
        },
        4 => {
            let a: i64 = filter_values[0];
            let b: i64 = filter_values[1];
            let c: i64 = filter_values[2];
            let d: i64 = filter_values[3];
            let ghost accepts = |value: i64| value == a || value == b || value == c || value == d;
            let matches = |value: i64| -> (matched: bool)
                ensures
                    matched == (value == a || value == b || value == c || value == d),
            {
                value == a || value == b || value == c || value == d
            };
            push_primitive_positions_desc_unrolled(
                values,
                selected,
                matches,
                Ghost(accepts),
            );
            proof {
                assert forall|value: i64| wanted.contains(value) == (value == a || value == b || value == c || value == d) by {
                    lemma_short_contains(wanted, value);
                }
                lemma_positions_descending_agree(
            0,
                    values@.len() as int,
                    |row: int| accepts(values@[row]),
                    |row: int| wanted.contains(values@[row]),
                );
            }
        },
        _ => {
            let ghost end = values@.len() as int;
            let mut row: usize = values.len();
            assert(selected@ =~= before + positions_descending(end, end, matching));
            while row > 0
                invariant
                    end == values@.len(),
                    wanted == filter_values@,
                    matching == (|row: int| wanted.contains(values@[row])),
                    row <= end,
                    selected@ == before + positions_descending(row as int, end, matching),
                decreases row,
            {
                row -= 1;
                let matched = i64_values_contain(filter_values, values[row]);
                push_position_if(matched, row, selected);
                assert(selected@ =~= before + positions_descending(row as int, end, matching));
            }
        },
    }
}

/// Adds the rows whose value is among `filter_values` and whose key is at least
/// `min_key`, first row first.
fn primitive_topk_filter_i64_positions_with_i32_min_key(
    values: &[i64],
    filter_values: &[i64],
    sort_values: &[i32],
    min_key: i32,
    selected: &mut Vec<usize>,
)
    ensures
        final(selected)@ == old(selected)@ + positions_ascending(
            paired_len(values@.len() as int, sort_values@.len() as int),
            |row: int| filter_values@.contains(values@[row]) && sort_values@[row] >= min_key,
        ),
{
    let ghost accepts = |value: i64, key: i32| filter_values@.contains(value) && key >= min_key;
    let matches = |value: i64, key: i32| -> (matched: bool)
        ensures
            matched == (filter_values@.contains(value) && key >= min_key),
    {
        key >= min_key && small_i64_filter_values_contains(filter_values, value)
    };
    push_primitive_position_pairs_unrolled_with_offset(
        values,
        sort_values,
        0,
        selected,
        matches,
        Ghost(accepts),
    );
    proof {
        let end = paired_len(values@.len() as int, sort_values@.len() as int);
        let left = |row: int| accepts(values@[row], sort_values@[row]);
        assert(shifted(positions_ascending(end, left), 0) =~= positions_ascending(end, left));
        lemma_positions_ascending_agree(
            end,
            left,
            |row: int| filter_values@.contains(values@[row]) && sort_values@[row] >= min_key,
        );
    }
}

/// Adds the rows whose value is among `filter_values` and whose key is at least
/// `min_key`, first row first.
fn primitive_topk_filter_i64_positions_with_i64_min_key(
    values: &[i64],
    filter_values: &[i64],
    sort_values: &[i64],
    min_key: i64,
    selected: &mut Vec<usize>,
)
    ensures
        final(selected)@ == old(selected)@ + positions_ascending(
            paired_len(values@.len() as int, sort_values@.len() as int),
            |row: int| filter_values@.contains(values@[row]) && sort_values@[row] >= min_key,
        ),
{
    let ghost accepts = |value: i64, key: i64| filter_values@.contains(value) && key >= min_key;
    let matches = |value: i64, key: i64| -> (matched: bool)
        ensures
            matched == (filter_values@.contains(value) && key >= min_key),
    {
        key >= min_key && small_i64_filter_values_contains(filter_values, value)
    };
    push_primitive_position_pairs_unrolled_with_offset(
        values,
        sort_values,
        0,
        selected,
        matches,
        Ghost(accepts),
    );
    proof {
        let end = paired_len(values@.len() as int, sort_values@.len() as int);
        let left = |row: int| accepts(values@[row], sort_values@[row]);
        assert(shifted(positions_ascending(end, left), 0) =~= positions_ascending(end, left));
        lemma_positions_ascending_agree(
            end,
            left,
            |row: int| filter_values@.contains(values@[row]) && sort_values@[row] >= min_key,
        );
    }
}

/// The largest of the keys.
fn largest_key(keys: &[i64]) -> (largest: i64)
    requires
        keys@.len() > 0,
    ensures
        keys@.contains(largest),
        forall|index: int| 0 <= index < keys@.len() ==> keys@[index] <= largest,
{
    let mut largest: i64 = keys[0];
    let mut index: usize = 1;
    while index < keys.len()
        invariant
            1 <= index <= keys@.len(),
            keys@.contains(largest),
            forall|earlier: int| 0 <= earlier < index ==> keys@[earlier] <= largest,
        decreases keys@.len() - index,
    {
        if keys[index] > largest {
            largest = keys[index];
        }
        index += 1;
    }
    largest
}

/// Adds the rows equal to `a` or `b` whose key is at least `min_key`, first row
/// first. Blocks of 64 rows whose largest key is below the bound are skipped.
pub fn push_i32_eq2_positions_with_i64_min_key_blocked(
    values: &[i32],
    a: i32,
    b: i32,
    keys: &[i64],
    min_key: i64,
    selected: &mut Vec<usize>,
)
    ensures
        final(selected)@ == old(selected)@ + positions_ascending(
            paired_len(values@.len() as int, keys@.len() as int),
            |row: int| keys@[row] >= min_key && (values@[row] == a || values@[row] == b),
        ),
{
    let ghost before = selected@;
    let ghost matching = |row: int|
        keys@[row] >= min_key && (values@[row] == a || values@[row] == b);
    let ghost accepts = |value: i32, key: i64| key >= min_key && (value == a || value == b);
    let len: usize = if values.len() <= keys.len() {
        values.len()
    } else {
        keys.len()
    };
    let mut row: usize = 0;
    assert(selected@ =~= before + positions_ascending(0, matching));
    while len - row >= 64
        invariant
            row <= len <= values@.len(),
            len <= keys@.len(),
            matching == (|row: int|
                keys@[row] >= min_key && (values@[row] == a || values@[row] == b)),
            accepts == (|value: i32, key: i64| key >= min_key && (value == a || value == b)),
            selected@ == before + positions_ascending(row as int, matching),
        decreases len - row,
    {
        let block_values = slice_subrange(values, row, row + 64);
        let block_keys = slice_subrange(keys, row, row + 64);
        let max_key: i64 = largest_key(block_keys);
        let ghost block_matching = |offset: int| matching(row + offset);
        proof {
            lemma_positions_ascending_split(row as int, 64, matching);
        }
        if max_key >= min_key {
            let matches = |value: i32, key: i64| -> (matched: bool)
                ensures
                    matched == (key >= min_key && (value == a || value == b)),
            {
                key >= min_key && (value == a || value == b)
            };
            push_primitive_position_pairs_unrolled_with_offset(
                block_values,
                block_keys,
                row,
                selected,
                matches,
                Ghost(accepts),
            );
            proof {
                lemma_positions_ascending_agree(
                    64,
                    |offset: int| accepts(block_values@[offset], block_keys@[offset]),
                    block_matching,
                );
                assert(selected@ =~= before + positions_ascending(row + 64, matching));
            }
        } else {
            proof {
                assert forall|offset: int| 0 <= offset < 64 implies !#[trigger] block_matching(
                    offset,
                ) by {
                    assert(block_keys@[offset] <= max_key);
                }
                lemma_positions_ascending_none(64, block_matching);
                assert(selected@ =~= before + positions_ascending(row + 64, matching));
            }
        }
        row += 64;
    }
    while row < len
        invariant
            row <= len <= values@.len(),
            len <= keys@.len(),
            matching == (|row: int|
                keys@[row] >= min_key && (values@[row] == a || values@[row] == b)),
            selected@ == before + positions_ascending(row as int, matching),
        decreases len - row,
    {
        let value: i32 = values[row];
        let matched = keys[row] >= min_key && (value == a || value == b);
        push_position_if(matched, row, selected);
        assert(selected@ =~= before + positions_ascending(row + 1, matching));
        row += 1;
    }
}

/// Adds the rows whose value is among `filter_values` and whose key is at least
/// `min_key`, first row first. With two filter values and `block_max_skip`,
/// whole blocks below the bound are skipped.
fn primitive_topk_filter_i32_positions_with_i64_min_key(
    values: &[i32],
    filter_values: &[i32],
    sort_values: &[i64],
    min_key: i64,
    block_max_skip: bool,
    selected: &mut Vec<usize>,
)
    ensures
        final(selected)@ == old(selected)@ + positions_ascending(
            paired_len(values@.len() as int, sort_values@.len() as int),
            |row: int| filter_values@.contains(values@[row]) && sort_values@[row] >= min_key,
        ),
{
    let ghost end = paired_len(values@.len() as int, sort_values@.len() as int);
    let ghost matching = |row: int|
        filter_values@.contains(values@[row]) && sort_values@[row] >= min_key;
    if filter_values.len() == 2 && block_max_skip {
        let a: i32 = filter_values[0];
        let b: i32 = filter_values[1];
        push_i32_eq2_positions_with_i64_min_key_blocked(
            values,
            a,
            b,
            sort_values,
            min_key,
            selected,
        );
        proof {
            assert forall|value: i32| filter_values@.contains(value) == (value == a || value == b) by {
                lemma_short_contains(filter_values@, value);
            }
            lemma_positions_ascending_agree(
                end,
                |row: int| sort_values@[row] >= min_key && (values@[row] == a || values@[row] == b),
                matching,
            );
        }
    } else {
        let ghost accepts = |value: i32, key: i64| filter_values@.contains(value) && key >= min_key;
        let matches = |value: i32, key: i64| -> (matched: bool)
            ensures
                matched == (filter_values@.contains(value) && key >= min_key),
        {
            key >= min_key && small_i32_filter_values_contains(filter_values, value)
        };
        push_primitive_position_pairs_unrolled_with_offset(
            values,
            sort_values,
            0,
            selected,
            matches,
            Ghost(accepts),
        );
        proof {
            let left = |row: int| accepts(values@[row], sort_values@[row]);
            assert(shifted(positions_ascending(end, left), 0) =~= positions_ascending(end, left));
            lemma_positions_ascending_agree(end, left, matching);
        }
    }
}

/// Makes room for a quarter of the rows.
pub fn reserve_selected_positions(selected: &mut Vec<usize>, row_count: usize)
    ensures
        final(selected)@ == old(selected)@,
{
    let target: usize = row_count / 4 + 1;
    if selected.len() < target {
        selected.reserve(target - selected.len());
    }
}

/// Replaces `selected` by the rows whose value is wanted, first row first;
/// nothing is selected where the filter is of another type than the column.
pub fn primitive_topk_filter_positions_into(
    column: NullFreePrimitiveColumn<'_>,
    filter_values: &PrimitiveFilterValues,
    selected: &mut Vec<usize>,
)
    ensures
        final(selected)@ == positions_ascending(
            column.rows(),
            |row: int| column.accepted_by(*filter_values, row),
        ),
{
    selected.clear();
    let ghost matching = |row: int| column.accepted_by(*filter_values, row);
    match (column, filter_values) {
        (NullFreePrimitiveColumn::I32(values), PrimitiveFilterValues::I32(wanted)) => {
            reserve_selected_positions(selected, values.len());
            primitive_topk_filter_i32_positions(values, wanted.as_slice(), selected);
            proof {
                lemma_positions_ascending_agree(
                    column.rows(),
                    |row: int| wanted@.contains(values@[row]),
                    matching,
                );
                assert(selected@ =~= positions_ascending(column.rows(), matching));
            }
        },
        (NullFreePrimitiveColumn::I64(values), PrimitiveFilterValues::I64(wanted)) => {
            reserve_selected_positions(selected, values.len());
            primitive_topk_filter_i64_positions(values, wanted.as_slice(), selected);
            proof {
                lemma_positions_ascending_agree(
                    column.rows(),
                    |row: int| wanted@.contains(values@[row]),
                    matching,
                );
                assert(selected@ =~= positions_ascending(column.rows(), matching));
            }
        },
        _ => {
            proof {
                lemma_positions_ascending_none(column.rows(), matching);
            }
        },
    }
}

/// Replaces `selected` by the rows whose filter value is wanted and whose sort
/// key is at least `min_key`, first row first.
pub fn primitive_topk_filter_positions_with_min_key_into(
    filter_column: NullFreePrimitiveColumn<'_>,
    filter_values: &PrimitiveFilterValues,
    sort_column: NullFreePrimitiveColumn<'_>,
    min_key: i128,
    block_max_skip: bool,
    selected: &mut Vec<usize>,
)
    ensures
        final(selected)@ == positions_at_least(
            filter_column,
            *filter_values,
            sort_column,
            min_key as int,
        ),
{
    selected.clear();
    let ghost end = paired_len(filter_column.rows(), sort_column.rows());
    let ghost matching = |row: int|
        filter_column.accepted_by(*filter_values, row) && sort_column.key(row) >= min_key;
    match (filter_column, filter_values, sort_column) {
        (
            NullFreePrimitiveColumn::I32(values),
            PrimitiveFilterValues::I32(wanted),
            NullFreePrimitiveColumn::I32(sort_values),
        ) => {
            if min_key < i32::MIN as i128 {
                primitive_topk_filter_i32_positions(values, wanted.as_slice(), selected);
                proof {
                    lemma_positions_ascending_agree(
                        filter_column.rows(),
                        |row: int| wanted@.contains(values@[row]),
                        |row: int| filter_column.accepted_by(*filter_values, row),
                    );
                }
            } else if min_key > i32::MAX as i128 {
                proof {
                    lemma_positions_ascending_none(end, matching);
                }
            } else {
                let bound: i32 = min_key as i32;
                reserve_selected_positions(selected, values.len());
                primitive_topk_filter_i32_positions_with_i32_min_key(
                    values,
                    wanted.as_slice(),
                    sort_values,
                    bound,
                    selected,
                );
                proof {
                    lemma_positions_ascending_agree(
                        end,
                        |row: int| wanted@.contains(values@[row]) && sort_values@[row] >= bound,
                        matching,
                    );
                }
            }
        },
        (
            NullFreePrimitiveColumn::I32(values),
            PrimitiveFilterValues::I32(wanted),
            NullFreePrimitiveColumn::I64(sort_values),
        ) => {
            if min_key < i64::MIN as i128 {
                primitive_topk_filter_i32_positions(values, wanted.as_slice(), selected);
                proof {
                    lemma_positions_ascending_agree(
                        filter_column.rows(),
                        |row: int| wanted@.contains(values@[row]),
                        |row: int| filter_column.accepted_by(*filter_values, row),
                    );
                }
            } else if min_key > i64::MAX as i128 {
                proof {
                    lemma_positions_ascending_none(end, matching);
                }
            } else {
                let bound: i64 = min_key as i64;
                reserve_selected_positions(selected, values.len());
                primitive_topk_filter_i32_positions_with_i64_min_key(
                    values,
                    wanted.as_slice(),
                    sort_values,
                    bound,
                    block_max_skip,
                    selected,
                );
                proof {
                    lemma_positions_ascending_agree(
                        end,
                        |row: int| wanted@.contains(values@[row]) && sort_values@[row] >= bound,
                        matching,
                    );
                }
            }
        },
        (
            NullFreePrimitiveColumn::I64(values),
            PrimitiveFilterValues::I64(wanted),
            NullFreePrimitiveColumn::I64(sort_values),
        ) => {
            if min_key < i64::MIN as i128 {
                primitive_topk_filter_i64_positions(values, wanted.as_slice(), selected);
                proof {
                    lemma_positions_ascending_agree(
                        filter_column.rows(),
                        |row: int| wanted@.contains(values@[row]),
                        |row: int| filter_column.accepted_by(*filter_values, row),
                    );
                }
            } else if min_key > i64::MAX as i128 {
                proof {
                    lemma_positions_ascending_none(end, matching);
                }
            } else {
                let bound: i64 = min_key as i64;
                reserve_selected_positions(selected, values.len());
                primitive_topk_filter_i64_positions_with_i64_min_key(
                    values,
                    wanted.as_slice(),
                    sort_values,
                    bound,
                    selected,
                );
                proof {
                    lemma_positions_ascending_agree(
                        end,
                        |row: int| wanted@.contains(values@[row]) && sort_values@[row] >= bound,
                        matching,
                    );
                }
            }
        },
        (
            NullFreePrimitiveColumn::I64(values),
            PrimitiveFilterValues::I64(wanted),
            NullFreePrimitiveColumn::I32(sort_values),
        ) => {
            if min_key < i32::MIN as i128 {
                primitive_topk_filter_i64_positions(values, wanted.as_slice(), selected);
                proof {
                    lemma_positions_ascending_agree(
                        filter_column.rows(),
                        |row: int| wanted@.contains(values@[row]),
                        |row: int| filter_column.accepted_by(*filter_values, row),
                    );
                }
            } else if min_key > i32::MAX as i128 {
                proof {
                    lemma_positions_ascending_none(end, matching);
                }
            } else {
                let bound: i32 = min_key as i32;
                reserve_selected_positions(selected, values.len());
                primitive_topk_filter_i64_positions_with_i32_min_key(
                    values,
                    wanted.as_slice(),
                    sort_values,
                    bound,
                    selected,
                );
                proof {
                    lemma_positions_ascending_agree(
                        end,
                        |row: int| wanted@.contains(values@[row]) && sort_values@[row] >= bound,
                        matching,
                    );
                }
            }
        },
        _ => {
            primitive_topk_filter_positions_into(filter_column, filter_values, selected);
            proof {
                lemma_positions_ascending_none(
                    filter_column.rows(),
                    |row: int| filter_column.accepted_by(*filter_values, row),
                );
                lemma_positions_ascending_none(end, matching);
            }
        },
    }
    assert(selected@ =~= positions_at_least(
        filter_column,
        *filter_values,
        sort_column,
        min_key as int,
    ));
}

} // verus!
