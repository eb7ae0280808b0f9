//! Rows selected first and read later.
//!
//! A selection pass marks the rows of a batch that are wanted and remembers for each
//! of them what the payload pass needs. The payload pass then meets exactly the
//! marked rows, in order, and takes back what was remembered.

use std::collections::HashMap;
use vstd::prelude::*;
use crate::columns::Vector;
use crate::error::{fails_unsupported, SqlError, SqlResult};
use crate::profit::{adaptive_i64_words_contains, word_flag};
use crate::tables::{dense_keys, entry_of, hash_get, AdaptiveI64Map, AdaptiveI64Set};
use crate::text::str_eq;

verus! {

broadcast use vstd::std_specs::hash::group_hash_axioms;

/// What is remembered of the rows that have an answer, in order.
pub open spec fn remembered<T>(answers: Seq<Option<T>>) -> Seq<T>
    decreases answers.len(),
{
    if answers.len() == 0 {
        Seq::empty()
    } else {
        match answers.last() {
            Some(value) => remembered(answers.drop_last()).push(value),
            None => remembered(answers.drop_last()),
        }
    }
}

/// Which rows have an answer.
pub open spec fn marks<T>(answers: Seq<Option<T>>) -> Seq<bool> {
    answers.map_values(|answer: Option<T>| answer is Some)
}

/// How many of the first `rows` rows are marked.
pub open spec fn marked_before(mask: Seq<bool>, rows: int) -> int
    decreases rows,
{
    if rows <= 0 {
        0
    } else {
        marked_before(mask, rows - 1) + (if mask[rows - 1] {
            1int
        } else {
            0
        })
    }
}

proof fn lemma_remembered_len<T>(answers: Seq<Option<T>>, rows: int)
    requires
        0 <= rows <= answers.len(),
    ensures
        remembered(answers.take(rows)).len() == marked_before(marks(answers), rows),
        remembered(answers.take(rows)).len() <= rows,
    decreases rows,
{
    if rows > 0 {
        lemma_remembered_len(answers, rows - 1);
        assert(answers.take(rows).drop_last() =~= answers.take(rows - 1));
    }
}

proof fn lemma_remembered_prefix<T>(answers: Seq<Option<T>>, rows: int)
    requires
        0 <= rows <= answers.len(),
    ensures
        remembered(answers.take(rows)).len() <= remembered(answers).len(),
        remembered(answers).take(remembered(answers.take(rows)).len() as int) =~= remembered(
            answers.take(rows),
        ),
    decreases answers.len(),
{
    if rows < answers.len() {
        lemma_remembered_prefix(answers.drop_last(), rows);
        assert(answers.drop_last().take(rows) =~= answers.take(rows));
    } else {
        assert(answers.take(rows) =~= answers);
    }
}

/// A marked row finds its own answer: it is remembered at the place that the number
/// of marked rows before it gives.
pub proof fn law_marked_row_finds_its_answer<T>(answers: Seq<Option<T>>, row: int)
    requires
        0 <= row < answers.len(),
        marks(answers)[row],
    ensures
        marked_before(marks(answers), row) < remembered(answers).len(),
        Some(remembered(answers)[marked_before(marks(answers), row)]) == answers[row],
{
    lemma_remembered_len(answers, row);
    lemma_remembered_prefix(answers, row + 1);
    assert(answers.take(row + 1).drop_last() =~= answers.take(row));
    let upto = remembered(answers.take(row + 1));
    let place = marked_before(marks(answers), row);
    assert(upto.last() == answers[row]->0);
    assert(remembered(answers).take(upto.len() as int)[place] == upto[place]);
}

/// As many answers are remembered as rows are marked.
pub proof fn law_as_many_remembered_as_marked<T>(answers: Seq<Option<T>>)
    ensures
        remembered(answers).len() == marked_before(marks(answers), answers.len() as int),
{
    lemma_remembered_len(answers, answers.len() as int);
    assert(answers.take(answers.len() as int) =~= answers);
}

/// Remembering over two batches is remembering over both.
pub proof fn law_remembered_concatenates<T>(first: Seq<Option<T>>, second: Seq<Option<T>>)
    ensures
        remembered(first + second) =~= remembered(first) + remembered(second),
    decreases second.len(),
{
    if second.len() == 0 {
        assert(first + second =~= first);
    } else {
        law_remembered_concatenates(first, second.drop_last());
        assert((first + second).drop_last() =~= first + second.drop_last());
    }
}

/// The marks of the rows met so far, what is remembered of the marked ones, and how
/// much of that the payload pass took back.
pub struct LateSelection<T> {
    pub mask: Vec<bool>,
    pub remembered: Vec<T>,
    pub payload_offset: usize,
}

impl<T: Copy> LateSelection<T> {
    /// Whether no more was taken back than remembered.
    pub open spec fn well_formed(self) -> bool {
        self.payload_offset <= self.remembered@.len()
    }

    /// No row met yet.
    pub fn new() -> (selection: LateSelection<T>)
        ensures
            selection.well_formed(),
            selection.mask@.len() == 0,
            selection.remembered@.len() == 0,
            selection.payload_offset == 0,
    {
        LateSelection { mask: Vec::new(), remembered: Vec::new(), payload_offset: 0 }
    }

    /// Marks the next row where there is an answer for it.
    pub fn push(&mut self, answer: Option<T>)
        requires
            old(self).well_formed(),
        ensures
            final(self).well_formed(),
            final(self).payload_offset == old(self).payload_offset,
            final(self).mask@ == old(self).mask@.push(answer is Some),
            final(self).remembered@ == (match answer {
                Some(value) => old(self).remembered@.push(value),
                None => old(self).remembered@,
            }),
    {
        match answer {
            Some(value) => {
                self.mask.push(true);
                self.remembered.push(value);
            },
            None => {
                self.mask.push(false);
            },
        }
    }

    /// Takes back what was remembered of the next marked row.
    pub fn next_payload(&mut self, overflow_message: &str) -> (result: SqlResult<T>)
        requires
            old(self).well_formed(),
        ensures
            final(self).well_formed(),
            final(self).mask@ == old(self).mask@,
            final(self).remembered@ == old(self).remembered@,
            if old(self).payload_offset < old(self).remembered@.len() {
                &&& result matches Ok(value) && value == old(self).remembered@[old(
                    self,
                ).payload_offset as int]
                &&& final(self).payload_offset == old(self).payload_offset + 1
            } else {
                &&& fails_unsupported(result, overflow_message@)
                &&& final(self).payload_offset == old(self).payload_offset
            },
    {
        if self.payload_offset < self.remembered.len() {
            let value = self.remembered[self.payload_offset];
            self.payload_offset += 1;
            Ok(value)
        } else {
            Err(SqlError::unsupported(overflow_message))
        }
    }

    /// Takes back what was remembered of the next `rows` marked rows. Where there are
    /// fewer, all are taken back and the rest is an error.
    pub fn take_payload(
        &mut self,
        rows: usize,
        overflow_message: &str,
    ) -> (result: SqlResult<Vec<T>>)
        requires
            old(self).well_formed(),
        ensures
            final(self).well_formed(),
            final(self).mask@ == old(self).mask@,
            final(self).remembered@ == old(self).remembered@,
            if old(self).payload_offset + rows <= old(self).remembered@.len() {
                &&& result matches Ok(values) && values@ == old(self).remembered@.subrange(
                    old(self).payload_offset as int,
                    old(self).payload_offset + rows,
                )
                &&& final(self).payload_offset == old(self).payload_offset + rows
            } else {
                &&& fails_unsupported(result, overflow_message@)
                &&& final(self).payload_offset == old(self).remembered@.len()
            },
    {
        let ghost start = self.payload_offset as int;
        let ghost all = self.remembered@;
        let mut values: Vec<T> = Vec::new();
        let mut row: usize = 0;
        assert(all.subrange(start, start) =~= Seq::empty());
        while row < rows
            invariant
                self.well_formed(),
                self.mask@ == old(self).mask@,
                self.remembered@ == all,
                all == old(self).remembered@,
                start == old(self).payload_offset,
                row <= rows,
                self.payload_offset == start + row,
                values@ == all.subrange(start, start + row),
            decreases rows - row,
        {
            match self.next_payload(overflow_message) {
                Ok(value) => {
                    values.push(value);
                },
                Err(error) => {
                    return Err(error);
                },
            }
            row += 1;
            assert(values@ =~= all.subrange(start, start + row));
        }
        Ok(values)
    }

    /// Whether everything remembered was taken back.
    pub fn payload_consumed(&self) -> (consumed: bool)
        ensures
            consumed == (self.payload_offset == self.remembered@.len()),
    {
        self.payload_offset == self.remembered.len()
    }

    /// Whether a pass over rows marked and remembered its answers.
    pub open spec fn selected(self, before: LateSelection<T>, answers: Seq<Option<T>>) -> bool {
        &&& self.well_formed()
        &&& self.payload_offset == before.payload_offset
        &&& self.mask@ == before.mask@ + marks(answers)
        &&& self.remembered@ == before.remembered@ + remembered(answers)
    }

    /// Marks and remembers the answers of a batch.
    fn push_all(&mut self, answers: &[Option<T>])
        requires
            old(self).well_formed(),
        ensures
            final(self).selected(*old(self), answers@),
    {
        let ghost before = *self;
        let mut row: usize = 0;
        assert(self.mask@ =~= before.mask@ + marks(answers@.take(0)));
        assert(self.remembered@ =~= before.remembered@ + remembered(answers@.take(0)));
        while row < answers.len()
            invariant
                row <= answers@.len(),
                before == *old(self),
                self.selected(before, answers@.take(row as int)),
            decreases answers@.len() - row,
        {
            let ghost shorter = answers@.take(row as int);
            let ghost longer = answers@.take(row + 1);
            self.push(answers[row]);
            proof {
                assert(longer.drop_last() =~= shorter);
                assert(self.mask@ =~= before.mask@ + marks(longer));
                assert(self.remembered@ =~= before.remembered@ + remembered(longer));
            }
            row += 1;
        }
        assert(answers@.take(row as int) =~= answers@);
    }
}

/// The keys that are in a set, as answers.
pub open spec fn keys_in_set(keys: Vector<i64>, wanted: Set<i64>) -> Seq<Option<i64>> {
    keys@.map_values(
        |key: Option<i64>|
            match key {
                Some(present) => if wanted.contains(present) {
                    Some(present)
                } else {
                    None
                },
                None => None,
            },
    )
}

/// How many rows a batch has and how many of them were selected.
#[derive(Clone, Copy, Debug, PartialEq, Eq, Structural)]
pub struct I64SetLateSelectionBatchMetrics {
    pub total_rows: usize,
    pub selected_rows: usize,
}

/// Selects the rows whose key is in a set, and remembers the key.
pub fn i64_set_late_build_selection_into(
    keys: &Vector<i64>,
    key_filter: &AdaptiveI64Set,
    selection: &mut LateSelection<i64>,
) -> (metrics: I64SetLateSelectionBatchMetrics)
    requires
        keys.well_formed(),
        old(selection).well_formed(),
    ensures
        final(selection).selected(*old(selection), keys_in_set(*keys, key_filter@)),
        metrics.total_rows == keys@.len(),
        metrics.selected_rows == remembered(keys_in_set(*keys, key_filter@)).len(),
{
    let ghost expected = keys_in_set(*keys, key_filter@);
    let dense = key_filter.dense_contains_slice();
    let mut answers: Vec<Option<i64>> = Vec::new();
    let mut selected_rows: usize = 0;
    let mut row: usize = 0;
    assert(expected.take(0) =~= Seq::empty());
    while row < keys.len()
        invariant
            keys.well_formed(),
            dense matches Some(present) ==> key_filter@ == dense_keys(present@),
            expected == keys_in_set(*keys, key_filter@),
            row <= keys@.len(),
            answers@ == expected.take(row as int),
            selected_rows == remembered(expected.take(row as int)).len(),
            selected_rows <= row,
        decreases keys@.len() - row,
    {
        assert(expected.take(row + 1).drop_last() =~= expected.take(row as int));
        match keys.get(row) {
            Some(key) => {
                if key_filter.contains_cached(dense, key) {
                    answers.push(Some(key));
                    selected_rows += 1;
                } else {
                    answers.push(None);
                }
            },
            None => {
                answers.push(None);
            },
        }
        row += 1;
        assert(answers@ =~= expected.take(row as int));
    }
    assert(answers@ =~= expected);
    assert(expected.take(row as int) =~= expected);
    selection.push_all(answers.as_slice());
    I64SetLateSelectionBatchMetrics { total_rows: keys.len(), selected_rows }
}

/// The customer of each returned row whose order is known, as answers.
pub open spec fn returned_customers(
    orderkeys: Vector<i64>,
    returnflags: Vector<String>,
    order_customers: Map<i64, i64>,
) -> Seq<Option<i64>> {
    Seq::new(
        orderkeys@.len(),
        |row: int|
            if returnflags.valid_at(row) && returnflags.values@[row]@ == "R"@ {
                match orderkeys@[row] {
                    Some(orderkey) => entry_of(order_customers, orderkey),
                    None => None,
                }
            } else {
                None
            },
    )
}

/// The customer of each returned row whose order is known.
pub fn returned_row_customers(
    orderkeys: &Vector<i64>,
    returnflags: &Vector<String>,
    order_customers: &HashMap<i64, i64>,
) -> (answers: Vec<Option<i64>>)
    requires
        orderkeys.well_formed(),
        returnflags.well_formed(),
        orderkeys@.len() == returnflags@.len(),
    ensures
        answers@ == returned_customers(*orderkeys, *returnflags, order_customers@),
{
    let ghost expected = returned_customers(*orderkeys, *returnflags, order_customers@);
    let mut answers: Vec<Option<i64>> = Vec::new();
    let mut row: usize = 0;
    while row < orderkeys.len()
        invariant
            orderkeys.well_formed(),
            returnflags.well_formed(),
            orderkeys@.len() == returnflags@.len(),
            expected == returned_customers(*orderkeys, *returnflags, order_customers@),
            row <= orderkeys@.len(),
            answers@ == expected.take(row as int),
        decreases orderkeys@.len() - row,
    {
        let mut answer: Option<i64> = None;
        if !returnflags.is_null(row) && str_eq(returnflags.values[row].as_str(), "R") {
            match orderkeys.get(row) {
                Some(orderkey) => {
                    answer = hash_get(order_customers, orderkey);
                },
                None => {},
            }
        }
        answers.push(answer);
        row += 1;
        assert(answers@ =~= expected.take(row as int));
    }
    assert(answers@ =~= expected);
    answers
}

/// Selects the returned rows whose order is known, and remembers the customer.
pub fn returned_revenue_late_build_selection(
    orderkeys: &Vector<i64>,
    returnflags: &Vector<String>,
    order_customers: &HashMap<i64, i64>,
    selection: &mut LateSelection<i64>,
)
    requires
        orderkeys.well_formed(),
        returnflags.well_formed(),
        orderkeys@.len() == returnflags@.len(),
        old(selection).well_formed(),
    ensures
        final(selection).selected(
            *old(selection),
            returned_customers(*orderkeys, *returnflags, order_customers@),
        ),
{
    let answers = returned_row_customers(orderkeys, returnflags, order_customers);
    selection.push_all(answers.as_slice());
}

/// The first day of the year whose shipments count.
pub const SHIPDATE_START: i32 = 8_766;

/// The first day after the year whose shipments count.
pub const SHIPDATE_END: i32 = 9_131;

/// The part of each row that was shipped in the year that counts and is wanted, as
/// answers.
pub open spec fn shipped_parts(
    partkeys: Vector<i64>,
    shipdates: Vector<i32>,
    wanted: Set<i64>,
) -> Seq<Option<i64>> {
    Seq::new(
        partkeys@.len(),
        |row: int|
            match (partkeys@[row], shipdates@[row]) {
                (Some(partkey), Some(day)) => if 8_766 <= day < 9_131 && wanted.contains(partkey) {
                    Some(partkey)
                } else {
                    None
                },
                _ => None,
            },
    )
}

/// Whether a part is wanted, by its bit or flag where they are at hand.
pub fn prefix_forest_part_contains(
    forest_parts: &AdaptiveI64Set,
    dense_part_keys: Option<&[bool]>,
    dense_part_words: Option<&[u64]>,
    partkey: i64,
) -> (found: bool)
    requires
        dense_part_keys matches Some(present) ==> forest_parts@ == dense_keys(present@),
        dense_part_words matches Some(words) ==> forall|key: i64| #[trigger]
            forest_parts@.contains(key) == word_flag(words@, key),
    ensures
        found == forest_parts@.contains(partkey),
{
    match dense_part_words {
        Some(words) => adaptive_i64_words_contains(words, partkey),
        None => forest_parts.contains_cached(dense_part_keys, partkey),
    }
}

/// The part of each row that was shipped in the year that counts and is wanted.
pub fn shipped_row_parts(
    partkeys: &Vector<i64>,
    shipdates: &Vector<i32>,
    forest_parts: &AdaptiveI64Set,
) -> (answers: Vec<Option<i64>>)
    requires
        partkeys.well_formed(),
        shipdates.well_formed(),
        partkeys@.len() == shipdates@.len(),
    ensures
        answers@ == shipped_parts(*partkeys, *shipdates, forest_parts@),
{
    let ghost expected = shipped_parts(*partkeys, *shipdates, forest_parts@);
    let dense_part_keys = forest_parts.dense_contains_slice();
    let mut answers: Vec<Option<i64>> = Vec::new();
    let mut row: usize = 0;
    while row < partkeys.len()
        invariant
            partkeys.well_formed(),
            shipdates.well_formed(),
            partkeys@.len() == shipdates@.len(),
            dense_part_keys matches Some(present) ==> forest_parts@ == dense_keys(present@),
            expected == shipped_parts(*partkeys, *shipdates, forest_parts@),
            row <= partkeys@.len(),
            answers@ == expected.take(row as int),
        decreases partkeys@.len() - row,
    {
        let answer: Option<i64> = match (partkeys.get(row), shipdates.get(row)) {
            (Some(partkey), Some(day)) => {
                if SHIPDATE_START <= day && day < SHIPDATE_END && prefix_forest_part_contains(
                    forest_parts,
                    dense_part_keys,
                    None,
                    partkey,
                ) {
                    Some(partkey)
                } else {
                    None
                }
            },
            _ => None,
        };
        answers.push(answer);
        row += 1;
        assert(answers@ =~= expected.take(row as int));
    }
    assert(answers@ =~= expected);
    answers
}

/// Selects the rows that were shipped in the year that counts and whose part is
/// wanted, and remembers the part.
pub fn prefix_lineitem_late_build_selection(
    partkeys: &Vector<i64>,
    shipdates: &Vector<i32>,
    forest_parts: &AdaptiveI64Set,
    selection: &mut LateSelection<i64>,
)
    requires
        partkeys.well_formed(),
        shipdates.well_formed(),
        partkeys@.len() == shipdates@.len(),
        old(selection).well_formed(),
    ensures
        final(selection).selected(
            *old(selection),
            shipped_parts(*partkeys, *shipdates, forest_parts@),
        ),
{
    let answers = shipped_row_parts(partkeys, shipdates, forest_parts);
    selection.push_all(answers.as_slice());
}

/// The nation that the supplier and the customer of a row share.
pub open spec fn shared_nation(
    orderkey: i64,
    suppkey: i64,
    order_customer_nations: Map<i64, i64>,
    supplier_nations: Map<i64, i64>,
) -> Option<i64> {
    match (entry_of(supplier_nations, suppkey), entry_of(order_customer_nations, orderkey)) {
        (Some(supplier), Some(customer)) => if supplier == customer {
            Some(customer)
        } else {
            None
        },
        _ => None,
    }
}

/// The nation that the supplier and the customer of a row share.
pub fn regional_revenue_late_selected_nation(
    orderkey: i64,
    suppkey: i64,
    order_customer_nations: &HashMap<i64, i64>,
    supplier_nations: &AdaptiveI64Map<i64>,
) -> (nation: Option<i64>)
    ensures
        nation == shared_nation(orderkey, suppkey, order_customer_nations@, supplier_nations@),
{
    match supplier_nations.get(suppkey) {
        None => None,
        Some(supplier) => match hash_get(order_customer_nations, orderkey) {
            None => None,
            Some(customer) => {
                if supplier == customer {
                    Some(customer)
                } else {
                    None
                }
            },
        },
    }
}

/// The shared nation of each row, as answers.
pub open spec fn shared_nations(
    orderkeys: Vector<i64>,
    suppkeys: Vector<i64>,
    order_customer_nations: Map<i64, i64>,
    supplier_nations: Map<i64, i64>,
) -> Seq<Option<i64>> {
    Seq::new(
        orderkeys@.len(),
        |row: int|
            match (orderkeys@[row], suppkeys@[row]) {
                (Some(orderkey), Some(suppkey)) => shared_nation(
                    orderkey,
                    suppkey,
                    order_customer_nations,
                    supplier_nations,
                ),
                _ => None,
            },
    )
}

/// The shared nation of each row.
pub fn row_shared_nations(
    orderkeys: &Vector<i64>,
    suppkeys: &Vector<i64>,
    order_customer_nations: &HashMap<i64, i64>,
    supplier_nations: &AdaptiveI64Map<i64>,
) -> (answers: Vec<Option<i64>>)
    requires
        orderkeys.well_formed(),
        suppkeys.well_formed(),
        orderkeys@.len() == suppkeys@.len(),
    ensures
        answers@ == shared_nations(
            *orderkeys,
            *suppkeys,
            order_customer_nations@,
            supplier_nations@,
        ),
{
    let ghost expected = shared_nations(
        *orderkeys,
        *suppkeys,
        order_customer_nations@,
        supplier_nations@,
    );
    let mut answers: Vec<Option<i64>> = Vec::new();
    let mut row: usize = 0;
    while row < orderkeys.len()
        invariant
            orderkeys.well_formed(),
            suppkeys.well_formed(),
            orderkeys@.len() == suppkeys@.len(),
            expected == shared_nations(
                *orderkeys,
                *suppkeys,
                order_customer_nations@,
                supplier_nations@,
            ),
            row <= orderkeys@.len(),
            answers@ == expected.take(row as int),
        decreases orderkeys@.len() - row,
    {
        let answer: Option<i64> = match (orderkeys.get(row), suppkeys.get(row)) {
            (Some(orderkey), Some(suppkey)) => regional_revenue_late_selected_nation(
                orderkey,
                suppkey,
                order_customer_nations,
                supplier_nations,
            ),
            _ => None,
        };
        answers.push(answer);
        row += 1;
        assert(answers@ =~= expected.take(row as int));
    }
    assert(answers@ =~= expected);
    answers
}

/// Whether a row without an answer lies between two rows with one that are at most
/// `max_gap` rows apart.
pub open spec fn bridged<T>(answers: Seq<Option<T>>, max_gap: int, row: int) -> bool {
    exists|before: int, after: int|
        {
            &&& 0 <= before < row < after < answers.len()
            &&& after - before - 1 <= max_gap
            &&& #[trigger] neighbours(answers, before, after)
        }
}

/// Whether two rows have answers and no row between them has.
pub open spec fn neighbours<T>(answers: Seq<Option<T>>, before: int, after: int) -> bool {
    &&& answers[before] is Some
    &&& answers[after] is Some
    &&& forall|between: int| before < between < after ==> #[trigger] answers[between] is None
}

/// The answers with short gaps closed: a row in such a gap is selected, with nothing
/// to remember of it.
pub open spec fn coalesced<T>(answers: Seq<Option<T>>, max_gap: int) -> Seq<Option<Option<T>>> {
    Seq::new(
        answers.len(),
        |row: int|
            match answers[row] {
                Some(value) => Some(Some(value)),
                None => if bridged(answers, max_gap, row) {
                    Some(None)
                } else {
                    None
                },
            },
    )
}

/// Closing gaps selects more rows and remembers the same answers in the same order.
pub proof fn law_coalescing_keeps_answers<T>(answers: Seq<Option<T>>, max_gap: int)
    ensures
        remembered(remembered(coalesced(answers, max_gap))) =~= remembered(answers),
        forall|row: int|
            0 <= row < answers.len() && #[trigger] marks(answers)[row] ==> marks(
                coalesced(answers, max_gap),
            )[row],
{
    lemma_flattened(answers, coalesced(answers, max_gap));
}

proof fn lemma_flattened<T>(answers: Seq<Option<T>>, wider: Seq<Option<Option<T>>>)
    requires
        answers.len() == wider.len(),
        forall|row: int|
            0 <= row < answers.len() ==> (match answers[row] {
                Some(value) => #[trigger] wider[row] == Some(Some(value)),
                None => wider[row] == None::<Option<T>> || wider[row] == Some(None::<T>),
            }),
    ensures
        remembered(remembered(wider)) =~= remembered(answers),
    decreases answers.len(),
{
    if answers.len() > 0 {
        lemma_flattened(answers.drop_last(), wider.drop_last());
        let last = answers.len() - 1;
        assert(wider[last] == wider.last());
        match wider.last() {
            Some(value) => {
                let kept = remembered(wider.drop_last());
                assert(kept.push(value).drop_last() =~= kept);
            },
            None => {},
        }
    }
}

/// Closes gaps of at most `max_gap` rows between answers.
fn coalesce(answers: &[Option<i64>], max_gap: usize) -> (wider: Vec<Option<Option<i64>>>)
    ensures
        wider@ == coalesced(answers@, max_gap as int),
{
    let mut wider: Vec<Option<Option<i64>>> = Vec::new();
    let mut last: Option<usize> = None;
    let mut row: usize = 0;
    while row < answers.len()
        invariant
            row <= answers@.len(),
            wider@.len() == row,
            match last {
                Some(position) => {
                    &&& position < row
                    &&& answers@[position as int] is Some
                    &&& forall|between: int|
                        position < between < row ==> #[trigger] answers@[between] is None
                },
                None => forall|between: int|
                    0 <= between < row ==> #[trigger] answers@[between] is None,
            },
            forall|at: int|
                0 <= at < row ==> (match answers@[at] {
                    Some(value) => #[trigger] wider@[at] == Some(Some(value)),
                    None => if last matches Some(position) && at < position && bridged(
                        answers@,
                        max_gap as int,
                        at,
                    ) {
                        wider@[at] == Some(None::<i64>)
                    } else {
                        wider@[at] == None::<Option<i64>>
                    },
                }),
        decreases answers@.len() - row,
    {
        match answers[row] {
            Some(value) => {
                let start: usize = match last {
                    Some(position) => if row - position - 1 <= max_gap {
                        position + 1
                    } else {
                        row
                    },
                    None => row,
                };
                let ghost unfilled = wider@;
                let mut gap: usize = start;
                while gap < row
                    invariant
                        start <= gap <= row,
                        wider@.len() == row,
                        unfilled.len() == row,
                        forall|at: int|
                            0 <= at < row ==> #[trigger] wider@[at] == (if start <= at < gap {
                                Some(None::<i64>)
                            } else {
                                unfilled[at]
                            }),
                    decreases row - gap,
                {
                    wider[gap] = Some(None);
                    gap += 1;
                }
                wider.push(Some(Some(value)));
                proof {
                    let filled = wider@;
                    assert forall|at: int| 0 <= at <= row implies (match answers@[at] {
                        Some(value) => #[trigger] filled[at] == Some(Some(value)),
                        None => if at < row && bridged(answers@, max_gap as int, at) {
                            filled[at] == Some(None::<i64>)
                        } else {
                            filled[at] == None::<Option<i64>>
                        },
                    }) by {
                        if at < row && answers@[at] is None {
                            match last {
                                Some(position) => {
                                    if at < position {
                                        assert(filled[at] == unfilled[at]);
                                    } else {
                                        assert(position < at);
                                        if row - position - 1 <= max_gap {
                                            assert(neighbours(
                                                answers@,
                                                position as int,
                                                row as int,
                                            ));
                                            assert(bridged(answers@, max_gap as int, at));
                                        } else {
                                            lemma_only_bridge(
                                                answers@,
                                                max_gap as int,
                                                position as int,
                                                row as int,
                                                at,
                                            );
                                        }
                                    }
                                },
                                None => {
                                    lemma_no_bridge(answers@, max_gap as int, at);
                                },
                            }
                        }
                    }
                }
                last = Some(row);
            },
            None => {
                wider.push(None);
            },
        }
        row += 1;
    }
    proof {
        let wanted = coalesced(answers@, max_gap as int);
        assert forall|at: int| 0 <= at < row implies wider@[at] == wanted[at] by {
            if answers@[at] is None {
                match last {
                    Some(position) => {
                        if at >= position && bridged(answers@, max_gap as int, at) {
                            let (before, after) = choose|before: int, after: int|
                                {
                                    &&& 0 <= before < at < after < answers@.len()
                                    &&& after - before - 1 <= max_gap
                                    &&& #[trigger] neighbours(answers@, before, after)
                                };
                            assert(answers@[after] is Some);
                        }
                    },
                    None => {
                        lemma_no_bridge(answers@, max_gap as int, at);
                    },
                }
            }
        }
        assert(wider@ =~= wanted);
    }
    wider
}

/// Between two neighbours there is no other bridge.
proof fn lemma_only_bridge<T>(
    answers: Seq<Option<T>>,
    max_gap: int,
    position: int,
    row: int,
    at: int,
)
    requires
        0 <= position < at < row < answers.len(),
        answers[position] is Some,
        answers[row] is Some,
        forall|between: int| position < between < row ==> #[trigger] answers[between] is None,
        row - position - 1 > max_gap,
    ensures
        !bridged(answers, max_gap, at),
{
    if bridged(answers, max_gap, at) {
        let (before, after) = choose|before: int, after: int|
            {
                &&& 0 <= before < at < after < answers.len()
                &&& after - before - 1 <= max_gap
                &&& #[trigger] neighbours(answers, before, after)
            };
        assert(answers[before] is Some);
        assert(answers[after] is Some);
        assert(before <= position);
        if before < position {
            assert(answers[position] is None);
        }
        assert(after >= row);
        if after > row {
            assert(answers[row] is None);
        }
    }
}

/// Before the first answer there is no bridge.
proof fn lemma_no_bridge<T>(answers: Seq<Option<T>>, max_gap: int, at: int)
    requires
        0 <= at < answers.len(),
        forall|between: int| 0 <= between < at ==> #[trigger] answers[between] is None,
    ensures
        !bridged(answers, max_gap, at),
{
    if bridged(answers, max_gap, at) {
        let (before, after) = choose|before: int, after: int|
            {
                &&& 0 <= before < at < after < answers.len()
                &&& after - before - 1 <= max_gap
                &&& #[trigger] neighbours(answers, before, after)
            };
        assert(answers[before] is Some);
    }
}

/// Each answer as something remembered.
pub open spec fn as_remembered<T>(answers: Seq<Option<T>>) -> Seq<Option<Option<T>>> {
    answers.map_values(
        |answer: Option<T>|
            match answer {
                Some(value) => Some(Some(value)),
                None => None,
            },
    )
}

/// Selects the rows whose supplier and customer share a nation, and remembers it.
/// Where no key is null, rows in gaps of at most `max_gap` rows are selected too, with
/// no nation.
pub fn regional_revenue_late_build_selection(
    orderkeys: &Vector<i64>,
    suppkeys: &Vector<i64>,
    order_customer_nations: &HashMap<i64, i64>,
    supplier_nations: &AdaptiveI64Map<i64>,
    max_gap: usize,
    selection: &mut LateSelection<Option<i64>>,
)
    requires
        orderkeys.well_formed(),
        suppkeys.well_formed(),
        orderkeys@.len() == suppkeys@.len(),
        old(selection).well_formed(),
    ensures
        final(selection).selected(
            *old(selection),
            if orderkeys.null_free() && suppkeys.null_free() {
                coalesced(
                    shared_nations(
                        *orderkeys,
                        *suppkeys,
                        order_customer_nations@,
                        supplier_nations@,
                    ),
                    max_gap as int,
                )
            } else {
                as_remembered(
                    shared_nations(
                        *orderkeys,
                        *suppkeys,
                        order_customer_nations@,
                        supplier_nations@,
                    ),
                )
            },
        ),
{
    let answers = row_shared_nations(orderkeys, suppkeys, order_customer_nations, supplier_nations);
    let null_free = orderkeys.values_if_null_free().is_some()
        && suppkeys.values_if_null_free().is_some();
    if null_free {
        let wider = coalesce(answers.as_slice(), max_gap);
        selection.push_all(wider.as_slice());
        return;
    }
    let mut wider: Vec<Option<Option<i64>>> = Vec::new();
    let mut row: usize = 0;
    while row < answers.len()
        invariant
            row <= answers@.len(),
            wider@ == as_remembered(answers@).take(row as int),
        decreases answers@.len() - row,
    {
        match answers[row] {
            Some(nation) => {
                wider.push(Some(Some(nation)));
            },
            None => {
                wider.push(None);
            },
        }
        row += 1;
        assert(wider@ =~= as_remembered(answers@).take(row as int));
    }
    assert(wider@ =~= as_remembered(answers@));
    selection.push_all(wider.as_slice());
}

} // verus!
