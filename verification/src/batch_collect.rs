//! Keys and pairs collected from the rows of a batch.
//!
//! A row is left out where its key is null or where what is asked of its other
//! columns does not hold. Key columns must hold integers as soon as a row needs
//! its key.

use std::collections::{HashMap, HashSet};
use vstd::prelude::*;
use crate::collect_laws::{
    grown_by_entries, grown_by_keys, lemma_answered_entries, lemma_answered_keys,
    lemma_mapped_entries, lemma_mapped_keys, lemma_pairs_are_cells,
};
use crate::columns::{
    batch_column, batch_string_column, numeric_i64_value, ColumnArray, ColumnData, RecordBatch,
    Vector,
};
use crate::error::{SqlError, SqlResult};
use crate::scan_laws::{integer_in, text_in};
use crate::tables::{entries_of, AdaptiveI64Map, AdaptiveI64Set};
use crate::text::{contains, has_prefix, has_substring, starts_with, str_eq};

verus! {

broadcast use vstd::std_specs::hash::group_hash_axioms;

/// The pairs of the first `rows` rows that have a key and an answer, in order.
pub open spec fn answered_pairs<V>(keys: ColumnArray, answers: Seq<Option<V>>, rows: int) -> Seq<
    (i64, V),
>
    decreases rows,
{
    if rows <= 0 {
        Seq::empty()
    } else if !keys.null_at(rows - 1) && answers[rows - 1] is Some {
        answered_pairs(keys, answers, rows - 1).push(
            (keys.integer_at(rows - 1) as i64, answers[rows - 1]->0),
        )
    } else {
        answered_pairs(keys, answers, rows - 1)
    }
}

/// Whether the key of some row is needed that is no integer.
pub open spec fn needs_other_key<V>(keys: ColumnArray, answers: Seq<Option<V>>) -> bool {
    !keys.is_integer() && exists|row: int|
        0 <= row < answers.len() && !keys.null_at(row) && #[trigger] answers[row] is Some
}

/// The keys of pairs.
pub open spec fn pair_keys<V>(pairs: Seq<(i64, V)>) -> Set<i64> {
    Set::new(|key: i64| exists|index: int| 0 <= index < pairs.len() && (#[trigger] pairs[index]).0 == key)
}

/// The error of a key column that does not hold integers.
pub open spec fn is_key_error(error: SqlError, keys: ColumnArray) -> bool {
    error.is_unsupported("expected integer column, got "@ + keys.type_label@)
}

/// Pairs the answers with the keys of their rows.
pub fn pair_up<V: Copy>(
    keys: &ColumnArray,
    answers: &[Option<V>],
) -> (result: SqlResult<Vec<(i64, V)>>)
    requires
        keys.well_formed(),
        keys.rows() == answers@.len(),
    ensures
        match result {
            Ok(pairs) => !needs_other_key(*keys, answers@) && pairs@ == answered_pairs(
                *keys,
                answers@,
                answers@.len() as int,
            ),
            Err(error) => needs_other_key(*keys, answers@) && is_key_error(error, *keys),
        },
{
    let mut pairs: Vec<(i64, V)> = Vec::new();
    let mut row: usize = 0;
    while row < answers.len()
        invariant
            keys.well_formed(),
            keys.rows() == answers@.len(),
            row <= answers@.len(),
            !keys.is_integer() ==> forall|done: int|
                0 <= done < row && !keys.null_at(done) ==> !(#[trigger] answers@[done] is Some),
            pairs@ == answered_pairs(*keys, answers@, row as int),
        decreases answers@.len() - row,
    {
        match answers[row] {
            Some(value) => match numeric_i64_value(keys, row) {
                Ok(Some(key)) => {
                    pairs.push((key, value));
                },
                Ok(None) => {},
                Err(error) => {
                    assert(answers@[row as int] is Some);
                    return Err(error);
                },
            },
            None => {},
        }
        row += 1;
    }
    Ok(pairs)
}

/// The outcome of collecting keys into a set.
pub open spec fn collected_keys<V>(
    keys: ColumnArray,
    answers: Seq<Option<V>>,
    before: Set<i64>,
    after: Set<i64>,
    result: SqlResult<()>,
) -> bool {
    match result {
        Ok(_) => !needs_other_key(keys, answers) && after == before.union(
            pair_keys(answered_pairs(keys, answers, answers.len() as int)),
        ),
        Err(error) => needs_other_key(keys, answers) && after == before && is_key_error(error, keys),
    }
}

/// The outcome of collecting entries into a map: a later row wins over an earlier
/// one with the same key.
pub open spec fn collected_entries<V>(
    keys: ColumnArray,
    answers: Seq<Option<V>>,
    before: Map<i64, V>,
    after: Map<i64, V>,
    result: SqlResult<()>,
) -> bool {
    match result {
        Ok(_) => !needs_other_key(keys, answers) && after == before.union_prefer_right(
            entries_of(answered_pairs(keys, answers, answers.len() as int)),
        ),
        Err(error) => needs_other_key(keys, answers) && after == before && is_key_error(error, keys),
    }
}

/// The keys of one more pair.
proof fn lemma_pair_keys_push<V>(pairs: Seq<(i64, V)>, count: int)
    requires
        0 <= count < pairs.len(),
    ensures
        pair_keys(pairs.take(count + 1)) =~= pair_keys(pairs.take(count)).insert(pairs[count].0),
{
    let longer = pairs.take(count + 1);
    let shorter = pairs.take(count);
    assert forall|key: i64| pair_keys(longer).contains(key) == pair_keys(shorter).insert(
        pairs[count].0,
    ).contains(key) by {
        if pair_keys(longer).contains(key) {
            let index = choose|index: int| 0 <= index < longer.len() && (#[trigger] longer[index]).0 == key;
            if index < count {
                assert(shorter[index].0 == key);
            }
        }
        if pair_keys(shorter).contains(key) {
            let index = choose|index: int|
                0 <= index < shorter.len() && (#[trigger] shorter[index]).0 == key;
            assert(longer[index].0 == key);
        }
        assert(longer[count].0 == pairs[count].0);
    }
}

/// Adds the keys of pairs to a hash set.
fn add_keys<V>(pairs: &Vec<(i64, V)>, output: &mut HashSet<i64>)
    ensures
        final(output)@ == old(output)@.union(pair_keys(pairs@)),
{
    let ghost before = output@;
    let mut index: usize = 0;
    assert(output@ =~= before.union(pair_keys(pairs@.take(0))));
    while index < pairs.len()
        invariant
            index <= pairs@.len(),
            output@ == before.union(pair_keys(pairs@.take(index as int))),
        decreases pairs@.len() - index,
    {
        proof {
            lemma_pair_keys_push(pairs@, index as int);
        }
        output.insert(pairs[index].0);
        assert(output@ =~= before.union(pair_keys(pairs@.take(index + 1))));
        index += 1;
    }
    assert(pairs@.take(index as int) =~= pairs@);
}

/// Adds the keys of pairs to an adaptive set.
fn add_adaptive_keys<V>(pairs: &Vec<(i64, V)>, output: &mut AdaptiveI64Set)
    ensures
        final(output)@ == old(output)@.union(pair_keys(pairs@)),
{
    let ghost before = output@;
    let mut index: usize = 0;
    assert(output@ =~= before.union(pair_keys(pairs@.take(0))));
    while index < pairs.len()
        invariant
            index <= pairs@.len(),
            output@ == before.union(pair_keys(pairs@.take(index as int))),
        decreases pairs@.len() - index,
    {
        proof {
            lemma_pair_keys_push(pairs@, index as int);
        }
        output.insert(pairs[index].0);
        assert(output@ =~= before.union(pair_keys(pairs@.take(index + 1))));
        index += 1;
    }
    assert(pairs@.take(index as int) =~= pairs@);
}

/// Stores pairs in a hash map, in order.
fn add_entries<V: Copy>(pairs: &Vec<(i64, V)>, output: &mut HashMap<i64, V>)
    ensures
        final(output)@ == old(output)@.union_prefer_right(entries_of(pairs@)),
{
    let ghost before = output@;
    let mut index: usize = 0;
    assert(output@ =~= before.union_prefer_right(entries_of(pairs@.take(0))));
    while index < pairs.len()
        invariant
            index <= pairs@.len(),
            output@ == before.union_prefer_right(entries_of(pairs@.take(index as int))),
        decreases pairs@.len() - index,
    {
        let (key, value): (i64, V) = pairs[index];
        output.insert(key, value);
        index += 1;
        assert(pairs@.take(index as int).drop_last() =~= pairs@.take(index - 1));
        assert(output@ =~= before.union_prefer_right(entries_of(pairs@.take(index as int))));
    }
    assert(pairs@.take(index as int) =~= pairs@);
}

/// Stores pairs in an adaptive map, in order.
fn add_adaptive_entries<V: Copy>(pairs: &Vec<(i64, V)>, output: &mut AdaptiveI64Map<V>)
    ensures
        final(output)@ == old(output)@.union_prefer_right(entries_of(pairs@)),
{
    let ghost before = output@;
    let mut index: usize = 0;
    assert(output@ =~= before.union_prefer_right(entries_of(pairs@.take(0))));
    while index < pairs.len()
        invariant
            index <= pairs@.len(),
            output@ == before.union_prefer_right(entries_of(pairs@.take(index as int))),
        decreases pairs@.len() - index,
    {
        let (key, value): (i64, V) = pairs[index];
        output.insert(key, value);
        index += 1;
        assert(pairs@.take(index as int).drop_last() =~= pairs@.take(index - 1));
        assert(output@ =~= before.union_prefer_right(entries_of(pairs@.take(index as int))));
    }
    assert(pairs@.take(index as int) =~= pairs@);
}

/// Whether a batch lacks a key column or a string column, with the error for the
/// first that is missing; `second` is looked up only where `first` is there.
pub open spec fn columns_missing(
    batch: RecordBatch,
    keys: Seq<char>,
    strings: Seq<char>,
    error: SqlError,
) -> bool {
    if !batch.has_column(keys) {
        error.is_unknown_column(keys)
    } else if !batch.has_column(strings) {
        error.is_unknown_column(strings)
    } else {
        !(batch.column_named(strings).data is Utf8) && error.is_unsupported(
            strings + " must be Utf8"@,
        )
    }
}

/// Whether a batch has a key column and a string column.
pub open spec fn has_key_and_strings(
    batch: RecordBatch,
    keys: Seq<char>,
    strings: Seq<char>,
) -> bool {
    &&& batch.has_column(keys)
    &&& batch.has_column(strings)
    &&& batch.column_named(strings).data is Utf8
}

/// The strings of a column, `None` for a null.
pub open spec fn strings_of(column: ColumnArray) -> Seq<Option<Seq<char>>> {
    match column.data {
        ColumnData::Utf8(vector) => Seq::new(
            vector@.len(),
            |row: int|
                if vector.valid_at(row) {
                    Some(vector.values@[row]@)
                } else {
                    None
                },
        ),
        _ => Seq::empty(),
    }
}

/// A test on a string.
pub enum StringTest<'a> {
    StartsWith(&'a str),
    Equals(&'a str),
    Contains(&'a str),
}

impl<'a> StringTest<'a> {
    /// Whether a text passes.
    pub open spec fn passes(self, text: Seq<char>) -> bool {
        match self {
            StringTest::StartsWith(prefix) => has_prefix(text, prefix@),
            StringTest::Equals(expected) => text == expected@,
            StringTest::Contains(needle) => has_substring(text, needle@),
        }
    }

    /// Whether a row's string is there and passes.
    pub open spec fn passes_row(self, text: Option<Seq<char>>) -> bool {
        text matches Some(text) && self.passes(text)
    }

    /// Whether a text passes.
    pub fn check(&self, text: &str) -> (passed: bool)
        ensures
            passed == self.passes(text@),
    {
        match self {
            StringTest::StartsWith(prefix) => starts_with(text, prefix),
            StringTest::Equals(expected) => str_eq(text, expected),
            StringTest::Contains(needle) => contains(text, needle),
        }
    }

    /// Whether a row's string is there and passes.
    fn check_row(&self, strings: &Vector<String>, row: usize) -> (passed: bool)
        requires
            strings.well_formed(),
            row < strings@.len(),
        ensures
            passed == (strings.valid_at(row as int) && self.passes(strings.values@[row as int]@)),
    {
        !strings.is_null(row) && self.check(strings.values[row].as_str())
    }
}

/// An answer for each row whose string passes a test.
pub open spec fn passing(strings: Seq<Option<Seq<char>>>, test: StringTest) -> Seq<Option<()>> {
    strings.map_values(
        |text: Option<Seq<char>>|
            if test.passes_row(text) {
                Some(())
            } else {
                None
            },
    )
}

/// An answer for each row that has a string: whether it passes a test.
pub open spec fn verdicts(strings: Seq<Option<Seq<char>>>, test: StringTest) -> Seq<Option<bool>> {
    strings.map_values(
        |text: Option<Seq<char>>|
            match text {
                Some(text) => Some(test.passes(text)),
                None => None,
            },
    )
}

/// The rows whose string passes a test.
fn passing_rows(strings: &Vector<String>, test: &StringTest) -> (answers: Vec<Option<()>>)
    requires
        strings.well_formed(),
    ensures
        answers@.len() == strings@.len(),
        forall|row: int|
            0 <= row < answers@.len() ==> #[trigger] answers@[row] == (if strings.valid_at(row)
                && test.passes(strings.values@[row]@) {
                Some(())
            } else {
                None
            }),
{
    let mut answers: Vec<Option<()>> = Vec::new();
    let mut row: usize = 0;
    while row < strings.len()
        invariant
            strings.well_formed(),
            row <= strings@.len(),
            answers@.len() == row,
            forall|done: int|
                0 <= done < row ==> #[trigger] answers@[done] == (if strings.valid_at(done)
                    && test.passes(strings.values@[done]@) {
                    Some(())
                } else {
                    None
                }),
        decreases strings@.len() - row,
    {
        if test.check_row(strings, row) {
            answers.push(Some(()));
        } else {
            answers.push(None);
        }
        row += 1;
    }
    answers
}

/// Pairs of the keys whose string passes a test.
fn keys_where_string(
    batch: &RecordBatch,
    key_column: &str,
    string_column: &str,
    test: StringTest,
) -> (result: SqlResult<Vec<(i64, ())>>)
    requires
        batch.well_formed(),
    ensures
        match result {
            Ok(pairs) => {
                let keys = batch.column_named(key_column@);
                let answers = passing(strings_of(batch.column_named(string_column@)), test);
                &&& has_key_and_strings(*batch, key_column@, string_column@)
                &&& !needs_other_key(keys, answers)
                &&& pairs@ == answered_pairs(keys, answers, answers.len() as int)
            },
            Err(error) => if has_key_and_strings(*batch, key_column@, string_column@) {
                let keys = batch.column_named(key_column@);
                let answers = passing(strings_of(batch.column_named(string_column@)), test);
                needs_other_key(keys, answers) && is_key_error(error, keys)
            } else {
                columns_missing(*batch, key_column@, string_column@, error)
            },
        },
{
    let keys = match batch_column(batch, key_column) {
        Ok(keys) => keys,
        Err(error) => {
            return Err(error);
        },
    };
    let strings = match batch_string_column(batch, string_column) {
        Ok(strings) => strings,
        Err(error) => {
            return Err(error);
        },
    };
    let answers = passing_rows(strings, &test);
    assert(answers@ =~= passing(strings_of(batch.column_named(string_column@)), test));
    pair_up(keys, answers.as_slice())
}

/// The outcome of collecting the keys whose string passes a test into a set.
pub open spec fn collects_where_string(
    batch: RecordBatch,
    key_column: Seq<char>,
    string_column: Seq<char>,
    test: StringTest,
    before: Set<i64>,
    after: Set<i64>,
    result: SqlResult<()>,
) -> bool {
    if has_key_and_strings(batch, key_column, string_column) {
        collected_keys(
            batch.column_named(key_column),
            passing(strings_of(batch.column_named(string_column)), test),
            before,
            after,
            result,
        )
    } else {
        result matches Err(error) && after == before && columns_missing(
            batch,
            key_column,
            string_column,
            error,
        )
    }
}

/// Adds the keys of the rows whose string starts with `prefix`.
pub fn collect_i64_utf8_prefix_set_batch(
    batch: &RecordBatch,
    key_column: &str,
    string_column: &str,
    prefix: &str,
    output: &mut HashSet<i64>,
) -> (result: SqlResult<()>)
    requires
        batch.well_formed(),
    ensures
        collects_where_string(
            *batch,
            key_column@,
            string_column@,
            StringTest::StartsWith(prefix),
            old(output)@,
            final(output)@,
            result,
        ),
        result is Ok ==> grown_by_keys(
            old(output)@,
            final(output)@,
            |row: int|
                match text_in(*batch, string_column@, row) {
                    Some(text) => if has_prefix(text, prefix@) {
                        integer_in(*batch, key_column@, row)
                    } else {
                        None
                    },
                    None => None,
                },
            batch.num_rows as int,
        ),
{
    match keys_where_string(batch, key_column, string_column, StringTest::StartsWith(prefix)) {
        Ok(pairs) => {
            add_keys(&pairs, output);
            proof {
                let told = |row: int|
                match text_in(*batch, string_column@, row) {
                    Some(text) => if has_prefix(text, prefix@) {
                        integer_in(*batch, key_column@, row)
                    } else {
                        None
                    },
                    None => None,
                };
                lemma_answered_keys(
                    batch.column_named(key_column@),
                    passing(
                        strings_of(batch.column_named(string_column@)),
                        StringTest::StartsWith(prefix),
                    ),
                    old(output)@,
                    told,
                );
            }
            Ok(())
        },
        Err(error) => Err(error),
    }
}

/// Adds the keys of the rows whose string is `expected`.
pub fn collect_i64_utf8_eq_set_batch(
    batch: &RecordBatch,
    key_column: &str,
    string_column: &str,
    expected: &str,
    output: &mut HashSet<i64>,
) -> (result: SqlResult<()>)
    requires
        batch.well_formed(),
    ensures
        collects_where_string(
            *batch,
            key_column@,
            string_column@,
            StringTest::Equals(expected),
            old(output)@,
            final(output)@,
            result,
        ),
        result is Ok ==> grown_by_keys(
            old(output)@,
            final(output)@,
            |row: int|
                match text_in(*batch, string_column@, row) {
                    Some(text) => if text == expected@ {
                        integer_in(*batch, key_column@, row)
                    } else {
                        None
                    },
                    None => None,
                },
            batch.num_rows as int,
        ),
{
    match keys_where_string(batch, key_column, string_column, StringTest::Equals(expected)) {
        Ok(pairs) => {
            add_keys(&pairs, output);
            proof {
                let told = |row: int|
                match text_in(*batch, string_column@, row) {
                    Some(text) => if text == expected@ {
                        integer_in(*batch, key_column@, row)
                    } else {
                        None
                    },
                    None => None,
                };
                lemma_answered_keys(
                    batch.column_named(key_column@),
                    passing(
                        strings_of(batch.column_named(string_column@)),
                        StringTest::Equals(expected),
                    ),
                    old(output)@,
                    told,
                );
            }
            Ok(())
        },
        Err(error) => Err(error),
    }
}

/// Adds the keys of the rows whose string contains `needle`.
pub fn collect_i64_utf8_contains_set_batch(
    batch: &RecordBatch,
    key_column: &str,
    string_column: &str,
    needle: &str,
    output: &mut HashSet<i64>,
) -> (result: SqlResult<()>)
    requires
        batch.well_formed(),
    ensures
        collects_where_string(
            *batch,
            key_column@,
            string_column@,
            StringTest::Contains(needle),
            old(output)@,
            final(output)@,
            result,
        ),
        result is Ok ==> grown_by_keys(
            old(output)@,
            final(output)@,
            |row: int|
                match text_in(*batch, string_column@, row) {
                    Some(text) => if has_substring(text, needle@) {
                        integer_in(*batch, key_column@, row)
                    } else {
                        None
                    },
                    None => None,
                },
            batch.num_rows as int,
        ),
{
    match keys_where_string(batch, key_column, string_column, StringTest::Contains(needle)) {
        Ok(pairs) => {
            add_keys(&pairs, output);
            proof {
                let told = |row: int|
                match text_in(*batch, string_column@, row) {
                    Some(text) => if has_substring(text, needle@) {
                        integer_in(*batch, key_column@, row)
                    } else {
                        None
                    },
                    None => None,
                };
                lemma_answered_keys(
                    batch.column_named(key_column@),
                    passing(
                        strings_of(batch.column_named(string_column@)),
                        StringTest::Contains(needle),
                    ),
                    old(output)@,
                    told,
                );
            }
            Ok(())
        },
        Err(error) => Err(error),
    }
}

/// Adds the keys of the rows whose string is `expected`.
pub fn collect_i64_utf8_eq_adaptive_set_batch(
    batch: &RecordBatch,
    key_column: &str,
    string_column: &str,
    expected: &str,
    output: &mut AdaptiveI64Set,
) -> (result: SqlResult<()>)
    requires
        batch.well_formed(),
    ensures
        collects_where_string(
            *batch,
            key_column@,
            string_column@,
            StringTest::Equals(expected),
            old(output)@,
            final(output)@,
            result,
        ),
        result is Ok ==> grown_by_keys(
            old(output)@,
            final(output)@,
            |row: int|
                match text_in(*batch, string_column@, row) {
                    Some(text) => if text == expected@ {
                        integer_in(*batch, key_column@, row)
                    } else {
                        None
                    },
                    None => None,
                },
            batch.num_rows as int,
        ),
{
    match keys_where_string(batch, key_column, string_column, StringTest::Equals(expected)) {
        Ok(pairs) => {
            add_adaptive_keys(&pairs, output);
            proof {
                let told = |row: int|
                match text_in(*batch, string_column@, row) {
                    Some(text) => if text == expected@ {
                        integer_in(*batch, key_column@, row)
                    } else {
                        None
                    },
                    None => None,
                };
                lemma_answered_keys(
                    batch.column_named(key_column@),
                    passing(
                        strings_of(batch.column_named(string_column@)),
                        StringTest::Equals(expected),
                    ),
                    old(output)@,
                    told,
                );
            }
            Ok(())
        },
        Err(error) => Err(error),
    }
}

/// Records for the key of each row that has a string whether it starts with
/// `prefix`.
pub fn collect_i64_utf8_prefix_bool_lookup_batch(
    batch: &RecordBatch,
    key_column: &str,
    string_column: &str,
    prefix: &str,
    lookup: &mut AdaptiveI64Map<bool>,
) -> (result: SqlResult<()>)
    requires
        batch.well_formed(),
    ensures
        if has_key_and_strings(*batch, key_column@, string_column@) {
            collected_entries(
                batch.column_named(key_column@),
                verdicts(
                    strings_of(batch.column_named(string_column@)),
                    StringTest::StartsWith(prefix),
                ),
                old(lookup)@,
                final(lookup)@,
                result,
            )
        } else {
            result matches Err(error) && final(lookup)@ == old(lookup)@ && columns_missing(
                *batch,
                key_column@,
                string_column@,
                error,
            )
        },
        result is Ok ==> grown_by_entries(
            old(lookup)@,
            final(lookup)@,
            |row: int|
                match (integer_in(*batch, key_column@, row), text_in(*batch, string_column@, row)) {
                    (Some(key), Some(text)) => Some((key, has_prefix(text, prefix@))),
                    _ => None,
                },
            batch.num_rows as int,
        ),
{
    let keys = match batch_column(batch, key_column) {
        Ok(keys) => keys,
        Err(error) => {
            return Err(error);
        },
    };
    let strings = match batch_string_column(batch, string_column) {
        Ok(strings) => strings,
        Err(error) => {
            return Err(error);
        },
    };
    let test = StringTest::StartsWith(prefix);
    let ghost expected = verdicts(strings_of(batch.column_named(string_column@)), test);
    let mut answers: Vec<Option<bool>> = Vec::new();
    let mut row: usize = 0;
    while row < strings.len()
        invariant
            strings.well_formed(),
            row <= strings@.len(),
            answers@.len() == row,
            forall|done: int|
                0 <= done < row ==> #[trigger] answers@[done] == (if strings.valid_at(done) {
                    Some(test.passes(strings.values@[done]@))
                } else {
                    None
                }),
        decreases strings@.len() - row,
    {
        if strings.is_null(row) {
            answers.push(None);
        } else {
            answers.push(Some(test.check(strings.values[row].as_str())));
        }
        row += 1;
    }
    assert(answers@ =~= expected);
    match pair_up(keys, answers.as_slice()) {
        Ok(pairs) => {
            add_adaptive_entries(&pairs, lookup);
            proof {
                let told = |row: int|
                match (integer_in(*batch, key_column@, row), text_in(*batch, string_column@, row)) {
                    (Some(key), Some(text)) => Some((key, has_prefix(text, prefix@))),
                    _ => None,
                };
                lemma_answered_entries(
                    batch.column_named(key_column@),
                    answers@,
                    old(lookup)@,
                    told,
                );
            }
            Ok(())
        },
        Err(error) => Err(error),
    }
}

/// An answer for each row whose two strings are the expected ones.
pub open spec fn both_equal(
    first: Seq<Option<Seq<char>>>,
    first_expected: Seq<char>,
    second: Seq<Option<Seq<char>>>,
    second_expected: Seq<char>,
) -> Seq<Option<()>> {
    Seq::new(
        first.len(),
        |row: int|
            if first[row] == Some(first_expected) && second[row] == Some(second_expected) {
                Some(())
            } else {
                None
            },
    )
}

/// Adds the keys of the rows whose two strings are the expected ones.
pub fn collect_i64_two_utf8_eq_set_batch(
    batch: &RecordBatch,
    key_column: &str,
    first_string_column: &str,
    first_expected: &str,
    second_string_column: &str,
    second_expected: &str,
    output: &mut HashSet<i64>,
) -> (result: SqlResult<()>)
    requires
        batch.well_formed(),
    ensures
        if !has_key_and_strings(*batch, key_column@, first_string_column@) {
            result matches Err(error) && final(output)@ == old(output)@ && columns_missing(
                *batch,
                key_column@,
                first_string_column@,
                error,
            )
        } else if !has_key_and_strings(*batch, key_column@, second_string_column@) {
            result matches Err(error) && final(output)@ == old(output)@ && columns_missing(
                *batch,
                key_column@,
                second_string_column@,
                error,
            )
        } else {
            collected_keys(
                batch.column_named(key_column@),
                both_equal(
                    strings_of(batch.column_named(first_string_column@)),
                    first_expected@,
                    strings_of(batch.column_named(second_string_column@)),
                    second_expected@,
                ),
                old(output)@,
                final(output)@,
                result,
            )
        },
        result is Ok ==> grown_by_keys(
            old(output)@,
            final(output)@,
            |row: int|
                if text_in(*batch, first_string_column@, row) == Some(first_expected@) && text_in(
                    *batch,
                    second_string_column@,
                    row,
                ) == Some(second_expected@) {
                    integer_in(*batch, key_column@, row)
                } else {
                    None
                },
            batch.num_rows as int,
        ),
{
    let keys = match batch_column(batch, key_column) {
        Ok(keys) => keys,
        Err(error) => {
            return Err(error);
        },
    };
    let first = match batch_string_column(batch, first_string_column) {
        Ok(strings) => strings,
        Err(error) => {
            return Err(error);
        },
    };
    let second = match batch_string_column(batch, second_string_column) {
        Ok(strings) => strings,
        Err(error) => {
            return Err(error);
        },
    };
    let first_test = StringTest::Equals(first_expected);
    let second_test = StringTest::Equals(second_expected);
    let ghost expected = both_equal(
        strings_of(batch.column_named(first_string_column@)),
        first_expected@,
        strings_of(batch.column_named(second_string_column@)),
        second_expected@,
    );
    let mut answers: Vec<Option<()>> = Vec::new();
    let mut row: usize = 0;
    while row < batch.num_rows
        invariant
            first.well_formed(),
            second.well_formed(),
            first@.len() == batch.num_rows,
            second@.len() == batch.num_rows,
            first_test == StringTest::Equals(first_expected),
            second_test == StringTest::Equals(second_expected),
            row <= batch.num_rows,
            answers@.len() == row,
            forall|done: int|
                0 <= done < row ==> #[trigger] answers@[done] == (if first.valid_at(done)
                    && second.valid_at(done) && first.values@[done]@ == first_expected@
                    && second.values@[done]@ == second_expected@ {
                    Some(())
                } else {
                    None
                }),
        decreases batch.num_rows - row,
    {
        if first_test.check_row(first, row) && second_test.check_row(second, row) {
            answers.push(Some(()));
        } else {
            answers.push(None);
        }
        row += 1;
    }
    assert(answers@ =~= expected);
    match pair_up(keys, answers.as_slice()) {
        Ok(pairs) => {
            add_keys(&pairs, output);
            proof {
                let told = |row: int|
                if text_in(*batch, first_string_column@, row) == Some(first_expected@) && text_in(
                    *batch,
                    second_string_column@,
                    row,
                ) == Some(second_expected@) {
                    integer_in(*batch, key_column@, row)
                } else {
                    None
                };
                lemma_answered_keys(
                    batch.column_named(key_column@),
                    answers@,
                    old(output)@,
                    told,
                );
            }
            Ok(())
        },
        Err(error) => Err(error),
    }
}

/// Adds the keys of all rows that have one.
pub fn collect_i64_adaptive_set_batch(
    batch: &RecordBatch,
    key_column: &str,
    output: &mut AdaptiveI64Set,
) -> (result: SqlResult<()>)
    requires
        batch.well_formed(),
    ensures
        if batch.has_column(key_column@) {
            collected_keys(
                batch.column_named(key_column@),
                Seq::new(batch.num_rows as nat, |row: int| Some(())),
                old(output)@,
                final(output)@,
                result,
            )
        } else {
            result matches Err(error) && final(output)@ == old(output)@ && error.is_unknown_column(
                key_column@,
            )
        },
        result is Ok ==> grown_by_keys(
            old(output)@,
            final(output)@,
            |row: int| integer_in(*batch, key_column@, row),
            batch.num_rows as int,
        ),
{
    let keys = match batch_column(batch, key_column) {
        Ok(keys) => keys,
        Err(error) => {
            return Err(error);
        },
    };
    let mut answers: Vec<Option<()>> = Vec::new();
    let mut row: usize = 0;
    while row < batch.num_rows
        invariant
            row <= batch.num_rows,
            answers@.len() == row,
            forall|done: int| 0 <= done < row ==> #[trigger] answers@[done] == Some(()),
        decreases batch.num_rows - row,
    {
        answers.push(Some(()));
        row += 1;
    }
    assert(answers@ =~= Seq::new(batch.num_rows as nat, |row: int| Some(())));
    match pair_up(keys, answers.as_slice()) {
        Ok(pairs) => {
            add_adaptive_keys(&pairs, output);
            proof {
                let told = |row: int| integer_in(*batch, key_column@, row);
                lemma_answered_keys(
                    batch.column_named(key_column@),
                    answers@,
                    old(output)@,
                    told,
                );
            }
            Ok(())
        },
        Err(error) => Err(error),
    }
}

/// Whether a row holds something else than an integer.
pub open spec fn unreadable(column: ColumnArray, row: int) -> bool {
    !column.is_integer() && !column.null_at(row)
}

/// Whether `row` is the first row of which one of two columns cannot be read as an
/// integer.
pub open spec fn first_unreadable(first: ColumnArray, second: ColumnArray, row: int) -> bool {
    &&& 0 <= row < first.rows()
    &&& unreadable(first, row) || unreadable(second, row)
    &&& forall|earlier: int|
        0 <= earlier < row ==> !#[trigger] unreadable(first, earlier) && !unreadable(
            second,
            earlier,
        )
}

/// Whether every row of two columns can be read as integers.
pub open spec fn all_readable(first: ColumnArray, second: ColumnArray) -> bool {
    forall|row: int|
        0 <= row < first.rows() ==> !#[trigger] unreadable(first, row) && !unreadable(second, row)
}

/// The error of the first row of two columns that cannot be read as integers,
/// `first` before `second`.
pub open spec fn is_pair_error(first: ColumnArray, second: ColumnArray, error: SqlError) -> bool {
    exists|row: int| #[trigger]
        first_unreadable(first, second, row) && is_key_error(
            error,
            if unreadable(first, row) {
                first
            } else {
                second
            },
        )
}

/// The integers of two columns, row by row, where both are there.
pub open spec fn integer_pairs(first: ColumnArray, second: ColumnArray) -> Seq<Option<(i64, i64)>> {
    Seq::new(
        first.rows() as nat,
        |row: int|
            match (first.integer_cell(row), second.integer_cell(row)) {
                (Some(left), Some(right)) => Some((left, right)),
                _ => None,
            },
    )
}

/// Reads two columns as integers, row by row.
pub fn read_integer_pairs(
    first: &ColumnArray,
    second: &ColumnArray,
    rows: usize,
) -> (result: SqlResult<
    Vec<Option<(i64, i64)>>,
>)
    requires
        first.well_formed(),
        second.well_formed(),
        first.rows() == rows,
        second.rows() == rows,
    ensures
        match result {
            Ok(pairs) => all_readable(*first, *second) && pairs@ == integer_pairs(*first, *second),
            Err(error) => !all_readable(*first, *second) && is_pair_error(*first, *second, error),
        },
{
    let mut pairs: Vec<Option<(i64, i64)>> = Vec::new();
    let mut row: usize = 0;
    while row < rows
        invariant
            first.well_formed(),
            second.well_formed(),
            first.rows() == rows,
            second.rows() == rows,
            row <= rows,
            pairs@.len() == row,
            forall|done: int|
                0 <= done < row ==> #[trigger] pairs@[done] == integer_pairs(*first, *second)[done],
            forall|done: int|
                0 <= done < row ==> !#[trigger] unreadable(*first, done) && !unreadable(
                    *second,
                    done,
                ),
        decreases rows - row,
    {
        let left: Option<i64> = match numeric_i64_value(first, row) {
            Ok(left) => left,
            Err(error) => {
                assert(unreadable(*first, row as int));
                assert(first_unreadable(*first, *second, row as int));
                return Err(error);
            },
        };
        let right: Option<i64> = match numeric_i64_value(second, row) {
            Ok(right) => right,
            Err(error) => {
                assert(!unreadable(*first, row as int));
                assert(first_unreadable(*first, *second, row as int));
                return Err(error);
            },
        };
        match (left, right) {
            (Some(left), Some(right)) => {
                pairs.push(Some((left, right)));
            },
            _ => {
                pairs.push(None);
            },
        }
        row += 1;
    }
    assert(pairs@ =~= integer_pairs(*first, *second));
    Ok(pairs)
}

/// The pairs of the first `rows` rows that have both integers and an answer, in
/// order: the first integer with the answer.
pub open spec fn mapped_pairs<V>(
    pairs: Seq<Option<(i64, i64)>>,
    answers: Seq<Option<V>>,
    rows: int,
) -> Seq<(i64, V)>
    decreases rows,
{
    if rows <= 0 {
        Seq::empty()
    } else {
        match (pairs[rows - 1], answers[rows - 1]) {
            (Some((key, _)), Some(value)) => mapped_pairs(pairs, answers, rows - 1).push(
                (key, value),
            ),
            _ => mapped_pairs(pairs, answers, rows - 1),
        }
    }
}

/// Pairs the answers with the first integers.
fn map_up<V: Copy>(pairs: &[Option<(i64, i64)>], answers: &[Option<V>]) -> (mapped: Vec<(i64, V)>)
    requires
        pairs@.len() == answers@.len(),
    ensures
        mapped@ == mapped_pairs(pairs@, answers@, pairs@.len() as int),
{
    let mut mapped: Vec<(i64, V)> = Vec::new();
    let mut row: usize = 0;
    while row < pairs.len()
        invariant
            pairs@.len() == answers@.len(),
            row <= pairs@.len(),
            mapped@ == mapped_pairs(pairs@, answers@, row as int),
        decreases pairs@.len() - row,
    {
        match (pairs[row], answers[row]) {
            (Some((key, _)), Some(value)) => {
                mapped.push((key, value));
            },
            _ => {},
        }
        row += 1;
    }
    mapped
}

/// Two integer columns of a batch, or why they cannot be read.
pub fn read_columns(batch: &RecordBatch, first: &str, second: &str) -> (result: SqlResult<
    Vec<Option<(i64, i64)>>,
>)
    requires
        batch.well_formed(),
    ensures
        match result {
            Ok(pairs) => reads_pairs(*batch, first@, second@) && pairs@ == integer_pairs(
                batch.column_named(first@),
                batch.column_named(second@),
            ) && pairs@.len() == batch.num_rows,
            Err(error) => !reads_pairs(*batch, first@, second@) && pairs_error(
                *batch,
                first@,
                second@,
                error,
            ),
        },
{
    let first_column = match batch_column(batch, first) {
        Ok(column) => column,
        Err(error) => {
            return Err(error);
        },
    };
    let second_column = match batch_column(batch, second) {
        Ok(column) => column,
        Err(error) => {
            return Err(error);
        },
    };
    read_integer_pairs(first_column, second_column, batch.num_rows)
}

/// Whether two columns are there and every row of them can be read as integers.
pub open spec fn reads_pairs(batch: RecordBatch, first: Seq<char>, second: Seq<char>) -> bool {
    &&& batch.has_column(first)
    &&& batch.has_column(second)
    &&& all_readable(batch.column_named(first), batch.column_named(second))
}

/// Why two columns cannot be read: the first that is missing, or the first row that
/// holds something else than integers.
pub open spec fn pairs_error(
    batch: RecordBatch,
    first: Seq<char>,
    second: Seq<char>,
    error: SqlError,
) -> bool {
    if !batch.has_column(first) {
        error.is_unknown_column(first)
    } else if !batch.has_column(second) {
        error.is_unknown_column(second)
    } else {
        is_pair_error(batch.column_named(first), batch.column_named(second), error)
    }
}

/// The second integers that are in a set, as answers.
pub open spec fn members(pairs: Seq<Option<(i64, i64)>>, wanted: Set<i64>) -> Seq<Option<i64>> {
    pairs.map_values(
        |pair: Option<(i64, i64)>|
            match pair {
                Some((_, filter)) => if wanted.contains(filter) {
                    Some(filter)
                } else {
                    None
                },
                None => None,
            },
    )
}

/// The second integers, as answers.
pub open spec fn seconds(pairs: Seq<Option<(i64, i64)>>) -> Seq<Option<i64>> {
    pairs.map_values(
        |pair: Option<(i64, i64)>|
            match pair {
                Some((_, value)) => Some(value),
                None => None,
            },
    )
}

/// Adds the output keys of the rows whose filter key is wanted.
pub fn collect_i64_by_i64_set_adaptive_set_batch(
    batch: &RecordBatch,
    output_key_column: &str,
    filter_key_column: &str,
    filter_keys: &HashSet<i64>,
    output: &mut AdaptiveI64Set,
) -> (result: SqlResult<()>)
    requires
        batch.well_formed(),
    ensures
        match result {
            Ok(_) => reads_pairs(*batch, output_key_column@, filter_key_column@) && ({
                let pairs = integer_pairs(
                    batch.column_named(output_key_column@),
                    batch.column_named(filter_key_column@),
                );
                final(output)@ == old(output)@.union(
                    pair_keys(
                        mapped_pairs(pairs, members(pairs, filter_keys@), pairs.len() as int),
                    ),
                )
            }),
            Err(error) => !reads_pairs(*batch, output_key_column@, filter_key_column@)
                && pairs_error(
                    *batch,
                    output_key_column@,
                    filter_key_column@,
                    error,
                ) && final(output)@ == old(output)@,
        },
        result is Ok ==> grown_by_keys(
            old(output)@,
            final(output)@,
            |row: int|
                match integer_in(*batch, filter_key_column@, row) {
                    Some(filter) => if filter_keys@.contains(filter) {
                        integer_in(*batch, output_key_column@, row)
                    } else {
                        None
                    },
                    None => None,
                },
            batch.num_rows as int,
        ),
{
    let pairs = match read_columns(batch, output_key_column, filter_key_column) {
        Ok(pairs) => pairs,
        Err(error) => {
            return Err(error);
        },
    };
    let mut answers: Vec<Option<i64>> = Vec::new();
    let mut row: usize = 0;
    while row < pairs.len()
        invariant
            row <= pairs@.len(),
            answers@ == members(pairs@, filter_keys@).take(row as int),
        decreases pairs@.len() - row,
    {
        match pairs[row] {
            Some((_, filter)) => {
                if filter_keys.contains(&filter) {
                    answers.push(Some(filter));
                } else {
                    answers.push(None);
                }
            },
            None => {
                answers.push(None);
            },
        }
        row += 1;
        assert(answers@ =~= members(pairs@, filter_keys@).take(row as int));
    }
    assert(answers@ =~= members(pairs@, filter_keys@));
    let mapped = map_up(pairs.as_slice(), answers.as_slice());
    add_adaptive_keys(&mapped, output);
    proof {
        lemma_pairs_are_cells(*batch, output_key_column@, filter_key_column@);
        let told = |row: int|
                match integer_in(*batch, filter_key_column@, row) {
                    Some(filter) => if filter_keys@.contains(filter) {
                        integer_in(*batch, output_key_column@, row)
                    } else {
                        None
                    },
                    None => None,
                };
        lemma_mapped_keys(pairs@, answers@, old(output)@, told);
    }
    Ok(())
}

/// Stores the filter key under the output key for the rows whose filter key is
/// wanted.
pub fn collect_i64_by_i64_set_hash_map_batch(
    batch: &RecordBatch,
    output_key_column: &str,
    filter_key_column: &str,
    filter_keys: &AdaptiveI64Set,
    output: &mut HashMap<i64, i64>,
) -> (result: SqlResult<()>)
    requires
        batch.well_formed(),
    ensures
        match result {
            Ok(_) => reads_pairs(*batch, output_key_column@, filter_key_column@) && ({
                let pairs = integer_pairs(
                    batch.column_named(output_key_column@),
                    batch.column_named(filter_key_column@),
                );
                final(output)@ == old(output)@.union_prefer_right(
                    entries_of(
                        mapped_pairs(pairs, members(pairs, filter_keys@), pairs.len() as int),
                    ),
                )
            }),
            Err(error) => !reads_pairs(*batch, output_key_column@, filter_key_column@)
                && pairs_error(
                    *batch,
                    output_key_column@,
                    filter_key_column@,
                    error,
                ) && final(output)@ == old(output)@,
        },
        result is Ok ==> grown_by_entries(
            old(output)@,
            final(output)@,
            |row: int|
                match (
                    integer_in(*batch, output_key_column@, row),
                    integer_in(*batch, filter_key_column@, row),
                ) {
                    (Some(key), Some(filter)) => if filter_keys@.contains(filter) {
                        Some((key, filter))
                    } else {
                        None
                    },
                    _ => None,
                },
            batch.num_rows as int,
        ),
{
    let pairs = match read_columns(batch, output_key_column, filter_key_column) {
        Ok(pairs) => pairs,
        Err(error) => {
            return Err(error);
        },
    };
    let dense = filter_keys.dense_contains_slice();
    let mut answers: Vec<Option<i64>> = Vec::new();
    let mut row: usize = 0;
    while row < pairs.len()
        invariant
            dense matches Some(present) ==> filter_keys@ == crate::tables::dense_keys(present@),
            row <= pairs@.len(),
            answers@ == members(pairs@, filter_keys@).take(row as int),
        decreases pairs@.len() - row,
    {
        match pairs[row] {
            Some((_, filter)) => {
                if filter_keys.contains_cached(dense, filter) {
                    answers.push(Some(filter));
                } else {
                    answers.push(None);
                }
            },
            None => {
                answers.push(None);
            },
        }
        row += 1;
        assert(answers@ =~= members(pairs@, filter_keys@).take(row as int));
    }
    assert(answers@ =~= members(pairs@, filter_keys@));
    let mapped = map_up(pairs.as_slice(), answers.as_slice());
    add_entries(&mapped, output);
    proof {
        lemma_pairs_are_cells(*batch, output_key_column@, filter_key_column@);
        let told = |row: int|
                match (
                    integer_in(*batch, output_key_column@, row),
                    integer_in(*batch, filter_key_column@, row),
                ) {
                    (Some(key), Some(filter)) => if filter_keys@.contains(filter) {
                        Some((key, filter))
                    } else {
                        None
                    },
                    _ => None,
                };
        lemma_mapped_entries(pairs@, answers@, old(output)@, told);
    }
    Ok(())
}

/// Stores each value under its key.
pub fn collect_i64_i64_adaptive_map_batch(
    batch: &RecordBatch,
    key_column: &str,
    value_column: &str,
    output: &mut AdaptiveI64Map<i64>,
) -> (result: SqlResult<()>)
    requires
        batch.well_formed(),
    ensures
        match result {
            Ok(_) => reads_pairs(*batch, key_column@, value_column@) && ({
                let pairs = integer_pairs(
                    batch.column_named(key_column@),
                    batch.column_named(value_column@),
                );
                final(output)@ == old(output)@.union_prefer_right(
                    entries_of(mapped_pairs(pairs, seconds(pairs), pairs.len() as int)),
                )
            }),
            Err(error) => !reads_pairs(*batch, key_column@, value_column@) && pairs_error(
                *batch,
                key_column@,
                value_column@,
                error,
            ) && final(output)@ == old(output)@,
        },
        result is Ok ==> grown_by_entries(
            old(output)@,
            final(output)@,
            |row: int|
                match (
                    integer_in(*batch, key_column@, row),
                    integer_in(*batch, value_column@, row),
                ) {
                    (Some(key), Some(value)) => Some((key, value)),
                    _ => None,
                },
            batch.num_rows as int,
        ),
{
    let pairs = match read_columns(batch, key_column, value_column) {
        Ok(pairs) => pairs,
        Err(error) => {
            return Err(error);
        },
    };
    let mut answers: Vec<Option<i64>> = Vec::new();
    let mut row: usize = 0;
    while row < pairs.len()
        invariant
            row <= pairs@.len(),
            answers@ == seconds(pairs@).take(row as int),
        decreases pairs@.len() - row,
    {
        match pairs[row] {
            Some((_, value)) => {
                answers.push(Some(value));
            },
            None => {
                answers.push(None);
            },
        }
        row += 1;
        assert(answers@ =~= seconds(pairs@).take(row as int));
    }
    assert(answers@ =~= seconds(pairs@));
    let mapped = map_up(pairs.as_slice(), answers.as_slice());
    add_adaptive_entries(&mapped, output);
    proof {
        lemma_pairs_are_cells(*batch, key_column@, value_column@);
        let told = |row: int|
                match (
                    integer_in(*batch, key_column@, row),
                    integer_in(*batch, value_column@, row),
                ) {
                    (Some(key), Some(value)) => Some((key, value)),
                    _ => None,
                };
        lemma_mapped_entries(pairs@, answers@, old(output)@, told);
    }
    Ok(())
}

/// Whether the answers are what `map` gave for the second integer of each row.
pub open spec fn answers_by<V, F: Fn(i64) -> Option<V>>(
    map: F,
    pairs: Seq<Option<(i64, i64)>>,
    answers: Seq<Option<V>>,
) -> bool {
    &&& answers.len() == pairs.len()
    &&& forall|row: int|
        0 <= row < pairs.len() ==> match pairs[row] {
            Some((_, lookup)) => map.ensures((lookup,), #[trigger] answers[row]),
            None => answers[row] is None,
        }
}

/// Stores under the output key what `map_value` gives for the lookup key, where it
/// gives something.
pub fn collect_i64_by_i64_mapped_hash_map_batch<V: Copy, F: Fn(i64) -> Option<V>>(
    batch: &RecordBatch,
    output_key_column: &str,
    lookup_key_column: &str,
    map_value: F,
    output: &mut HashMap<i64, V>,
) -> (result: SqlResult<()>)
    requires
        batch.well_formed(),
        forall|lookup: i64| #[trigger] map_value.requires((lookup,)),
    ensures
        match result {
            Ok(_) => reads_pairs(*batch, output_key_column@, lookup_key_column@) && ({
                let pairs = integer_pairs(
                    batch.column_named(output_key_column@),
                    batch.column_named(lookup_key_column@),
                );
                exists|answers: Seq<Option<V>>| #[trigger]
                    answers_by(map_value, pairs, answers) && final(output)@ == old(
                        output,
                    )@.union_prefer_right(
                        entries_of(mapped_pairs(pairs, answers, pairs.len() as int)),
                    )
            }),
            Err(error) => !reads_pairs(*batch, output_key_column@, lookup_key_column@)
                && pairs_error(
                    *batch,
                    output_key_column@,
                    lookup_key_column@,
                    error,
                ) && final(output)@ == old(output)@,
        },
{
    let pairs = match read_columns(batch, output_key_column, lookup_key_column) {
        Ok(pairs) => pairs,
        Err(error) => {
            return Err(error);
        },
    };
    let mut answers: Vec<Option<V>> = Vec::new();
    let mut row: usize = 0;
    while row < pairs.len()
        invariant
            forall|lookup: i64| #[trigger] map_value.requires((lookup,)),
            row <= pairs@.len(),
            answers@.len() == row,
            forall|done: int|
                0 <= done < row ==> match pairs@[done] {
                    Some((_, lookup)) => map_value.ensures((lookup,), #[trigger] answers@[done]),
                    None => answers@[done] is None,
                },
        decreases pairs@.len() - row,
    {
        match pairs[row] {
            Some((_, lookup)) => {
                answers.push(map_value(lookup));
            },
            None => {
                answers.push(None);
            },
        }
        row += 1;
    }
    assert(answers_by(map_value, pairs@, answers@));
    let mapped = map_up(pairs.as_slice(), answers.as_slice());
    add_entries(&mapped, output);
    Ok(())
}

} // verus!
