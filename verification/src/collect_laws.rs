//! What collecting keys and entries from batches gives, said over the cells of their rows.

use vstd::prelude::*;
use crate::batch_collect::{
    all_readable, answered_pairs, integer_pairs, mapped_pairs, pair_keys, reads_pairs, unreadable,
};
use crate::columns::{ColumnArray, RecordBatch};
use crate::scan_laws::integer_in;
use crate::tables::entries_of;

verus! {

/// Whether a set has grown by the keys that rows tell, and by no other.
pub open spec fn grown_by_keys(
    before: Set<i64>,
    after: Set<i64>,
    told: spec_fn(int) -> Option<i64>,
    rows: int,
) -> bool {
    forall|key: i64| #[trigger]
        after.contains(key) <==> before.contains(key) || exists|row: int|
            0 <= row < rows && #[trigger] told(row) == Some(key)
}

/// Whether some row tells an entry for a key.
pub open spec fn is_told<V>(told: spec_fn(int) -> Option<(i64, V)>, rows: int, key: i64) -> bool {
    exists|row: int| 0 <= row < rows && (#[trigger] told(row) matches Some((own, _)) && own == key)
}

/// Whether the last row that tells an entry for a key tells this value.
pub open spec fn last_told<V>(
    told: spec_fn(int) -> Option<(i64, V)>,
    rows: int,
    key: i64,
    value: V,
) -> bool {
    exists|row: int|
        0 <= row < rows && #[trigger] told(row) == Some((key, value)) && forall|later: int|
            row < later < rows ==> !(#[trigger] told(later) matches Some((own, _)) && own == key)
}

/// Whether a map has taken in the entries that rows tell, of one key the last, and has kept
/// what it held for every other key.
pub open spec fn grown_by_entries<V>(
    before: Map<i64, V>,
    after: Map<i64, V>,
    told: spec_fn(int) -> Option<(i64, V)>,
    rows: int,
) -> bool {
    &&& forall|key: i64| #[trigger]
        after.contains_key(key) <==> before.contains_key(key) || is_told(told, rows, key)
    &&& forall|key: i64| #[trigger]
        after.contains_key(key) ==> if is_told(told, rows, key) {
            last_told(told, rows, key, after[key])
        } else {
            after[key] == before[key]
        }
}

/// The entries that the first rows tell, in order.
spec fn told_pairs<V>(told: spec_fn(int) -> Option<(i64, V)>, rows: int) -> Seq<(i64, V)>
    decreases rows,
{
    if rows <= 0 {
        Seq::empty()
    } else {
        match told(rows - 1) {
            Some(pair) => told_pairs(told, rows - 1).push(pair),
            None => told_pairs(told, rows - 1),
        }
    }
}

proof fn lemma_told_entries<V>(told: spec_fn(int) -> Option<(i64, V)>, rows: int)
    ensures
        forall|key: i64| #[trigger]
            entries_of(told_pairs(told, rows)).contains_key(key) <==> is_told(told, rows, key),
        forall|key: i64| #[trigger]
            entries_of(told_pairs(told, rows)).contains_key(key) ==> last_told(
                told,
                rows,
                key,
                entries_of(told_pairs(told, rows))[key],
            ),
    decreases rows,
{
    let all = entries_of(told_pairs(told, rows));
    if rows > 0 {
        let earlier = told_pairs(told, rows - 1);
        lemma_told_entries(told, rows - 1);
        assert(told_pairs(told, rows).drop_last() =~= earlier || told(rows - 1) is None);
        assert forall|key: i64| (#[trigger] all.contains_key(key) <==> is_told(told, rows, key))
            && (all.contains_key(key) ==> last_told(told, rows, key, all[key])) by {
            let before = entries_of(earlier);
            assert(before.contains_key(key) <==> is_told(told, rows - 1, key));
            if is_told(told, rows - 1, key) {
                let row = choose|row: int|
                    0 <= row < rows - 1 && (#[trigger] told(row) matches Some((own, _)) && own
                        == key);
                assert(told(row) is Some);
            }
            if is_told(told, rows, key) {
                let row = choose|row: int|
                    0 <= row < rows && (#[trigger] told(row) matches Some((own, _)) && own == key);
                if row < rows - 1 {
                    assert(is_told(told, rows - 1, key));
                }
            }
            match told(rows - 1) {
                Some(pair) => {
                    if pair.0 == key {
                        assert(all[key] == pair.1);
                        assert(last_told(told, rows, key, all[key]));
                    } else if before.contains_key(key) {
                        lemma_still_last(told, rows, key, before[key]);
                    }
                },
                None => {
                    if before.contains_key(key) {
                        lemma_still_last(told, rows, key, before[key]);
                    }
                },
            }
        }
    }
}

proof fn lemma_still_last<V>(
    told: spec_fn(int) -> Option<(i64, V)>,
    rows: int,
    key: i64,
    value: V,
)
    requires
        rows > 0,
        last_told(told, rows - 1, key, value),
        !(told(rows - 1) matches Some((own, _)) && own == key),
    ensures
        last_told(told, rows, key, value),
{
    let row = choose|row: int|
        0 <= row < rows - 1 && #[trigger] told(row) == Some((key, value)) && forall|later: int|
            row < later < rows - 1 ==> !(#[trigger] told(later) matches Some((own, _)) && own
                == key);
    assert(told(row) == Some((key, value)));
}

proof fn lemma_told_keys<V>(told: spec_fn(int) -> Option<(i64, V)>, rows: int)
    ensures
        forall|key: i64| #[trigger]
            pair_keys(told_pairs(told, rows)).contains(key) <==> is_told(told, rows, key),
    decreases rows,
{
    let pairs = told_pairs(told, rows);
    if rows > 0 {
        let earlier = told_pairs(told, rows - 1);
        lemma_told_keys(told, rows - 1);
        assert forall|key: i64| #[trigger]
            pair_keys(pairs).contains(key) <==> is_told(told, rows, key) by {
            assert(pair_keys(earlier).contains(key) <==> is_told(told, rows - 1, key));
            if pair_keys(earlier).contains(key) {
                let place = choose|place: int|
                    0 <= place < earlier.len() && (#[trigger] earlier[place]).0 == key;
                assert(pairs[place].0 == key);
                let row = choose|row: int|
                    0 <= row < rows - 1 && (#[trigger] told(row) matches Some((own, _)) && own
                        == key);
                assert(told(row) is Some);
            }
            if pair_keys(pairs).contains(key) {
                let place = choose|place: int|
                    0 <= place < pairs.len() && (#[trigger] pairs[place]).0 == key;
                if place < earlier.len() {
                    assert(earlier[place].0 == key);
                }
            }
            if is_told(told, rows, key) {
                let row = choose|row: int|
                    0 <= row < rows && (#[trigger] told(row) matches Some((own, _)) && own == key);
                if row < rows - 1 {
                    assert(is_told(told, rows - 1, key));
                } else {
                    assert(pairs[earlier.len() as int].0 == key);
                }
            }
        }
    }
}

proof fn lemma_answered_are_told<V>(
    keys: ColumnArray,
    answers: Seq<Option<V>>,
    told: spec_fn(int) -> Option<(i64, V)>,
    rows: int,
)
    requires
        rows <= answers.len(),
        forall|row: int|
            0 <= row < answers.len() ==> #[trigger] told(row) == (if !keys.null_at(row)
                && answers[row] is Some {
                Some((keys.integer_at(row) as i64, answers[row]->0))
            } else {
                None
            }),
    ensures
        answered_pairs(keys, answers, rows) == told_pairs(told, rows),
    decreases rows,
{
    if rows > 0 {
        lemma_answered_are_told(keys, answers, told, rows - 1);
        assert(told(rows - 1) is Some || told(rows - 1) is None);
    }
}

proof fn lemma_mapped_are_told<V>(
    pairs: Seq<Option<(i64, i64)>>,
    answers: Seq<Option<V>>,
    told: spec_fn(int) -> Option<(i64, V)>,
    rows: int,
)
    requires
        rows <= pairs.len(),
        forall|row: int|
            0 <= row < pairs.len() ==> #[trigger] told(row) == (match (pairs[row], answers[row]) {
                (Some((key, _)), Some(value)) => Some((key, value)),
                _ => None,
            }),
    ensures
        mapped_pairs(pairs, answers, rows) == told_pairs(told, rows),
    decreases rows,
{
    if rows > 0 {
        lemma_mapped_are_told(pairs, answers, told, rows - 1);
        assert(told(rows - 1) is Some || told(rows - 1) is None);
    }
}

proof fn lemma_grown_by_keys<V>(
    before: Set<i64>,
    keyed: spec_fn(int) -> Option<(i64, V)>,
    told: spec_fn(int) -> Option<i64>,
    rows: int,
)
    requires
        forall|row: int|
            0 <= row < rows ==> #[trigger] told(row) == (match keyed(row) {
                Some((key, _)) => Some(key),
                None => None,
            }),
    ensures
        grown_by_keys(before, before.union(pair_keys(told_pairs(keyed, rows))), told, rows),
{
    lemma_told_keys(keyed, rows);
    let after = before.union(pair_keys(told_pairs(keyed, rows)));
    assert forall|key: i64| #[trigger]
        after.contains(key) <==> before.contains(key) || exists|row: int|
            0 <= row < rows && #[trigger] told(row) == Some(key) by {
        assert(pair_keys(told_pairs(keyed, rows)).contains(key) <==> is_told(keyed, rows, key));
        if is_told(keyed, rows, key) {
            let row = choose|row: int|
                0 <= row < rows && (#[trigger] keyed(row) matches Some((own, _)) && own == key);
            assert(told(row) == Some(key));
        }
        if exists|row: int| 0 <= row < rows && #[trigger] told(row) == Some(key) {
            let row = choose|row: int| 0 <= row < rows && #[trigger] told(row) == Some(key);
            assert(keyed(row) is Some);
        }
    }
}

/// Two columns that can be read as integers hold, row by row, the integers under their names.
pub proof fn lemma_pairs_are_cells(batch: RecordBatch, first: Seq<char>, second: Seq<char>)
    requires
        reads_pairs(batch, first, second),
    ensures
        forall|row: int|
            0 <= row < batch.column_named(first).rows() ==> #[trigger] integer_pairs(
                batch.column_named(first),
                batch.column_named(second),
            )[row] == (match (integer_in(batch, first, row), integer_in(batch, second, row)) {
                (Some(left), Some(right)) => Some((left, right)),
                _ => None,
            }),
{
    let left = batch.column_named(first);
    let right = batch.column_named(second);
    assert(all_readable(left, right));
    assert forall|row: int| 0 <= row < left.rows() implies #[trigger] integer_pairs(left,
        right)[row]
        == (match (integer_in(batch, first, row), integer_in(batch, second, row)) {
        (Some(left), Some(right)) => Some((left, right)),
        _ => None,
    }) by {
        assert(!unreadable(left, row));
        assert(!unreadable(right, row));
    }
}

/// Keys that are collected with their answers are those of the rows that have both.
pub proof fn lemma_answered_keys<V>(
    keys: ColumnArray,
    answers: Seq<Option<V>>,
    before: Set<i64>,
    told: spec_fn(int) -> Option<i64>,
)
    requires
        forall|row: int|
            0 <= row < answers.len() ==> #[trigger] told(row) == (if !keys.null_at(row)
                && answers[row] is Some {
                Some(keys.integer_at(row) as i64)
            } else {
                None
            }),
    ensures
        grown_by_keys(
            before,
            before.union(pair_keys(answered_pairs(keys, answers, answers.len() as int))),
            told,
            answers.len() as int,
        ),
{
    let keyed = |row: int|
        if !keys.null_at(row) && answers[row] is Some {
            Some((keys.integer_at(row) as i64, answers[row]->0))
        } else {
            None
        };
    lemma_answered_are_told(keys, answers, keyed, answers.len() as int);
    lemma_grown_by_keys(before, keyed, told, answers.len() as int);
}

/// Entries that are collected from keys and answers are those of the rows that have both.
pub proof fn lemma_answered_entries<V>(
    keys: ColumnArray,
    answers: Seq<Option<V>>,
    before: Map<i64, V>,
    told: spec_fn(int) -> Option<(i64, V)>,
)
    requires
        forall|row: int|
            0 <= row < answers.len() ==> #[trigger] told(row) == (if !keys.null_at(row)
                && answers[row] is Some {
                Some((keys.integer_at(row) as i64, answers[row]->0))
            } else {
                None
            }),
    ensures
        grown_by_entries(
            before,
            before.union_prefer_right(
                entries_of(answered_pairs(keys, answers, answers.len() as int)),
            ),
            told,
            answers.len() as int,
        ),
{
    lemma_answered_are_told(keys, answers, told, answers.len() as int);
    lemma_told_entries(told, answers.len() as int);
}

/// First integers that are collected with their answers are those of the rows that have both.
pub proof fn lemma_mapped_keys<V>(
    pairs: Seq<Option<(i64, i64)>>,
    answers: Seq<Option<V>>,
    before: Set<i64>,
    told: spec_fn(int) -> Option<i64>,
)
    requires
        forall|row: int|
            0 <= row < pairs.len() ==> #[trigger] told(row) == (match (pairs[row], answers[row]) {
                (Some((key, _)), Some(_)) => Some(key),
                _ => None,
            }),
    ensures
        grown_by_keys(
            before,
            before.union(pair_keys(mapped_pairs(pairs, answers, pairs.len() as int))),
            told,
            pairs.len() as int,
        ),
{
    let keyed = |row: int|
        match (pairs[row], answers[row]) {
            (Some((key, _)), Some(value)) => Some((key, value)),
            _ => None,
        };
    lemma_mapped_are_told(pairs, answers, keyed, pairs.len() as int);
    lemma_grown_by_keys(before, keyed, told, pairs.len() as int);
}

/// Entries that are collected from first integers and answers are those of the rows that have
/// both.
pub proof fn lemma_mapped_entries<V>(
    pairs: Seq<Option<(i64, i64)>>,
    answers: Seq<Option<V>>,
    before: Map<i64, V>,
    told: spec_fn(int) -> Option<(i64, V)>,
)
    requires
        forall|row: int|
            0 <= row < pairs.len() ==> #[trigger] told(row) == (match (pairs[row], answers[row]) {
                (Some((key, _)), Some(value)) => Some((key, value)),
                _ => None,
            }),
    ensures
        grown_by_entries(
            before,
            before.union_prefer_right(
                entries_of(mapped_pairs(pairs, answers, pairs.len() as int)),
            ),
            told,
            pairs.len() as int,
        ),
{
    lemma_mapped_are_told(pairs, answers, told, pairs.len() as int);
    lemma_told_entries(told, pairs.len() as int);
}

} // verus!
