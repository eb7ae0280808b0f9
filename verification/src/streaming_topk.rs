//! The first rows of an order over several batches, without sorting them all.
//!
//! Rows are ranked by their sort keys, then by the order in which the batches
//! deliver them. A batch whose best row cannot enter any more is skipped.

use vstd::prelude::*;
use crate::columns::{ColumnData, RecordBatch};
use crate::error::{SqlError, SqlResult};
use crate::plan::{SortExpr, SortKey};
use crate::text::str_eq;
use crate::topk::{
    is_top, joined_ranks, law_ranks_before_asymmetric, law_ranks_before_total,
    law_ranks_before_transitive, law_tops_suffice, rank_less, rank_views, ranks_before, smaller_at,
    Rank, TopK,
};

verus! {

/// A row of a batch.
#[derive(Clone, Copy, Debug, PartialEq, Eq, Structural)]
pub struct RowPosition {
    pub batch: usize,
    pub row: usize,
}

/// The rows in the batches before the one at `batch`.
pub open spec fn rows_before(batches: Seq<RecordBatch>, batch: int) -> int
    decreases batch,
{
    if batch <= 0 {
        0
    } else {
        rows_before(batches, batch - 1) + batches[batch - 1].num_rows
    }
}

/// The rank of a row: its keys, its number over all batches, its batch, its row.
pub open spec fn rank_of(
    batches: Seq<RecordBatch>,
    keys: spec_fn(int, int) -> Seq<i128>,
    batch: int,
    row: int,
) -> Seq<i128> {
    keys(batch, row) + seq![
        (rows_before(batches, batch) + row) as i128,
        batch as i128,
        row as i128,
    ]
}

/// The ranks of the first `rows` rows of a batch.
pub open spec fn batch_ranks(
    batches: Seq<RecordBatch>,
    keys: spec_fn(int, int) -> Seq<i128>,
    batch: int,
    rows: int,
) -> Seq<Seq<i128>> {
    Seq::new(rows as nat, |row: int| rank_of(batches, keys, batch, row))
}

/// The ranks of all rows of the first `count` batches.
pub open spec fn all_ranks(
    batches: Seq<RecordBatch>,
    keys: spec_fn(int, int) -> Seq<i128>,
    count: int,
) -> Seq<Seq<i128>>
    decreases count,
{
    if count <= 0 {
        Seq::empty()
    } else {
        all_ranks(batches, keys, count - 1) + batch_ranks(
            batches,
            keys,
            count - 1,
            batches[count - 1].num_rows as int,
        )
    }
}

/// The ranks of rows.
pub open spec fn row_ranks(
    batches: Seq<RecordBatch>,
    keys: spec_fn(int, int) -> Seq<i128>,
    rows: Seq<RowPosition>,
) -> Seq<Seq<i128>> {
    rows.map_values(
        |position: RowPosition|
            rank_of(batches, keys, position.batch as int, position.row as int),
    )
}

/// Whether `rows` are the first `limit` rows of all batches, in order.
pub open spec fn first_rows(
    batches: Seq<RecordBatch>,
    keys: spec_fn(int, int) -> Seq<i128>,
    rows: Seq<RowPosition>,
    limit: int,
) -> bool {
    is_top(
        all_ranks(batches, keys, batches.len() as int),
        row_ranks(batches, keys, rows),
        limit,
    )
}

/// Whether `rows` are the first `limit` rows of one batch, in order.
pub open spec fn first_rows_of_batch(
    batches: Seq<RecordBatch>,
    keys: spec_fn(int, int) -> Seq<i128>,
    batch: int,
    rows: Seq<RowPosition>,
    limit: int,
) -> bool {
    is_top(
        batch_ranks(batches, keys, batch, batches[batch].num_rows as int),
        row_ranks(batches, keys, rows),
        limit,
    )
}

/// The ranks of rows taken from several batches, one batch after the other.
pub open spec fn candidate_ranks(
    batches: Seq<RecordBatch>,
    keys: spec_fn(int, int) -> Seq<i128>,
    candidates: Seq<Seq<RowPosition>>,
) -> Seq<Seq<i128>> {
    joined_ranks(candidates.map_values(|rows: Seq<RowPosition>| row_ranks(batches, keys, rows)))
}

/// Whether keys are `width` integers long.
pub open spec fn keys_wide(keys: spec_fn(int, int) -> Seq<i128>, width: int) -> bool {
    forall|batch: int, row: int| (#[trigger] keys(batch, row)).len() == width
}

proof fn lemma_rows_before_grows(batches: Seq<RecordBatch>, left: int, right: int)
    requires
        0 <= left <= right,
    ensures
        0 <= rows_before(batches, left) <= rows_before(batches, right),
    decreases right,
{
    if left < right {
        lemma_rows_before_grows(batches, left, right - 1);
    } else if left > 0 {
        lemma_rows_before_grows(batches, left - 1, left - 1);
    }
}

/// A rank offered so far names the row that it belongs to.
proof fn lemma_rank_source(
    batches: Seq<RecordBatch>,
    keys: spec_fn(int, int) -> Seq<i128>,
    width: int,
    batch: int,
    rows: int,
    rank: Seq<i128>,
) -> (source: (int, int))
    requires
        keys_wide(keys, width),
        0 <= batch <= batches.len(),
        0 <= rows,
        rows > 0 ==> batch < batches.len() && rows <= batches[batch].num_rows,
        batches.len() <= usize::MAX,
        rows_before(batches, batches.len() as int) <= u64::MAX,
        (all_ranks(batches, keys, batch) + batch_ranks(batches, keys, batch, rows)).contains(rank),
    ensures
        0 <= source.0 < batches.len(),
        0 <= source.1 < batches[source.0].num_rows,
        source.0 < batch || (source.0 == batch && source.1 < rows),
        rank == rank_of(batches, keys, source.0, source.1),
        rank.len() == width + 3,
        rank[width] == rows_before(batches, source.0) + source.1,
        rank[width + 1] == source.0,
        rank[width + 2] == source.1,
        rank[width] < rows_before(batches, batch) + rows,
    decreases batch,
{
    let earlier = all_ranks(batches, keys, batch);
    let offered = earlier + batch_ranks(batches, keys, batch, rows);
    let index = choose|index: int| 0 <= index < offered.len() && offered[index] == rank;
    if index < earlier.len() {
        let last = batches[batch - 1].num_rows as int;
        let inner = all_ranks(batches, keys, batch - 1) + batch_ranks(
            batches,
            keys,
            batch - 1,
            last,
        );
        assert(inner =~= earlier);
        assert(inner[index] == rank);
        lemma_rows_before_grows(batches, batch - 1, batch);
        lemma_rank_source(batches, keys, width, batch - 1, last, rank)
    } else {
        let row = index - earlier.len();
        lemma_rows_before_grows(batches, 0, batch);
        lemma_rows_before_grows(batches, batch + 1, batches.len() as int);
        let expected = rank_of(batches, keys, batch, row);
        assert(offered[index] == expected);
        assert(expected.len() == width + 3);
        assert(expected[width] == (rows_before(batches, batch) + row) as i128);
        (batch, row)
    }
}

/// A row's rank was not offered before its turn.
proof fn lemma_rank_is_new(
    batches: Seq<RecordBatch>,
    keys: spec_fn(int, int) -> Seq<i128>,
    width: int,
    batch: int,
    row: int,
)
    requires
        keys_wide(keys, width),
        0 <= batch < batches.len(),
        0 <= row < batches[batch].num_rows,
        batches.len() <= usize::MAX,
        rows_before(batches, batches.len() as int) <= u64::MAX,
    ensures
        !(all_ranks(batches, keys, batch) + batch_ranks(batches, keys, batch, row)).contains(
            rank_of(batches, keys, batch, row),
        ),
{
    let rank = rank_of(batches, keys, batch, row);
    if (all_ranks(batches, keys, batch) + batch_ranks(batches, keys, batch, row)).contains(rank) {
        let source = lemma_rank_source(batches, keys, width, batch, row, rank);
        assert(rank[width + 1] == batch as i128);
        assert(rank[width + 2] == row as i128);
    }
}

/// No two rows have the same rank.
proof fn lemma_ranks_distinct(
    batches: Seq<RecordBatch>,
    keys: spec_fn(int, int) -> Seq<i128>,
    width: int,
    batch: int,
    rows: int,
)
    requires
        keys_wide(keys, width),
        0 <= batch <= batches.len(),
        0 <= rows,
        rows > 0 ==> batch < batches.len() && rows <= batches[batch].num_rows,
        batches.len() <= usize::MAX,
        rows_before(batches, batches.len() as int) <= u64::MAX,
    ensures
        (all_ranks(batches, keys, batch) + batch_ranks(
            batches,
            keys,
            batch,
            rows,
        )).no_duplicates(),
    decreases batch, rows,
{
    let offered = all_ranks(batches, keys, batch) + batch_ranks(batches, keys, batch, rows);
    if rows > 0 {
        let before = all_ranks(batches, keys, batch) + batch_ranks(
            batches,
            keys,
            batch,
            rows - 1,
        );
        lemma_ranks_distinct(batches, keys, width, batch, rows - 1);
        lemma_rank_is_new(batches, keys, width, batch, rows - 1);
        let rank = rank_of(batches, keys, batch, rows - 1);
        assert(offered =~= before.push(rank));
        assert forall|left: int, right: int|
            0 <= left < offered.len() && 0 <= right < offered.len() && left
                != right implies offered[left] != offered[right] by {
            if left < before.len() && right < before.len() {
                assert(before[left] != before[right]);
            } else if left < before.len() {
                assert(before.contains(before[left]));
            } else {
                assert(before.contains(before[right]));
            }
        }
    } else if batch > 0 {
        let last = batches[batch - 1].num_rows as int;
        lemma_ranks_distinct(batches, keys, width, batch - 1, last);
        assert(offered =~= all_ranks(batches, keys, batch - 1) + batch_ranks(
            batches,
            keys,
            batch - 1,
            last,
        ));
    } else {
        assert(offered =~= Seq::empty());
    }
}

/// The ranks of all rows are those of the batches, one batch after the other.
proof fn lemma_ranks_joined(
    batches: Seq<RecordBatch>,
    keys: spec_fn(int, int) -> Seq<i128>,
    parts: Seq<Seq<Seq<i128>>>,
    count: int,
)
    requires
        0 <= count <= batches.len(),
        parts == Seq::new(
            batches.len(),
            |batch: int| batch_ranks(batches, keys, batch, batches[batch].num_rows as int),
        ),
    ensures
        joined_ranks(parts.take(count)) == all_ranks(batches, keys, count),
    decreases count,
{
    if count > 0 {
        lemma_ranks_joined(batches, keys, parts, count - 1);
        assert(parts.take(count).drop_last() =~= parts.take(count - 1));
        assert(parts.take(count).last() == parts[count - 1]);
    } else {
        assert(parts.take(0) =~= Seq::empty());
    }
}

/// Sorting each batch that has rows up to a limit, and the rows so found again, gives the
/// first rows of all batches.
pub proof fn law_sorting_each_then_all(
    batches: Seq<RecordBatch>,
    keys: spec_fn(int, int) -> Seq<i128>,
    width: int,
    candidates: Seq<Seq<RowPosition>>,
    kept: Seq<RowPosition>,
    limit: int,
)
    requires
        keys_wide(keys, width),
        batches.len() <= usize::MAX,
        rows_before(batches, batches.len() as int) <= u64::MAX,
        limit >= 0,
        candidates.len() == batches.len(),
        forall|batch: int|
            0 <= batch < batches.len() ==> if (#[trigger] batches[batch]).num_rows > 0 {
                first_rows_of_batch(batches, keys, batch, candidates[batch], limit)
            } else {
                candidates[batch].len() == 0
            },
        is_top(
            candidate_ranks(batches, keys, candidates),
            row_ranks(batches, keys, kept),
            limit,
        ),
    ensures
        first_rows(batches, keys, kept, limit),
{
    let count = batches.len() as int;
    let parts = Seq::new(
        batches.len(),
        |batch: int| batch_ranks(batches, keys, batch, batches[batch].num_rows as int),
    );
    let tops = candidates.map_values(|rows: Seq<RowPosition>| row_ranks(batches, keys, rows));
    lemma_ranks_joined(batches, keys, parts, count);
    assert(parts.take(count) =~= parts);
    lemma_ranks_distinct(batches, keys, width, count, 0);
    assert(all_ranks(batches, keys, count) + batch_ranks(batches, keys, count, 0) =~= all_ranks(
        batches,
        keys,
        count,
    ));
    assert forall|index: int| 0 <= index < parts.len() implies is_top(
        #[trigger] parts[index],
        tops[index],
        limit,
    ) by {
        assert(tops[index] == row_ranks(batches, keys, candidates[index]));
        if batches[index].num_rows == 0 {
            assert(parts[index].len() == 0);
            assert(tops[index].len() == 0);
        }
    }
    law_tops_suffice(parts, tops, row_ranks(batches, keys, kept), limit);
}

/// The rows that the kept ranks name.
fn positions_of(ranks: &Vec<Rank>, width: usize) -> (rows: Vec<RowPosition>)
    requires
        width + 3 <= usize::MAX,
        forall|index: int|
            0 <= index < ranks@.len() ==> (#[trigger] ranks@[index])@.len() == width + 3
                && 0 <= ranks@[index]@[width + 1] <= usize::MAX && 0 <= ranks@[index]@[width + 2]
                <= usize::MAX,
    ensures
        rows@.len() == ranks@.len(),
        forall|index: int|
            0 <= index < rows@.len() ==> (#[trigger] rows@[index]).batch
                == ranks@[index]@[width + 1] && rows@[index].row == ranks@[index]@[width + 2],
{
    let mut rows: Vec<RowPosition> = Vec::new();
    let mut index: usize = 0;
    while index < ranks.len()
        invariant
            width + 3 <= usize::MAX,
            forall|index: int|
                0 <= index < ranks@.len() ==> (#[trigger] ranks@[index])@.len() == width + 3
                    && 0 <= ranks@[index]@[width + 1] <= usize::MAX && 0
                    <= ranks@[index]@[width + 2] <= usize::MAX,
            index <= ranks@.len(),
            rows@.len() == index,
            forall|done: int|
                0 <= done < index ==> (#[trigger] rows@[done]).batch == ranks@[done]@[width + 1]
                    && rows@[done].row == ranks@[done]@[width + 2],
        decreases ranks@.len() - index,
    {
        let rank: &Rank = &ranks[index];
        rows.push(
            RowPosition { batch: rank[width + 1] as usize, row: rank[width + 2] as usize },
        );
        index += 1;
    }
    rows
}

/// The first rows, read off the ranks kept after all batches.
fn finish(
    top: TopK,
    width: usize,
    Ghost(batches): Ghost<Seq<RecordBatch>>,
    Ghost(keys): Ghost<spec_fn(int, int) -> Seq<i128>>,
) -> (rows: Vec<RowPosition>)
    requires
        top.well_formed(),
        width + 3 <= usize::MAX,
        top.width() == width + 3,
        top.offered() == all_ranks(batches, keys, batches.len() as int),
        keys_wide(keys, width as int),
        batches.len() <= usize::MAX,
        rows_before(batches, batches.len() as int) <= u64::MAX,
    ensures
        first_rows(batches, keys, rows@, top.limit()),
{
    let ghost limit = top.limit();
    let ghost count = batches.len() as int;
    let ghost offered = top.offered();
    let ranks = top.into_ranks();
    proof {
        assert(offered =~= all_ranks(batches, keys, count) + batch_ranks(batches, keys, count, 0));
        assert forall|index: int| 0 <= index < ranks@.len() implies ({
            let rank = (#[trigger] ranks@[index])@;
            &&& 0 <= rank[width + 1] <= usize::MAX
            &&& 0 <= rank[width + 2] <= usize::MAX
            &&& rank == rank_of(batches, keys, rank[width + 1] as int, rank[width + 2] as int)
        }) by {
            let rank = ranks@[index]@;
            assert(rank_views(ranks@)[index] == rank);
            assert(offered.contains(rank));
            let source = lemma_rank_source(batches, keys, width as int, count, 0, rank);
        }
    }
    let rows = positions_of(&ranks, width);
    assert(row_ranks(batches, keys, rows@) =~= rank_views(ranks@));
    rows
}

/// A rank no smaller on its keys and later in number comes after.
proof fn lemma_tail_decides(
    left_key: Seq<i128>,
    left_tail: Seq<i128>,
    right_key: Seq<i128>,
    right_tail: Seq<i128>,
)
    requires
        left_key.len() == right_key.len(),
        left_key == right_key || ranks_before(left_key, right_key),
        left_tail.len() > 0,
        right_tail.len() > 0,
        left_tail[0] < right_tail[0],
    ensures
        ranks_before(left_key + left_tail, right_key + right_tail),
{
    let left = left_key + left_tail;
    let right = right_key + right_tail;
    if left_key == right_key {
        let place = left_key.len() as int;
        assert(left.take(place) =~= right.take(place));
        assert(smaller_at(left, right, place));
    } else {
        lemma_prefix_decides(left_key, left_tail, right_key, right_tail);
    }
}

/// Keys that rank before keep doing so whatever follows them.
proof fn lemma_prefix_decides(
    left_key: Seq<i128>,
    left_tail: Seq<i128>,
    right_key: Seq<i128>,
    right_tail: Seq<i128>,
)
    requires
        ranks_before(left_key, right_key),
    ensures
        ranks_before(left_key + left_tail, right_key + right_tail),
{
    let left = left_key + left_tail;
    let right = right_key + right_tail;
    let place = choose|place: int| smaller_at(left_key, right_key, place);
    assert forall|index: int| 0 <= index < place implies left[index] == right[index] by {
        assert(left_key.take(place)[index] == right_key.take(place)[index]);
    }
    assert(left.take(place) =~= right.take(place));
    assert(smaller_at(left, right, place));
}

/// Whether the first column called `name` stands at `index`.
pub open spec fn named_at(batch: RecordBatch, name: Seq<char>, index: int) -> bool {
    &&& 0 <= index < batch.names@.len()
    &&& batch.names@[index]@ == name
    &&& forall|earlier: int| 0 <= earlier < index ==> (#[trigger] batch.names@[earlier])@ != name
}

/// Whether a column is called `name`.
pub open spec fn has_name(batch: RecordBatch, name: Seq<char>) -> bool {
    exists|index: int| named_at(batch, name, index)
}

/// The position of the first column called `name`.
pub open spec fn index_named(batch: RecordBatch, name: Seq<char>) -> int {
    choose|index: int| named_at(batch, name, index)
}

/// The position of the first column called `name`.
pub fn output_batch_column_index(batch: &RecordBatch, name: &str) -> (result: SqlResult<usize>)
    ensures
        match result {
            Ok(index) => has_name(*batch, name@) && index == index_named(*batch, name@) && index
                < batch.names@.len(),
            Err(error) => !has_name(*batch, name@) && error.is_unknown_column(name@),
        },
{
    let mut index: usize = 0;
    while index < batch.names.len()
        invariant
            index <= batch.names@.len(),
            forall|earlier: int|
                0 <= earlier < index ==> (#[trigger] batch.names@[earlier])@ != name@,
        decreases batch.names@.len() - index,
    {
        if str_eq(batch.names[index].as_str(), name) {
            assert(named_at(*batch, name@, index as int));
            let ghost found = index_named(*batch, name@);
            assert(named_at(*batch, name@, found));
            assert(found == index);
            return Ok(index);
        }
        index += 1;
    }
    Err(SqlError::unknown_column(name))
}

/// Whether every batch is in order.
pub open spec fn all_well_formed(batches: Seq<RecordBatch>) -> bool {
    forall|index: int| 0 <= index < batches.len() ==> (#[trigger] batches[index]).well_formed()
}

/// The 64-bit values of a column.
pub open spec fn int64_values(batch: RecordBatch, column: int) -> Seq<i64> {
    match batch.columns@[column].data {
        ColumnData::Int64(vector) => vector.values@,
        _ => Seq::empty(),
    }
}

/// The 32-bit values of a column.
pub open spec fn int32_values(batch: RecordBatch, column: int) -> Seq<i32> {
    match batch.columns@[column].data {
        ColumnData::Int32(vector) => vector.values@,
        _ => Seq::empty(),
    }
}

/// Whether a column holds 64-bit integers without nulls.
pub open spec fn non_null_int64(batch: RecordBatch, column: int) -> bool {
    batch.columns@[column].data matches ColumnData::Int64(vector) && vector.null_free()
}

/// Whether a column holds 32-bit integers without nulls.
pub open spec fn non_null_int32(batch: RecordBatch, column: int) -> bool {
    batch.columns@[column].data matches ColumnData::Int32(vector) && vector.null_free()
}

/// Whether every batch has a 32-bit integer column at `index`.
pub fn streaming_topk_column_is_i32(batches: &[RecordBatch], index: usize) -> (all: bool)
    requires
        forall|batch: int|
            0 <= batch < batches@.len() ==> index < (#[trigger] batches@[batch]).columns@.len(),
    ensures
        all <==> forall|batch: int|
            0 <= batch < batches@.len() ==> (#[trigger] batches@[batch]).columns@[index as int].data
                is Int32,
{
    let mut batch: usize = 0;
    while batch < batches.len()
        invariant
            forall|batch: int|
                0 <= batch < batches@.len() ==> index < (#[trigger] batches@[batch]).columns@.len(),
            batch <= batches@.len(),
            forall|earlier: int|
                0 <= earlier < batch ==> (#[trigger] batches@[earlier]).columns@[index as int].data
                    is Int32,
        decreases batches@.len() - batch,
    {
        match &batches[batch].columns[index].data {
            ColumnData::Int32(_) => {},
            _ => {
                return false;
            },
        }
        batch += 1;
    }
    true
}

/// Whether every batch has a 32-bit integer column without nulls at `index`.
pub fn streaming_topk_column_is_non_null_i32(batches: &[RecordBatch], index: usize) -> (all: bool)
    requires
        forall|batch: int|
            0 <= batch < batches@.len() ==> index < (#[trigger] batches@[batch]).columns@.len()
                && batches@[batch].well_formed(),
    ensures
        all <==> forall|batch: int|
            0 <= batch < batches@.len() ==> non_null_int32(
                #[trigger] batches@[batch],
                index as int,
            ),
{
    let mut batch: usize = 0;
    while batch < batches.len()
        invariant
            forall|batch: int|
                0 <= batch < batches@.len() ==> index < (#[trigger] batches@[batch]).columns@.len()
                    && batches@[batch].well_formed(),
            batch <= batches@.len(),
            forall|earlier: int|
                0 <= earlier < batch ==> non_null_int32(
                    #[trigger] batches@[earlier],
                    index as int,
                ),
        decreases batches@.len() - batch,
    {
        assert(batches@[batch as int].columns@[index as int].well_formed());
        match &batches[batch].columns[index].data {
            ColumnData::Int32(vector) => {
                if vector.values_if_null_free().is_none() {
                    assert(!non_null_int32(batches@[batch as int], index as int));
                    return false;
                }
            },
            _ => {
                assert(!non_null_int32(batches@[batch as int], index as int));
                return false;
            },
        }
        batch += 1;
    }
    true
}

/// Whether every batch has a 64-bit integer column without nulls at `index`.
pub fn streaming_topk_column_is_non_null_i64(batches: &[RecordBatch], index: usize) -> (all: bool)
    requires
        forall|batch: int|
            0 <= batch < batches@.len() ==> index < (#[trigger] batches@[batch]).columns@.len()
                && batches@[batch].well_formed(),
    ensures
        all <==> forall|batch: int|
            0 <= batch < batches@.len() ==> non_null_int64(
                #[trigger] batches@[batch],
                index as int,
            ),
{
    let mut batch: usize = 0;
    while batch < batches.len()
        invariant
            forall|batch: int|
                0 <= batch < batches@.len() ==> index < (#[trigger] batches@[batch]).columns@.len()
                    && batches@[batch].well_formed(),
            batch <= batches@.len(),
            forall|earlier: int|
                0 <= earlier < batch ==> non_null_int64(
                    #[trigger] batches@[earlier],
                    index as int,
                ),
        decreases batches@.len() - batch,
    {
        assert(batches@[batch as int].columns@[index as int].well_formed());
        match &batches[batch].columns[index].data {
            ColumnData::Int64(vector) => {
                if vector.values_if_null_free().is_none() {
                    assert(!non_null_int64(batches@[batch as int], index as int));
                    return false;
                }
            },
            _ => {
                assert(!non_null_int64(batches@[batch as int], index as int));
                return false;
            },
        }
        batch += 1;
    }
    true
}

/// The largest value, `None` for an empty column.
pub fn int64_batch_max(values: &[i64]) -> (largest: Option<i64>)
    ensures
        largest.is_some() == (values@.len() > 0),
        largest matches Some(largest) ==> values@.contains(largest) && forall|index: int|
            0 <= index < values@.len() ==> values@[index] <= largest,
{
    if values.len() == 0 {
        return None;
    }
    let mut largest: i64 = values[0];
    let mut index: usize = 1;
    while index < values.len()
        invariant
            1 <= index <= values@.len(),
            values@.contains(largest),
            forall|earlier: int| 0 <= earlier < index ==> values@[earlier] <= largest,
        decreases values@.len() - index,
    {
        if values[index] > largest {
            largest = values[index];
        }
        index += 1;
    }
    Some(largest)
}

/// The sort key of a row of a column sorted from the largest value down.
pub open spec fn descending_keys(batches: Seq<RecordBatch>, column: int) -> spec_fn(
    int,
    int,
) -> Seq<i128> {
    |batch: int, row: int| seq![(-int64_values(batches[batch], column)[row]) as i128]
}

/// Whether a top-k over one 64-bit column, largest value first, applies: there are
/// at least two batches, one descending sort column that keeps nulls last, and
/// the column holds 64-bit integers without nulls throughout.
pub open spec fn descending_applies(
    batches: Seq<RecordBatch>,
    order_by: SortKey,
    limit: int,
) -> bool {
    &&& limit > 0
    &&& batches.len() >= 2
    &&& order_by.expressions@.len() == 1
    &&& order_by.expressions@[0].descending
    &&& !order_by.expressions@[0].nulls_first
    &&& has_name(batches[0], order_by.expressions@[0].column@)
    &&& forall|batch: int|
        0 <= batch < batches.len() ==> {
            let column = index_named(batches[0], order_by.expressions@[0].column@);
            column < (#[trigger] batches[batch]).columns@.len() && non_null_int64(
                batches[batch],
                column,
            )
        }
}

/// The rank of a row sorted from the largest value down.
fn descending_rank(value: i64, sequence: u64, batch: usize, row: usize) -> (rank: Rank)
    ensures
        rank@ == seq![(-value) as i128] + seq![sequence as i128, batch as i128, row as i128],
{
    let mut rank: Rank = Vec::new();
    rank.push(-(value as i128));
    rank.push(sequence as i128);
    rank.push(batch as i128);
    rank.push(row as i128);
    assert(rank@ =~= seq![(-value) as i128] + seq![
        sequence as i128,
        batch as i128,
        row as i128,
    ]);
    rank
}

/// Offers the rows of one batch, or skips it where none of them can enter.
fn offer_descending(
    batches: &[RecordBatch],
    column: usize,
    batch: usize,
    sequence: u64,
    top: &mut TopK,
)
    requires
        batch < batches@.len(),
        batches@[batch as int].well_formed(),
        column < batches@[batch as int].columns@.len(),
        non_null_int64(batches@[batch as int], column as int),
        rows_before(batches@, batches@.len() as int) <= u64::MAX,
        sequence == rows_before(batches@, batch as int),
        old(top).well_formed(),
        old(top).limit() > 0,
        old(top).width() == 4,
        old(top).offered() == all_ranks(
            batches@,
            descending_keys(batches@, column as int),
            batch as int,
        ),
    ensures
        final(top).well_formed(),
        final(top).limit() == old(top).limit(),
        final(top).width() == 4,
        final(top).offered() == all_ranks(
            batches@,
            descending_keys(batches@, column as int),
            batch + 1,
        ),
{
    let ghost keys = descending_keys(batches@, column as int);
    let ghost before = all_ranks(batches@, keys, batch as int);
    let ghost earlier = rows_before(batches@, batch as int);
    assert(batches@[batch as int].columns@[column as int].well_formed());
    proof {
        lemma_rows_before_grows(batches@, batch + 1, batches@.len() as int);
        lemma_rows_before_grows(batches@, 0, batch as int);
    }
    match &batches[batch].columns[column].data {
        ColumnData::Int64(vector) => {
            let rows: usize = vector.len();
            assert(int64_values(batches@[batch as int], column as int) == vector.values@);
            let mut skip = false;
            match top.worst() {
                Some(worst) => match int64_batch_max(vector.values.as_slice()) {
                    Some(largest) => {
                        if -(largest as i128) >= worst[0] {
                            skip = true;
                            proof {
                                top.lemma_kept();
                                let last = top.kept().last();
                                assert(worst@ == last);
                                assert(top.offered().contains(last));
                                assert(before =~= before + batch_ranks(
                                    batches@,
                                    keys,
                                    batch as int,
                                    0,
                                ));
                                let source = lemma_rank_source(
                                    batches@,
                                    keys,
                                    1,
                                    batch as int,
                                    0,
                                    last,
                                );
                                assert forall|row: int| 0 <= row < rows implies ranks_before(
                                    last,
                                    #[trigger] rank_of(batches@, keys, batch as int, row),
                                ) by {
                                    let key = keys(batch as int, row);
                                    assert(vector.values@[row] <= largest);
                                    let last_key = keys(source.0, source.1);
                                    assert(last[0] == last_key[0]);
                                    if last_key[0] < key[0] {
                                        assert(last_key.take(0) =~= key.take(0));
                                        assert(smaller_at(last_key, key, 0));
                                    } else {
                                        assert(last_key =~= key);
                                    }
                                    lemma_tail_decides(
                                        last_key,
                                        seq![
                                            (rows_before(batches@, source.0) + source.1) as i128,
                                            source.0 as i128,
                                            source.1 as i128,
                                        ],
                                        key,
                                        seq![
                                            (earlier + row) as i128,
                                            batch as i128,
                                            row as i128,
                                        ],
                                    );
                                }
                            }
                        }
                    },
                    None => {},
                },
                None => {},
            }
            if skip {
                proof {
                    top.lemma_kept();
                }
                top.skip(Ghost(batch_ranks(batches@, keys, batch as int, rows as int)));
                return;
            }
            let mut row: usize = 0;
            let mut number: u64 = sequence;
            assert(top.offered() =~= before + batch_ranks(batches@, keys, batch as int, 0));
            while row < rows
                invariant
                    batch < batches@.len(),
                    rows == batches@[batch as int].num_rows,
                    rows == vector.values@.len(),
                    int64_values(batches@[batch as int], column as int) == vector.values@,
                    batches@.len() <= usize::MAX,
                    rows_before(batches@, batches@.len() as int) <= u64::MAX,
                    earlier == rows_before(batches@, batch as int),
                    0 <= earlier,
                    earlier + rows <= u64::MAX,
                    keys == descending_keys(batches@, column as int),
                    before == all_ranks(batches@, keys, batch as int),
                    row <= rows,
                    number == earlier + row,
                    top.well_formed(),
                    top.limit() == old(top).limit(),
                    top.width() == 4,
                    top.offered() == before + batch_ranks(batches@, keys, batch as int, row as int),
                decreases rows - row,
            {
                let rank = descending_rank(vector.values[row], number, batch, row);
                assert(rank@ =~= rank_of(batches@, keys, batch as int, row as int));
                proof {
                    lemma_rank_is_new(batches@, keys, 1, batch as int, row as int);
                }
                top.push(rank);
                assert(top.offered() =~= before + batch_ranks(
                    batches@,
                    keys,
                    batch as int,
                    row + 1,
                ));
                row += 1;
                number += 1;
            }
        },
        _ => {},
    }
}

/// The first `limit` rows by one 64-bit column, largest value first; rows with
/// equal values keep their order. `None` where that does not apply.
pub fn try_streaming_primitive_desc_topk_batches(
    batches: &[RecordBatch],
    order_by: &SortKey,
    limit: usize,
) -> (rows: Option<Vec<RowPosition>>)
    requires
        forall|batch: int| 0 <= batch < batches@.len() ==> (#[trigger] batches@[batch]).well_formed(),
        rows_before(batches@, batches@.len() as int) <= u64::MAX,
    ensures
        rows.is_some() == descending_applies(batches@, *order_by, limit as int),
        rows matches Some(rows) ==> first_rows(
            batches@,
            descending_keys(batches@, index_named(batches@[0], order_by.expressions@[0].column@)),
            rows@,
            limit as int,
        ),
{
    if limit == 0 || batches.len() < 2 {
        return None;
    }
    if order_by.expressions.len() != 1 {
        return None;
    }
    let sort: &SortExpr = &order_by.expressions[0];
    if !sort.descending || sort.nulls_first {
        return None;
    }
    let column: usize = match output_batch_column_index(&batches[0], sort.column.as_str()) {
        Ok(column) => column,
        Err(_) => {
            return None;
        },
    };
    let mut batch: usize = 0;
    while batch < batches.len()
        invariant
            batch <= batches@.len(),
            forall|index: int|
                0 <= index < batches@.len() ==> (#[trigger] batches@[index]).well_formed(),
            forall|earlier: int|
                0 <= earlier < batch ==> column < (#[trigger] batches@[earlier]).columns@.len()
                    && non_null_int64(batches@[earlier], column as int),
            order_by.expressions@.len() == 1,
            *sort == order_by.expressions@[0],
            column == index_named(batches@[0], sort.column@),
        decreases batches@.len() - batch,
    {
        let ghost current = batches@[batch as int];
        if column >= batches[batch].columns.len() {
            assert(!(column < current.columns@.len() && non_null_int64(current, column as int)));
            return None;
        }
        assert(current.columns@[column as int].well_formed());
        match &batches[batch].columns[column].data {
            ColumnData::Int64(vector) => {
                if vector.values_if_null_free().is_none() {
                    assert(!non_null_int64(current, column as int));
                    return None;
                }
            },
            _ => {
                assert(!non_null_int64(current, column as int));
                return None;
            },
        }
        batch += 1;
    }
    let ghost keys = descending_keys(batches@, column as int);
    let mut top = TopK::new(limit, 4);
    let mut sequence: u64 = 0;
    batch = 0;
    while batch < batches.len()
        invariant
            batch <= batches@.len(),
            forall|index: int|
                0 <= index < batches@.len() ==> (#[trigger] batches@[index]).well_formed(),
            forall|index: int|
                0 <= index < batches@.len() ==> column < (#[trigger] batches@[index]).columns@.len()
                    && non_null_int64(batches@[index], column as int),
            rows_before(batches@, batches@.len() as int) <= u64::MAX,
            sequence == rows_before(batches@, batch as int),
            keys == descending_keys(batches@, column as int),
            limit > 0,
            top.well_formed(),
            top.limit() == limit,
            top.width() == 4,
            top.offered() == all_ranks(batches@, keys, batch as int),
        decreases batches@.len() - batch,
    {
        offer_descending(batches, column, batch, sequence, &mut top);
        proof {
            lemma_rows_before_grows(batches@, batch + 1, batches@.len() as int);
        }
        sequence += batches[batch].num_rows as u64;
        batch += 1;
    }
    Some(finish(top, 1, Ghost(batches@), Ghost(keys)))
}

/// The columns of a top-k in ascending order.
#[derive(Clone, Copy, Debug, PartialEq, Eq, Structural)]
pub enum StreamingTopKSortShape {
    /// A 32-bit column, then two 64-bit columns, none with nulls.
    I32I64I64(usize, usize, usize),
    /// A 32-bit column with its nulls first, then a 64-bit column without nulls.
    NullableI32I64(usize, usize),
}

/// The sort keys of a row under a shape: nulls rank as absent, then as zero.
pub open spec fn shape_key(
    batch: RecordBatch,
    shape: StreamingTopKSortShape,
    row: int,
) -> Seq<i128> {
    match shape {
        StreamingTopKSortShape::I32I64I64(first, second, third) => seq![
            int32_values(batch, first as int)[row] as i128,
            int64_values(batch, second as int)[row] as i128,
            int64_values(batch, third as int)[row] as i128,
        ],
        StreamingTopKSortShape::NullableI32I64(first, second) => if batch.columns@[first as int].null_at(
            row,
        ) {
            seq![0i128, 0i128, int64_values(batch, second as int)[row] as i128]
        } else {
            seq![
                1i128,
                int32_values(batch, first as int)[row] as i128,
                int64_values(batch, second as int)[row] as i128,
            ]
        },
    }
}

/// The sort keys of the rows of all batches under a shape.
pub open spec fn shape_keys(batches: Seq<RecordBatch>, shape: StreamingTopKSortShape) -> spec_fn(
    int,
    int,
) -> Seq<i128> {
    |batch: int, row: int| shape_key(batches[batch], shape, row)
}

/// Whether the columns of a batch are of the kinds that a shape names.
pub open spec fn fits_shape(batch: RecordBatch, shape: StreamingTopKSortShape) -> bool {
    match shape {
        StreamingTopKSortShape::I32I64I64(first, second, third) => {
            &&& first < batch.columns@.len()
            &&& second < batch.columns@.len()
            &&& third < batch.columns@.len()
            &&& non_null_int32(batch, first as int)
            &&& non_null_int64(batch, second as int)
            &&& non_null_int64(batch, third as int)
        },
        StreamingTopKSortShape::NullableI32I64(first, second) => {
            &&& first < batch.columns@.len()
            &&& second < batch.columns@.len()
            &&& batch.columns@[first as int].data is Int32
            &&& non_null_int64(batch, second as int)
        },
    }
}

/// Whether a batch has the columns that a shape names.
pub open spec fn has_shape_columns(batch: RecordBatch, shape: StreamingTopKSortShape) -> bool {
    match shape {
        StreamingTopKSortShape::I32I64I64(first, second, third) => {
            &&& first < batch.columns@.len()
            &&& second < batch.columns@.len()
            &&& third < batch.columns@.len()
        },
        StreamingTopKSortShape::NullableI32I64(first, second) => {
            &&& first < batch.columns@.len()
            &&& second < batch.columns@.len()
        },
    }
}

/// Whether every batch has the columns that are looked at to tell the shape of a top-k: those
/// of the order, at their places in the first batch that has rows.
pub open spec fn sort_columns_there(batches: Seq<RecordBatch>, order_by: SortKey) -> bool {
    (exists|index: int| first_filled(batches, index)) ==> {
        let first = batches[choose|index: int| first_filled(batches, index)];
        match asked_shape(first, order_by) {
            None => true,
            Some(shape) => first_missing(first, sort_names(order_by)) is Some || forall|batch: int|
                0 <= batch < batches.len() ==> has_shape_columns(#[trigger] batches[batch], shape),
        }
    }
}

/// Whether the columns of every batch are of the kinds that a shape names.
pub open spec fn all_fit_shape(batches: Seq<RecordBatch>, shape: StreamingTopKSortShape) -> bool {
    forall|batch: int| 0 <= batch < batches.len() ==> fits_shape(#[trigger] batches[batch], shape)
}

/// Whether the batch at `index` is the first that has rows.
pub open spec fn first_filled(batches: Seq<RecordBatch>, index: int) -> bool {
    &&& 0 <= index < batches.len()
    &&& batches[index].num_rows > 0
    &&& forall|earlier: int|
        0 <= earlier < index ==> (#[trigger] batches[earlier]).num_rows == 0
}

/// The name among `names` that is missing first, if any is.
pub open spec fn first_missing(batch: RecordBatch, names: Seq<Seq<char>>) -> Option<Seq<char>>
    decreases names.len(),
{
    if names.len() == 0 {
        None
    } else if !has_name(batch, names[0]) {
        Some(names[0])
    } else {
        first_missing(batch, names.skip(1))
    }
}

/// The shape that an ORDER BY asks for, by the columns of the first batch that has
/// rows: three columns with nulls last, or two with the nulls of the first first.
pub open spec fn asked_shape(batch: RecordBatch, order_by: SortKey) -> Option<
    StreamingTopKSortShape,
> {
    let sorts = order_by.expressions@;
    if sorts.len() == 3 && !sorts[0].nulls_first && !sorts[1].nulls_first && !sorts[2].nulls_first {
        Some(
            StreamingTopKSortShape::I32I64I64(
                index_named(batch, sorts[0].column@) as usize,
                index_named(batch, sorts[1].column@) as usize,
                index_named(batch, sorts[2].column@) as usize,
            ),
        )
    } else if sorts.len() == 2 && sorts[0].nulls_first && !sorts[1].nulls_first {
        Some(
            StreamingTopKSortShape::NullableI32I64(
                index_named(batch, sorts[0].column@) as usize,
                index_named(batch, sorts[1].column@) as usize,
            ),
        )
    } else {
        None
    }
}

/// The names of the sort columns.
pub open spec fn sort_names(order_by: SortKey) -> Seq<Seq<char>> {
    order_by.expressions@.map_values(|sort: SortExpr| sort.column@)
}

/// Whether `result` is the shape of a top-k over the batches: none without rows
/// or where the order asks for no shape, an error where a sort column is missing,
/// and otherwise the shape where the columns of every batch fit it.
pub open spec fn is_sort_shape(
    batches: Seq<RecordBatch>,
    order_by: SortKey,
    result: SqlResult<Option<StreamingTopKSortShape>>,
) -> bool {
    if exists|index: int| first_filled(batches, index) {
        let first = batches[choose|index: int| first_filled(batches, index)];
        match asked_shape(first, order_by) {
            None => result matches Ok(None),
            Some(shape) => match first_missing(first, sort_names(order_by)) {
                Some(name) => result matches Err(error) && error.is_unknown_column(name),
                None => if all_fit_shape(batches, shape) {
                    result == Ok::<_, SqlError>(Some(shape))
                } else {
                    result matches Ok(None)
                },
            },
        }
    } else {
        result matches Ok(None)
    }
}

/// The first batch that has rows.
fn first_filled_batch(batches: &[RecordBatch]) -> (found: Option<usize>)
    ensures
        match found {
            Some(index) => first_filled(batches@, index as int) && index == (
            choose|index: int| first_filled(batches@, index)),
            None => !exists|index: int| first_filled(batches@, index),
        },
{
    let mut index: usize = 0;
    while index < batches.len()
        invariant
            index <= batches@.len(),
            forall|earlier: int|
                0 <= earlier < index ==> (#[trigger] batches@[earlier]).num_rows == 0,
        decreases batches@.len() - index,
    {
        if batches[index].num_rows > 0 {
            assert(first_filled(batches@, index as int));
            let ghost found = choose|found: int| first_filled(batches@, found);
            assert(found == index);
            return Some(index);
        }
        index += 1;
    }
    None
}

/// The shape of a top-k over the batches.
pub fn streaming_topk_sort_shape(batches: &[RecordBatch], order_by: &SortKey) -> (result: SqlResult<
    Option<StreamingTopKSortShape>,
>)
    requires
        all_well_formed(batches@),
        sort_columns_there(batches@, *order_by),
    ensures
        is_sort_shape(batches@, *order_by, result),
{
    let filled: usize = match first_filled_batch(batches) {
        Some(filled) => filled,
        None => {
            return Ok(None);
        },
    };
    let first_batch = &batches[filled];
    let sorts = &order_by.expressions;
    let ghost names = sort_names(*order_by);
    reveal_with_fuel(first_missing, 4);
    if sorts.len() == 3 && !sorts[0].nulls_first && !sorts[1].nulls_first && !sorts[2].nulls_first {
        assert(names[0] == sorts@[0].column@);
        assert(names.skip(1)[0] == sorts@[1].column@);
        assert(names.skip(1).skip(1)[0] == sorts@[2].column@);
        let first: usize = output_batch_column_index(first_batch, sorts[0].column.as_str())?;
        let second: usize = output_batch_column_index(first_batch, sorts[1].column.as_str())?;
        let third: usize = output_batch_column_index(first_batch, sorts[2].column.as_str())?;
        let ghost shape = StreamingTopKSortShape::I32I64I64(first, second, third);
        assert(first_missing(*first_batch, names) is None);
        assert(asked_shape(*first_batch, *order_by) == Some(shape));
        assert(forall|batch: int|
            0 <= batch < batches@.len() ==> has_shape_columns(#[trigger] batches@[batch], shape));
        if streaming_topk_column_is_non_null_i32(batches, first)
            && streaming_topk_column_is_non_null_i64(batches, second)
            && streaming_topk_column_is_non_null_i64(batches, third) {
            assert(all_fit_shape(batches@, shape));
            return Ok(Some(StreamingTopKSortShape::I32I64I64(first, second, third)));
        }
        assert(!all_fit_shape(batches@, shape)) by {
            if all_fit_shape(batches@, shape) {
                assert(forall|batch: int|
                    0 <= batch < batches@.len() ==> fits_shape(#[trigger] batches@[batch], shape));
            }
        }
        return Ok(None);
    }
    if sorts.len() == 2 && sorts[0].nulls_first && !sorts[1].nulls_first {
        assert(names[0] == sorts@[0].column@);
        assert(names.skip(1)[0] == sorts@[1].column@);
        let first: usize = output_batch_column_index(first_batch, sorts[0].column.as_str())?;
        let second: usize = output_batch_column_index(first_batch, sorts[1].column.as_str())?;
        let ghost shape = StreamingTopKSortShape::NullableI32I64(first, second);
        assert(first_missing(*first_batch, names) is None);
        assert(asked_shape(*first_batch, *order_by) == Some(shape));
        assert(forall|batch: int|
            0 <= batch < batches@.len() ==> has_shape_columns(#[trigger] batches@[batch], shape));
        if streaming_topk_column_is_i32(batches, first) && streaming_topk_column_is_non_null_i64(
            batches,
            second,
        ) {
            assert(all_fit_shape(batches@, shape));
            return Ok(Some(StreamingTopKSortShape::NullableI32I64(first, second)));
        }
        assert(!all_fit_shape(batches@, shape)) by {
            if all_fit_shape(batches@, shape) {
                assert(forall|batch: int|
                    0 <= batch < batches@.len() ==> fits_shape(#[trigger] batches@[batch], shape));
            }
        }
        return Ok(None);
    }
    Ok(None)
}

/// The sort keys of a row under a shape.
pub fn row_key(batch: &RecordBatch, shape: StreamingTopKSortShape, row: usize) -> (key: Rank)
    requires
        batch.well_formed(),
        fits_shape(*batch, shape),
        row < batch.num_rows,
    ensures
        key@ == shape_key(*batch, shape, row as int),
        key@.len() == 3,
{
    let mut key: Rank = Vec::new();
    match shape {
        StreamingTopKSortShape::I32I64I64(first, second, third) => {
            assert(batch.columns@[first as int].rows() == batch.num_rows);
            assert(batch.columns@[second as int].rows() == batch.num_rows);
            assert(batch.columns@[third as int].rows() == batch.num_rows);
            if let (ColumnData::Int32(a), ColumnData::Int64(b), ColumnData::Int64(c)) = (
                &batch.columns[first].data,
                &batch.columns[second].data,
                &batch.columns[third].data,
            ) {
                key.push(a.values[row] as i128);
                key.push(b.values[row] as i128);
                key.push(c.values[row] as i128);
            }
        },
        StreamingTopKSortShape::NullableI32I64(first, second) => {
            assert(batch.columns@[first as int].well_formed());
            assert(batch.columns@[second as int].rows() == batch.num_rows);
            if let (ColumnData::Int32(a), ColumnData::Int64(b)) = (
                &batch.columns[first].data,
                &batch.columns[second].data,
            ) {
                if a.is_null(row) {
                    key.push(0);
                    key.push(0);
                } else {
                    key.push(1);
                    key.push(a.values[row] as i128);
                }
                key.push(b.values[row] as i128);
            }
        },
    }
    assert(key@ =~= shape_key(*batch, shape, row as int));
    key
}

/// Whether `key` is the smallest sort key of a batch.
pub open spec fn is_least_key(
    batch: RecordBatch,
    shape: StreamingTopKSortShape,
    key: Seq<i128>,
) -> bool {
    &&& exists|row: int|
        0 <= row < batch.num_rows && key == #[trigger] shape_key(batch, shape, row)
    &&& forall|row: int|
        0 <= row < batch.num_rows ==> !ranks_before(#[trigger] shape_key(batch, shape, row), key)
}

/// The smallest sort key of a batch, `None` without rows.
pub fn streaming_topk_batch_min(
    batch: &RecordBatch,
    shape: StreamingTopKSortShape,
) -> (least: Option<
    Rank,
>)
    requires
        batch.well_formed(),
        fits_shape(*batch, shape),
    ensures
        least.is_some() == (batch.num_rows > 0),
        least matches Some(least) ==> is_least_key(*batch, shape, least@) && least@.len() == 3,
{
    if batch.num_rows == 0 {
        return None;
    }
    let mut least: Rank = row_key(batch, shape, 0);
    proof {
        if ranks_before(least@, least@) {
            law_ranks_before_asymmetric(least@, least@);
        }
    }
    let mut row: usize = 1;
    while row < batch.num_rows
        invariant
            batch.well_formed(),
            fits_shape(*batch, shape),
            1 <= row <= batch.num_rows,
            least@.len() == 3,
            exists|earlier: int|
                0 <= earlier < row && least@ == #[trigger] shape_key(*batch, shape, earlier),
            forall|earlier: int|
                0 <= earlier < row ==> !ranks_before(
                    #[trigger] shape_key(*batch, shape, earlier),
                    least@,
                ),
        decreases batch.num_rows - row,
    {
        let key: Rank = row_key(batch, shape, row);
        let ghost old_least = least@;
        if rank_less(&key, &least) {
            proof {
                assert forall|earlier: int| 0 <= earlier < row + 1 implies !ranks_before(
                    #[trigger] shape_key(*batch, shape, earlier),
                    key@,
                ) by {
                    let other = shape_key(*batch, shape, earlier);
                    if ranks_before(other, key@) {
                        if earlier < row {
                            law_ranks_before_transitive(other, key@, old_least);
                        } else {
                            law_ranks_before_asymmetric(other, key@);
                        }
                    }
                }
            }
            least = key;
        }
        row += 1;
    }
    Some(least)
}

/// A key with its batch's number of rows before it, the batch and the row.
fn rank_from_key(key: Rank, sequence: u64, batch: usize, row: usize) -> (rank: Rank)
    ensures
        rank@ == key@ + seq![sequence as i128, batch as i128, row as i128],
{
    let ghost before = key@;
    let mut rank: Rank = key;
    rank.push(sequence as i128);
    rank.push(batch as i128);
    rank.push(row as i128);
    assert(rank@ =~= before + seq![sequence as i128, batch as i128, row as i128]);
    rank
}

/// Where the least rank that a batch could have does not come before the last
/// rank kept, no row of the batch does.
proof fn lemma_batch_cannot_enter(
    batches: Seq<RecordBatch>,
    shape: StreamingTopKSortShape,
    batch: int,
    row: int,
    least: Seq<i128>,
    last: Seq<i128>,
)
    requires
        0 <= batch < batches.len(),
        0 <= row < batches[batch].num_rows,
        batches.len() <= usize::MAX,
        rows_before(batches, batches.len() as int) <= u64::MAX,
        is_least_key(batches[batch], shape, least),
        least.len() == 3,
        last.len() == 6,
        last != rank_of(batches, shape_keys(batches, shape), batch, row),
        !ranks_before(least + seq![0i128, batch as i128, 0i128], last),
    ensures
        ranks_before(last, rank_of(batches, shape_keys(batches, shape), batch, row)),
{
    let keys = shape_keys(batches, shape);
    let key = shape_key(batches[batch], shape, row);
    let rank = rank_of(batches, keys, batch, row);
    let floor = least + seq![0i128, batch as i128, 0i128];
    let tail = seq![(rows_before(batches, batch) + row) as i128, batch as i128, row as i128];
    lemma_rows_before_grows(batches, 0, batch);
    lemma_rows_before_grows(batches, batch + 1, batches.len() as int);
    assert(rank =~= key + tail);
    if floor != rank {
        if key != least {
            law_ranks_before_total(key, least);
            lemma_prefix_decides(least, seq![0i128, batch as i128, 0i128], key, tail);
        } else if rows_before(batches, batch) + row > 0 {
            lemma_tail_decides(least, seq![0i128, batch as i128, 0i128], key, tail);
        } else {
            assert(floor =~= rank);
        }
        assert(ranks_before(floor, rank));
    }
    if last != floor {
        law_ranks_before_total(last, floor);
        if floor != rank {
            law_ranks_before_transitive(last, floor, rank);
        }
    }
}

/// Offers the rows of one batch, or skips it where none of them can enter.
fn offer_ascending(
    batches: &[RecordBatch],
    shape: StreamingTopKSortShape,
    batch: usize,
    sequence: u64,
    top: &mut TopK,
)
    requires
        batch < batches@.len(),
        batches@[batch as int].well_formed(),
        fits_shape(batches@[batch as int], shape),
        rows_before(batches@, batches@.len() as int) <= u64::MAX,
        sequence == rows_before(batches@, batch as int),
        keys_wide(shape_keys(batches@, shape), 3),
        old(top).well_formed(),
        old(top).limit() > 0,
        old(top).width() == 6,
        old(top).offered() == all_ranks(batches@, shape_keys(batches@, shape), batch as int),
    ensures
        final(top).well_formed(),
        final(top).limit() == old(top).limit(),
        final(top).width() == 6,
        final(top).offered() == all_ranks(batches@, shape_keys(batches@, shape), batch + 1),
{
    let ghost keys = shape_keys(batches@, shape);
    let ghost before = all_ranks(batches@, keys, batch as int);
    let ghost earlier = rows_before(batches@, batch as int);
    let rows: usize = batches[batch].num_rows;
    proof {
        lemma_rows_before_grows(batches@, batch + 1, batches@.len() as int);
        lemma_rows_before_grows(batches@, 0, batch as int);
    }
    let mut skip = false;
    match top.worst() {
        Some(worst) => match streaming_topk_batch_min(&batches[batch], shape) {
            Some(least) => {
                let ghost least_key = least@;
                let floor = rank_from_key(least, 0, batch, 0);
                if !rank_less(&floor, worst) {
                    skip = true;
                    proof {
                        top.lemma_kept();
                        let last = top.kept().last();
                        assert(top.offered().contains(last));
                        assert forall|row: int| 0 <= row < rows implies ranks_before(
                            last,
                            #[trigger] rank_of(batches@, keys, batch as int, row),
                        ) by {
                            lemma_rank_is_new(batches@, keys, 3, batch as int, row);
                            let rank = rank_of(batches@, keys, batch as int, row);
                            let so_far = before + batch_ranks(batches@, keys, batch as int, row);
                            if last == rank {
                                let place = choose|place: int|
                                    0 <= place < before.len() && before[place] == last;
                                assert(so_far[place] == rank);
                            }
                            lemma_batch_cannot_enter(
                                batches@,
                                shape,
                                batch as int,
                                row,
                                least_key,
                                last,
                            );
                        }
                    }
                }
            },
            None => {},
        },
        None => {},
    }
    if skip {
        proof {
            top.lemma_kept();
        }
        top.skip(Ghost(batch_ranks(batches@, keys, batch as int, rows as int)));
        return;
    }
    let mut row: usize = 0;
    let mut number: u64 = sequence;
    assert(top.offered() =~= before + batch_ranks(batches@, keys, batch as int, 0));
    while row < rows
        invariant
            batch < batches@.len(),
            batches@.len() <= usize::MAX,
            batches@[batch as int].well_formed(),
            fits_shape(batches@[batch as int], shape),
            rows == batches@[batch as int].num_rows,
            rows_before(batches@, batches@.len() as int) <= u64::MAX,
            earlier == rows_before(batches@, batch as int),
            earlier + rows <= u64::MAX,
            keys == shape_keys(batches@, shape),
            keys_wide(keys, 3),
            before == all_ranks(batches@, keys, batch as int),
            row <= rows,
            number == earlier + row,
            top.well_formed(),
            top.limit() == old(top).limit(),
            top.width() == 6,
            top.offered() == before + batch_ranks(batches@, keys, batch as int, row as int),
        decreases rows - row,
    {
        let key = row_key(&batches[batch], shape, row);
        let rank = rank_from_key(key, number, batch, row);
        assert(rank@ =~= rank_of(batches@, keys, batch as int, row as int));
        proof {
            lemma_rank_is_new(batches@, keys, 3, batch as int, row as int);
        }
        top.push(rank);
        assert(top.offered() =~= before + batch_ranks(batches@, keys, batch as int, row + 1));
        row += 1;
        number += 1;
    }
}

/// Whether some sort column goes down.
pub open spec fn any_descending(order_by: SortKey) -> bool {
    exists|index: int|
        0 <= index < order_by.expressions@.len() && (
        #[trigger] order_by.expressions@[index]).descending
}

/// Whether some sort column goes down.
pub fn has_descending(order_by: &SortKey) -> (found: bool)
    ensures
        found == any_descending(*order_by),
{
    let mut index: usize = 0;
    while index < order_by.expressions.len()
        invariant
            index <= order_by.expressions@.len(),
            forall|earlier: int|
                0 <= earlier < index ==> !(
                #[trigger] order_by.expressions@[earlier]).descending,
        decreases order_by.expressions@.len() - index,
    {
        if order_by.expressions[index].descending {
            return true;
        }
        index += 1;
    }
    false
}

/// Whether a top-k in ascending order is tried.
pub open spec fn tries_ascending(
    batches: Seq<RecordBatch>,
    order_by: SortKey,
    limit: int,
    enabled: bool,
) -> bool {
    enabled && limit > 0 && batches.len() >= 2 && !any_descending(order_by)
}

/// The first `limit` rows in ascending order, nulls first where the shape has
/// nulls; rows with equal keys keep their order. `None` where the way is switched
/// off or no shape applies.
pub fn try_streaming_primitive_topk_batches(
    batches: &[RecordBatch],
    order_by: &SortKey,
    limit: usize,
    enabled: bool,
) -> (result: SqlResult<Option<Vec<RowPosition>>>)
    requires
        all_well_formed(batches@),
        tries_ascending(batches@, *order_by, limit as int, enabled) ==> sort_columns_there(
            batches@,
            *order_by,
        ),
        rows_before(batches@, batches@.len() as int) <= u64::MAX,
    ensures
        if !enabled || limit == 0 || batches@.len() < 2 || any_descending(*order_by) {
            result matches Ok(None)
        } else {
            exists|shape: SqlResult<Option<StreamingTopKSortShape>>| #[trigger]
                is_sort_shape(batches@, *order_by, shape) && match shape {
                    Err(error) => result == Err::<Option<Vec<RowPosition>>, _>(error),
                    Ok(None) => result matches Ok(None),
                    Ok(Some(shape)) => result matches Ok(Some(rows)) && first_rows(
                        batches@,
                        shape_keys(batches@, shape),
                        rows@,
                        limit as int,
                    ),
                }
        },
{
    if !enabled || limit == 0 || batches.len() < 2 || has_descending(order_by) {
        return Ok(None);
    }
    let found = streaming_topk_sort_shape(batches, order_by);
    let shape: StreamingTopKSortShape = match found {
        Err(error) => {
            return Err(error);
        },
        Ok(None) => {
            return Ok(None);
        },
        Ok(Some(shape)) => shape,
    };
    assert(found == Ok::<_, SqlError>(Some(shape)));
    assert(all_fit_shape(batches@, shape));
    let ghost keys = shape_keys(batches@, shape);
    assert(keys_wide(keys, 3));
    let mut top = TopK::new(limit, 6);
    let mut sequence: u64 = 0;
    let mut batch: usize = 0;
    while batch < batches.len()
        invariant
            batch <= batches@.len(),
            all_well_formed(batches@),
            all_fit_shape(batches@, shape),
            rows_before(batches@, batches@.len() as int) <= u64::MAX,
            sequence == rows_before(batches@, batch as int),
            keys == shape_keys(batches@, shape),
            keys_wide(keys, 3),
            limit > 0,
            top.well_formed(),
            top.limit() == limit,
            top.width() == 6,
            top.offered() == all_ranks(batches@, keys, batch as int),
        decreases batches@.len() - batch,
    {
        assert(fits_shape(batches@[batch as int], shape));
        offer_ascending(batches, shape, batch, sequence, &mut top);
        proof {
            lemma_rows_before_grows(batches@, batch + 1, batches@.len() as int);
        }
        sequence += batches[batch].num_rows as u64;
        batch += 1;
    }
    let rows = finish(top, 3, Ghost(batches@), Ghost(keys));
    Ok(Some(rows))
}

} // verus!
