//! Row limits over a list of batches.

use vstd::prelude::*;

verus! {

/// A stretch of the rows of a batch.
#[derive(Clone, Copy, Debug, PartialEq, Eq, Structural)]
pub struct BatchSlice {
    pub batch: usize,
    pub start: usize,
    pub rows: usize,
}

/// The rows `start` up to `end` of a batch.
pub open spec fn stretch(batch: int, start: int, rows: int) -> Seq<(int, int)> {
    Seq::new(rows as nat, |row: int| (batch, start + row))
}

/// All rows of the first `count` batches, in order.
pub open spec fn rows_of_batches(row_counts: Seq<usize>, count: int) -> Seq<(int, int)>
    decreases count,
{
    if count <= 0 {
        Seq::empty()
    } else {
        rows_of_batches(row_counts, count - 1) + stretch(
            count - 1,
            0,
            row_counts[count - 1] as int,
        )
    }
}

/// The rows of the slices, in order.
pub open spec fn rows_of_slices(slices: Seq<BatchSlice>) -> Seq<(int, int)>
    decreases slices.len(),
{
    if slices.len() == 0 {
        Seq::empty()
    } else {
        rows_of_slices(slices.drop_last()) + stretch(
            slices.last().batch as int,
            slices.last().start as int,
            slices.last().rows as int,
        )
    }
}

/// What is left of a list once `offset` entries are dropped and at most `limit`
/// kept.
pub open spec fn window<T>(list: Seq<T>, offset: int, limit: int) -> Seq<T> {
    let start = if offset <= list.len() {
        offset
    } else {
        list.len() as int
    };
    let end = if start + limit <= list.len() {
        start + limit
    } else {
        list.len() as int
    };
    list.subrange(start, end)
}

/// The limit that applies where none is given.
pub open spec fn effective_limit(limit: Option<usize>) -> int {
    match limit {
        Some(limit) => limit as int,
        None => usize::MAX as int,
    }
}

/// A list that goes on keeps the entries of its window.
proof fn lemma_window_extends<T>(list: Seq<T>, more: Seq<T>, offset: int, limit: int)
    requires
        0 <= offset,
        0 <= limit,
    ensures
        ({
            let skipped = if offset <= list.len() {
                0
            } else {
                offset - list.len()
            };
            let remaining = limit - window(list, offset, limit).len();
            window(list + more, offset, limit) =~= window(list, offset, limit) + window(
                more,
                skipped,
                remaining,
            )
        }),
{
}

/// The rows that remain of the batches once the first `offset` are skipped and at
/// most `limit` are kept. No slice is empty.
pub fn limit_batches(row_counts: &[usize], limit: Option<usize>, offset: usize) -> (slices: Vec<
    BatchSlice,
>)
    ensures
        rows_of_slices(slices@) == window(
            rows_of_batches(row_counts@, row_counts@.len() as int),
            offset as int,
            effective_limit(limit),
        ),
        forall|index: int|
            0 <= index < slices@.len() ==> (#[trigger] slices@[index]).rows > 0
                && slices@[index].batch < row_counts@.len() && slices@[index].start
                + slices@[index].rows <= row_counts@[slices@[index].batch as int],
{
    let mut to_skip: usize = offset;
    let mut remaining: usize = match limit {
        Some(limit) => limit,
        None => usize::MAX,
    };
    let ghost cap = effective_limit(limit);
    let mut slices: Vec<BatchSlice> = Vec::new();
    let mut batch: usize = 0;
    assert(rows_of_slices(slices@) =~= window(rows_of_batches(row_counts@, 0), offset as int, cap));
    while batch < row_counts.len()
        invariant
            batch <= row_counts@.len(),
            0 <= cap,
            cap == effective_limit(limit),
            to_skip == (if offset <= rows_of_batches(row_counts@, batch as int).len() {
                0
            } else {
                offset - rows_of_batches(row_counts@, batch as int).len()
            }),
            remaining == cap - rows_of_slices(slices@).len(),
            rows_of_slices(slices@) == window(
                rows_of_batches(row_counts@, batch as int),
                offset as int,
                cap,
            ),
            forall|index: int|
                0 <= index < slices@.len() ==> (#[trigger] slices@[index]).rows > 0
                    && slices@[index].batch < row_counts@.len() && slices@[index].start
                    + slices@[index].rows <= row_counts@[slices@[index].batch as int],
        decreases row_counts@.len() - batch,
    {
        let rows: usize = row_counts[batch];
        let ghost more = stretch(batch as int, 0, rows as int);
        proof {
            lemma_window_extends(
                rows_of_batches(row_counts@, batch as int),
                more,
                offset as int,
                cap,
            );
        }
        if to_skip >= rows {
            assert(window(more, to_skip as int, remaining as int) =~= Seq::empty());
            to_skip -= rows;
            batch += 1;
            continue;
        }
        let start: usize = to_skip;
        to_skip = 0;
        if remaining == 0 {
            proof {
                lemma_window_full(
                    row_counts@,
                    batch as int,
                    row_counts@.len() as int,
                    offset as int,
                    cap,
                );
            }
            return slices;
        }
        let kept: usize = if remaining <= rows - start {
            remaining
        } else {
            rows - start
        };
        assert(window(more, start as int, remaining as int) =~= stretch(
            batch as int,
            start as int,
            kept as int,
        ));
        remaining -= kept;
        let ghost before = slices@;
        slices.push(BatchSlice { batch, start, rows: kept });
        assert(slices@.drop_last() =~= before);
        batch += 1;
    }
    slices
}

/// A window that is full stays as it is when the list goes on.
proof fn lemma_window_full(row_counts: Seq<usize>, from: int, to: int, offset: int, limit: int)
    requires
        0 <= from <= to <= row_counts.len(),
        0 <= offset,
        0 <= limit,
        window(rows_of_batches(row_counts, from), offset, limit).len() == limit,
    ensures
        window(rows_of_batches(row_counts, to), offset, limit) == window(
            rows_of_batches(row_counts, from),
            offset,
            limit,
        ),
    decreases to - from,
{
    if from < to {
        lemma_window_full(row_counts, from, to - 1, offset, limit);
        let more = stretch(to - 1, 0, row_counts[to - 1] as int);
        let list = rows_of_batches(row_counts, to - 1);
        lemma_window_extends(list, more, offset, limit);
        let skipped = if offset <= list.len() {
            0
        } else {
            offset - list.len()
        };
        assert(window(more, skipped, 0) =~= Seq::empty());
    }
}

/// Skipping rows and then limiting what is left is the same as doing both at
/// once.
pub proof fn law_window_composes<T>(list: Seq<T>, offset: int, limit: int)
    requires
        0 <= offset,
        0 <= limit,
    ensures
        window(list, offset, limit) =~= window(
            window(list, offset, list.len() as int),
            0,
            limit,
        ),
{
}

/// Skipping rows twice skips as many as both times together: what is left of the rows
/// behind the first `first` once `second` more are skipped and at most `limit` kept is
/// what is left of all rows once `first + second` are skipped.
pub proof fn law_offsets_add_up<T>(list: Seq<T>, first: int, second: int, limit: int)
    requires
        0 <= first,
        0 <= second,
        0 <= limit,
    ensures
        window(window(list, first, list.len() as int), second, limit) =~= window(
            list,
            first + second,
            limit,
        ),
{
}

/// The number of rows of each slice.
pub open spec fn slice_rows(slices: Seq<BatchSlice>) -> Seq<usize> {
    slices.map_values(|slice: BatchSlice| slice.rows)
}

/// The rows that slices of slices stand for: a row of a slice is the row behind its start.
pub open spec fn rows_within(slices: Seq<BatchSlice>, rows: Seq<(int, int)>) -> Seq<(int, int)> {
    rows.map_values(
        |row: (int, int)| (slices[row.0].batch as int, slices[row.0].start as int + row.1),
    )
}

/// The rows of slices, counted as batches of their own, are the rows of the slices.
proof fn lemma_rows_within(slices: Seq<BatchSlice>, count: int)
    requires
        0 <= count <= slices.len(),
    ensures
        rows_within(slices, rows_of_batches(slice_rows(slices), count)) == rows_of_slices(
            slices.take(count),
        ),
    decreases count,
{
    if count > 0 {
        lemma_rows_within(slices, count - 1);
        let shorter = slices.take(count).drop_last();
        assert(shorter =~= slices.take(count - 1));
        let last = slices[count - 1];
        let before = rows_of_batches(slice_rows(slices), count - 1);
        let more = stretch(count - 1, 0, last.rows as int);
        assert(rows_within(slices, before + more) =~= rows_within(slices, before) + rows_within(
            slices,
            more,
        ));
        assert(rows_within(slices, more) =~= stretch(
            last.batch as int,
            last.start as int,
            last.rows as int,
        ));
    } else {
        assert(rows_within(slices, rows_of_batches(slice_rows(slices), 0)) =~= Seq::empty());
        assert(slices.take(0) =~= Seq::empty());
    }
}

/// Two limits in a row are one. Where slices are the rows of batches without the first
/// `first`, and further slices the rows of those without the first `second` and up to
/// `limit`, the further slices stand for the rows of the batches without the first
/// `first + second`, up to `limit`.
pub proof fn law_limiting_twice_adds_the_offsets(
    row_counts: Seq<usize>,
    skipped: Seq<BatchSlice>,
    limited: Seq<BatchSlice>,
    first: usize,
    second: usize,
    limit: usize,
)
    requires
        first + second <= usize::MAX,
        rows_of_batches(row_counts, row_counts.len() as int).len() <= usize::MAX,
        rows_of_slices(skipped) == window(
            rows_of_batches(row_counts, row_counts.len() as int),
            first as int,
            effective_limit(None),
        ),
        rows_of_slices(limited) == window(
            rows_of_batches(slice_rows(skipped), skipped.len() as int),
            second as int,
            effective_limit(Some(limit)),
        ),
    ensures
        rows_within(skipped, rows_of_slices(limited)) == window(
            rows_of_batches(row_counts, row_counts.len() as int),
            first + second,
            effective_limit(Some(limit)),
        ),
{
    let all = rows_of_batches(row_counts, row_counts.len() as int);
    let again = rows_of_batches(slice_rows(skipped), skipped.len() as int);
    lemma_rows_within(skipped, skipped.len() as int);
    assert(skipped.take(skipped.len() as int) =~= skipped);
    assert(rows_within(skipped, window(again, second as int, limit as int)) =~= window(
        rows_within(skipped, again),
        second as int,
        limit as int,
    ));
    assert(window(all, first as int, effective_limit(None)) =~= window(
        all,
        first as int,
        all.len() as int,
    ));
    law_offsets_add_up(all, first as int, second as int, limit as int);
}

} // verus!
