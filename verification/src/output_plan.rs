//! How ordered and limited output is produced from finished batches.

use vstd::prelude::*;
use crate::columns::RecordBatch;
use crate::error::{SqlError, SqlResult};
use crate::output_order::{
    aggregate_output_already_ordered, groups_ordered, is_batch_order, output_batch_satisfies_order,
    GroupValue,
};
use crate::output_sort::{is_sort_plan, sort_output_batch, SortPlan, SortSettings};
use crate::output_utils::{
    effective_limit, limit_batches, rows_of_batches, rows_of_slices, window, BatchSlice,
};
use crate::plan::SortKey;
use crate::streaming_topk::{
    all_well_formed, any_descending, descending_applies, descending_keys, first_rows, index_named,
    is_sort_shape, rows_before, shape_keys, sort_columns_there, tries_ascending,
    try_streaming_primitive_desc_topk_batches, try_streaming_primitive_topk_batches, RowPosition,
    StreamingTopKSortShape,
};

verus! {

/// Which of the ways to order output are switched on.
#[derive(Clone, Copy)]
pub struct OrderSettings {
    pub streaming_topk_sort: bool,
    pub batch_prune: bool,
    pub sort: SortSettings,
}

/// How output is produced from several batches.
pub enum OutputPlan {
    /// These stretches of the batches, as they come.
    Slices(Vec<BatchSlice>),
    /// These rows, in this order.
    Rows(Vec<RowPosition>),
    /// These batches sorted up to a limit, each as it says, and the rows so found, one batch
    /// after the other, sorted again up to it.
    SortEachThenAll { sorts: Vec<BatchSort>, limit: usize },
    /// All batches joined into one, which is then ordered by itself.
    Join,
}

/// How a batch is sorted.
pub struct BatchSort {
    pub batch: usize,
    pub sort: SortPlan,
}

/// The first batches that have rows.
pub open spec fn filled_batches(batches: Seq<RecordBatch>, count: int) -> Seq<int>
    decreases count,
{
    if count <= 0 {
        Seq::empty()
    } else if batches[count - 1].num_rows > 0 {
        filled_batches(batches, count - 1).push(count - 1)
    } else {
        filled_batches(batches, count - 1)
    }
}

/// Whether batches are sorted up to a limit as is said of them.
pub open spec fn sorts_are(
    batches: Seq<RecordBatch>,
    order_by: SortKey,
    limit: usize,
    settings: SortSettings,
    filled: Seq<int>,
    sorts: Seq<BatchSort>,
) -> bool {
    &&& sorts.len() == filled.len()
    &&& forall|index: int|
        0 <= index < sorts.len() ==> {
            &&& (#[trigger] sorts[index]).batch == filled[index]
            &&& is_sort_plan(
                batches[filled[index]],
                order_by,
                Some(limit),
                settings,
                Ok::<SortPlan, SqlError>(sorts[index].sort),
            )
        }
}

/// Whether a batch is the first that has rows and cannot be sorted, for the reason given.
pub open spec fn sort_fails_at(
    batches: Seq<RecordBatch>,
    order_by: SortKey,
    limit: usize,
    settings: SortSettings,
    batch: int,
    sorts: Seq<BatchSort>,
    error: SqlError,
) -> bool {
    &&& 0 <= batch < batches.len()
    &&& batches[batch].num_rows > 0
    &&& sorts_are(batches, order_by, limit, settings, filled_batches(batches, batch), sorts)
    &&& is_sort_plan(
        batches[batch],
        order_by,
        Some(limit),
        settings,
        Err::<SortPlan, SqlError>(error),
    )
}

/// Whether a result sorts each batch that has rows up to a limit and then all rows so found,
/// or is the error of the first batch that cannot be sorted.
pub open spec fn sorts_each(
    batches: Seq<RecordBatch>,
    order_by: SortKey,
    limit: usize,
    settings: SortSettings,
    result: SqlResult<OutputPlan>,
) -> bool {
    match result {
        Ok(plan) => plan matches OutputPlan::SortEachThenAll { sorts, limit: cut } && cut == limit
            && sorts_are(
            batches,
            order_by,
            limit,
            settings,
            filled_batches(batches, batches.len() as int),
            sorts@,
        ),
        Err(error) => exists|batch: int, sorts: Seq<BatchSort>| #[trigger]
            sort_fails_at(batches, order_by, limit, settings, batch, sorts, error),
    }
}

/// Sorts each batch that has rows up to a limit.
fn sort_each(
    batches: &[RecordBatch],
    order_by: &SortKey,
    limit: usize,
    settings: SortSettings,
) -> (result: SqlResult<OutputPlan>)
    requires
        all_well_formed(batches@),
    ensures
        sorts_each(batches@, *order_by, limit, settings, result),
{
    let mut sorts: Vec<BatchSort> = Vec::new();
    let mut batch: usize = 0;
    while batch < batches.len()
        invariant
            all_well_formed(batches@),
            batch <= batches@.len(),
            sorts_are(
                batches@,
                *order_by,
                limit,
                settings,
                filled_batches(batches@, batch as int),
                sorts@,
            ),
        decreases batches@.len() - batch,
    {
        if batches[batch].num_rows > 0 {
            match sort_output_batch(&batches[batch], order_by, Some(limit), settings) {
                Err(error) => {
                    assert(sort_fails_at(
                        batches@,
                        *order_by,
                        limit,
                        settings,
                        batch as int,
                        sorts@,
                        error,
                    ));
                    return Err(error);
                },
                Ok(sort) => {
                    let ghost before = sorts@;
                    let ghost earlier = filled_batches(batches@, batch as int);
                    sorts.push(BatchSort { batch, sort });
                    assert forall|index: int| 0 <= index < sorts@.len() implies {
                        &&& (#[trigger] sorts@[index]).batch == earlier.push(batch as int)[index]
                        &&& is_sort_plan(
                            batches@[earlier.push(batch as int)[index]],
                            *order_by,
                            Some(limit),
                            settings,
                            Ok::<SortPlan, SqlError>(sorts@[index].sort),
                        )
                    } by {
                        if index < before.len() {
                            assert(sorts@[index] == before[index]);
                        }
                    }
                },
            }
        }
        batch += 1;
    }
    Ok(OutputPlan::SortEachThenAll { sorts, limit })
}

/// The row counts of batches.
pub open spec fn row_counts_of(batches: Seq<RecordBatch>) -> Seq<usize> {
    batches.map_values(|batch: RecordBatch| batch.num_rows)
}

/// The row counts of batches.
fn row_counts(batches: &[RecordBatch]) -> (counts: Vec<usize>)
    ensures
        counts@ == row_counts_of(batches@),
{
    let mut counts: Vec<usize> = Vec::new();
    let mut index: usize = 0;
    while index < batches.len()
        invariant
            index <= batches@.len(),
            counts@ == row_counts_of(batches@).take(index as int),
        decreases batches@.len() - index,
    {
        counts.push(batches[index].num_rows);
        index += 1;
        assert(counts@ =~= row_counts_of(batches@).take(index as int));
    }
    assert(counts@ =~= row_counts_of(batches@));
    counts
}

/// Whether the slices are the rows left once `offset` rows are skipped and at most
/// `limit` kept.
pub open spec fn are_limited(
    counts: Seq<usize>,
    limit: Option<usize>,
    offset: usize,
    slices: Seq<BatchSlice>,
) -> bool {
    rows_of_slices(slices) == window(
        rows_of_batches(counts, counts.len() as int),
        offset as int,
        effective_limit(limit),
    )
}

/// Whether some batch has more rows than the limit.
pub open spec fn any_longer(batches: Seq<RecordBatch>, limit: int) -> bool {
    exists|index: int| 0 <= index < batches.len() && (#[trigger] batches[index]).num_rows > limit
}

/// Whether a top-k in ascending order applies to the batches, or fails.
pub open spec fn ascending_topk(
    batches: Seq<RecordBatch>,
    order_by: SortKey,
    limit: int,
    enabled: bool,
    shape: SqlResult<Option<StreamingTopKSortShape>>,
) -> bool {
    &&& enabled && limit > 0 && batches.len() >= 2 && !any_descending(order_by)
    &&& is_sort_shape(batches, order_by, shape)
    &&& !(shape matches Ok(None))
}

/// The outcome of planning the output of several batches under an order.
pub open spec fn is_ordered_plan(
    batches: Seq<RecordBatch>,
    order_by: SortKey,
    limit: Option<usize>,
    offset: usize,
    settings: OrderSettings,
    result: SqlResult<OutputPlan>,
) -> bool {
    let cut = limit is Some && offset == 0;
    if batches.len() == 0 {
        result matches Ok(OutputPlan::Slices(slices)) && slices@.len() == 0
    } else if cut && descending_applies(batches, order_by, limit->0 as int) {
        result matches Ok(OutputPlan::Rows(rows)) && first_rows(
            batches,
            descending_keys(batches, index_named(batches[0], order_by.expressions@[0].column@)),
            rows@,
            limit->0 as int,
        )
    } else if cut && (exists|shape: SqlResult<Option<StreamingTopKSortShape>>| #[trigger]
        ascending_topk(batches, order_by, limit->0 as int, settings.streaming_topk_sort, shape)) {
        exists|shape: SqlResult<Option<StreamingTopKSortShape>>| #[trigger]
            ascending_topk(
                batches,
                order_by,
                limit->0 as int,
                settings.streaming_topk_sort,
                shape,
            ) && match shape {
                Err(error) => result == Err::<OutputPlan, SqlError>(error),
                Ok(Some(shape)) => result matches Ok(OutputPlan::Rows(rows)) && first_rows(
                    batches,
                    shape_keys(batches, shape),
                    rows@,
                    limit->0 as int,
                ),
                Ok(None) => false,
            }
    } else if cut && settings.batch_prune && batches.len() > 1 && any_longer(
        batches,
        limit->0 as int,
    ) {
        sorts_each(batches, order_by, limit->0, settings.sort, result)
    } else {
        result == Ok::<OutputPlan, SqlError>(OutputPlan::Join)
    }
}

/// Whether some batch has more rows than the limit.
fn has_longer(batches: &[RecordBatch], limit: usize) -> (found: bool)
    ensures
        found == any_longer(batches@, limit as int),
{
    let mut index: usize = 0;
    while index < batches.len()
        invariant
            index <= batches@.len(),
            forall|earlier: int|
                0 <= earlier < index ==> (#[trigger] batches@[earlier]).num_rows <= limit,
        decreases batches@.len() - index,
    {
        if batches[index].num_rows > limit {
            return true;
        }
        index += 1;
    }
    false
}

/// Two shapes read off the same batches are both none, or neither is.
proof fn lemma_no_shape_is_unique(
    batches: Seq<RecordBatch>,
    order_by: SortKey,
    left: SqlResult<Option<StreamingTopKSortShape>>,
    right: SqlResult<Option<StreamingTopKSortShape>>,
)
    requires
        is_sort_shape(batches, order_by, left),
        is_sort_shape(batches, order_by, right),
        left matches Ok(None),
    ensures
        right matches Ok(None),
{
}

/// Whether the columns are there that planning ordered output looks at, and rows can be
/// numbered, where a top-k is tried.
pub open spec fn topk_possible(
    batches: Seq<RecordBatch>,
    order_by: SortKey,
    limit: Option<usize>,
    offset: usize,
    settings: OrderSettings,
) -> bool {
    limit is Some && offset == 0 ==> {
        &&& rows_before(batches, batches.len() as int) <= u64::MAX
        &&& tries_ascending(batches, order_by, limit->0 as int, settings.streaming_topk_sort)
            ==> sort_columns_there(batches, order_by)
    }
}

/// Plans the output of batches under an optional order.
///
/// Without an order the rows come as they are. With one, a top-k over the batches
/// is used where it applies, then a sort of each batch where the limit makes that
/// worthwhile, and otherwise the batches are joined and ordered as one.
pub fn apply_output_order_limit(
    batches: &[RecordBatch],
    order_by: Option<&SortKey>,
    limit: Option<usize>,
    offset: usize,
    settings: OrderSettings,
) -> (result: SqlResult<OutputPlan>)
    requires
        all_well_formed(batches@),
        order_by matches Some(order_by) ==> topk_possible(
            batches@,
            *order_by,
            limit,
            offset,
            settings,
        ),
    ensures
        match order_by {
            None => result matches Ok(OutputPlan::Slices(slices)) && are_limited(
                row_counts_of(batches@),
                limit,
                offset,
                slices@,
            ),
            Some(order_by) => is_ordered_plan(batches@, *order_by, limit, offset, settings, result),
        },
{
    let key: &SortKey = match order_by {
        None => {
            let counts = row_counts(batches);
            return Ok(OutputPlan::Slices(limit_batches(counts.as_slice(), limit, offset)));
        },
        Some(key) => key,
    };
    if batches.len() == 0 {
        return Ok(OutputPlan::Slices(Vec::new()));
    }
    match limit {
        Some(count) => {
            if offset == 0 {
                match try_streaming_primitive_desc_topk_batches(batches, key, count) {
                    Some(rows) => {
                        return Ok(OutputPlan::Rows(rows));
                    },
                    None => {},
                }
                let ghost enabled = settings.streaming_topk_sort;
                let topk = try_streaming_primitive_topk_batches(
                    batches,
                    key,
                    count,
                    settings.streaming_topk_sort,
                );
                let ghost applies = enabled && count > 0 && batches@.len() >= 2 && !any_descending(
                    *key,
                );
                let ghost shape = choose|shape: SqlResult<Option<StreamingTopKSortShape>>| #[trigger]
                    is_sort_shape(batches@, *key, shape) && match shape {
                        Err(error) => topk == Err::<Option<Vec<RowPosition>>, _>(error),
                        Ok(None) => topk matches Ok(None),
                        Ok(Some(shape)) => topk matches Ok(Some(rows)) && first_rows(
                            batches@,
                            shape_keys(batches@, shape),
                            rows@,
                            count as int,
                        ),
                    };
                match topk {
                    Err(error) => {
                        assert(ascending_topk(batches@, *key, count as int, enabled, shape));
                        return Err(error);
                    },
                    Ok(Some(rows)) => {
                        assert(ascending_topk(batches@, *key, count as int, enabled, shape));
                        return Ok(OutputPlan::Rows(rows));
                    },
                    Ok(None) => {
                        assert forall|other: SqlResult<Option<StreamingTopKSortShape>>| !#[trigger] ascending_topk(
                            batches@,
                            *key,
                            count as int,
                            enabled,
                            other,
                        ) by {
                            if applies && is_sort_shape(batches@, *key, other) {
                                lemma_no_shape_is_unique(batches@, *key, shape, other);
                            }
                        }
                    },
                }
                if settings.batch_prune && batches.len() > 1 && has_longer(batches, count) {
                    return sort_each(batches, key, count, settings.sort);
                }
            }
        },
        None => {},
    }
    Ok(OutputPlan::Join)
}

/// How a single batch is ordered and limited.
pub enum JoinedPlan {
    /// These stretches of the batch, which is in order already.
    InOrder(Vec<BatchSlice>),
    /// The batch sorted up to a limit, and these stretches of the result.
    Sorted { sort: SortPlan, sorted_limit: Option<usize>, slices: Vec<BatchSlice> },
}

/// How many rows a sort must deliver so that `offset` can be skipped and `limit`
/// kept; all of them where the sum is too large.
pub open spec fn sorted_limit_of(limit: Option<usize>, offset: usize) -> Option<usize> {
    match limit {
        Some(limit) => if limit + offset <= usize::MAX {
            Some((limit + offset) as usize)
        } else {
            None
        },
        None => None,
    }
}

/// The rows that a sort up to a limit delivers.
pub open spec fn sorted_rows(rows: usize, sorted_limit: Option<usize>) -> usize {
    match sorted_limit {
        Some(limit) => if limit <= rows {
            limit
        } else {
            rows
        },
        None => rows,
    }
}

/// The outcome of planning the output of a single batch under an order.
pub open spec fn is_joined_plan(
    batch: RecordBatch,
    order_by: SortKey,
    limit: Option<usize>,
    offset: usize,
    settings: OrderSettings,
    result: SqlResult<JoinedPlan>,
) -> bool {
    if is_batch_order(batch, order_by, Ok(true)) {
        result matches Ok(JoinedPlan::InOrder(slices)) && are_limited(
            seq![batch.num_rows],
            limit,
            offset,
            slices@,
        )
    } else if is_batch_order(batch, order_by, Ok(false)) {
        let wanted = sorted_limit_of(limit, offset);
        exists|sort: SqlResult<SortPlan>| #[trigger]
            is_sort_plan(batch, order_by, wanted, settings.sort, sort) && match sort {
                Err(error) => result == Err::<JoinedPlan, SqlError>(error),
                Ok(sort) => result matches Ok(
                    JoinedPlan::Sorted { sort: chosen, sorted_limit, slices },
                ) && chosen == sort && sorted_limit == wanted && are_limited(
                    seq![sorted_rows(batch.num_rows, wanted)],
                    limit,
                    offset,
                    slices@,
                ),
            }
    } else {
        result matches Err(error) && is_batch_order(batch, order_by, Err(error))
    }
}

/// Plans the output of a single batch under an order: as it is where it is in
/// order already, and otherwise sorted as far as the limit and offset need.
pub fn order_joined_batch(
    batch: &RecordBatch,
    order_by: &SortKey,
    limit: Option<usize>,
    offset: usize,
    settings: OrderSettings,
) -> (result: SqlResult<JoinedPlan>)
    requires
        batch.well_formed(),
    ensures
        is_joined_plan(*batch, *order_by, limit, offset, settings, result),
{
    match output_batch_satisfies_order(batch, order_by) {
        Err(error) => {
            return Err(error);
        },
        Ok(true) => {
            let mut counts: Vec<usize> = Vec::new();
            counts.push(batch.num_rows);
            assert(counts@ =~= seq![batch.num_rows]);
            return Ok(JoinedPlan::InOrder(limit_batches(counts.as_slice(), limit, offset)));
        },
        Ok(false) => {},
    }
    let sorted_limit: Option<usize> = match limit {
        Some(limit) => limit.checked_add(offset),
        None => None,
    };
    let sort = sort_output_batch(batch, order_by, sorted_limit, settings.sort);
    match sort {
        Err(error) => Err(error),
        Ok(sort) => {
            let rows: usize = match sorted_limit {
                Some(limit) => if limit <= batch.num_rows {
                    limit
                } else {
                    batch.num_rows
                },
                None => batch.num_rows,
            };
            let mut counts: Vec<usize> = Vec::new();
            counts.push(rows);
            assert(counts@ =~= seq![sorted_rows(batch.num_rows, sorted_limit)]);
            let slices = limit_batches(counts.as_slice(), limit, offset);
            Ok(JoinedPlan::Sorted { sort, sorted_limit, slices })
        },
    }
}

/// Plans the output of an aggregation: as it comes where the groups come out in
/// the order asked for, and otherwise as any other output.
pub fn apply_aggregate_output_order_limit(
    batches: &[RecordBatch],
    order_by: Option<&SortKey>,
    limit: Option<usize>,
    offset: usize,
    groups: &[Vec<GroupValue>],
    group_by: &[String],
    settings: OrderSettings,
) -> (result: SqlResult<OutputPlan>)
    requires
        all_well_formed(batches@),
        order_by matches Some(key) ==> groups_ordered(groups@, group_by@, *key) || topk_possible(
            batches@,
            *key,
            limit,
            offset,
            settings,
        ),
    ensures
        match order_by {
            None => result matches Ok(OutputPlan::Slices(slices)) && are_limited(
                row_counts_of(batches@),
                limit,
                offset,
                slices@,
            ),
            Some(key) => if groups_ordered(groups@, group_by@, *key) {
                result matches Ok(OutputPlan::Slices(slices)) && are_limited(
                    row_counts_of(batches@),
                    limit,
                    offset,
                    slices@,
                )
            } else {
                is_ordered_plan(batches@, *key, limit, offset, settings, result)
            },
        },
{
    if aggregate_output_already_ordered(groups, group_by, order_by) {
        let counts = row_counts(batches);
        return Ok(OutputPlan::Slices(limit_batches(counts.as_slice(), limit, offset)));
    }
    apply_output_order_limit(batches, order_by, limit, offset, settings)
}

} // verus!
