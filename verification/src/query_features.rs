//! Clauses that are not supported, and duplicate rows.

use vstd::prelude::*;
use crate::aggregates::AggregateExpr;
use crate::ast::{DistinctKind, QueryAst, SelectAst};
use crate::error::{fails_unsupported, fails_with, Failure, SqlError, SqlResult};
use crate::names::{contains_text, projected};
use crate::plan::{Projection, SortKey};
use crate::projection::first_ungrouped;
use crate::projection_parser::lemma_ungrouped_stays;
use crate::query_modifiers::{sorted_views, Sorted};
use crate::text::{joined, texts};

verus! {

/// Whether a query has a clause that is not supported.
pub open spec fn query_refused(query: QueryAst) -> bool {
    query.ctes is Some || query.extras.fetch || query.extras.locks != 0 || query.extras.for_clause
        || query.extras.settings || query.extras.format_clause || query.extras.pipe_operators != 0
}

/// Refuses a query with a clause that is not supported.
pub fn reject_query_features(query: &QueryAst) -> (result: SqlResult<()>)
    ensures
        if query_refused(*query) {
            fails_unsupported(
                result,
                "WITH/FETCH/locks/settings/format/pipe clauses are not supported"@,
            )
        } else {
            result is Ok
        },
{
    if query.ctes.is_some() || query.extras.fetch || query.extras.locks != 0
        || query.extras.for_clause || query.extras.settings || query.extras.format_clause
        || query.extras.pipe_operators != 0 {
        return Err(
            SqlError::unsupported("WITH/FETCH/locks/settings/format/pipe clauses are not supported"),
        );
    }
    Ok(())
}

/// Whether a `SELECT` has a clause that is not supported.
pub open spec fn select_refused(select: SelectAst) -> bool {
    let extras = select.extras;
    extras.select_modifiers || extras.top || extras.into || extras.prewhere || extras.connect_by != 0
        || extras.cluster_by != 0 || extras.distribute_by != 0 || extras.sort_by != 0
        || extras.named_window != 0 || extras.qualify || extras.value_table_mode
}

/// Refuses a `SELECT` with a clause that is not supported.
pub fn reject_select_features(select: &SelectAst) -> (result: SqlResult<()>)
    ensures
        if select_refused(*select) {
            fails_unsupported(result, "TOP/window/qualify/select modifiers are not supported"@)
        } else {
            result is Ok
        },
{
    let extras = &select.extras;
    if extras.select_modifiers || extras.top || extras.into || extras.prewhere || extras.connect_by
        != 0 || extras.cluster_by != 0 || extras.distribute_by != 0 || extras.sort_by != 0
        || extras.named_window != 0 || extras.qualify || extras.value_table_mode {
        return Err(SqlError::unsupported("TOP/window/qualify/select modifiers are not supported"));
    }
    Ok(())
}

/// Whether a `SELECT` leaves out duplicate rows.
pub fn parse_distinct(select: &SelectAst) -> (result: SqlResult<bool>)
    ensures
        match select.distinct {
            DistinctKind::Unset => result matches Ok(distinct) && !distinct,
            DistinctKind::All => result matches Ok(distinct) && !distinct,
            DistinctKind::Distinct => result matches Ok(distinct) && distinct,
            DistinctKind::On => fails_unsupported(result, "DISTINCT ON is not supported"@),
        },
{
    match select.distinct {
        DistinctKind::Unset | DistinctKind::All => Ok(false),
        DistinctKind::Distinct => Ok(true),
        DistinctKind::On => Err(SqlError::unsupported("DISTINCT ON is not supported")),
    }
}

/// The columns of sort keys.
pub open spec fn sort_columns(sorts: Seq<Sorted>) -> Seq<Seq<char>> {
    sorts.map_values(|sort: Sorted| sort.column)
}

/// Why a `SELECT` that leaves out duplicate rows is refused: it has aggregates, or is
/// ordered by a column that is not selected.
pub open spec fn distinct_failure(
    distinct: bool,
    columns: Option<Seq<Seq<char>>>,
    aggregates: int,
    order: Option<Seq<Sorted>>,
) -> Option<Failure> {
    if !distinct {
        None
    } else if aggregates != 0 {
        Some(Failure::Unsupported("DISTINCT with aggregate SELECT items is not supported"@))
    } else {
        match (columns, order) {
            (Some(columns), Some(sorts)) => match first_ungrouped(sort_columns(sorts), columns) {
                Some(column) => Some(
                    Failure::Unsupported(
                        "DISTINCT ORDER BY column "@ + column + " must appear in SELECT list"@,
                    ),
                ),
                None => None,
            },
            _ => None,
        }
    }
}

/// The order of a sort key.
pub open spec fn sorts_in(order_by: Option<&SortKey>) -> Option<Seq<Sorted>> {
    match order_by {
        Some(key) => Some(sorted_views(key.expressions@)),
        None => None,
    }
}

/// Refuses a `SELECT` that leaves out duplicate rows, with aggregates or ordered by a
/// column that is not selected.
pub fn validate_distinct(
    distinct: bool,
    projection: &Projection,
    aggregates: &[AggregateExpr],
    order_by: Option<&SortKey>,
) -> (result: SqlResult<()>)
    ensures
        match distinct_failure(
            distinct,
            projected(*projection),
            aggregates@.len() as int,
            sorts_in(order_by),
        ) {
            Some(failure) => fails_with(result, failure),
            None => result is Ok,
        },
{
    if !distinct {
        return Ok(());
    }
    if aggregates.len() != 0 {
        return Err(
            SqlError::unsupported("DISTINCT with aggregate SELECT items is not supported"),
        );
    }
    match (projection, order_by) {
        (Projection::Columns(columns), Some(key)) => {
            let ghost sorted = sort_columns(sorted_views(key.expressions@));
            let mut index: usize = 0;
            assert(sorted.take(0) =~= Seq::empty());
            while index < key.expressions.len()
                invariant
                    distinct,
                    aggregates@.len() == 0,
                    *projection == Projection::Columns(*columns),
                    order_by == Some(key),
                    index <= key.expressions@.len(),
                    sorted == sort_columns(sorted_views(key.expressions@)),
                    first_ungrouped(sorted.take(index as int), texts(columns@)) is None,
                decreases key.expressions@.len() - index,
            {
                let column = &key.expressions[index].column;
                proof {
                    assert(sorted.take(index + 1).drop_last() =~= sorted.take(index as int));
                    assert(sorted.take(index + 1).last() == column@);
                }
                if !contains_text(columns.as_slice(), column.as_str()) {
                    proof {
                        lemma_ungrouped_stays(sorted, texts(columns@), index + 1);
                    }
                    let message = joined("DISTINCT ORDER BY column ", column.as_str());
                    return Err(
                        SqlError::UnsupportedSql(
                            joined(message.as_str(), " must appear in SELECT list"),
                        ),
                    );
                }
                index += 1;
            }
            assert(sorted.take(index as int) =~= sorted);
            Ok(())
        },
        _ => Ok(()),
    }
}

} // verus!
