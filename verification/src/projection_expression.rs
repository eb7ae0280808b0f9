//! Queries of one table whose list or filter is computed.

use vstd::prelude::*;
use crate::aggregates::ProjectionExpression;
use crate::ast::{QueryAst, QueryBody, SelectAst, SqlExpr};
use crate::conjuncts::conjuncts_of;
use crate::error::{fails_with, Failure, SqlError, SqlResult};
use crate::filter_parser::{filter_of, parse_filter, FilterNames, FilterScope};
use crate::filters::{Filter, FilterExpr};
use crate::names::{
    add_projection_columns, alias_view, projected, projected_with, with_columns, Scope, Tables,
};
use crate::plan::{Projection, SortKey};
use crate::predicate_pushdown::{
    ahead_of, fails_conjunct, plans_conjunct, split_expression_filters, ConjunctPlan,
};
use crate::predicates::{
    filter_columns, is_computed, predicate_expression_columns, predicate_requires_expression_path,
};
use crate::projection::{group_keys, parse_group_by, projection_of};
use crate::projection_parser::{
    pair_texts, parse_projection, projection_requires_expression_path, ParsedProjection,
};
use crate::query_features::{
    parse_distinct, query_refused, reject_query_features, reject_select_features, select_refused,
    sort_columns, sorts_in,
};
use crate::query_modifiers::{
    limit_of, monotonic_stream_limit_column, order_of, parse_limit, parse_order_by, OrderNames,
    OrderScope, Sorted,
};
use crate::query_parser::{count_model, order_model};
use crate::tables_from::{parse_from, single_table, TableRef};
use crate::text::{string_copy, texts};

verus! {

/// When a limit is taken while rows come in.
#[derive(Clone, Copy)]
pub struct StreamLimitFlags {
    /// Rows are limited while they come in.
    pub stream_limit: bool,
    /// That is also done by a column that ascends from row group to row group.
    pub monotonic: bool,
    /// The column must ascend from row to row too.
    pub exact_monotonic: bool,
    /// It is done wherever a column ascends from row to row.
    pub auto_exact: bool,
}

/// What has to be known of a column before rows are scanned.
#[derive(Debug)]
pub enum MonotonicQuestion {
    /// Nothing.
    Unasked,
    /// Whether it ascends from row group to row group.
    RowGroups(String),
    /// Whether it ascends from row group to row group and from row to row.
    RowGroupsAndRows(String),
}

/// The column by which a limit can be taken while rows come in.
pub open spec fn stream_column(order_by: Option<&SortKey>) -> Option<Seq<char>> {
    match order_by {
        Some(key) => if key.expressions@.len() == 1 && !key.expressions@[0].descending
            && !key.expressions@[0].nulls_first {
            Some(key.expressions@[0].column@)
        } else {
            None
        },
        None => None,
    }
}

/// Whether a limit is taken by a column without being asked for.
pub open spec fn takes_auto(order_by: Option<&SortKey>, flags: StreamLimitFlags) -> bool {
    flags.auto_exact && stream_column(order_by) is Some
}

/// What has to be known before rows are scanned: of which column, and whether row by row.
pub open spec fn question_of(
    filtered: bool,
    limit: Option<usize>,
    order_by: Option<&SortKey>,
    flags: StreamLimitFlags,
) -> Option<(Seq<char>, bool)> {
    if !filtered || limit is None || !(flags.stream_limit || takes_auto(order_by, flags)) {
        None
    } else if !takes_auto(order_by, flags) && !flags.monotonic {
        None
    } else {
        match stream_column(order_by) {
            Some(column) => Some((column, flags.exact_monotonic || takes_auto(order_by, flags))),
            None => None,
        }
    }
}

/// What has to be known of a column before rows are scanned. `filtered` tells whether a
/// computed filter is applied to them.
pub fn monotonic_question(
    filtered: bool,
    limit: Option<usize>,
    order_by: Option<&SortKey>,
    flags: StreamLimitFlags,
) -> (question: MonotonicQuestion)
    ensures
        match question_of(filtered, limit, order_by, flags) {
            None => question is Unasked,
            Some((column, rows)) => if rows {
                question matches MonotonicQuestion::RowGroupsAndRows(asked) && asked@ == column
            } else {
                question matches MonotonicQuestion::RowGroups(asked) && asked@ == column
            },
        },
{
    if !filtered || limit.is_none() {
        return MonotonicQuestion::Unasked;
    }
    let column = monotonic_stream_limit_column(order_by);
    let auto = flags.auto_exact && column.is_some();
    if !(flags.stream_limit || auto) || !(auto || flags.monotonic) {
        return MonotonicQuestion::Unasked;
    }
    match column {
        Some(column) => {
            if flags.exact_monotonic || auto {
                MonotonicQuestion::RowGroupsAndRows(column)
            } else {
                MonotonicQuestion::RowGroups(column)
            }
        },
        None => MonotonicQuestion::Unasked,
    }
}

/// How rows are scanned, and what is done to them afterwards.
#[derive(Clone, Copy, Debug, PartialEq, Eq, Structural)]
pub struct ScanChoice {
    /// The scan gives rows in the order asked for.
    pub ordered: bool,
    /// The scan gives no more rows than that.
    pub scan_limit: Option<usize>,
    /// Rows are filtered and limited while they come in.
    pub stream_limited: bool,
    /// Rows are filtered, ordered and limited after the scan.
    pub filter_after: bool,
}

/// How rows are scanned, given what is known of the column asked about.
pub open spec fn choice_of(
    filtered: bool,
    limit: Option<usize>,
    order_by: Option<&SortKey>,
    flags: StreamLimitFlags,
    monotonic: bool,
) -> ScanChoice {
    let ascends = question_of(filtered, limit, order_by, flags) is Some && monotonic;
    let auto = takes_auto(order_by, flags);
    if !filtered {
        ScanChoice {
            ordered: order_by is Some,
            scan_limit: limit,
            stream_limited: false,
            filter_after: false,
        }
    } else if limit is Some && (flags.stream_limit || auto) {
        ScanChoice {
            ordered: !ascends && !auto && order_by is Some,
            scan_limit: None,
            stream_limited: ascends || !auto,
            filter_after: !(ascends || !auto),
        }
    } else {
        ScanChoice { ordered: false, scan_limit: None, stream_limited: false, filter_after: true }
    }
}

/// How rows are scanned. `monotonic` is the answer to what had to be known.
pub fn choose_scan(
    filtered: bool,
    limit: Option<usize>,
    order_by: Option<&SortKey>,
    flags: StreamLimitFlags,
    monotonic: bool,
) -> (choice: ScanChoice)
    ensures
        choice == choice_of(filtered, limit, order_by, flags, monotonic),
{
    if !filtered {
        return ScanChoice {
            ordered: order_by.is_some(),
            scan_limit: limit,
            stream_limited: false,
            filter_after: false,
        };
    }
    let asked = match monotonic_question(filtered, limit, order_by, flags) {
        MonotonicQuestion::Unasked => false,
        _ => true,
    };
    let column = monotonic_stream_limit_column(order_by);
    let auto = flags.auto_exact && column.is_some();
    let ascends = asked && monotonic;
    if limit.is_some() && (flags.stream_limit || auto) {
        ScanChoice {
            ordered: !ascends && !auto && order_by.is_some(),
            scan_limit: None,
            stream_limited: ascends || !auto,
            filter_after: !(ascends || !auto),
        }
    } else {
        ScanChoice { ordered: false, scan_limit: None, stream_limited: false, filter_after: true }
    }
}

/// A limit never cuts rows off before a filter has seen them, and every filter is applied
/// once.
pub proof fn law_filter_before_limit(
    filtered: bool,
    limit: Option<usize>,
    order_by: Option<&SortKey>,
    flags: StreamLimitFlags,
    monotonic: bool,
)
    ensures
        ({
            let choice = choice_of(filtered, limit, order_by, flags, monotonic);
            &&& filtered ==> choice.scan_limit is None
            &&& filtered ==> (choice.stream_limited != choice.filter_after)
            &&& !filtered ==> !choice.stream_limited && !choice.filter_after
        }),
{
}

/// Rows that are limited while they come in come in the order asked for: the scan gives
/// them so, or the column is known to ascend, or no order is asked for.
pub proof fn law_streamed_rows_are_ordered(
    limit: Option<usize>,
    order_by: Option<&SortKey>,
    flags: StreamLimitFlags,
    monotonic: bool,
)
    ensures
        ({
            let choice = choice_of(true, limit, order_by, flags, monotonic);
            choice.stream_limited ==> choice.ordered || order_by is None || (question_of(
                true,
                limit,
                order_by,
                flags,
            ) is Some && monotonic)
        }),
{
}

/// Whether a query that is computed is answered at all, and how.
#[derive(Clone, Copy, Debug, PartialEq, Eq, Structural)]
pub enum ComputedRoute {
    /// Nothing of it is computed, or it is left to others.
    NotComputed,
    /// It leaves out duplicate rows, which is not supported.
    DistinctRefused,
    /// Rows are filtered and then aggregated.
    Aggregate,
    /// Rows are filtered and put out.
    Rows,
}

/// How a query is answered whose list or filter is computed.
pub open spec fn route_of(
    list_computed: bool,
    filter_computed: bool,
    distinct: bool,
    aggregated: bool,
    having: bool,
    filtered: bool,
) -> ComputedRoute {
    if !list_computed && !filter_computed {
        ComputedRoute::NotComputed
    } else if distinct {
        ComputedRoute::DistinctRefused
    } else if aggregated || having {
        if list_computed || having || !filtered {
            ComputedRoute::NotComputed
        } else {
            ComputedRoute::Aggregate
        }
    } else {
        ComputedRoute::Rows
    }
}

/// How a query is answered whose list or filter is computed. `aggregated` tells whether
/// it has aggregates or groups, `filtered` whether it has a filter.
pub fn choose_route(
    list_computed: bool,
    filter_computed: bool,
    distinct: bool,
    aggregated: bool,
    having: bool,
    filtered: bool,
) -> (route: ComputedRoute)
    ensures
        route == route_of(list_computed, filter_computed, distinct, aggregated, having, filtered),
{
    if !list_computed && !filter_computed {
        return ComputedRoute::NotComputed;
    }
    if distinct {
        return ComputedRoute::DistinctRefused;
    }
    if aggregated || having {
        if list_computed || having || !filtered {
            return ComputedRoute::NotComputed;
        }
        return ComputedRoute::Aggregate;
    }
    ComputedRoute::Rows
}

/// How the filter of a query is applied.
pub enum FilterRoute<'a> {
    /// There is none.
    Unfiltered,
    /// The scan applies it.
    Scanned(FilterExpr),
    /// Each conjunct is applied in its way.
    Split(Vec<ConjunctPlan<'a>>),
}

/// Whether a result is how the filter of a query is applied.
pub open spec fn routes_filter(
    selection: Option<&SqlExpr>,
    names: FilterScope,
    result: SqlResult<FilterRoute>,
) -> bool {
    match selection {
        None => result matches Ok(FilterRoute::Unfiltered),
        Some(expr) => if is_computed(*expr) {
            match result {
                Ok(FilterRoute::Split(plans)) => {
                    &&& plans@.len() == conjuncts_of(expr).len()
                    &&& forall|index: int|
                        0 <= index < plans@.len() ==> plans_conjunct(
                            #[trigger] plans@[index],
                            conjuncts_of(expr)[index],
                            names.tables,
                        )
                },
                Ok(_) => false,
                Err(error) => exists|index: int|
                    {
                        &&& 0 <= index < conjuncts_of(expr).len()
                        &&& fails_conjunct(#[trigger] conjuncts_of(expr)[index], names.tables)
                        &&& ahead_of(*conjuncts_of(expr)[index], names.tables) == Err::<
                            Option<Filter>,
                            Failure,
                        >(error.failure())
                        &&& forall|earlier: int|
                            0 <= earlier < index ==> !fails_conjunct(
                                #[trigger] conjuncts_of(expr)[earlier],
                                names.tables,
                            )
                    },
            }
        } else {
            match filter_of(*expr, names) {
                Ok(filter) => result matches Ok(FilterRoute::Scanned(found)) && found.model()
                    == filter,
                Err(failure) => fails_with(result, failure),
            }
        },
    }
}

/// How the filter of a query is applied.
pub fn route_filter<'a>(
    selection: Option<&'a SqlExpr>,
    names: FilterNames<'_>,
) -> (result: SqlResult<
    FilterRoute<'a>,
>)
    ensures
        routes_filter(selection, names@, result),
{
    match selection {
        None => Ok(FilterRoute::Unfiltered),
        Some(expr) => {
            if predicate_requires_expression_path(expr) {
                match split_expression_filters(expr, names.scope) {
                    Ok(plans) => Ok(FilterRoute::Split(plans)),
                    Err(error) => Err(error),
                }
            } else {
                match parse_filter(expr, names) {
                    Ok(filter) => Ok(FilterRoute::Scanned(filter)),
                    Err(error) => Err(error),
                }
            }
        },
    }
}

/// The columns of a list with those of computed filters.
pub open spec fn filters_columns(
    projection: Option<Seq<Seq<char>>>,
    filters: Seq<&SqlExpr>,
    table_alias: Option<Seq<char>>,
) -> Result<Option<Seq<Seq<char>>>, Failure>
    decreases filters.len(),
{
    if filters.len() == 0 {
        Ok(projection)
    } else {
        match filters_columns(projection, filters.drop_last(), table_alias) {
            Err(failure) => Err(failure),
            Ok(columns) => match filter_columns(*filters.last(), table_alias) {
                Err(failure) => Err(failure),
                Ok(read) => Ok(projected_with(columns, with_columns(Seq::empty(), read))),
            },
        }
    }
}

proof fn lemma_filters_fail(
    projection: Option<Seq<Seq<char>>>,
    filters: Seq<&SqlExpr>,
    table_alias: Option<Seq<char>>,
    count: int,
)
    requires
        0 <= count <= filters.len(),
        filters_columns(projection, filters.take(count), table_alias) is Err,
    ensures
        filters_columns(projection, filters, table_alias) == filters_columns(
            projection,
            filters.take(count),
            table_alias,
        ),
    decreases filters.len() - count,
{
    if count < filters.len() {
        assert(filters.take(count + 1).drop_last() =~= filters.take(count));
        lemma_filters_fail(projection, filters, table_alias, count + 1);
    } else {
        assert(filters.take(count) =~= filters);
    }
}

/// A copy of the columns that a scan reads.
fn copy_projection(projection: &Projection) -> (copied: Projection)
    ensures
        projected(copied) == projected(*projection),
{
    match projection {
        Projection::All => Projection::All,
        Projection::Columns(columns) => {
            let mut copies: Vec<String> = Vec::new();
            let mut index: usize = 0;
            assert(texts(copies@) =~= texts(columns@).take(0));
            while index < columns.len()
                invariant
                    index <= columns@.len(),
                    texts(copies@) == texts(columns@).take(index as int),
                decreases columns@.len() - index,
            {
                let ghost before = copies@;
                let column = string_copy(&columns[index]);
                copies.push(column);
                proof {
                    assert(texts(copies@) =~= texts(before).push(column@));
                    assert(texts(columns@).take(index + 1) =~= texts(columns@).take(
                        index as int,
                    ).push(column@));
                }
                index += 1;
            }
            assert(texts(columns@).take(index as int) =~= texts(columns@));
            Projection::Columns(copies)
        },
    }
}

/// The columns of a list with those of computed filters.
fn add_filter_columns(
    projection: &Projection,
    filters: &[&SqlExpr],
    table_alias: Option<&str>,
) -> (result: SqlResult<Projection>)
    ensures
        match filters_columns(projected(*projection), filters@, alias_view(table_alias)) {
            Ok(columns) => result matches Ok(found) && projected(found) == columns,
            Err(failure) => fails_with(result, failure),
        },
{
    let ghost listed = projected(*projection);
    let ghost alias = alias_view(table_alias);
    let mut scanned = copy_projection(projection);
    let mut index: usize = 0;
    assert(filters@.take(0) =~= Seq::empty());
    while index < filters.len()
        invariant
            index <= filters@.len(),
            listed == projected(*projection),
            alias == alias_view(table_alias),
            filters_columns(listed, filters@.take(index as int), alias) == Ok::<
                Option<Seq<Seq<char>>>,
                Failure,
            >(projected(scanned)),
        decreases filters@.len() - index,
    {
        proof {
            assert(filters@.take(index + 1).drop_last() =~= filters@.take(index as int));
            assert(filters@.take(index + 1).last() == filters@[index as int]);
        }
        match predicate_expression_columns(filters[index], table_alias) {
            Ok(columns) => {
                scanned = add_projection_columns(scanned, columns);
            },
            Err(error) => {
                proof {
                    lemma_filters_fail(listed, filters@, alias, index + 1);
                }
                return Err(error);
            },
        }
        index += 1;
    }
    assert(filters@.take(index as int) =~= filters@);
    Ok(scanned)
}

/// The columns that rows are ordered by.
pub open spec fn ordered_columns(order: Option<Seq<Sorted>>) -> Seq<Seq<char>> {
    match order {
        Some(sorts) => sort_columns(sorts),
        None => Seq::empty(),
    }
}

/// The columns that rows are ordered by.
fn order_columns(order_by: Option<&SortKey>) -> (columns: Vec<String>)
    ensures
        texts(columns@) == ordered_columns(sorts_in(order_by)),
{
    let mut columns: Vec<String> = Vec::new();
    let ghost keys = ordered_columns(sorts_in(order_by));
    match order_by {
        Some(key) => {
            let mut place: usize = 0;
            assert(texts(columns@) =~= keys.take(0));
            while place < key.expressions.len()
                invariant
                    place <= key.expressions@.len(),
                    order_by == Some(key),
                    keys == ordered_columns(sorts_in(order_by)),
                    texts(columns@) == keys.take(place as int),
                decreases key.expressions@.len() - place,
            {
                let ghost before = columns@;
                let column = string_copy(&key.expressions[place].column);
                columns.push(column);
                proof {
                    assert(keys[place as int] == column@);
                    assert(texts(columns@) =~= texts(before).push(column@));
                    assert(keys.take(place + 1) =~= keys.take(place as int).push(column@));
                }
                place += 1;
            }
            assert(keys.take(place as int) =~= keys);
        },
        None => {
            assert(texts(columns@) =~= keys);
        },
    }
    columns
}

/// A query of one table, up to what its filter is known to come to.
pub struct ComputedQuery<'a> {
    pub table: TableRef,
    pub group_by: Vec<String>,
    pub list: ParsedProjection,
    pub filter: FilterRoute<'a>,
}

impl<'a> ComputedQuery<'a> {
    /// What the order and the columns of a scan depend on.
    pub open spec fn facts(self) -> ComputedFacts {
        ComputedFacts {
            alias: self.table@.alias,
            aliases: pair_texts(self.list.aliases@),
            ordinal_targets: texts(self.list.ordinal_targets@),
            projection: projected(self.list.projection),
        }
    }
}

/// Whether a list has an expression that is no column.
pub open spec fn computes(expressions: Seq<ProjectionExpression>) -> bool {
    exists|index: int|
        0 <= index < expressions.len() && !((#[trigger] expressions[index]).expr is Column)
}

/// How the filter of a query came out.
pub open spec fn filter_outcome<'a>(result: SqlResult<Option<ComputedQuery<'a>>>) -> SqlResult<
    FilterRoute<'a>,
> {
    match result {
        Ok(Some(computed)) => Ok(computed.filter),
        Ok(None) => Ok(FilterRoute::Unfiltered),
        Err(error) => Err(error),
    }
}

/// Whether a query reads one table that is not joined.
pub open spec fn reads_one_table(select: SelectAst) -> bool {
    select.from@.len() == 1 && select.from@[0].joins@.len() == 0
}

/// Whether a result is the reading of a `SELECT` of one table.
pub open spec fn reads_computed_select(
    select: SelectAst,
    result: SqlResult<Option<ComputedQuery>>,
) -> bool {
    match single_table(select) {
        Err(failure) => fails_with(result, failure),
        Ok(table) => match group_keys(select.group_by, Tables::Table(table.alias)) {
            Err(failure) => fails_with(result, failure),
            Ok(keys) => match projection_of(
                select.projection@,
                keys.columns,
                keys.bindings,
                Tables::Table(table.alias),
            ) {
                Err(failure) => fails_with(result, failure),
                Ok(list) => {
                    &&& !(result matches Ok(None))
                    &&& result matches Ok(Some(computed)) ==> {
                        &&& computed.table@ == table
                        &&& texts(computed.group_by@) == keys.columns
                        &&& computed.list.model() == list
                    }
                    &&& routes_filter(
                        optional_ref(&select.selection),
                        FilterScope {
                            aliases: list.aliases,
                            tables: Tables::Table(table.alias),
                            aggregates: false,
                        },
                        filter_outcome(result),
                    )
                },
            },
        },
    }
}

/// A reference to what is there.
pub open spec fn optional_ref<T>(value: &Option<T>) -> Option<&T> {
    match value {
        Some(value) => Some(value),
        None => None,
    }
}

/// Whether a result is the reading of a query of one table, none where the query is of
/// another form.
pub open spec fn reads_computed(query: QueryAst, result: SqlResult<Option<ComputedQuery>>) -> bool {
    match query.body {
        QueryBody::Select(select) => if query_refused(query) {
            fails_with(
                result,
                Failure::Unsupported(
                    "WITH/FETCH/locks/settings/format/pipe clauses are not supported"@,
                ),
            )
        } else if select_refused(*select) {
            fails_with(
                result,
                Failure::Unsupported("TOP/window/qualify/select modifiers are not supported"@),
            )
        } else if !reads_one_table(*select) {
            result matches Ok(None)
        } else {
            reads_computed_select(*select, result)
        },
        _ => result matches Ok(None),
    }
}

/// Reads a query of one table, up to what its filter is known to come to.
pub fn read_computed_query(query: &QueryAst) -> (result: SqlResult<Option<ComputedQuery<'_>>>)
    ensures
        reads_computed(*query, result),
{
    let select = match &query.body {
        QueryBody::Select(select) => select,
        _ => {
            return Ok(None);
        },
    };
    match reject_query_features(query) {
        Ok(()) => {},
        Err(error) => {
            return Err(error);
        },
    }
    match reject_select_features(select) {
        Ok(()) => {},
        Err(error) => {
            return Err(error);
        },
    }
    if select.from.len() != 1 || select.from[0].joins.len() != 0 {
        return Ok(None);
    }
    let table = match parse_from(select) {
        Ok(table) => table,
        Err(error) => {
            return Err(error);
        },
    };
    let alias = match &table.alias {
        Some(alias) => Some(alias.as_str()),
        None => None,
    };
    let scope = Scope::Table(alias);
    assert(scope@ == Tables::Table(table@.alias));
    let group_by = match parse_group_by(&select.group_by, scope) {
        Ok(group_by) => group_by,
        Err(error) => {
            return Err(error);
        },
    };
    let (list, group_by) = match parse_projection(&select.projection, group_by, scope) {
        Ok(parsed) => parsed,
        Err(error) => {
            return Err(error);
        },
    };
    let names = FilterNames { aliases: list.aliases.as_slice(), scope, aggregates: false };
    let ghost list_model = list.model();
    assert(names@ == FilterScope {
        aliases: list_model.aliases,
        tables: Tables::Table(table@.alias),
        aggregates: false,
    });
    match route_filter(select.selection.as_ref(), names) {
        Ok(filter) => Ok(Some(ComputedQuery { table, group_by, list, filter })),
        Err(error) => Err(error),
    }
}

/// Whether a late projection is tried: of a computed list, where no filter is computed and
/// the scan applies one.
pub fn tries_late(list_computed: bool, filtered: bool, scanned: bool) -> (tries: bool)
    ensures
        tries == (list_computed && !filtered && scanned),
{
    list_computed && !filtered && scanned
}

/// How the rows of a query whose list or filter is computed are got.
pub struct ComputedScan {
    pub projection: Projection,
    pub order_by: Option<SortKey>,
    pub limit: Option<usize>,
    /// Rows are aggregated.
    pub aggregated: bool,
}

/// What is known of a query of one table once its subqueries have run.
pub struct ComputedFacts {
    pub alias: Option<Seq<char>>,
    pub aliases: Seq<(Seq<char>, Seq<char>)>,
    pub ordinal_targets: Seq<Seq<char>>,
    pub projection: Option<Seq<Seq<char>>>,
}

/// Whether a result is how rows are got, given the columns that a scan reads before those
/// that rows are ordered by. Of rows that are aggregated the columns are told first.
pub open spec fn gives_scan(
    query: QueryAst,
    facts: ComputedFacts,
    columns: Result<Option<Seq<Seq<char>>>, Failure>,
    aggregated: bool,
    result: SqlResult<Option<ComputedScan>>,
) -> bool {
    if aggregated && columns is Err {
        fails_with(result, columns->Err_0)
    } else {
        gives_ordered_scan(query, facts, columns, aggregated, result)
    }
}

/// Whether a result is how rows are got, where an order or a limit that cannot be told fails
/// before columns that cannot.
pub open spec fn gives_ordered_scan(
    query: QueryAst,
    facts: ComputedFacts,
    columns: Result<Option<Seq<Seq<char>>>, Failure>,
    aggregated: bool,
    result: SqlResult<Option<ComputedScan>>,
) -> bool {
    match order_of(
        query.order_by,
        OrderScope {
            aliases: facts.aliases,
            ordinal_targets: facts.ordinal_targets,
            tables: Tables::Table(facts.alias),
        },
    ) {
        Err(failure) => fails_with(result, failure),
        Ok(order) => match limit_of(query) {
            Err(failure) => fails_with(result, failure),
            Ok(limit) => match columns {
                Err(failure) => fails_with(result, failure),
                Ok(columns) => result matches Ok(Some(scan)) && {
                    &&& scan.aggregated == aggregated
                    &&& order_model(scan.order_by) == order
                    &&& count_model(scan.limit) == limit
                    &&& projected(scan.projection) == (if aggregated {
                        columns
                    } else {
                        projected_with(columns, ordered_columns(order))
                    })
                },
            },
        },
    }
}

/// Whether a result is how the rows of a query are got whose list is computed or that has
/// computed filters, none where the query is left to others.
pub open spec fn plans_scan(
    query: QueryAst,
    select: SelectAst,
    computed: ComputedQuery,
    filters: Seq<&SqlExpr>,
    result: SqlResult<Option<ComputedScan>>,
) -> bool {
    let list = computed.list;
    let facts = computed.facts();
    if !computes(list.expressions@) && filters.len() == 0 {
        result matches Ok(None)
    } else if select.distinct is On {
        fails_with(result, Failure::Unsupported("DISTINCT ON is not supported"@))
    } else {
        match route_of(
            computes(list.expressions@),
            filters.len() > 0,
            select.distinct is Distinct,
            list.aggregates@.len() > 0 || computed.group_by@.len() > 0,
            select.having is Some,
            select.selection is Some,
        ) {
            ComputedRoute::NotComputed => result matches Ok(None),
            ComputedRoute::DistinctRefused => fails_with(
                result,
                Failure::Unsupported(
                    "projection expressions currently support only non-aggregate SELECT queries"@,
                ),
            ),
            ComputedRoute::Aggregate => gives_scan(
                query,
                facts,
                filters_columns(facts.projection, seq![&select.selection->0], facts.alias),
                true,
                result,
            ),
            ComputedRoute::Rows => gives_scan(
                query,
                facts,
                filters_columns(facts.projection, filters, facts.alias),
                false,
                result,
            ),
        }
    }
}

/// Reads the order and the limit of a query, and adds what rows are ordered by to the
/// columns that a scan reads.
fn read_scan(
    query: &QueryAst,
    computed: &ComputedQuery<'_>,
    filters: &[&SqlExpr],
    aggregated: bool,
) -> (result: SqlResult<Option<ComputedScan>>)
    ensures
        gives_scan(
            *query,
            computed.facts(),
            filters_columns(computed.facts().projection, filters@, computed.facts().alias),
            aggregated,
            result,
        ),
{
    let alias = match &computed.table.alias {
        Some(alias) => Some(alias.as_str()),
        None => None,
    };
    assert(alias_view(alias) == computed.table@.alias);
    let names = OrderNames {
        aliases: computed.list.aliases.as_slice(),
        ordinal_targets: computed.list.ordinal_targets.as_slice(),
        scope: Scope::Table(alias),
    };
    let added = match add_filter_columns(&computed.list.projection, filters, alias) {
        Err(error) => {
            if aggregated {
                return Err(error);
            }
            Err(error)
        },
        Ok(columns) => Ok(columns),
    };
    let order_by = match parse_order_by(&query.order_by, &names) {
        Ok(order_by) => order_by,
        Err(error) => {
            return Err(error);
        },
    };
    let limit = match parse_limit(query) {
        Ok(limit) => limit,
        Err(error) => {
            return Err(error);
        },
    };
    let columns = match added {
        Ok(columns) => columns,
        Err(error) => {
            return Err(error);
        },
    };
    let projection = if aggregated {
        columns
    } else {
        add_projection_columns(columns, order_columns(order_by.as_ref()))
    };
    Ok(Some(ComputedScan { projection, order_by, limit, aggregated }))
}

/// How the rows of a query are got whose list is computed or that has computed filters.
/// `filters` are the conjuncts that are computed, once subqueries have run.
pub fn plan_computed_scan(
    query: &QueryAst,
    select: &SelectAst,
    computed: &ComputedQuery<'_>,
    filters: &[&SqlExpr],
) -> (result: SqlResult<Option<ComputedScan>>)
    ensures
        plans_scan(*query, *select, *computed, filters@, result),
{
    let list_computed = projection_requires_expression_path(computed.list.expressions.as_slice());
    if !list_computed && filters.len() == 0 {
        return Ok(None);
    }
    let distinct = match parse_distinct(select) {
        Ok(distinct) => distinct,
        Err(error) => {
            return Err(error);
        },
    };
    let route = choose_route(
        list_computed,
        filters.len() > 0,
        distinct,
        computed.list.aggregates.len() > 0 || computed.group_by.len() > 0,
        select.having.is_some(),
        select.selection.is_some(),
    );
    match route {
        ComputedRoute::NotComputed => Ok(None),
        ComputedRoute::DistinctRefused => Err(
            SqlError::unsupported(
                "projection expressions currently support only non-aggregate SELECT queries",
            ),
        ),
        ComputedRoute::Aggregate => match &select.selection {
            Some(selection) => {
                let whole: [&SqlExpr; 1] = [selection];
                assert(whole@ =~= seq![&select.selection->0]);
                read_scan(query, computed, whole.as_slice(), true)
            },
            None => Ok(None),
        },
        ComputedRoute::Rows => read_scan(query, computed, filters, false),
    }
}

} // verus!
