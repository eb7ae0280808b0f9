//! Parsing a statement into a query plan.

use vstd::prelude::*;
use crate::aggregates::{
    aggregate_views, filtered_models, named_models, AggregateExpr, NativeFilteredAggregateSpec,
    ProjectionExpression,
};
use crate::ast::{DistinctKind, QueryAst, QueryBody, SelectAst, SqlExpr, StatementAst};
use crate::error::{fails_with, Failure, SqlError, SqlResult};
use crate::filter_parser::{filter_of, parse_filter, FilterNames, FilterScope};
use crate::filters::{Filter, FilterExpr};
use crate::joins::{
    comma_failure, conjoins, join_failure, join_type_of, owned_conjuncts, parse_join_condition,
    plans_join, residuals, split_comma_join_selection, splits_selection, CommaJoin, JoinPlan,
    JoinType,
};
use crate::names::{projected, slice_texts, Scope, Tables};
use crate::plan::{Projection, SortKey};
use crate::predicates::{
    expr_contains_materializable_subquery, holds_subquery, is_computed,
    predicate_requires_expression_path,
};
use crate::projection::{group_keys, parse_group_by, projection_of, Projected};
use crate::projection_parser::{pair_texts, parse_projection, ParsedProjection};
use crate::query_features::{
    distinct_failure, parse_distinct, query_refused, reject_query_features, reject_select_features,
    select_refused, validate_distinct,
};
use crate::query_modifiers::{
    limit_of, offset_of, order_of, parse_limit, parse_offset, parse_order_by, sorted_views,
    OrderNames, OrderScope, Sorted,
};
use crate::sql_reading::{read_sql, reads_statements, statements_of};
use crate::tables_from::{
    comma_tables, name_of, parse_comma_join_table_refs, parse_from, parse_table_factor,
    single_table, table_of, table_ref_alias_or_name, table_views, Table, TableRef,
};
use crate::text::{string_copy, texts};

verus! {

/// A second table and how it is joined.
#[derive(Debug)]
pub struct SqlJoin {
    pub right: TableRef,
    pub left_alias: String,
    pub right_alias: String,
    pub left_keys: Vec<String>,
    pub right_keys: Vec<String>,
    pub right_filter: Option<FilterExpr>,
    pub join_type: JoinType,
}

/// The plan of a query.
pub struct SqlQuery {
    pub path: String,
    pub join: Option<SqlJoin>,
    pub projection: Projection,
    pub filter: Option<FilterExpr>,
    pub expression_filter: Option<SqlExpr>,
    pub having: Option<FilterExpr>,
    pub order_by: Option<SortKey>,
    pub limit: Option<usize>,
    pub offset: usize,
    pub distinct: bool,
    pub aggregates: Vec<AggregateExpr>,
    pub filtered_aggregates: Vec<NativeFilteredAggregateSpec>,
    pub aggregate_expressions: Vec<ProjectionExpression>,
    pub expressions: Vec<ProjectionExpression>,
    pub group_by: Vec<String>,
    pub aliases: Vec<(String, String)>,
    pub qualified_wildcards: Vec<String>,
}

/// The list, the keys and the treatment of duplicate rows of a `SELECT`.
pub struct Head {
    pub list: Projected,
    pub keys: Seq<Seq<char>>,
    pub distinct: bool,
}

/// The head of a `SELECT`, or why it is refused.
pub open spec fn head_of(select: SelectAst, tables: Tables) -> Result<Head, Failure> {
    match group_keys(select.group_by, tables) {
        Err(failure) => Err(failure),
        Ok(keys) => match projection_of(select.projection@, keys.columns, keys.bindings, tables) {
            Err(failure) => Err(failure),
            Ok(list) => match select.distinct {
                DistinctKind::On => Err(Failure::Unsupported("DISTINCT ON is not supported"@)),
                kind => Ok(
                    Head { list, keys: keys.columns, distinct: kind == DistinctKind::Distinct },
                ),
            },
        },
    }
}

/// The head of a `SELECT`, parsed.
struct ParsedHead {
    list: ParsedProjection,
    keys: Vec<String>,
    distinct: bool,
}

impl ParsedHead {
    /// The head, as a value.
    spec fn model(self) -> Head {
        Head { list: self.list.model(), keys: texts(self.keys@), distinct: self.distinct }
    }
}

/// Parses the head of a `SELECT`.
fn parse_head(select: &SelectAst, scope: Scope<'_>) -> (result: SqlResult<ParsedHead>)
    ensures
        match head_of(*select, scope@) {
            Ok(head) => result matches Ok(parsed) && parsed.model() == head,
            Err(failure) => fails_with(result, failure),
        },
{
    let group_by = match parse_group_by(&select.group_by, scope) {
        Ok(group_by) => group_by,
        Err(error) => {
            return Err(error);
        },
    };
    let (list, keys) = match parse_projection(&select.projection, group_by, scope) {
        Ok(parsed) => parsed,
        Err(error) => {
            return Err(error);
        },
    };
    match parse_distinct(select) {
        Ok(distinct) => Ok(ParsedHead { list, keys, distinct }),
        Err(error) => Err(error),
    }
}

/// The filters, the order and the limits of a query. A filter that has to be computed is
/// `computed`, and is not one that the scan applies.
pub struct Clauses {
    pub filter: Option<Filter>,
    pub computed: bool,
    pub having: Option<Filter>,
    pub order: Option<Seq<Sorted>>,
    pub limit: Option<int>,
    pub offset: int,
}

/// Whether a filter is computed from the rows that a scan gives out.
pub open spec fn computed_after_scan(filter: Option<SqlExpr>) -> bool {
    match filter {
        Some(expr) => is_computed(expr) && !holds_subquery(expr, false),
        None => false,
    }
}

/// A filter that a scan applies, where there is one.
pub open spec fn scan_filter(filter: Option<SqlExpr>, names: FilterScope) -> Result<
    Option<Filter>,
    Failure,
> {
    match filter {
        None => Ok(None),
        Some(expr) => if computed_after_scan(filter) {
            Ok(None)
        } else {
            match filter_of(expr, names) {
                Ok(filter) => Ok(Some(filter)),
                Err(failure) => Err(failure),
            }
        },
    }
}

/// The filter of groups, where there is one.
pub open spec fn group_filter(having: Option<SqlExpr>, names: FilterScope) -> Result<
    Option<Filter>,
    Failure,
> {
    match having {
        None => Ok(None),
        Some(expr) => match filter_of(expr, names) {
            Ok(filter) => Ok(Some(filter)),
            Err(failure) => Err(failure),
        },
    }
}

/// In what the names of the clauses are looked up.
pub struct ClauseScope {
    pub filter: FilterScope,
    pub having: FilterScope,
    pub order: OrderScope,
}

/// The filters, the order and the limits of a query, or why they are refused.
pub open spec fn clauses_of(
    query: QueryAst,
    filter: Option<SqlExpr>,
    having: Option<SqlExpr>,
    head: Head,
    scope: ClauseScope,
) -> Result<Clauses, Failure> {
    match scan_filter(filter, scope.filter) {
        Err(failure) => Err(failure),
        Ok(scanned) => match group_filter(having, scope.having) {
            Err(failure) => Err(failure),
            Ok(grouped) => match order_of(query.order_by, scope.order) {
                Err(failure) => Err(failure),
                Ok(order) => match limit_of(query) {
                    Err(failure) => Err(failure),
                    Ok(limit) => match offset_of(query) {
                        Err(failure) => Err(failure),
                        Ok(offset) => match distinct_failure(
                            head.distinct,
                            head.list.projection,
                            head.list.aggregates.len() as int,
                            order,
                        ) {
                            Some(failure) => Err(failure),
                            None => Ok(
                                Clauses {
                                    filter: scanned,
                                    computed: computed_after_scan(filter),
                                    having: grouped,
                                    order,
                                    limit,
                                    offset,
                                },
                            ),
                        },
                    },
                },
            },
        },
    }
}

/// The filters, the order and the limits of a query, parsed.
struct ParsedClauses {
    filter: Option<FilterExpr>,
    computed: bool,
    having: Option<FilterExpr>,
    order_by: Option<SortKey>,
    limit: Option<usize>,
    offset: usize,
}

/// The value of an optional filter.
pub open spec fn filter_model(filter: Option<FilterExpr>) -> Option<Filter> {
    match filter {
        Some(filter) => Some(filter.model()),
        None => None,
    }
}

/// The value of an optional order.
pub open spec fn order_model(order_by: Option<SortKey>) -> Option<Seq<Sorted>> {
    match order_by {
        Some(key) => Some(sorted_views(key.expressions@)),
        None => None,
    }
}

/// The value of an optional count.
pub open spec fn count_model(count: Option<usize>) -> Option<int> {
    match count {
        Some(count) => Some(count as int),
        None => None,
    }
}

impl ParsedClauses {
    /// The clauses, as a value.
    spec fn model(self) -> Clauses {
        Clauses {
            filter: filter_model(self.filter),
            computed: self.computed,
            having: filter_model(self.having),
            order: order_model(self.order_by),
            limit: count_model(self.limit),
            offset: self.offset as int,
        }
    }
}

/// Parses the filters, the order and the limits of a query.
fn parse_clauses(
    query: &QueryAst,
    filter: Option<&SqlExpr>,
    having: Option<&SqlExpr>,
    head: &ParsedHead,
    filter_names: FilterNames<'_>,
    having_names: FilterNames<'_>,
    order_names: &OrderNames<'_>,
) -> (result: SqlResult<ParsedClauses>)
    ensures
        match clauses_of(
            *query,
            owned(filter),
            owned(having),
            head.model(),
            ClauseScope {
                filter: filter_names@,
                having: having_names@,
                order: order_names@,
            },
        ) {
            Ok(clauses) => result matches Ok(parsed) && parsed.model() == clauses,
            Err(failure) => fails_with(result, failure),
        },
{
    let mut computed = false;
    let scanned = match filter {
        None => None,
        Some(expr) => {
            if predicate_requires_expression_path(expr) && !expr_contains_materializable_subquery(
                expr,
            ) {
                computed = true;
                None
            } else {
                match parse_filter(expr, filter_names) {
                    Ok(filter) => Some(filter),
                    Err(error) => {
                        return Err(error);
                    },
                }
            }
        },
    };
    let grouped = match having {
        None => None,
        Some(expr) => match parse_filter(expr, having_names) {
            Ok(filter) => Some(filter),
            Err(error) => {
                return Err(error);
            },
        },
    };
    let order_by = match parse_order_by(&query.order_by, order_names) {
        Ok(order_by) => order_by,
        Err(error) => {
            return Err(error);
        },
    };
    let limit = match parse_limit(query) {
        Ok(limit) => limit,
        Err(error) => {
            return Err(error);
        },
    };
    let offset: usize = match parse_offset(query) {
        Ok(offset) => offset,
        Err(error) => {
            return Err(error);
        },
    };
    assert(head.model().list.aggregates.len() == head.list.aggregates@.len());
    match validate_distinct(
        head.distinct,
        &head.list.projection,
        head.list.aggregates.as_slice(),
        order_by.as_ref(),
    ) {
        Ok(()) => Ok(
            ParsedClauses { filter: scanned, computed, having: grouped, order_by, limit, offset },
        ),
        Err(error) => Err(error),
    }
}

/// What a reference refers to.
pub open spec fn owned(expr: Option<&SqlExpr>) -> Option<SqlExpr> {
    match expr {
        Some(expr) => Some(*expr),
        None => None,
    }
}

/// Whether a plan has the given head and clauses, and computes the given filter where it
/// has to be computed.
pub open spec fn has_parts(
    planned: SqlQuery,
    head: Head,
    clauses: Clauses,
    filter: Option<SqlExpr>,
) -> bool {
    &&& projected(planned.projection) == head.list.projection
    &&& aggregate_views(planned.aggregates@) == head.list.aggregates
    &&& filtered_models(planned.filtered_aggregates@) == head.list.filtered_aggregates
    &&& named_models(planned.aggregate_expressions@) == head.list.aggregate_expressions
    &&& named_models(planned.expressions@) == head.list.expressions
    &&& pair_texts(planned.aliases@) == head.list.aliases
    &&& texts(planned.qualified_wildcards@) == head.list.qualified_wildcards
    &&& texts(planned.group_by@) == head.keys
    &&& planned.distinct == head.distinct
    &&& filter_model(planned.filter) == clauses.filter
    &&& planned.expression_filter == (if clauses.computed {
        filter
    } else {
        None
    })
    &&& filter_model(planned.having) == clauses.having
    &&& order_model(planned.order_by) == clauses.order
    &&& count_model(planned.limit) == clauses.limit
    &&& planned.offset == clauses.offset
}

/// In what the clauses of a query of one table are looked up.
pub open spec fn table_scope(alias: Option<Seq<char>>, list: Projected) -> ClauseScope {
    ClauseScope {
        filter: FilterScope {
            aliases: Seq::empty(),
            tables: Tables::Table(alias),
            aggregates: false,
        },
        having: FilterScope {
            aliases: list.aliases,
            tables: Tables::Table(None),
            aggregates: true,
        },
        order: OrderScope {
            aliases: list.aliases,
            ordinal_targets: list.ordinal_targets,
            tables: Tables::Table(alias),
        },
    }
}

/// In what the clauses of a query of joined tables are looked up.
pub open spec fn join_scope(tables: Seq<Seq<char>>, list: Projected) -> ClauseScope {
    ClauseScope {
        filter: FilterScope {
            aliases: list.aliases,
            tables: Tables::Join(tables),
            aggregates: false,
        },
        having: FilterScope {
            aliases: list.aliases,
            tables: Tables::Join(tables),
            aggregates: true,
        },
        order: OrderScope {
            aliases: list.aliases,
            ordinal_targets: list.ordinal_targets,
            tables: Tables::Join(tables),
        },
    }
}

/// Whether a result is the plan of a query of one table.
pub open spec fn plans_table(
    query: QueryAst,
    select: SelectAst,
    result: SqlResult<SqlQuery>,
) -> bool {
    match single_table(select) {
        Err(failure) => fails_with(result, failure),
        Ok(table) => match head_of(select, Tables::Table(table.alias)) {
            Err(failure) => fails_with(result, failure),
            Ok(head) => match clauses_of(
                query,
                select.selection,
                select.having,
                head,
                table_scope(table.alias, head.list),
            ) {
                Err(failure) => fails_with(result, failure),
                Ok(clauses) => result matches Ok(planned) && planned.path@ == table.path
                    && planned.join is None && has_parts(planned, head, clauses, select.selection),
            },
        },
    }
}

/// Whether the join of a plan is of the given tables.
pub open spec fn joins_tables(planned: SqlQuery, left: Table, right: Table) -> bool {
    &&& planned.path@ == left.path
    &&& planned.join matches Some(join) && join.right@ == right && join.left_alias@ == name_of(left)
        && join.right_alias@ == name_of(right)
}

/// The failure for more than two tables.
pub open spec fn not_two_tables() -> Failure {
    Failure::Unsupported("comma joins currently support exactly two FROM tables"@)
}

/// Whether a plan is that of two tables that a filter joins. `rest` is what the filter
/// says beside that.
pub open spec fn has_comma_join(
    planned: SqlQuery,
    selection: SqlExpr,
    left: Table,
    right: Table,
    rest: Option<SqlExpr>,
) -> bool {
    &&& joins_tables(planned, left, right)
    &&& planned.join matches Some(join) && join.right_filter is None && join.join_type
        == JoinType::Inner && splits_selection(
        CommaJoin { left_keys: join.left_keys, right_keys: join.right_keys, residual: rest },
        selection,
        name_of(left),
        name_of(right),
    )
}

/// Whether a result is the plan of a query of two tables that a filter joins, with
/// `rest` for what the filter says beside that.
pub open spec fn plans_comma_rest(
    query: QueryAst,
    select: SelectAst,
    left: Table,
    right: Table,
    head: Head,
    rest: Option<SqlExpr>,
    result: SqlResult<SqlQuery>,
) -> bool {
    match clauses_of(
        query,
        rest,
        select.having,
        head,
        join_scope(seq![name_of(left), name_of(right)], head.list),
    ) {
        Err(failure) => fails_with(result, failure),
        Ok(clauses) => result matches Ok(planned) && has_comma_join(
            planned,
            select.selection->0,
            left,
            right,
            rest,
        ) && has_parts(planned, head, clauses, rest),
    }
}

/// Whether a result is the plan of a query of two tables that a filter joins.
pub open spec fn plans_comma(
    query: QueryAst,
    select: SelectAst,
    result: SqlResult<SqlQuery>,
) -> bool {
    match comma_tables(select) {
        Err(failure) => fails_with(result, failure),
        Ok(None) => fails_with(result, not_two_tables()),
        Ok(Some(tables)) => if tables.len() != 2 {
            fails_with(result, not_two_tables())
        } else {
            let left = tables[0];
            let right = tables[1];
            match head_of(select, Tables::Join(seq![name_of(left), name_of(right)])) {
                Err(failure) => fails_with(result, failure),
                Ok(head) => match comma_failure(select.selection, name_of(left), name_of(right)) {
                    Some(failure) => fails_with(result, failure),
                    None => exists|rest: Option<SqlExpr>|
                        {
                            &&& conjoins(
                                rest,
                                residuals(
                                    owned_conjuncts(select.selection->0),
                                    name_of(left),
                                    name_of(right),
                                ),
                            )
                            &&& #[trigger] plans_comma_rest(
                                query,
                                select,
                                left,
                                right,
                                head,
                                rest,
                                result,
                            )
                        },
                },
            }
        },
    }
}

/// The tables whose columns a join puts out.
pub open spec fn output_tables(left: Table, right: Table, join_type: JoinType) -> Seq<Seq<char>> {
    if join_type == JoinType::Semi {
        seq![name_of(left)]
    } else {
        seq![name_of(left), name_of(right)]
    }
}

/// Whether a result is the plan of a query with a `JOIN`.
pub open spec fn plans_explicit(
    query: QueryAst,
    select: SelectAst,
    result: SqlResult<SqlQuery>,
) -> bool {
    if select.from@.len() != 1 {
        fails_with(result, Failure::Unsupported("expected exactly one FROM table"@))
    } else if select.from@[0].joins@.len() != 1 {
        fails_with(result, Failure::Unsupported("expected exactly one JOIN"@))
    } else {
        let join = select.from@[0].joins@[0];
        match table_of(select.from@[0].relation) {
            Err(failure) => fails_with(result, failure),
            Ok(left) => match table_of(join.relation) {
                Err(failure) => fails_with(result, failure),
                Ok(right) => match join_failure(join, name_of(left), name_of(right)) {
                    Some(failure) => fails_with(result, failure),
                    None => {
                        let tables = output_tables(left, right, join_type_of(join));
                        match head_of(select, Tables::Join(tables)) {
                            Err(failure) => fails_with(result, failure),
                            Ok(head) => match clauses_of(
                                query,
                                select.selection,
                                select.having,
                                head,
                                join_scope(tables, head.list),
                            ) {
                                Err(failure) => fails_with(result, failure),
                                Ok(clauses) => result matches Ok(planned) && joins_tables(
                                    planned,
                                    left,
                                    right,
                                ) && plans_join(
                                    JoinPlan {
                                        join_type: planned.join->0.join_type,
                                        left_keys: planned.join->0.left_keys,
                                        right_keys: planned.join->0.right_keys,
                                        right_filter: planned.join->0.right_filter,
                                    },
                                    join,
                                    name_of(left),
                                    name_of(right),
                                ) && has_parts(planned, head, clauses, select.selection),
                            },
                        }
                    },
                },
            },
        }
    }
}

/// Whether a result is the plan of a query, or why it is refused.
pub open spec fn plans_query(query: QueryAst, result: SqlResult<SqlQuery>) -> bool {
    if query_refused(query) {
        fails_with(
            result,
            Failure::Unsupported(
                "WITH/FETCH/locks/settings/format/pipe clauses are not supported"@,
            ),
        )
    } else {
        match query.body {
            QueryBody::Select(select) => if select_refused(*select) {
                fails_with(
                    result,
                    Failure::Unsupported("TOP/window/qualify/select modifiers are not supported"@),
                )
            } else if select.from@.len() > 1 {
                plans_comma(query, *select, result)
            } else if select.from@.len() > 0 && select.from@[0].joins@.len() > 0 {
                plans_explicit(query, *select, result)
            } else {
                plans_table(query, *select, result)
            },
            _ => fails_with(
                result,
                Failure::Unsupported("only simple SELECT queries are supported"@),
            ),
        }
    }
}

/// The filter of a `SELECT`, taken out of its query.
fn take_selection(query: QueryAst) -> (selection: Option<SqlExpr>)
    ensures
        selection == (match query.body {
            QueryBody::Select(select) => select.selection,
            _ => None,
        }),
{
    match query.body {
        QueryBody::Select(select) => {
            let select = *select;
            select.selection
        },
        _ => None,
    }
}

/// Puts a plan together.
fn assemble(
    path: String,
    join: Option<SqlJoin>,
    head: ParsedHead,
    clauses: ParsedClauses,
    filter: Option<SqlExpr>,
) -> (planned: SqlQuery)
    ensures
        planned.path == path,
        planned.join == join,
        has_parts(planned, head.model(), clauses.model(), filter),
{
    SqlQuery {
        path,
        join,
        projection: head.list.projection,
        filter: clauses.filter,
        expression_filter: if clauses.computed {
            filter
        } else {
            None
        },
        having: clauses.having,
        order_by: clauses.order_by,
        limit: clauses.limit,
        offset: clauses.offset,
        distinct: head.distinct,
        aggregates: head.list.aggregates,
        filtered_aggregates: head.list.filtered_aggregates,
        aggregate_expressions: head.list.aggregate_expressions,
        expressions: head.list.expressions,
        group_by: head.keys,
        aliases: head.list.aliases,
        qualified_wildcards: head.list.qualified_wildcards,
    }
}

/// Parses a query of one table.
fn parse_table_select(query: QueryAst) -> (result: SqlResult<SqlQuery>)
    requires
        query.body is Select,
    ensures
        plans_table(query, *query.body->Select_0, result),
{
    let ghost whole = query;
    let (path, head, clauses) = match &query.body {
        QueryBody::Select(select) => {
            let table = match parse_from(select) {
                Ok(table) => table,
                Err(error) => {
                    return Err(error);
                },
            };
            let alias = match &table.alias {
                Some(alias) => Some(alias.as_str()),
                None => None,
            };
            let scope = Scope::Table(alias);
            let head = match parse_head(select, scope) {
                Ok(head) => head,
                Err(error) => {
                    return Err(error);
                },
            };
            let no_aliases: Vec<(String, String)> = Vec::new();
            let filter_names = FilterNames {
                aliases: no_aliases.as_slice(),
                scope,
                aggregates: false,
            };
            let having_names = FilterNames {
                aliases: head.list.aliases.as_slice(),
                scope: Scope::Table(None),
                aggregates: true,
            };
            let order_names = OrderNames {
                aliases: head.list.aliases.as_slice(),
                ordinal_targets: head.list.ordinal_targets.as_slice(),
                scope,
            };
            proof {
                let expected = table_scope(table@.alias, head.model().list);
                assert(filter_names@.aliases =~= Seq::empty());
                assert(filter_names@ == expected.filter);
                assert(having_names@ == expected.having);
                assert(order_names@ == expected.order);
            }
            match parse_clauses(
                &query,
                select.selection.as_ref(),
                select.having.as_ref(),
                &head,
                filter_names,
                having_names,
                &order_names,
            ) {
                Ok(clauses) => (string_copy(&table.path), head, clauses),
                Err(error) => {
                    return Err(error);
                },
            }
        },
        _ => {
            return Err(SqlError::unsupported("only simple SELECT queries are supported"));
        },
    };
    let selection = take_selection(query);
    Ok(assemble(path, None, head, clauses, selection))
}

/// Parses the clauses of a query of joined tables.
fn parse_join_clauses(
    query: &QueryAst,
    filter: Option<&SqlExpr>,
    having: Option<&SqlExpr>,
    head: &ParsedHead,
    tables: &[&str],
) -> (result: SqlResult<ParsedClauses>)
    ensures
        match clauses_of(
            *query,
            owned(filter),
            owned(having),
            head.model(),
            join_scope(slice_texts(tables@), head.model().list),
        ) {
            Ok(clauses) => result matches Ok(parsed) && parsed.model() == clauses,
            Err(failure) => fails_with(result, failure),
        },
{
    let scope = Scope::Join(tables);
    let filter_names = FilterNames {
        aliases: head.list.aliases.as_slice(),
        scope,
        aggregates: false,
    };
    let having_names = FilterNames {
        aliases: head.list.aliases.as_slice(),
        scope,
        aggregates: true,
    };
    let order_names = OrderNames {
        aliases: head.list.aliases.as_slice(),
        ordinal_targets: head.list.ordinal_targets.as_slice(),
        scope,
    };
    parse_clauses(query, filter, having, head, filter_names, having_names, &order_names)
}

/// Parses a query of two tables that a filter joins.
fn parse_comma_join_select(query: QueryAst) -> (result: SqlResult<SqlQuery>)
    requires
        query.body is Select,
    ensures
        plans_comma(query, *query.body->Select_0, result),
{
    let ghost whole = query;
    let ghost select_ast = *query.body->Select_0;
    let mut tables = match &query.body {
        QueryBody::Select(select) => match parse_comma_join_table_refs(select) {
            Ok(Some(tables)) => tables,
            Ok(None) => {
                return Err(
                    SqlError::unsupported("comma joins currently support exactly two FROM tables"),
                );
            },
            Err(error) => {
                return Err(error);
            },
        },
        _ => {
            return Err(SqlError::unsupported("only simple SELECT queries are supported"));
        },
    };
    let ghost views = table_views(tables@);
    assert(views.len() == tables@.len());
    if tables.len() != 2 {
        return Err(
            SqlError::unsupported("comma joins currently support exactly two FROM tables"),
        );
    }
    let right = tables.remove(1);
    let left = tables.remove(0);
    assert(left@ == views[0] && right@ == views[1]);
    let left_alias = table_ref_alias_or_name(&left);
    let right_alias = table_ref_alias_or_name(&right);
    let aliases: [&str; 2] = [left_alias.as_str(), right_alias.as_str()];
    assert(slice_texts(aliases@) =~= seq![name_of(left@), name_of(right@)]);
    let head = match &query.body {
        QueryBody::Select(select) => match parse_head(select, Scope::Join(aliases.as_slice())) {
            Ok(head) => head,
            Err(error) => {
                return Err(error);
            },
        },
        _ => {
            return Err(SqlError::unsupported("only simple SELECT queries are supported"));
        },
    };
    let QueryAst { ctes, body, order_by, limit_clause, extras } = query;
    let select = match body {
        QueryBody::Select(select) => *select,
        _ => {
            return Err(SqlError::unsupported("only simple SELECT queries are supported"));
        },
    };
    let SelectAst { distinct, projection, from, selection, group_by, having, extras: select_extras } =
        select;
    let split = match split_comma_join_selection(
        selection,
        left_alias.as_str(),
        right_alias.as_str(),
    ) {
        Ok(split) => split,
        Err(error) => {
            return Err(error);
        },
    };
    let rest_query = QueryAst { ctes, body: QueryBody::Other, order_by, limit_clause, extras };
    let clauses = match parse_join_clauses(
        &rest_query,
        split.residual.as_ref(),
        having.as_ref(),
        &head,
        aliases.as_slice(),
    ) {
        Ok(clauses) => clauses,
        Err(error) => {
            proof {
                assert(plans_comma_rest(
                    whole,
                    select_ast,
                    left@,
                    right@,
                    head.model(),
                    split.residual,
                    Err::<SqlQuery, SqlError>(error),
                ));
            }
            return Err(error);
        },
    };
    let ghost rest = split.residual;
    let path = string_copy(&left.path);
    let join = SqlJoin {
        right,
        left_alias,
        right_alias,
        left_keys: split.left_keys,
        right_keys: split.right_keys,
        right_filter: None,
        join_type: JoinType::Inner,
    };
    let planned = assemble(path, Some(join), head, clauses, split.residual);
    proof {
        assert(plans_comma_rest(
            whole,
            select_ast,
            left@,
            right@,
            head.model(),
            rest,
            Ok::<SqlQuery, SqlError>(planned),
        ));
    }
    Ok(planned)
}

/// Parses a query with a `JOIN`.
fn parse_join_select(query: QueryAst) -> (result: SqlResult<SqlQuery>)
    requires
        query.body is Select,
    ensures
        plans_explicit(query, *query.body->Select_0, result),
{
    let (path, join, head, clauses) = match &query.body {
        QueryBody::Select(select) => {
            if select.from.len() != 1 {
                return Err(SqlError::unsupported("expected exactly one FROM table"));
            }
            if select.from[0].joins.len() != 1 {
                return Err(SqlError::unsupported("expected exactly one JOIN"));
            }
            let joined = &select.from[0].joins[0];
            let left = match parse_table_factor(&select.from[0].relation) {
                Ok(left) => left,
                Err(error) => {
                    return Err(error);
                },
            };
            let right = match parse_table_factor(&joined.relation) {
                Ok(right) => right,
                Err(error) => {
                    return Err(error);
                },
            };
            let left_alias = table_ref_alias_or_name(&left);
            let right_alias = table_ref_alias_or_name(&right);
            let plan = match parse_join_condition(
                joined,
                left_alias.as_str(),
                right_alias.as_str(),
            ) {
                Ok(plan) => plan,
                Err(error) => {
                    return Err(error);
                },
            };
            let mut aliases: Vec<&str> = vec![left_alias.as_str()];
            if plan.join_type != JoinType::Semi {
                aliases.push(right_alias.as_str());
            }
            assert(slice_texts(aliases@) =~= output_tables(left@, right@, plan.join_type));
            let head = match parse_head(select, Scope::Join(aliases.as_slice())) {
                Ok(head) => head,
                Err(error) => {
                    return Err(error);
                },
            };
            let clauses = match parse_join_clauses(
                &query,
                select.selection.as_ref(),
                select.having.as_ref(),
                &head,
                aliases.as_slice(),
            ) {
                Ok(clauses) => clauses,
                Err(error) => {
                    return Err(error);
                },
            };
            let path = string_copy(&left.path);
            let left_name = string_copy(&left_alias);
            let right_name = string_copy(&right_alias);
            let join = SqlJoin {
                right,
                left_alias: left_name,
                right_alias: right_name,
                left_keys: plan.left_keys,
                right_keys: plan.right_keys,
                right_filter: plan.right_filter,
                join_type: plan.join_type,
            };
            (path, join, head, clauses)
        },
        _ => {
            return Err(SqlError::unsupported("only simple SELECT queries are supported"));
        },
    };
    let selection = take_selection(query);
    Ok(assemble(path, Some(join), head, clauses, selection))
}

/// Parses a query into its plan.
pub fn parse_query(query: QueryAst) -> (result: SqlResult<SqlQuery>)
    ensures
        plans_query(query, result),
{
    match reject_query_features(&query) {
        Ok(()) => {},
        Err(error) => {
            return Err(error);
        },
    }
    let (comma, explicit) = match &query.body {
        QueryBody::Select(select) => {
            match reject_select_features(select) {
                Ok(()) => {},
                Err(error) => {
                    return Err(error);
                },
            }
            (
                select.from.len() > 1,
                select.from.len() > 0 && select.from[0].joins.len() > 0,
            )
        },
        _ => {
            return Err(SqlError::unsupported("only simple SELECT queries are supported"));
        },
    };
    if comma {
        parse_comma_join_select(query)
    } else if explicit {
        parse_join_select(query)
    } else {
        parse_table_select(query)
    }
}

/// Whether a result is the plan of the one query among statements.
pub open spec fn plans_statements(asts: Seq<StatementAst>, result: SqlResult<SqlQuery>) -> bool {
    if asts.len() != 1 {
        fails_with(result, Failure::Unsupported("expected exactly one statement"@))
    } else {
        match asts[0] {
            StatementAst::Query(query) => plans_query(*query, result),
            StatementAst::Other => fails_with(
                result,
                Failure::Unsupported("only SELECT queries are supported"@),
            ),
        }
    }
}

/// Parses the one query among statements into its plan.
pub fn parse_statements_query(statements: Vec<StatementAst>) -> (result: SqlResult<SqlQuery>)
    ensures
        plans_statements(statements@, result),
{
    let mut statements = statements;
    if statements.len() != 1 {
        return Err(SqlError::unsupported("expected exactly one statement"));
    }
    match statements.remove(0) {
        StatementAst::Query(query) => parse_query(*query),
        StatementAst::Other => Err(SqlError::unsupported("only SELECT queries are supported")),
    }
}

/// Parses a text that is one `SELECT` query into its plan.
pub fn parse_sql(input: &str) -> (result: SqlResult<SqlQuery>)
    ensures
        match statements_of(input@) {
            Err(message) => fails_with(result, Failure::Unsupported(message)),
            Ok(statements) => exists|asts: Seq<StatementAst>|
                {
                    &&& #[trigger] reads_statements(asts, statements, input@.len())
                    &&& plans_statements(asts, result)
                },
        },
{
    match read_sql(input) {
        Ok(asts) => {
            let ghost read = asts@;
            let result = parse_statements_query(asts);
            proof {
                assert(statements_of(input@) is Ok);
                assert(reads_statements(read, statements_of(input@)->Ok_0, input@.len()));
            }
            result
        },
        Err(error) => Err(error),
    }
}

} // verus!
