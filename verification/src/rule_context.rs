//! Which rules a statement is a candidate for, and in which order they are tried.

use vstd::prelude::*;
use crate::aggregates::{aggregate_function, read_aggregate_function};
use crate::ast::{
    FromTable, JoinedTable, QueryAst, QueryBody, SelectAst, SelectEntry, SelectEntryKind, SqlExpr,
    SqlExprKind, StatementAst, TableSource, WhenBranch,
};
use crate::error::{fails_with, Failure, SqlError, SqlResult};
use crate::names::{slice_texts, with_columns};
use crate::paths::{each_path_once, paths_once};
use crate::predicates::{
    expr_contains_materializable_subquery, holds_subquery, is_computed,
    predicate_requires_expression_path,
};
use crate::query_modifiers::{limit_of, parse_limit};
use crate::rules::{registry, rule_rank, sql_rule_registry, RuleFeature, SqlRule};
use crate::sql_reading::{read_sql, reads_statements, statements_of};
use crate::tables_from::{parse_table_factor, table_file_name, table_name, table_of};
use crate::text::{
    chars_of, contains, has_prefix, has_substring, join_with, joined_with, lowered, starts_with,
    str_eq, string_from, texts, to_ascii_lowercase,
};

verus! {

/// Whether an expression is or holds an aggregate.
pub open spec fn is_aggregate(expr: SqlExpr) -> bool
    decreases expr,
{
    match expr.kind {
        SqlExprKind::Function(function) => match function.name {
            Some(name) => aggregate_function(name@) is Some,
            None => false,
        },
        SqlExprKind::BinaryOp { left, right, .. } => is_aggregate(*left) || is_aggregate(*right),
        SqlExprKind::Nested(inner) => is_aggregate(*inner),
        SqlExprKind::UnaryOp { expr, .. } => is_aggregate(*expr),
        SqlExprKind::Cast { expr, .. } => is_aggregate(*expr),
        SqlExprKind::IsNull(inner) => is_aggregate(*inner),
        SqlExprKind::IsNotNull(inner) => is_aggregate(*inner),
        SqlExprKind::Case { operand, conditions, else_result } => {
            ||| (match operand {
                Some(operand) => is_aggregate(*operand),
                None => false,
            })
            ||| branches_aggregate(conditions, conditions.len() as nat)
            ||| (match else_result {
                Some(result) => is_aggregate(*result),
                None => false,
            })
        },
        _ => false,
    }
}

/// Whether one of the first branches holds an aggregate.
pub open spec fn branches_aggregate(branches: Vec<WhenBranch>, count: nat) -> bool
    decreases branches, count,
{
    if count == 0 || count > branches.len() {
        false
    } else {
        branches_aggregate(branches, (count - 1) as nat) || is_aggregate(
            branches[count - 1].condition,
        ) || is_aggregate(branches[count - 1].result)
    }
}

/// Whether an expression is or holds an aggregate.
pub fn sql_expr_is_aggregate(expr: &SqlExpr) -> (aggregate: bool)
    ensures
        aggregate == is_aggregate(*expr),
    decreases *expr,
{
    match &expr.kind {
        SqlExprKind::Function(function) => match &function.name {
            Some(name) => read_aggregate_function(name.as_str()).is_some(),
            None => false,
        },
        SqlExprKind::BinaryOp { left, right, .. } => {
            sql_expr_is_aggregate(left) || sql_expr_is_aggregate(right)
        },
        SqlExprKind::Nested(inner) => sql_expr_is_aggregate(inner),
        SqlExprKind::UnaryOp { expr, .. } => sql_expr_is_aggregate(expr),
        SqlExprKind::Cast { expr, .. } => sql_expr_is_aggregate(expr),
        SqlExprKind::IsNull(inner) => sql_expr_is_aggregate(inner),
        SqlExprKind::IsNotNull(inner) => sql_expr_is_aggregate(inner),
        SqlExprKind::Case { operand, conditions, else_result } => {
            let chosen = match operand {
                Some(operand) => sql_expr_is_aggregate(operand),
                None => false,
            };
            let otherwise = match else_result {
                Some(result) => sql_expr_is_aggregate(result),
                None => false,
            };
            chosen || otherwise || branches_are_aggregate(conditions)
        },
        _ => false,
    }
}

/// Whether one of the branches holds an aggregate.
fn branches_are_aggregate(branches: &Vec<WhenBranch>) -> (aggregate: bool)
    ensures
        aggregate == branches_aggregate(*branches, branches.len() as nat),
    decreases *branches,
{
    let mut found = false;
    let mut index: usize = 0;
    while index < branches.len()
        invariant
            index <= branches.len(),
            found == branches_aggregate(*branches, index as nat),
        decreases branches.len() - index,
    {
        let branch = &branches[index];
        assert(decreases_to!(*branches => *branch));
        let condition = sql_expr_is_aggregate(&branch.condition);
        let result = sql_expr_is_aggregate(&branch.result);
        found = found || condition || result;
        index += 1;
    }
    found
}

/// The expression of an item of a `SELECT` list that has one.
pub open spec fn item_expr(item: SelectEntry) -> Option<SqlExpr> {
    match item.kind {
        SelectEntryKind::UnnamedExpr(expr) => Some(expr),
        SelectEntryKind::ExprWithAlias { expr, .. } => Some(expr),
        _ => None,
    }
}

/// Whether an item puts out a computed value, other than an aggregate.
pub open spec fn item_is_computed(item: SelectEntry) -> bool {
    match item_expr(item) {
        Some(expr) => !(expr.kind is Identifier) && !(expr.kind is CompoundIdentifier) && !(expr.kind
            is Wildcard) && !(expr.kind is QualifiedWildcard) && !is_aggregate(expr),
        None => false,
    }
}

/// Whether an item puts out an aggregate.
pub open spec fn item_is_aggregate(item: SelectEntry) -> bool {
    match item_expr(item) {
        Some(expr) => is_aggregate(expr),
        None => false,
    }
}

/// Whether a `SELECT` puts out a computed value, other than an aggregate.
pub open spec fn any_item_computed(items: Seq<SelectEntry>) -> bool {
    exists|index: int| 0 <= index < items.len() && item_is_computed(#[trigger] items[index])
}

/// Whether a `SELECT` puts out an aggregate.
pub open spec fn any_item_aggregate(items: Seq<SelectEntry>) -> bool {
    exists|index: int| 0 <= index < items.len() && item_is_aggregate(#[trigger] items[index])
}

/// The expression of an item of a `SELECT` list that has one.
fn read_item_expr(item: &SelectEntry) -> (expr: Option<&SqlExpr>)
    ensures
        match item_expr(*item) {
            Some(expected) => expr matches Some(expr) && *expr == expected,
            None => expr is None,
        },
{
    match &item.kind {
        SelectEntryKind::UnnamedExpr(expr) => Some(expr),
        SelectEntryKind::ExprWithAlias { expr, .. } => Some(expr),
        _ => None,
    }
}

/// Whether a `SELECT` puts out a computed value, other than an aggregate.
pub fn select_has_projection_expression(select: &SelectAst) -> (computed: bool)
    ensures
        computed == any_item_computed(select.projection@),
{
    let items = &select.projection;
    let mut index: usize = 0;
    while index < items.len()
        invariant
            items@ == select.projection@,
            index <= items@.len(),
            forall|earlier: int|
                0 <= earlier < index ==> !item_is_computed(#[trigger] items@[earlier]),
        decreases items@.len() - index,
    {
        match read_item_expr(&items[index]) {
            Some(expr) => {
                let plain = match &expr.kind {
                    SqlExprKind::Identifier(_)
                    | SqlExprKind::CompoundIdentifier(_)
                    | SqlExprKind::Wildcard
                    | SqlExprKind::QualifiedWildcard => true,
                    _ => false,
                };
                if !plain && !sql_expr_is_aggregate(expr) {
                    assert(item_is_computed(items@[index as int]));
                    return true;
                }
            },
            None => {},
        }
        index += 1;
    }
    false
}

/// Whether a `SELECT` puts out an aggregate.
pub fn select_has_aggregate(select: &SelectAst) -> (aggregate: bool)
    ensures
        aggregate == any_item_aggregate(select.projection@),
{
    let items = &select.projection;
    let mut index: usize = 0;
    while index < items.len()
        invariant
            items@ == select.projection@,
            index <= items@.len(),
            forall|earlier: int|
                0 <= earlier < index ==> !item_is_aggregate(#[trigger] items@[earlier]),
        decreases items@.len() - index,
    {
        match read_item_expr(&items[index]) {
            Some(expr) => {
                if sql_expr_is_aggregate(expr) {
                    assert(item_is_aggregate(items@[index as int]));
                    return true;
                }
            },
            None => {},
        }
        index += 1;
    }
    false
}

/// Whether a `FROM` reads something that is no table.
pub open spec fn source_is_derived(source: TableSource) -> bool {
    source is Derived || source is TableFunction || source is NestedJoin
}

/// Whether a `FROM` reads something that is no table.
fn table_factor_contains_derived(source: &TableSource) -> (derived: bool)
    ensures
        derived == source_is_derived(*source),
{
    match source {
        TableSource::Derived { .. } | TableSource::TableFunction | TableSource::NestedJoin(_) => true,
        _ => false,
    }
}

/// Whether a table of a `FROM` is read from something that is no table.
pub open spec fn any_derived(from: Seq<FromTable>) -> bool {
    exists|index: int| 0 <= index < from.len() && source_is_derived(
        (#[trigger] from[index]).relation,
    )
}

/// Whether something that is no table is joined to a table of a `FROM`.
pub open spec fn any_joined_derived(from: Seq<FromTable>) -> bool {
    exists|index: int| 0 <= index < from.len() && joins_derived((#[trigger] from[index]).joins@)
}

/// Whether one of the joined tables is no table.
pub open spec fn joins_derived(joins: Seq<JoinedTable>) -> bool {
    exists|index: int| 0 <= index < joins.len() && source_is_derived(
        (#[trigger] joins[index]).relation,
    )
}

/// Whether a table of a `FROM` is read from something that is no table.
fn has_derived(from: &Vec<FromTable>) -> (derived: bool)
    ensures
        derived == any_derived(from@),
{
    let mut index: usize = 0;
    while index < from.len()
        invariant
            index <= from@.len(),
            forall|earlier: int|
                0 <= earlier < index ==> !source_is_derived((#[trigger] from@[earlier]).relation),
        decreases from@.len() - index,
    {
        if table_factor_contains_derived(&from[index].relation) {
            assert(source_is_derived(from@[index as int].relation));
            return true;
        }
        index += 1;
    }
    false
}

/// Whether one of the joined tables is no table.
fn has_derived_join(joins: &Vec<JoinedTable>) -> (derived: bool)
    ensures
        derived == joins_derived(joins@),
{
    let mut index: usize = 0;
    while index < joins.len()
        invariant
            index <= joins@.len(),
            forall|earlier: int|
                0 <= earlier < index ==> !source_is_derived((#[trigger] joins@[earlier]).relation),
        decreases joins@.len() - index,
    {
        if table_factor_contains_derived(&joins[index].relation) {
            assert(source_is_derived(joins@[index as int].relation));
            return true;
        }
        index += 1;
    }
    false
}

/// Whether something that is no table is joined to a table of a `FROM`.
fn has_joined_derived(from: &Vec<FromTable>) -> (derived: bool)
    ensures
        derived == any_joined_derived(from@),
{
    let mut index: usize = 0;
    while index < from.len()
        invariant
            index <= from@.len(),
            forall|earlier: int|
                0 <= earlier < index ==> !joins_derived((#[trigger] from@[earlier]).joins@),
        decreases from@.len() - index,
    {
        if has_derived_join(&from[index].joins) {
            assert(joins_derived(from@[index as int].joins@));
            return true;
        }
        index += 1;
    }
    false
}

/// Whether a query holds another query.
pub open spec fn query_holds_query(query: QueryAst) -> bool
    decreases query,
{
    ||| (match query.ctes {
        Some(ctes) => any_query_holds_query(ctes, ctes.len() as nat),
        None => false,
    })
    ||| body_holds_query(query.body)
}

/// Whether one of the first queries holds another query.
pub open spec fn any_query_holds_query(queries: Vec<QueryAst>, count: nat) -> bool
    decreases queries, count,
{
    if count == 0 || count > queries.len() {
        false
    } else {
        any_query_holds_query(queries, (count - 1) as nat) || query_holds_query(queries[count - 1])
    }
}

/// Whether the body of a query holds another query.
pub open spec fn body_holds_query(body: QueryBody) -> bool
    decreases body,
{
    match body {
        QueryBody::Select(select) => {
            ||| (match select.selection {
                Some(selection) => holds_subquery(selection, false),
                None => false,
            })
            ||| any_derived(select.from@)
            ||| any_joined_derived(select.from@)
        },
        QueryBody::Query(query) => query_holds_query(*query),
        QueryBody::SetOperation { left, right } => body_holds_query(*left) || body_holds_query(
            *right,
        ),
        QueryBody::Other => false,
    }
}

/// Whether a query holds another query.
pub fn query_contains_subquery(query: &QueryAst) -> (found: bool)
    ensures
        found == query_holds_query(*query),
    decreases *query,
{
    let in_ctes = match &query.ctes {
        Some(ctes) => any_query_contains_subquery(ctes),
        None => false,
    };
    in_ctes || set_expr_contains_subquery(&query.body)
}

/// Whether one of the queries holds another query.
fn any_query_contains_subquery(queries: &Vec<QueryAst>) -> (found: bool)
    ensures
        found == any_query_holds_query(*queries, queries.len() as nat),
    decreases *queries,
{
    let mut found = false;
    let mut index: usize = 0;
    while index < queries.len()
        invariant
            index <= queries.len(),
            found == any_query_holds_query(*queries, index as nat),
        decreases queries.len() - index,
    {
        let here = query_contains_subquery(&queries[index]);
        found = found || here;
        index += 1;
    }
    found
}

/// Whether the body of a query holds another query.
fn set_expr_contains_subquery(body: &QueryBody) -> (found: bool)
    ensures
        found == body_holds_query(*body),
    decreases *body,
{
    match body {
        QueryBody::Select(select) => {
            let in_filter = match &select.selection {
                Some(selection) => expr_contains_materializable_subquery(selection),
                None => false,
            };
            in_filter || has_derived(&select.from) || has_joined_derived(&select.from)
        },
        QueryBody::Query(query) => query_contains_subquery(query),
        QueryBody::SetOperation { left, right } => {
            set_expr_contains_subquery(left) || set_expr_contains_subquery(right)
        },
        QueryBody::Other => false,
    }
}

/// The tables that a `FROM` reads, those of its subqueries too, as they occur.
pub open spec fn paths_in(from: Vec<FromTable>, count: nat) -> Seq<Seq<char>>
    decreases from, count,
{
    if count == 0 || count > from.len() {
        Seq::empty()
    } else {
        paths_in(from, (count - 1) as nat) + table_paths(from[count - 1])
    }
}

/// The tables that a table of a `FROM` and those joined to it read.
pub open spec fn table_paths(table: FromTable) -> Seq<Seq<char>>
    decreases table,
{
    source_paths(table.relation) + joined_paths(table.joins, table.joins.len() as nat)
}

/// The tables that the first joined tables read.
pub open spec fn joined_paths(joins: Vec<JoinedTable>, count: nat) -> Seq<Seq<char>>
    decreases joins, count,
{
    if count == 0 || count > joins.len() {
        Seq::empty()
    } else {
        joined_paths(joins, (count - 1) as nat) + source_paths(joins[count - 1].relation)
    }
}

/// The tables that a part of a `FROM` reads.
pub open spec fn source_paths(source: TableSource) -> Seq<Seq<char>>
    decreases source,
{
    match source {
        TableSource::Table { .. } => match table_of(source) {
            Ok(table) => seq![table.path],
            Err(_) => Seq::empty(),
        },
        TableSource::Derived { subquery, .. } => match subquery.body {
            QueryBody::Select(select) => paths_in(select.from, select.from.len() as nat),
            _ => Seq::empty(),
        },
        TableSource::NestedJoin(table) => table_paths(*table),
        _ => Seq::empty(),
    }
}

/// The strings, then more of them.
fn append_paths(paths: &mut Vec<String>, more: Vec<String>)
    ensures
        texts(final(paths)@) == texts(old(paths)@) + texts(more@),
{
    let ghost before = paths@;
    let ghost added = more@;
    let mut more = more;
    paths.append(&mut more);
    assert(texts(paths@) =~= texts(before) + texts(added));
}

/// The tables that a `FROM` reads.
fn collect_paths_in(from: &Vec<FromTable>) -> (paths: Vec<String>)
    ensures
        texts(paths@) == paths_in(*from, from.len() as nat),
    decreases *from,
{
    let mut paths: Vec<String> = Vec::new();
    let mut index: usize = 0;
    assert(texts(paths@) =~= Seq::empty());
    while index < from.len()
        invariant
            index <= from.len(),
            texts(paths@) == paths_in(*from, index as nat),
        decreases from.len() - index,
    {
        let more = collect_table_paths(&from[index]);
        append_paths(&mut paths, more);
        index += 1;
    }
    paths
}

/// The tables that a table of a `FROM` and those joined to it read.
fn collect_table_paths(table: &FromTable) -> (paths: Vec<String>)
    ensures
        texts(paths@) == table_paths(*table),
    decreases *table,
{
    let mut paths = collect_table_factor_path(&table.relation);
    let more = collect_joined_paths(&table.joins);
    append_paths(&mut paths, more);
    paths
}

/// The tables that joined tables read.
fn collect_joined_paths(joins: &Vec<JoinedTable>) -> (paths: Vec<String>)
    ensures
        texts(paths@) == joined_paths(*joins, joins.len() as nat),
    decreases *joins,
{
    let mut paths: Vec<String> = Vec::new();
    let mut index: usize = 0;
    assert(texts(paths@) =~= Seq::empty());
    while index < joins.len()
        invariant
            index <= joins.len(),
            texts(paths@) == joined_paths(*joins, index as nat),
        decreases joins.len() - index,
    {
        let join = &joins[index];
        assert(decreases_to!(*joins => *join));
        let more = collect_table_factor_path(&join.relation);
        append_paths(&mut paths, more);
        index += 1;
    }
    paths
}

/// The tables that a part of a `FROM` reads.
fn collect_table_factor_path(source: &TableSource) -> (paths: Vec<String>)
    ensures
        texts(paths@) == source_paths(*source),
    decreases *source,
{
    match source {
        TableSource::Table { .. } => match parse_table_factor(source) {
            Ok(table) => {
                let paths: Vec<String> = vec![table.path];
                assert(texts(paths@) =~= seq![table.path@]);
                paths
            },
            Err(_) => {
                let paths: Vec<String> = Vec::new();
                assert(texts(paths@) =~= Seq::empty());
                paths
            },
        },
        TableSource::Derived { subquery, .. } => match &subquery.body {
            QueryBody::Select(select) => collect_paths_in(&select.from),
            _ => {
                let paths: Vec<String> = Vec::new();
                assert(texts(paths@) =~= Seq::empty());
                paths
            },
        },
        TableSource::NestedJoin(table) => collect_table_paths(table),
        _ => {
            let paths: Vec<String> = Vec::new();
            assert(texts(paths@) =~= Seq::empty());
            paths
        },
    }
}

/// What rules look at in a statement.
#[derive(Debug)]
pub struct SqlRuleContext {
    pub has_with: bool,
    pub has_join: bool,
    pub has_subquery: bool,
    pub has_derived_from: bool,
    pub has_projection_expression: bool,
    pub has_predicate_expression: bool,
    pub has_aggregate: bool,
    pub has_group_by: bool,
    pub has_order_by: bool,
    pub has_limit: bool,
    pub has_tpch_like_terms: bool,
    pub from_table_count: usize,
    pub lower_sql: String,
    pub table_paths: Vec<String>,
}

/// Whether a text in small letters names a benchmark table.
pub open spec fn names_benchmark_table(lower: Seq<char>) -> bool {
    has_substring(lower, "lineitem"@) || has_substring(lower, "orders"@) || has_substring(
        lower,
        "customer"@,
    ) || has_substring(lower, "supplier"@) || has_substring(lower, "partsupp"@) || has_substring(
        lower,
        "part"@,
    ) || has_substring(lower, "nation"@) || has_substring(lower, "region"@)
}

/// Whether a text in small letters looks like one with a subquery.
pub open spec fn looks_nested(lower: Seq<char>) -> bool {
    has_substring(lower, "select"@) && (has_substring(lower, " exists"@) || has_substring(
        lower,
        " in (select"@,
    ) || has_substring(lower, "(select"@))
}

/// Whether a text in small letters calls an aggregate.
pub open spec fn looks_aggregate(lower: Seq<char>) -> bool {
    has_substring(lower, "count("@) || has_substring(lower, "sum("@) || has_substring(
        lower,
        "avg("@,
    ) || has_substring(lower, "min("@) || has_substring(lower, "max("@)
}

/// Whether a context is that of a text in small letters alone.
pub open spec fn is_text_context(context: SqlRuleContext, lower: Seq<char>) -> bool {
    &&& context.lower_sql@ == lower
    &&& context.has_with == has_substring(lower, "with "@)
    &&& context.has_join == has_substring(lower, " join "@)
    &&& context.has_subquery == looks_nested(lower)
    &&& context.has_derived_from == has_substring(lower, "from ("@)
    &&& !context.has_projection_expression
    &&& !context.has_predicate_expression
    &&& context.has_aggregate == looks_aggregate(lower)
    &&& context.has_group_by == has_substring(lower, " group by "@)
    &&& context.has_order_by == has_substring(lower, " order by "@)
    &&& context.has_limit == has_substring(lower, " limit "@)
    &&& context.has_tpch_like_terms == names_benchmark_table(lower)
    &&& context.from_table_count == 0
    &&& context.table_paths@.len() == 0
}

/// Whether the flags that a query gives of its own body are those of the context.
pub open spec fn shows_body(context: SqlRuleContext, body: QueryBody, lower: Seq<char>) -> bool {
    match body {
        QueryBody::Select(select) => {
            &&& context.from_table_count == select.from@.len()
            &&& context.has_join == (exists|index: int|
                0 <= index < select.from@.len() && (#[trigger] select.from@[index]).joins@.len()
                    != 0)
            &&& context.has_derived_from == any_derived(select.from@)
            &&& context.has_projection_expression == any_item_computed(select.projection@)
            &&& context.has_predicate_expression == (match select.selection {
                Some(selection) => is_computed(selection),
                None => false,
            })
            &&& context.has_aggregate == any_item_aggregate(select.projection@)
            &&& context.has_group_by == (match select.group_by.expressions {
                Some(exprs) => exprs@.len() != 0,
                None => false,
            })
            &&& texts(context.table_paths@) == paths_once(
                paths_in(select.from, select.from.len() as nat),
            )
        },
        _ => {
            &&& context.from_table_count == 0
            &&& context.has_join == has_substring(lower, " join "@)
            &&& context.has_derived_from == has_substring(lower, "from ("@)
            &&& !context.has_projection_expression
            &&& !context.has_predicate_expression
            &&& context.has_aggregate == looks_aggregate(lower)
            &&& context.has_group_by == has_substring(lower, " group by "@)
            &&& context.table_paths@.len() == 0
        },
    }
}

/// Whether a context is that of a query and its text.
pub open spec fn is_query_context(
    context: SqlRuleContext,
    query: QueryAst,
    lower: Seq<char>,
) -> bool {
    &&& context.lower_sql@ == lower
    &&& context.has_tpch_like_terms == names_benchmark_table(lower)
    &&& context.has_with == query.ctes is Some
    &&& context.has_subquery == (looks_nested(lower) || query_holds_query(query))
    &&& context.has_order_by == query.order_by is Some
    &&& context.has_limit == (limit_of(query) matches Ok(Some(_)))
    &&& shows_body(context, query.body, lower)
}

/// Whether a context is that of statements: of the first, where it is a query.
pub open spec fn is_context_of(
    context: SqlRuleContext,
    asts: Seq<StatementAst>,
    lower: Seq<char>,
) -> bool {
    if asts.len() > 0 {
        match asts[0] {
            StatementAst::Query(query) => is_query_context(context, *query, lower),
            StatementAst::Other => is_text_context(context, lower),
        }
    } else {
        is_text_context(context, lower)
    }
}

impl SqlRuleContext {
    /// The context of a text in small letters alone.
    pub fn from_lower_sql(lower_sql: String) -> (context: SqlRuleContext)
        ensures
            is_text_context(context, lower_sql@),
    {
        let lower = lower_sql.as_str();
        let has_with = contains(lower, "with ");
        let has_join = contains(lower, " join ");
        let has_subquery = contains(lower, "select") && (contains(lower, " exists") || contains(
            lower,
            " in (select",
        ) || contains(lower, "(select"));
        let has_derived_from = contains(lower, "from (");
        let has_aggregate = contains(lower, "count(") || contains(lower, "sum(") || contains(
            lower,
            "avg(",
        ) || contains(lower, "min(") || contains(lower, "max(");
        let has_group_by = contains(lower, " group by ");
        let has_order_by = contains(lower, " order by ");
        let has_limit = contains(lower, " limit ");
        let has_tpch_like_terms = contains(lower, "lineitem") || contains(lower, "orders")
            || contains(lower, "customer") || contains(lower, "supplier") || contains(
            lower,
            "partsupp",
        ) || contains(lower, "part") || contains(lower, "nation") || contains(lower, "region");
        SqlRuleContext {
            has_with,
            has_join,
            has_subquery,
            has_derived_from,
            has_projection_expression: false,
            has_predicate_expression: false,
            has_aggregate,
            has_group_by,
            has_order_by,
            has_limit,
            has_tpch_like_terms,
            from_table_count: 0,
            lower_sql,
            table_paths: Vec::new(),
        }
    }

    /// The context of a query and its text in small letters.
    fn from_query(query: &QueryAst, lower_sql: String) -> (context: SqlRuleContext)
        ensures
            is_query_context(context, *query, lower_sql@),
    {
        let ghost lower = lower_sql@;
        let mut context = SqlRuleContext::from_lower_sql(lower_sql);
        context.has_with = query.ctes.is_some();
        let nested = query_contains_subquery(query);
        context.has_subquery = context.has_subquery || nested;
        match &query.body {
            QueryBody::Select(select) => {
                context.from_table_count = select.from.len();
                context.has_join = crate::tables_from::has_joins(&select.from);
                context.has_derived_from = has_derived(&select.from);
                context.has_projection_expression = select_has_projection_expression(select);
                context.has_predicate_expression = match &select.selection {
                    Some(selection) => predicate_requires_expression_path(selection),
                    None => false,
                };
                context.has_aggregate = select_has_aggregate(select);
                context.has_group_by = match &select.group_by.expressions {
                    Some(exprs) => exprs.len() != 0,
                    None => false,
                };
                let paths = collect_paths_in(&select.from);
                context.table_paths = each_path_once(paths);
            },
            _ => {},
        }
        context.has_order_by = query.order_by.is_some();
        context.has_limit = match parse_limit(query) {
            Ok(Some(_)) => true,
            _ => false,
        };
        context
    }

    /// The context of statements and their text in small letters.
    pub fn from_statements(statements: &[StatementAst], lower_sql: String) -> (context:
        SqlRuleContext)
        ensures
            is_context_of(context, statements@, lower_sql@),
    {
        if statements.len() > 0 {
            match &statements[0] {
                StatementAst::Query(query) => SqlRuleContext::from_query(query, lower_sql),
                StatementAst::Other => SqlRuleContext::from_lower_sql(lower_sql),
            }
        } else {
            SqlRuleContext::from_lower_sql(lower_sql)
        }
    }

    /// The context of a text.
    pub fn from_sql(sql: &str) -> (result: SqlResult<SqlRuleContext>)
        ensures
            match statements_of(sql@) {
                Err(message) => fails_with(result, Failure::Unsupported(message)),
                Ok(statements) => exists|asts: Seq<StatementAst>|
                    {
                        &&& #[trigger] reads_statements(asts, statements, sql@.len())
                        &&& result matches Ok(context) && is_context_of(
                            context,
                            asts,
                            lowered(sql@),
                        )
                    },
            },
    {
        let lower_sql = to_ascii_lowercase(sql);
        match read_sql(sql) {
            Ok(asts) => {
                let context = SqlRuleContext::from_statements(asts.as_slice(), lower_sql);
                proof {
                    assert(statements_of(sql@) is Ok);
                    assert(reads_statements(asts@, statements_of(sql@)->Ok_0, sql@.len()));
                }
                Ok(context)
            },
            Err(error) => Err(error),
        }
    }

    /// Whether the statement has a feature.
    pub open spec fn shows(self, feature: RuleFeature) -> bool {
        match feature {
            RuleFeature::TpchLike => self.has_tpch_like_terms,
            RuleFeature::With => self.has_with,
            RuleFeature::DerivedFrom => self.has_derived_from,
            RuleFeature::MultiInput => self.from_table_count > 1 || self.has_join,
            RuleFeature::Subquery => self.has_subquery,
            RuleFeature::ProjectionExpression => self.has_projection_expression
                || self.has_predicate_expression,
        }
    }

    /// Whether the statement has a feature.
    pub fn has_feature(&self, feature: RuleFeature) -> (shown: bool)
        ensures
            shown == self.shows(feature),
    {
        match feature {
            RuleFeature::TpchLike => self.has_tpch_like_terms,
            RuleFeature::With => self.has_with,
            RuleFeature::DerivedFrom => self.has_derived_from,
            RuleFeature::MultiInput => self.from_table_count > 1 || self.has_join,
            RuleFeature::Subquery => self.has_subquery,
            RuleFeature::ProjectionExpression => self.has_projection_expression
                || self.has_predicate_expression,
        }
    }

    /// Whether the statement mentions a column, in any case.
    pub open spec fn mentions(self, column: Seq<char>) -> bool {
        has_substring(self.lower_sql@, lowered(column))
    }

    /// Whether the statement mentions a column, in any case.
    pub fn mentions_column(&self, column: &str) -> (mentioned: bool)
        ensures
            mentioned == self.mentions(column@),
    {
        let lower = to_ascii_lowercase(column);
        contains(self.lower_sql.as_str(), lower.as_str())
    }

    /// How many of the columns the statement mentions.
    pub open spec fn mentioned(self, columns: Seq<Seq<char>>) -> int
        decreases columns.len(),
    {
        if columns.len() == 0 {
            0
        } else {
            self.mentioned(columns.drop_last()) + (if self.mentions(columns.last()) {
                1int
            } else {
                0
            })
        }
    }

    /// How many of the columns the statement mentions.
    pub fn matched_required_columns(&self, columns: &[&str]) -> (count: usize)
        ensures
            count == self.mentioned(slice_texts(columns@)),
            count <= columns@.len(),
    {
        let ghost all = slice_texts(columns@);
        let mut count: usize = 0;
        let mut index: usize = 0;
        assert(all.take(0) =~= Seq::empty());
        while index < columns.len()
            invariant
                index <= columns@.len(),
                all == slice_texts(columns@),
                count == self.mentioned(all.take(index as int)),
                count <= index,
            decreases columns@.len() - index,
        {
            proof {
                assert(all.take(index + 1).drop_last() =~= all.take(index as int));
                assert(all.take(index + 1).last() == columns@[index as int]@);
            }
            if self.mentions_column(columns[index]) {
                count += 1;
            }
            index += 1;
        }
        assert(all.take(index as int) =~= all);
        count
    }

    /// The names of what the statement has, in a fixed order.
    pub open spec fn shape_parts(self) -> Seq<Seq<char>> {
        part(self.has_with, "with"@) + part(self.has_derived_from, "derived"@) + part(
            self.from_table_count > 1 || self.has_join,
            "multi-input"@,
        ) + part(self.has_subquery, "subquery"@) + part(
            self.has_projection_expression,
            "project-expr"@,
        ) + part(self.has_predicate_expression, "predicate-expr"@) + part(
            self.has_aggregate,
            "aggregate"@,
        ) + part(self.has_group_by, "group-by"@) + part(self.has_order_by, "order-by"@) + part(
            self.has_limit,
            "limit"@,
        )
    }

    /// The shape of the statement in one text.
    pub fn logical_shape(&self) -> (shape: String)
        ensures
            shape@ == (if self.shape_parts().len() == 0 {
                "scan"@
            } else {
                joined_with(self.shape_parts(), "+"@)
            }),
    {
        let mut features: Vec<String> = Vec::new();
        assert(texts(features@) =~= Seq::empty());
        push_part(&mut features, self.has_with, "with");
        push_part(&mut features, self.has_derived_from, "derived");
        push_part(&mut features, self.from_table_count > 1 || self.has_join, "multi-input");
        push_part(&mut features, self.has_subquery, "subquery");
        push_part(&mut features, self.has_projection_expression, "project-expr");
        push_part(&mut features, self.has_predicate_expression, "predicate-expr");
        push_part(&mut features, self.has_aggregate, "aggregate");
        push_part(&mut features, self.has_group_by, "group-by");
        push_part(&mut features, self.has_order_by, "order-by");
        push_part(&mut features, self.has_limit, "limit");
        proof {
            assert(texts(features@) =~= self.shape_parts());
            assert(texts(features@).len() == features@.len());
        }
        if features.len() == 0 {
            string_from(chars_of("scan").as_slice())
        } else {
            join_with(features.as_slice(), "+")
        }
    }
}

/// One name, or none.
pub open spec fn part(there: bool, name: Seq<char>) -> Seq<Seq<char>> {
    if there {
        seq![name]
    } else {
        Seq::empty()
    }
}

/// Adds a name where it is there.
fn push_part(features: &mut Vec<String>, there: bool, name: &str)
    ensures
        texts(final(features)@) == texts(old(features)@) + part(there, name@),
{
    let ghost before = features@;
    if there {
        features.push(string_from(chars_of(name).as_slice()));
    }
    assert(texts(features@) =~= texts(before) + part(there, name@));
}

/// Whether a rule is worth trying on a statement: it has the feature that the rule needs.
pub open spec fn is_worth_trying(rule: SqlRule, context: SqlRuleContext) -> bool {
    context.shows(rule.needs())
}

/// What the estimate of the cost of a rule goes by.
pub struct SqlRuleCostInput {
    pub base_rank: u16,
    pub required_features: usize,
    pub matched_features: usize,
    pub required_columns: usize,
    pub matched_required_columns: usize,
    pub estimated_scan_bytes: Option<u64>,
}

/// A number of 32 bits, the largest where it does not fit.
pub open spec fn at_most_u32(value: int) -> int {
    if value > u32::MAX {
        u32::MAX as int
    } else {
        value
    }
}

/// The estimated cost of a rule: its rank, a thousand for a feature and a hundred for a
/// column that is missing, and one for each mebibyte that it scans.
pub open spec fn rule_estimate(input: SqlRuleCostInput) -> int {
    let missing_features = if input.matched_features < input.required_features {
        input.required_features - input.matched_features
    } else {
        0
    };
    let missing_columns = if input.matched_required_columns < input.required_columns {
        input.required_columns - input.matched_required_columns
    } else {
        0
    };
    let scan = match input.estimated_scan_bytes {
        Some(bytes) => bytes as int / 1_048_576,
        None => 0,
    };
    at_most_u32(input.base_rank + 1_000 * missing_features + 100 * missing_columns + scan)
}

/// The estimated cost of a rule.
pub fn estimate_sql_rule_cost(input: SqlRuleCostInput) -> (cost: u32)
    ensures
        cost == rule_estimate(input),
{
    let missing_features: u128 = if input.matched_features < input.required_features {
        (input.required_features - input.matched_features) as u128
    } else {
        0
    };
    let missing_columns: u128 = if input.matched_required_columns < input.required_columns {
        (input.required_columns - input.matched_required_columns) as u128
    } else {
        0
    };
    let scan: u128 = match input.estimated_scan_bytes {
        Some(bytes) => (bytes / 1_048_576) as u128,
        None => 0,
    };
    let cost: u128 = input.base_rank as u128 + 1_000 * missing_features + 100 * missing_columns
        + scan;
    if cost > u32::MAX as u128 {
        u32::MAX
    } else {
        cost as u32
    }
}

/// What the estimate of the cost of a rule on a statement goes by.
pub open spec fn cost_input(
    rule: SqlRule,
    context: SqlRuleContext,
    estimated_scan_bytes: Option<u64>,
) -> SqlRuleCostInput {
    SqlRuleCostInput {
        base_rank: rule_rank(rule) as u16,
        required_features: 1,
        matched_features: if context.shows(rule.needs()) {
            1
        } else {
            0
        },
        required_columns: rule.columns().len() as usize,
        matched_required_columns: context.mentioned(rule.columns()) as usize,
        estimated_scan_bytes,
    }
}

/// The cost by which a rule is placed: its estimate, and what its kind costs beyond it.
pub open spec fn rule_cost(
    rule: SqlRule,
    context: SqlRuleContext,
    estimated_scan_bytes: Option<u64>,
) -> int {
    at_most_u32(
        rule_estimate(cost_input(rule, context, estimated_scan_bytes)) + rule.does().penalty(),
    )
}

impl SqlRule {
    /// Whether the rule is worth trying on a statement.
    pub fn is_candidate(self, context: &SqlRuleContext) -> (candidate: bool)
        ensures
            candidate == is_worth_trying(self, *context),
    {
        context.has_feature(self.required_feature())
    }

    /// The cost by which the rule is placed.
    pub fn estimated_cost(
        self,
        context: &SqlRuleContext,
        estimated_scan_bytes: Option<u64>,
    ) -> (cost:
        u32)
        ensures
            cost == rule_cost(self, *context, estimated_scan_bytes),
    {
        let columns = self.required_columns();
        let matched_features: usize = if context.has_feature(self.required_feature()) {
            1
        } else {
            0
        };
        let matched_required_columns: usize = context.matched_required_columns(columns.as_slice());
        assert(slice_texts(columns@).len() == columns@.len());
        let input = SqlRuleCostInput {
            base_rank: self.cost_rank(),
            required_features: 1,
            matched_features,
            required_columns: columns.len(),
            matched_required_columns,
            estimated_scan_bytes,
        };
        assert(input == cost_input(self, *context, estimated_scan_bytes));
        let estimate: u32 = estimate_sql_rule_cost(input);
        let penalty: u32 = self.kind().fallback_penalty();
        if estimate > u32::MAX - penalty {
            u32::MAX
        } else {
            estimate + penalty
        }
    }
}

/// A rule reads at most 19 columns.
proof fn lemma_few_columns(rule: SqlRule)
    ensures
        rule.columns().len() <= 19,
{
}

/// Of columns no more are mentioned than there are.
proof fn lemma_mentioned(context: SqlRuleContext, columns: Seq<Seq<char>>)
    ensures
        0 <= context.mentioned(columns) <= columns.len(),
    decreases columns.len(),
{
    if columns.len() > 0 {
        lemma_mentioned(context, columns.drop_last());
    }
}

/// A rule for a special shape of query is placed before the general ways, whatever the
/// statement has or lacks, as long as it is not known to scan 32 GiB.
pub proof fn law_special_before_general(
    special: SqlRule,
    general: SqlRule,
    context: SqlRuleContext,
    special_bytes: Option<u64>,
    general_bytes: Option<u64>,
)
    requires
        special.does().penalty() == 0,
        general.does().penalty() > 0,
        special_bytes matches Some(bytes) ==> bytes < 34_359_738_368,
    ensures
        rule_cost(special, context, special_bytes) < rule_cost(general, context, general_bytes),
{
    lemma_few_columns(special);
    lemma_mentioned(context, special.columns());
    crate::rules::law_registry_ranks(special);
    crate::rules::law_registry_ranks(general);
    lemma_mentioned(context, general.columns());
    lemma_few_columns(general);
}

/// A rule to be tried, and what it is placed by.
#[derive(Clone, Copy, Debug, PartialEq, Eq, Structural)]
pub struct SqlRuleCandidate {
    pub rule: SqlRule,
    pub estimated_cost: u32,
    pub estimated_scan_bytes: Option<u64>,
}

/// The rules worth trying, in the order of the registry.
pub open spec fn worth_trying(rules: Seq<SqlRule>, context: SqlRuleContext) -> Seq<SqlRule>
    decreases rules.len(),
{
    if rules.len() == 0 {
        Seq::empty()
    } else if is_worth_trying(rules.last(), context) {
        worth_trying(rules.drop_last(), context).push(rules.last())
    } else {
        worth_trying(rules.drop_last(), context)
    }
}

/// The rules worth trying on a statement, in the order of the registry.
pub fn candidate_rules(context: &SqlRuleContext) -> (rules: Vec<SqlRule>)
    ensures
        rules@ == worth_trying(registry(), *context),
{
    let all = sql_rule_registry();
    let mut rules: Vec<SqlRule> = Vec::new();
    let mut index: usize = 0;
    assert(all@.take(0) =~= Seq::empty());
    while index < all.len()
        invariant
            index <= all@.len(),
            rules@ == worth_trying(all@.take(index as int), *context),
        decreases all@.len() - index,
    {
        assert(all@.take(index + 1).drop_last() =~= all@.take(index as int));
        if all[index].is_candidate(context) {
            rules.push(all[index]);
        }
        index += 1;
    }
    assert(all@.take(index as int) =~= all@);
    rules
}

/// Whether a candidate is tried before another: it costs less, or as much and stands
/// earlier in the registry.
pub open spec fn tried_before(left: SqlRuleCandidate, right: SqlRuleCandidate) -> bool {
    if left.estimated_cost != right.estimated_cost {
        left.estimated_cost < right.estimated_cost
    } else {
        rule_rank(left.rule) < rule_rank(right.rule)
    }
}

/// Whether candidates are in the order in which they are tried.
pub open spec fn in_trial_order(candidates: Seq<SqlRuleCandidate>) -> bool {
    forall|left: int, right: int|
        0 <= left < right < candidates.len() ==> !tried_before(
            #[trigger] candidates[right],
            #[trigger] candidates[left],
        )
}

/// The candidates of rules.
pub open spec fn rated(
    rules: Seq<SqlRule>,
    context: SqlRuleContext,
    scan_bytes: Seq<Option<u64>>,
) -> Seq<SqlRuleCandidate> {
    Seq::new(
        rules.len(),
        |index: int|
            SqlRuleCandidate {
                rule: rules[index],
                estimated_cost: rule_cost(rules[index], context, scan_bytes[index]) as u32,
                estimated_scan_bytes: scan_bytes[index],
            },
    )
}

/// Putting a value into a list adds it to what the list holds.
proof fn lemma_insert_multiset<T>(list: Seq<T>, place: int, value: T)
    requires
        0 <= place <= list.len(),
    ensures
        list.insert(place, value).to_multiset() =~= list.to_multiset().insert(value),
{
    let front = list.take(place);
    let back = list.skip(place);
    assert(list.insert(place, value) =~= (front + seq![value]) + back);
    assert(list =~= front + back);
    vstd::seq_lib::lemma_multiset_commutative(front + seq![value], back);
    vstd::seq_lib::lemma_multiset_commutative(front, seq![value]);
    vstd::seq_lib::lemma_multiset_commutative(front, back);
    assert(front.push(value) =~= front + seq![value]);
    broadcast use vstd::seq_lib::group_to_multiset_ensures;

    assert(front.push(value).to_multiset() == front.to_multiset().insert(value));
}

/// The rules in the order in which they are tried, each with what it is placed by.
/// `scan_bytes` tells for each rule what it scans, where that is known.
pub fn order_candidates(
    rules: &[SqlRule],
    context: &SqlRuleContext,
    scan_bytes: &[Option<u64>],
) -> (candidates: Vec<SqlRuleCandidate>)
    requires
        rules@.len() == scan_bytes@.len(),
    ensures
        in_trial_order(candidates@),
        candidates@.to_multiset() == rated(rules@, *context, scan_bytes@).to_multiset(),
{
    let ghost all = rated(rules@, *context, scan_bytes@);
    let mut candidates: Vec<SqlRuleCandidate> = Vec::new();
    let mut index: usize = 0;
    assert(all.take(0) =~= Seq::empty());
    while index < rules.len()
        invariant
            rules@.len() == scan_bytes@.len(),
            index <= rules@.len(),
            all == rated(rules@, *context, scan_bytes@),
            in_trial_order(candidates@),
            candidates@.to_multiset() == all.take(index as int).to_multiset(),
        decreases rules@.len() - index,
    {
        let candidate = SqlRuleCandidate {
            rule: rules[index],
            estimated_cost: rules[index].estimated_cost(context, scan_bytes[index]),
            estimated_scan_bytes: scan_bytes[index],
        };
        let rank: u16 = candidate.rule.cost_rank();
        let ghost before = candidates@;
        let mut place: usize = candidates.len();
        while place > 0 && (candidate.estimated_cost < candidates[place - 1].estimated_cost || (
        candidate.estimated_cost == candidates[place - 1].estimated_cost && rank < candidates[place
            - 1].rule.cost_rank()))
            invariant
                candidates@ == before,
                rank == rule_rank(candidate.rule),
                place <= before.len(),
                forall|later: int|
                    place <= later < before.len() ==> tried_before(
                        candidate,
                        #[trigger] before[later],
                    ),
            decreases place,
        {
            place -= 1;
        }
        candidates.insert(place, candidate);
        proof {
            let after = before.insert(place as int, candidate);
            assert(candidates@ == after);
            lemma_insert_multiset(before, place as int, candidate);
            assert(all.take(index + 1) =~= all.take(index as int).push(candidate));
            broadcast use vstd::seq_lib::group_to_multiset_ensures;

            assert(all.take(index as int).push(candidate).to_multiset() == all.take(
                index as int,
            ).to_multiset().insert(candidate));
            assert forall|left: int, right: int| 0 <= left < right < after.len() implies
                !tried_before(#[trigger] after[right], #[trigger] after[left]) by {
                let left_source = if left < place {
                    left
                } else {
                    left - 1
                };
                let right_source = if right < place {
                    right
                } else {
                    right - 1
                };
                if left == place {
                    assert(after[right] == before[right_source]);
                } else if right == place {
                    assert(after[left] == before[left_source]);
                    assert(!tried_before(candidate, before[place - 1]));
                    if left_source < place - 1 {
                        assert(!tried_before(before[place - 1], before[left_source]));
                    }
                } else {
                    assert(after[left] == before[left_source]);
                    assert(after[right] == before[right_source]);
                }
            }
        }
        index += 1;
    }
    assert(all.take(index as int) =~= all);
    candidates
}

/// Whether a message says that a statement has not the shape that a rule is for.
pub open spec fn says_mismatch(message: Seq<char>) -> bool {
    has_substring(message, "only direct table paths or registered table names are supported"@)
        || has_substring(message, "expected exactly one JOIN"@) || has_substring(
        message,
        "only direct table scans are supported"@,
    ) || has_substring(message, "expected column identifier"@) || has_substring(
        message,
        "WITH/FETCH/locks/settings/format/pipe clauses are not supported"@,
    ) || has_substring(message, "unsupported WHERE expression"@)
}

/// Whether a message says that a statement has not the shape that a rule is for.
pub fn sql_rule_shape_mismatch_error(message: &str) -> (mismatch: bool)
    ensures
        mismatch == says_mismatch(message@),
{
    contains(message, "only direct table paths or registered table names are supported")
        || contains(message, "expected exactly one JOIN") || contains(
        message,
        "only direct table scans are supported",
    ) || contains(message, "expected column identifier") || contains(
        message,
        "WITH/FETCH/locks/settings/format/pipe clauses are not supported",
    ) || contains(message, "unsupported WHERE expression")
}

/// What follows the trial of a rule.
#[derive(Clone, Copy, Debug, PartialEq, Eq, Structural)]
pub enum RuleTrial {
    /// The rule answered: its output is the answer.
    Answered,
    /// The rule is not for the statement: the next one is tried.
    Next,
    /// The rule failed: its error is the answer.
    Failed,
}

/// What follows the trial of a rule: `answered` tells whether it gave an output.
pub open spec fn after_trial(outcome: SqlResult<bool>) -> RuleTrial {
    match outcome {
        Ok(answered) => if answered {
            RuleTrial::Answered
        } else {
            RuleTrial::Next
        },
        Err(SqlError::UnsupportedSql(message)) => if says_mismatch(message@) {
            RuleTrial::Next
        } else {
            RuleTrial::Failed
        },
        Err(_) => RuleTrial::Failed,
    }
}

/// What follows the trial of a rule.
pub fn rule_trial(outcome: &SqlResult<bool>) -> (trial: RuleTrial)
    ensures
        trial == after_trial(*outcome),
{
    match outcome {
        Ok(answered) => {
            if *answered {
                RuleTrial::Answered
            } else {
                RuleTrial::Next
            }
        },
        Err(SqlError::UnsupportedSql(message)) => {
            if sql_rule_shape_mismatch_error(message.as_str()) {
                RuleTrial::Next
            } else {
                RuleTrial::Failed
            }
        },
        Err(_) => RuleTrial::Failed,
    }
}

/// The sum of the bytes that are known, as far as 64 bits hold it.
pub open spec fn known_bytes(estimates: Seq<Option<u64>>) -> int
    decreases estimates.len(),
{
    if estimates.len() == 0 {
        0
    } else {
        let total = known_bytes(estimates.drop_last()) + (match estimates.last() {
            Some(bytes) => bytes as int,
            None => 0,
        });
        if total > u64::MAX {
            u64::MAX as int
        } else {
            total
        }
    }
}

/// The bytes that a rule scans, from those of each of its tables; `None` where none is
/// known.
pub fn estimate_sql_rule_scan_bytes(estimates: &[Option<u64>]) -> (bytes: Option<u64>)
    ensures
        bytes.is_some() == (exists|index: int|
            0 <= index < estimates@.len() && #[trigger] estimates@[index] is Some),
        bytes matches Some(bytes) ==> bytes == known_bytes(estimates@),
{
    let mut total: u64 = 0;
    let mut matched = false;
    let mut index: usize = 0;
    assert(estimates@.take(0) =~= Seq::empty());
    while index < estimates.len()
        invariant
            index <= estimates@.len(),
            total == known_bytes(estimates@.take(index as int)),
            matched == (exists|earlier: int|
                0 <= earlier < index && #[trigger] estimates@[earlier] is Some),
        decreases estimates@.len() - index,
    {
        assert(estimates@.take(index + 1).drop_last() =~= estimates@.take(index as int));
        match estimates[index] {
            Some(bytes) => {
                total = if bytes > u64::MAX - total {
                    u64::MAX
                } else {
                    total + bytes
                };
                matched = true;
                assert(estimates@[index as int] is Some);
            },
            None => {},
        }
        index += 1;
    }
    assert(estimates@.take(index as int) =~= estimates@);
    if matched {
        Some(total)
    } else {
        None
    }
}

/// The prefix of the columns of a table that a rule knows.
pub open spec fn known_prefix(table: Seq<char>) -> Option<Seq<char>> {
    if table == "lineitem"@ {
        Some("l_"@)
    } else if table == "orders"@ {
        Some("o_"@)
    } else if table == "customer"@ {
        Some("c_"@)
    } else if table == "supplier"@ {
        Some("s_"@)
    } else if table == "partsupp"@ {
        Some("ps_"@)
    } else if table == "part"@ {
        Some("p_"@)
    } else if table == "nation"@ {
        Some("n_"@)
    } else if table == "region"@ {
        Some("r_"@)
    } else {
        None
    }
}

/// The prefix of the columns of a table that a rule knows.
fn read_known_prefix(table: &str) -> (prefix: Option<&'static str>)
    ensures
        match known_prefix(table@) {
            Some(expected) => prefix matches Some(prefix) && prefix@ == expected,
            None => prefix is None,
        },
{
    if str_eq(table, "lineitem") {
        Some("l_")
    } else if str_eq(table, "orders") {
        Some("o_")
    } else if str_eq(table, "customer") {
        Some("c_")
    } else if str_eq(table, "supplier") {
        Some("s_")
    } else if str_eq(table, "partsupp") {
        Some("ps_")
    } else if str_eq(table, "part") {
        Some("p_")
    } else if str_eq(table, "nation") {
        Some("n_")
    } else if str_eq(table, "region") {
        Some("r_")
    } else {
        None
    }
}

/// The columns with a prefix, all of them without one.
pub open spec fn columns_with(columns: Seq<Seq<char>>, prefix: Option<Seq<char>>) -> Seq<Seq<char>>
    decreases columns.len(),
{
    if columns.len() == 0 {
        Seq::empty()
    } else if prefix matches Some(prefix) && !has_prefix(columns.last(), prefix) {
        columns_with(columns.drop_last(), prefix)
    } else {
        columns_with(columns.drop_last(), prefix).push(columns.last())
    }
}

/// The columns of a table among those that a rule reads, each once: all of them where the
/// table is not known.
pub fn required_columns_for_table(path: &str, required_columns: &[&str]) -> (columns: Vec<String>)
    ensures
        texts(columns@) == with_columns(
            Seq::empty(),
            columns_with(slice_texts(required_columns@), known_prefix(lowered(table_name(path@)))),
        ),
{
    let file = table_file_name(path);
    let table = to_ascii_lowercase(file.as_str());
    let prefix = read_known_prefix(table.as_str());
    let ghost all = slice_texts(required_columns@);
    let ghost wanted = known_prefix(lowered(table_name(path@)));
    let mut columns: Vec<String> = Vec::new();
    let mut index: usize = 0;
    proof {
        assert(all.take(0) =~= Seq::empty());
        assert(texts(columns@) =~= Seq::empty());
    }
    while index < required_columns.len()
        invariant
            index <= required_columns@.len(),
            all == slice_texts(required_columns@),
            match wanted {
                Some(expected) => prefix matches Some(prefix) && prefix@ == expected,
                None => prefix is None,
            },
            texts(columns@) == columns_with(all.take(index as int), wanted),
        decreases required_columns@.len() - index,
    {
        let column = required_columns[index];
        proof {
            assert(all.take(index + 1).drop_last() =~= all.take(index as int));
            assert(all.take(index + 1).last() == column@);
        }
        let keep = match prefix {
            Some(prefix) => starts_with(column, prefix),
            None => true,
        };
        if keep {
            let ghost before = columns@;
            columns.push(string_from(chars_of(column).as_slice()));
            assert(texts(columns@) =~= texts(before).push(column@));
        }
        index += 1;
    }
    assert(all.take(index as int) =~= all);
    let mut once: Vec<String> = Vec::new();
    assert(texts(once@) =~= Seq::empty());
    crate::names::add_columns_once(&mut once, columns);
    once
}

} // verus!
