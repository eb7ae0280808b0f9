//! Reading the parser's statements into the crate's own.
//!
//! Reading goes down level by level, to a depth that is given; what lies below it is
//! `Other`. A text is read to the depth of its length.

use sqlparser::ast::{
    CaseWhen, Expr, Function, FunctionArg, GroupByExpr, Join, JoinConstraint, JoinOperator,
    LimitClause, ObjectNamePart, OrderBy, OrderByExpr, Query, Select, SelectItem, SetExpr,
    Statement, TableFactor, TableWithJoins, ValueWithSpan,
};
use std::sync::Arc;
use vstd::prelude::*;
use crate::ast::{
    FromTable, FunctionExtras, GroupBy, JoinKind, JoinOn, JoinedTable, LimitAst, OrderClause,
    OrderKey, QueryAst, QueryBody, SelectAst, SelectEntry, SelectEntryKind, SqlBinaryOperator,
    SqlExpr, SqlExprKind, SqlFunction, SqlFunctionArg, SqlValue, StatementAst, TableSource,
    WhenBranch,
};
use crate::channel_flush::{finds_unnamed_channel, TokenHead};
use crate::error::{fails_unsupported, SqlError, SqlResult};
use crate::sql_bridge::{
    breaks_off, case_when_parts, case_when_parts_of, combining_operator, combining_operator_of,
    comparison_operator, comparison_operator_of, expr_text, expr_text_of, form_head, form_head_of,
    function_arg_head, function_arg_head_of, function_args_parts, function_args_parts_of,
    function_parts, function_parts_of, group_by_parts, group_by_parts_of, group_by_text,
    group_by_text_of, join_condition, join_condition_of, join_operator_head, join_operator_head_of,
    join_parts, join_parts_of, leaf_head, leaf_head_of, limit_parts, limit_parts_of, name_part,
    name_part_of, operator_head, operator_head_of, order_by_expr_parts, order_by_expr_parts_of,
    order_by_parts, order_by_parts_of, order_by_text, order_by_text_of, parse_statements,
    parsed_statements, query_extras, query_extras_of, query_parts, query_parts_of, select_distinct,
    select_distinct_of, select_extras, select_extras_of, select_item_head, select_item_head_of,
    select_item_text, select_item_text_of, select_parts, select_parts_of, set_expr_head,
    set_expr_head_of, statement_query, statement_query_of, table_extras, table_extras_of,
    table_factor_head, table_factor_head_of, table_parts, table_parts_of, test_head, test_head_of,
    token_head, token_heads, tokenize, unary_operator, unary_operator_of, value_kind, value_kind_of,
    value_text, value_text_of, ExprHead, FunctionArgHead, JoinOperatorHead, LikeParts,
    SelectItemHead, SetExprHead, TableFactorHead,
};
use crate::text::{join_with, joined_with, texts};

verus! {

/// What an expression of the parser is.
pub open spec fn expr_head_of(expr: Expr) -> ExprHead {
    match leaf_head_of(expr) {
        Ok(head) => head,
        Err(expr) => match operator_head_of(expr) {
            Ok(head) => head,
            Err(expr) => match test_head_of(expr) {
                Ok(head) => head,
                Err(expr) => form_head_of(expr),
            },
        },
    }
}

/// What an expression of the parser is.
fn expr_head(expr: Expr) -> (head: ExprHead)
    ensures
        head == expr_head_of(expr),
{
    match leaf_head(expr) {
        Ok(head) => head,
        Err(expr) => match operator_head(expr) {
            Ok(head) => head,
            Err(expr) => match test_head(expr) {
                Ok(head) => head,
                Err(expr) => form_head(expr),
            },
        },
    }
}

/// Which operator stands between two expressions.
pub open spec fn operator_between(op: sqlparser::ast::BinaryOperator) -> SqlBinaryOperator {
    match comparison_operator_of(op) {
        Some(operator) => operator,
        None => combining_operator_of(op),
    }
}

/// The identifiers that the parts of a name are, `None` where one is none.
pub open spec fn identifiers_of(parts: Seq<ObjectNamePart>) -> Option<Seq<String>>
    decreases parts.len(),
{
    if parts.len() == 0 {
        Some(Seq::empty())
    } else {
        match (identifiers_of(parts.drop_last()), name_part_of(parts.last())) {
            (Some(earlier), Some(name)) => Some(earlier.push(name)),
            _ => None,
        }
    }
}

/// Whether a reading of a name holds its identifiers.
pub open spec fn reads_name(names: Option<Vec<String>>, parts: Seq<ObjectNamePart>) -> bool {
    match names {
        Some(names) => identifiers_of(parts) == Some(names@),
        None => identifiers_of(parts) is None,
    }
}

/// A prefix of a name that has a part which is no identifier has no identifiers.
proof fn lemma_identifiers_prefix(parts: Seq<ObjectNamePart>, count: int)
    requires
        0 <= count <= parts.len(),
        identifiers_of(parts.take(count)) is None,
    ensures
        identifiers_of(parts) is None,
    decreases parts.len() - count,
{
    if count < parts.len() {
        assert(parts.take(count + 1).drop_last() =~= parts.take(count));
        lemma_identifiers_prefix(parts, count + 1);
    } else {
        assert(parts.take(count) =~= parts);
    }
}

/// Reads a name.
fn read_name(parts: Vec<ObjectNamePart>) -> (names: Option<Vec<String>>)
    ensures
        reads_name(names, parts@),
{
    let ghost all = parts@;
    let mut names: Vec<String> = Vec::new();
    let mut missing = false;
    assert(all.take(0) =~= Seq::empty());
    for part in rest: parts
        invariant
            rest.seq() == all,
            missing ==> identifiers_of(all) is None,
            !missing ==> identifiers_of(all.take(rest.index())) == Some(names@),
    {
        let ghost index = rest.index();
        proof {
            assert(part == all[index]);
            assert(all.take(index + 1).drop_last() =~= all.take(index));
            assert(all.take(index + 1).last() == part);
        }
        if !missing {
            match name_part(part) {
                Some(name) => {
                    names.push(name);
                },
                None => {
                    missing = true;
                    proof {
                        lemma_identifiers_prefix(all, index + 1);
                    }
                },
            }
        }
    }
    assert(all.take(all.len() as int) =~= all);
    if missing {
        None
    } else {
        Some(names)
    }
}

/// Whether a text is a name, its identifiers with dots between them.
pub open spec fn reads_dotted(text: Option<String>, parts: Seq<ObjectNamePart>) -> bool {
    match identifiers_of(parts) {
        Some(names) => text matches Some(text) && text@ == joined_with(texts(names), "."@),
        None => text is None,
    }
}

/// Reads a name as one text.
fn read_dotted(parts: Vec<ObjectNamePart>) -> (text: Option<String>)
    ensures
        reads_dotted(text, parts@),
{
    match read_name(parts) {
        Some(names) => Some(join_with(names.as_slice(), ".")),
        None => None,
    }
}

/// Whether a literal is read as it is.
pub open spec fn reads_value(ast: SqlValue, value: ValueWithSpan) -> bool {
    ast.text@ == value_text_of(value) && ast.kind == value_kind_of(value)
}

/// Reads a literal.
fn read_value(value: ValueWithSpan) -> (ast: SqlValue)
    ensures
        reads_value(ast, value),
{
    let text = value_text(&value);
    SqlValue { text, kind: value_kind(value) }
}

/// Whether an optional literal is read as it is.
pub open spec fn reads_optional_value(ast: Option<SqlValue>, value: Option<ValueWithSpan>) -> bool {
    match (ast, value) {
        (Some(ast), Some(value)) => reads_value(ast, value),
        (None, None) => true,
        _ => false,
    }
}

/// Whether an expression is read as it is.
pub open spec fn reads_expr(ast: SqlExpr, expr: Expr, depth: nat) -> bool
    decreases depth, 1nat,
{
    &&& ast.text@ == expr_text_of(expr)
    &&& reads_expr_kind(ast.kind, expr, depth)
}

/// Whether the parts of an expression are read as they are.
pub open spec fn reads_expr_kind(kind: SqlExprKind, expr: Expr, depth: nat) -> bool
    decreases depth, 0nat,
{
    if depth == 0 {
        kind is Other
    } else {
        let below = (depth - 1) as nat;
        match expr_head_of(expr) {
            ExprHead::Identifier(name) => kind == SqlExprKind::Identifier(name),
            ExprHead::CompoundIdentifier(names) => kind == SqlExprKind::CompoundIdentifier(names),
            ExprHead::Value(value) => kind matches SqlExprKind::Value(ast) && reads_value(ast, value),
            ExprHead::TypedString(written, value) => kind matches SqlExprKind::TypedString {
                data_type,
                value: ast,
            } && data_type == written && reads_value(ast, value),
            ExprHead::Function(function) => kind matches SqlExprKind::Function(ast)
                && reads_function(ast, function, below),
            ExprHead::BinaryOp(first, operator, second) => kind matches SqlExprKind::BinaryOp {
                left,
                op,
                right,
            } && op == operator_between(operator) && reads_expr(*left, *first, below)
                && reads_expr(*right, *second, below),
            ExprHead::UnaryOp(operator, operand) => kind matches SqlExprKind::UnaryOp { op, expr }
                && op == unary_operator_of(operator) && reads_expr(*expr, *operand, below),
            ExprHead::Nested(inner) => kind matches SqlExprKind::Nested(ast) && reads_expr(
                *ast,
                *inner,
                below,
            ),
            ExprHead::IsNull(inner) => kind matches SqlExprKind::IsNull(ast) && reads_expr(
                *ast,
                *inner,
                below,
            ),
            ExprHead::IsNotNull(inner) => kind matches SqlExprKind::IsNotNull(ast) && reads_expr(
                *ast,
                *inner,
                below,
            ),
            ExprHead::InList(tested, items, not) => kind matches SqlExprKind::InList {
                expr,
                list,
                negated,
            } && negated == not && reads_expr(*expr, *tested, below) && reads_exprs(
                list@,
                items@,
                below,
            ),
            ExprHead::InSubquery(tested, query, not) => kind matches SqlExprKind::InSubquery {
                expr,
                subquery,
                negated,
            } && negated == not && reads_expr(*expr, *tested, below) && reads_query(
                *subquery,
                *query,
                below,
            ),
            ExprHead::Between(tested, not, from, to) => kind matches SqlExprKind::Between {
                expr,
                negated,
                low,
                high,
            } && negated == not && reads_expr(*expr, *tested, below) && reads_expr(
                *low,
                *from,
                below,
            ) && reads_expr(*high, *to, below),
            ExprHead::Like(parts) => reads_like(kind, parts, false, below),
            ExprHead::ILike(parts) => reads_like(kind, parts, true, below),
            ExprHead::Exists(query, not) => kind matches SqlExprKind::Exists { subquery, negated }
                && negated == not && reads_query(*subquery, *query, below),
            ExprHead::Subquery(query) => kind matches SqlExprKind::Subquery(ast) && reads_query(
                *ast,
                *query,
                below,
            ),
            ExprHead::Case(chosen, whens, otherwise) => kind matches SqlExprKind::Case {
                operand,
                conditions,
                else_result,
            } && reads_optional(operand, chosen, below) && reads_whens(conditions@, whens@, below)
                && reads_optional(else_result, otherwise, below),
            ExprHead::Cast(inner, target) => kind matches SqlExprKind::Cast { expr, data_type }
                && data_type == target && reads_expr(*expr, *inner, below),
            ExprHead::Substring(cut, from, length) => kind matches SqlExprKind::Substring {
                expr,
                substring_from,
                substring_for,
            } && reads_expr(*expr, *cut, below) && reads_optional(substring_from, from, below)
                && reads_optional(substring_for, length, below),
            ExprHead::CompoundFieldAccess => kind is CompoundFieldAccess,
            ExprHead::Wildcard => kind is Wildcard,
            ExprHead::QualifiedWildcard => kind is QualifiedWildcard,
            ExprHead::Other => kind is Other,
        }
    }
}

/// Whether a `LIKE` is read as it is.
pub open spec fn reads_like(
    kind: SqlExprKind,
    parts: LikeParts,
    any_case: bool,
    depth: nat,
) -> bool
    decreases depth, 2nat,
{
    kind matches SqlExprKind::Like { expr, pattern, negated, any, escape_char, case_insensitive }
        && negated == parts.negated && any == parts.any && case_insensitive == any_case
        && reads_optional_value(escape_char, parts.escape_char) && reads_expr(
        *expr,
        *parts.expr,
        depth,
    ) && reads_expr(*pattern, *parts.pattern, depth)
}

/// Whether an optional expression is read as it is.
pub open spec fn reads_optional(
    ast: Option<Box<SqlExpr>>,
    expr: Option<Box<Expr>>,
    depth: nat,
) -> bool
    decreases depth, 2nat,
{
    match (ast, expr) {
        (Some(ast), Some(expr)) => reads_expr(*ast, *expr, depth),
        (None, None) => true,
        _ => false,
    }
}

/// Whether an optional clause is read as it is.
pub open spec fn reads_clause(ast: Option<SqlExpr>, expr: Option<Expr>, depth: nat) -> bool
    decreases depth, 2nat,
{
    match (ast, expr) {
        (Some(ast), Some(expr)) => reads_expr(ast, expr, depth),
        (None, None) => true,
        _ => false,
    }
}

/// Whether expressions are read as they are.
pub open spec fn reads_exprs(asts: Seq<SqlExpr>, exprs: Seq<Expr>, depth: nat) -> bool
    decreases depth, 2nat,
{
    &&& asts.len() == exprs.len()
    &&& forall|index: int|
        0 <= index < asts.len() ==> reads_expr(#[trigger] asts[index], exprs[index], depth)
}

/// Whether the branches of a `CASE` are read as they are.
pub open spec fn reads_whens(asts: Seq<WhenBranch>, whens: Seq<CaseWhen>, depth: nat) -> bool
    decreases depth, 2nat,
{
    &&& asts.len() == whens.len()
    &&& forall|index: int|
        0 <= index < asts.len() ==> reads_expr(
            (#[trigger] asts[index]).condition,
            case_when_parts_of(whens[index]).condition,
            depth,
        ) && reads_expr(asts[index].result, case_when_parts_of(whens[index]).result, depth)
}

/// Whether a function call is read as it is.
pub open spec fn reads_function(ast: SqlFunction, function: Function, depth: nat) -> bool
    decreases depth, 3nat,
{
    let parts = function_parts_of(function);
    &&& reads_dotted(ast.name, parts.name@)
    &&& match (ast.filter, parts.filter) {
        (Some(ast), Some(filter)) => reads_expr(*ast, *filter, depth),
        (None, None) => true,
        _ => false,
    }
    &&& ast.extras.null_treatment == parts.null_treatment
    &&& ast.extras.over == parts.over
    &&& ast.extras.within_group == parts.within_group
    &&& match function_args_parts_of(parts.args) {
        Some(list) => {
            &&& ast.extras.distinct == (list.duplicates == Some(true))
            &&& ast.extras.clauses == list.clauses
            &&& ast.args matches Some(args) && reads_args(args@, list.args@, depth)
        },
        None => ast.args is None && !ast.extras.distinct && ast.extras.clauses == 0,
    }
}

/// Whether the arguments of a call are read as they are.
pub open spec fn reads_args(asts: Seq<SqlFunctionArg>, args: Seq<FunctionArg>, depth: nat) -> bool
    decreases depth, 2nat,
{
    &&& asts.len() == args.len()
    &&& forall|index: int|
        0 <= index < asts.len() ==> (match function_arg_head_of(args[index]) {
            FunctionArgHead::Expr(expr) => #[trigger] asts[index] matches SqlFunctionArg::Expr(ast)
                && reads_expr(ast, expr, depth),
            FunctionArgHead::Wildcard => asts[index] is Wildcard,
            FunctionArgHead::Other => asts[index] is Other,
        })
}

/// Whether a query is read as it is.
pub open spec fn reads_query(ast: QueryAst, query: Query, depth: nat) -> bool
    decreases depth, 6nat,
{
    let parts = query_parts_of(query);
    &&& ast.extras == query_extras_of(query)
    &&& match (ast.ctes, parts.ctes) {
        (Some(asts), Some(queries)) => reads_queries(asts@, queries@, depth),
        (None, None) => true,
        _ => false,
    }
    &&& reads_body(ast.body, *parts.body, depth)
    &&& match (ast.order_by, parts.order_by) {
        (Some(ast), Some(order_by)) => reads_order_by(ast, order_by, depth),
        (None, None) => true,
        _ => false,
    }
    &&& match (ast.limit_clause, parts.limit_clause) {
        (Some(ast), Some(clause)) => reads_limit(ast, clause, depth),
        (None, None) => true,
        _ => false,
    }
}

/// Whether the queries of a `WITH` are read as they are.
pub open spec fn reads_queries(asts: Seq<QueryAst>, queries: Seq<Query>, depth: nat) -> bool
    decreases depth, 5nat,
{
    if depth == 0 {
        asts.len() == 0
    } else {
        &&& asts.len() == queries.len()
        &&& forall|index: int|
            0 <= index < asts.len() ==> reads_query(
                #[trigger] asts[index],
                queries[index],
                (depth - 1) as nat,
            )
    }
}

/// Whether an `ORDER BY` is read as it is.
pub open spec fn reads_order_by(ast: OrderClause, order_by: OrderBy, depth: nat) -> bool
    decreases depth, 4nat,
{
    let parts = order_by_parts_of(order_by);
    &&& ast.text@ == order_by_text_of(order_by)
    &&& ast.interpolate == parts.interpolate
    &&& match (ast.expressions, parts.expressions) {
        (Some(asts), Some(keys)) => {
            &&& asts@.len() == keys@.len()
            &&& forall|index: int|
                0 <= index < asts@.len() ==> reads_key(#[trigger] asts@[index], keys@[index], depth)
        },
        (None, None) => true,
        _ => false,
    }
}

/// Whether a key of an `ORDER BY` is read as it is.
pub open spec fn reads_key(ast: OrderKey, key: OrderByExpr, depth: nat) -> bool
    decreases depth, 2nat,
{
    let parts = order_by_expr_parts_of(key);
    &&& reads_expr(ast.expr, parts.expr, depth)
    &&& ast.asc == parts.asc
    &&& ast.nulls_first == parts.nulls_first
    &&& ast.with_fill == parts.with_fill
}

/// Whether a limit clause is read as it is.
pub open spec fn reads_limit(ast: LimitAst, clause: LimitClause, depth: nat) -> bool
    decreases depth, 3nat,
{
    match limit_parts_of(clause) {
        Some(parts) => ast matches LimitAst::LimitOffset { limit, offset, limit_by } && limit_by
            == parts.limit_by && reads_clause(limit, parts.limit, depth) && reads_clause(
            offset,
            parts.offset,
            depth,
        ),
        None => ast is OffsetCommaLimit,
    }
}

/// Whether the body of a query is read as it is.
pub open spec fn reads_body(ast: QueryBody, body: SetExpr, depth: nat) -> bool
    decreases depth, 4nat,
{
    if depth == 0 {
        ast is Other
    } else {
        let below = (depth - 1) as nat;
        match set_expr_head_of(body) {
            SetExprHead::Select(select) => ast matches QueryBody::Select(read) && reads_select(
                *read,
                *select,
                below,
            ),
            SetExprHead::Query(query) => ast matches QueryBody::Query(read) && reads_query(
                *read,
                *query,
                below,
            ),
            SetExprHead::SetOperation(first, second) => ast matches QueryBody::SetOperation {
                left,
                right,
            } && reads_body(*left, *first, below) && reads_body(*right, *second, below),
            SetExprHead::Other => ast is Other,
        }
    }
}

/// Whether a `SELECT` is read as it is.
pub open spec fn reads_select(ast: SelectAst, select: Select, depth: nat) -> bool
    decreases depth, 6nat,
{
    let parts = select_parts_of(select);
    &&& ast.extras == select_extras_of(select)
    &&& ast.distinct == select_distinct_of(select)
    &&& ast.projection@.len() == parts.projection@.len()
    &&& forall|index: int|
        0 <= index < ast.projection@.len() ==> reads_item(
            #[trigger] ast.projection@[index],
            parts.projection@[index],
            depth,
        )
    &&& reads_tables(ast.from@, parts.from@, depth)
    &&& reads_clause(ast.selection, parts.selection, depth)
    &&& reads_group_by(ast.group_by, parts.group_by, depth)
    &&& reads_clause(ast.having, parts.having, depth)
}

/// Whether a `GROUP BY` is read as it is.
pub open spec fn reads_group_by(ast: GroupBy, group_by: GroupByExpr, depth: nat) -> bool
    decreases depth, 3nat,
{
    let parts = group_by_parts_of(group_by);
    &&& ast.text@ == group_by_text_of(group_by)
    &&& ast.modifiers == parts.modifiers
    &&& match (ast.expressions, parts.expressions) {
        (Some(asts), Some(exprs)) => reads_exprs(asts@, exprs@, depth),
        (None, None) => true,
        _ => false,
    }
}

/// Whether an item of a `SELECT` list is read as it is.
pub open spec fn reads_item(ast: SelectEntry, item: SelectItem, depth: nat) -> bool
    decreases depth, 2nat,
{
    &&& ast.text@ == select_item_text_of(item)
    &&& match select_item_head_of(item) {
        SelectItemHead::UnnamedExpr(expr) => ast.kind matches SelectEntryKind::UnnamedExpr(read)
            && reads_expr(read, expr, depth),
        SelectItemHead::ExprWithAlias(expr, name) => ast.kind matches SelectEntryKind::ExprWithAlias {
            expr: read,
            alias,
        } && alias == name && reads_expr(read, expr, depth),
        SelectItemHead::ExprWithAliases => ast.kind is ExprWithAliases,
        SelectItemHead::QualifiedName(parts) => ast.kind matches SelectEntryKind::QualifiedWildcard(
            name,
        ) && reads_dotted(name, parts@),
        SelectItemHead::QualifiedExpr => ast.kind == SelectEntryKind::QualifiedWildcard(None),
        SelectItemHead::Wildcard => ast.kind is Wildcard,
    }
}

/// Whether the tables of a `FROM` are read as they are.
pub open spec fn reads_tables(asts: Seq<FromTable>, tables: Seq<TableWithJoins>, depth: nat) -> bool
    decreases depth, 5nat,
{
    &&& asts.len() == tables.len()
    &&& forall|index: int|
        0 <= index < asts.len() ==> reads_table(#[trigger] asts[index], tables[index], depth)
}

/// Whether a table of a `FROM` is read as it is.
pub open spec fn reads_table(ast: FromTable, table: TableWithJoins, depth: nat) -> bool
    decreases depth, 4nat,
{
    let parts = table_parts_of(table);
    &&& reads_source(ast.relation, parts.relation, depth)
    &&& ast.joins@.len() == parts.joins@.len()
    &&& forall|index: int|
        0 <= index < ast.joins@.len() ==> reads_join(
            #[trigger] ast.joins@[index],
            parts.joins@[index],
            depth,
        )
}

/// Whether what a `FROM` reads is read as it is.
pub open spec fn reads_source(ast: TableSource, factor: TableFactor, depth: nat) -> bool
    decreases depth, 2nat,
{
    if depth == 0 {
        ast is Other
    } else {
        let below = (depth - 1) as nat;
        match table_factor_head_of(factor) {
            TableFactorHead::Table(parts, written) => match table_extras_of(factor) {
                Some(said) => ast matches TableSource::Table { name, alias, extras } && alias
                    == written && extras == said && reads_name(name, parts@),
                None => ast is Other,
            },
            TableFactorHead::Derived(query, written) => ast matches TableSource::Derived {
                subquery,
                alias,
            } && alias == written && reads_query(*subquery, *query, below),
            TableFactorHead::TableFunction => ast is TableFunction,
            TableFactorHead::NestedJoin(table) => ast matches TableSource::NestedJoin(read)
                && reads_table(*read, *table, below),
            TableFactorHead::Other => ast is Other,
        }
    }
}

/// Whether a joined table is read as it is.
pub open spec fn reads_join(ast: JoinedTable, join: Join, depth: nat) -> bool
    decreases depth, 3nat,
{
    let parts = join_parts_of(join);
    &&& reads_source(ast.relation, parts.relation, depth)
    &&& match join_operator_head_of(parts.operator) {
        JoinOperatorHead::Join(constraint) => ast.operator matches JoinKind::Inner(read)
            && reads_on(read, constraint, depth),
        JoinOperatorHead::Inner(constraint) => ast.operator matches JoinKind::Inner(read)
            && reads_on(read, constraint, depth),
        JoinOperatorHead::Left(constraint) => ast.operator matches JoinKind::Left(read)
            && reads_on(read, constraint, depth),
        JoinOperatorHead::LeftOuter(constraint) => ast.operator matches JoinKind::Left(read)
            && reads_on(read, constraint, depth),
        JoinOperatorHead::Semi(constraint) => ast.operator matches JoinKind::Semi(read)
            && reads_on(read, constraint, depth),
        JoinOperatorHead::LeftSemi(constraint) => ast.operator matches JoinKind::Semi(read)
            && reads_on(read, constraint, depth),
        JoinOperatorHead::Other => ast.operator is Other,
    }
}

/// Whether the condition of a join is read as it is.
pub open spec fn reads_on(ast: JoinOn, constraint: JoinConstraint, depth: nat) -> bool
    decreases depth, 2nat,
{
    match join_condition_of(constraint) {
        Some(condition) => ast matches JoinOn::On(read) && reads_expr(read, condition, depth),
        None => ast is Other,
    }
}

/// Whether a statement is read as it is.
pub open spec fn reads_statement(ast: StatementAst, statement: Statement, depth: nat) -> bool {
    match statement_query_of(statement) {
        Some(query) => ast matches StatementAst::Query(read) && reads_query(*read, *query, depth),
        None => ast is Other,
    }
}

/// Reads an expression.
fn read_expr(expr: Expr, depth: usize) -> (ast: SqlExpr)
    ensures
        reads_expr(ast, expr, depth as nat),
    decreases depth, 0nat,
{
    let ghost whole = expr;
    let text = expr_text(&expr);
    if depth == 0 {
        assert(reads_expr_kind(SqlExprKind::Other, whole, 0));
        return SqlExpr { text, kind: SqlExprKind::Other };
    }
    let below: usize = depth - 1;
    let kind = match expr_head(expr) {
        ExprHead::Identifier(name) => SqlExprKind::Identifier(name),
        ExprHead::CompoundIdentifier(names) => SqlExprKind::CompoundIdentifier(names),
        ExprHead::Value(value) => SqlExprKind::Value(read_value(value)),
        ExprHead::TypedString(data_type, value) => {
            let value = read_value(value);
            SqlExprKind::TypedString { data_type, value }
        },
        ExprHead::Function(function) => SqlExprKind::Function(read_function(function, below)),
        ExprHead::BinaryOp(left, op, right) => {
            let op = match comparison_operator(&op) {
                Some(operator) => operator,
                None => combining_operator(&op),
            };
            let left = Box::new(read_expr(*left, below));
            let right = Box::new(read_expr(*right, below));
            SqlExprKind::BinaryOp { left, op, right }
        },
        ExprHead::UnaryOp(op, expr) => {
            let op = unary_operator(&op);
            SqlExprKind::UnaryOp { op, expr: Box::new(read_expr(*expr, below)) }
        },
        ExprHead::Nested(expr) => SqlExprKind::Nested(Box::new(read_expr(*expr, below))),
        ExprHead::IsNull(expr) => SqlExprKind::IsNull(Box::new(read_expr(*expr, below))),
        ExprHead::IsNotNull(expr) => SqlExprKind::IsNotNull(Box::new(read_expr(*expr, below))),
        ExprHead::InList(expr, list, negated) => {
            let expr = Box::new(read_expr(*expr, below));
            let list = read_exprs(list, below);
            SqlExprKind::InList { expr, list, negated }
        },
        ExprHead::InSubquery(expr, subquery, negated) => {
            let expr = Box::new(read_expr(*expr, below));
            let subquery = Box::new(read_query(*subquery, below));
            SqlExprKind::InSubquery { expr, subquery, negated }
        },
        ExprHead::Between(expr, negated, low, high) => {
            let expr = Box::new(read_expr(*expr, below));
            let low = Box::new(read_expr(*low, below));
            let high = Box::new(read_expr(*high, below));
            SqlExprKind::Between { expr, negated, low, high }
        },
        ExprHead::Like(parts) => read_like(parts, false, below),
        ExprHead::ILike(parts) => read_like(parts, true, below),
        ExprHead::Exists(subquery, negated) => {
            let subquery = Box::new(read_query(*subquery, below));
            SqlExprKind::Exists { subquery, negated }
        },
        ExprHead::Subquery(subquery) => SqlExprKind::Subquery(
            Box::new(read_query(*subquery, below)),
        ),
        ExprHead::Case(operand, conditions, else_result) => {
            let operand = read_optional(operand, below);
            let conditions = read_whens(conditions, below);
            let else_result = read_optional(else_result, below);
            SqlExprKind::Case { operand, conditions, else_result }
        },
        ExprHead::Cast(expr, data_type) => {
            let expr = Box::new(read_expr(*expr, below));
            SqlExprKind::Cast { expr, data_type }
        },
        ExprHead::Substring(expr, from, length) => {
            let expr = Box::new(read_expr(*expr, below));
            let substring_from = read_optional(from, below);
            let substring_for = read_optional(length, below);
            SqlExprKind::Substring { expr, substring_from, substring_for }
        },
        ExprHead::CompoundFieldAccess => SqlExprKind::CompoundFieldAccess,
        ExprHead::Wildcard => SqlExprKind::Wildcard,
        ExprHead::QualifiedWildcard => SqlExprKind::QualifiedWildcard,
        ExprHead::Other => SqlExprKind::Other,
    };
    assert(reads_expr_kind(kind, whole, depth as nat));
    SqlExpr { text, kind }
}

/// Reads a `LIKE`.
fn read_like(parts: LikeParts, case_insensitive: bool, depth: usize) -> (kind: SqlExprKind)
    ensures
        reads_like(kind, parts, case_insensitive, depth as nat),
    decreases depth, 1nat,
{
    let expr = Box::new(read_expr(*parts.expr, depth));
    let pattern = Box::new(read_expr(*parts.pattern, depth));
    let escape_char = match parts.escape_char {
        Some(value) => Some(read_value(value)),
        None => None,
    };
    SqlExprKind::Like {
        expr,
        pattern,
        negated: parts.negated,
        any: parts.any,
        escape_char,
        case_insensitive,
    }
}

/// Reads an optional expression.
fn read_optional(expr: Option<Box<Expr>>, depth: usize) -> (ast: Option<Box<SqlExpr>>)
    ensures
        reads_optional(ast, expr, depth as nat),
    decreases depth, 1nat,
{
    match expr {
        Some(expr) => Some(Box::new(read_expr(*expr, depth))),
        None => None,
    }
}

/// Reads an optional clause.
fn read_clause(expr: Option<Expr>, depth: usize) -> (ast: Option<SqlExpr>)
    ensures
        reads_clause(ast, expr, depth as nat),
    decreases depth, 1nat,
{
    match expr {
        Some(expr) => Some(read_expr(expr, depth)),
        None => None,
    }
}

/// Reads expressions.
fn read_exprs(items: Vec<Expr>, depth: usize) -> (asts: Vec<SqlExpr>)
    ensures
        reads_exprs(asts@, items@, depth as nat),
        asts@.len() == items@.len(),
        forall|index: int|
            0 <= index < asts@.len() ==> reads_expr(
                #[trigger] asts@[index],
                items@[index],
                depth as nat,
            ),
    decreases depth, 1nat,
{
    let ghost all = items@;
    let mut asts: Vec<SqlExpr> = Vec::new();
    for item in rest: items
        invariant
            rest.seq() == all,
            asts@.len() == rest.index(),
            forall|index: int|
                0 <= index < asts@.len() ==> reads_expr(
                    #[trigger] asts@[index],
                    all[index],
                    depth as nat,
                ),
    {
        assert(item == all[rest.index()]);
        asts.push(read_expr(item, depth));
    }
    asts
}

/// Reads one branch of a `CASE`.
fn read_when(when: CaseWhen, depth: usize) -> (ast: WhenBranch)
    ensures
        reads_expr(ast.condition, case_when_parts_of(when).condition, depth as nat),
        reads_expr(ast.result, case_when_parts_of(when).result, depth as nat),
    decreases depth, 1nat,
{
    let parts = case_when_parts(when);
    let condition = read_expr(parts.condition, depth);
    let result = read_expr(parts.result, depth);
    WhenBranch { condition, result }
}

/// Reads the branches of a `CASE`.
fn read_whens(items: Vec<CaseWhen>, depth: usize) -> (asts: Vec<WhenBranch>)
    ensures
        reads_whens(asts@, items@, depth as nat),
        asts@.len() == items@.len(),
        forall|index: int|
            0 <= index < asts@.len() ==> reads_expr(
                (#[trigger] asts@[index]).condition,
                case_when_parts_of(items@[index]).condition,
                depth as nat,
            ) && reads_expr(asts@[index].result, case_when_parts_of(items@[index]).result, depth as nat),
    decreases depth, 2nat,
{
    let ghost all = items@;
    let mut asts: Vec<WhenBranch> = Vec::new();
    for item in rest: items
        invariant
            rest.seq() == all,
            asts@.len() == rest.index(),
            forall|index: int|
                0 <= index < asts@.len() ==> reads_expr(
                (#[trigger] asts@[index]).condition,
                case_when_parts_of(all[index]).condition,
                depth as nat,
            ) && reads_expr(asts@[index].result, case_when_parts_of(all[index]).result, depth as nat),
    {
        assert(item == all[rest.index()]);
        asts.push(read_when(item, depth));
    }
    asts
}

/// Reads a function call.
fn read_function(function: Function, depth: usize) -> (ast: SqlFunction)
    ensures
        reads_function(ast, function, depth as nat),
    decreases depth, 3nat,
{
    let parts = function_parts(function);
    let name = read_dotted(parts.name);
    let mut extras = FunctionExtras {
        distinct: false,
        null_treatment: parts.null_treatment,
        over: parts.over,
        within_group: parts.within_group,
        clauses: 0,
    };
    let filter = match parts.filter {
        Some(filter) => Some(Arc::new(read_expr(*filter, depth))),
        None => None,
    };
    match function_args_parts(parts.args) {
        Some(list) => {
            extras.distinct = match list.duplicates {
                Some(distinct) => distinct,
                None => false,
            };
            extras.clauses = list.clauses;
            let args = read_args(list.args, depth);
            SqlFunction { name, args: Some(args), filter, extras }
        },
        None => SqlFunction { name, args: None, filter, extras },
    }
}

/// Reads an argument of a call.
fn read_arg(arg: FunctionArg, depth: usize) -> (ast: SqlFunctionArg)
    ensures
        match function_arg_head_of(arg) {
            FunctionArgHead::Expr(expr) => ast matches SqlFunctionArg::Expr(read) && reads_expr(
                read,
                expr,
                depth as nat,
            ),
            FunctionArgHead::Wildcard => ast is Wildcard,
            FunctionArgHead::Other => ast is Other,
        },
    decreases depth, 1nat,
{
    match function_arg_head(arg) {
        FunctionArgHead::Expr(expr) => SqlFunctionArg::Expr(read_expr(expr, depth)),
        FunctionArgHead::Wildcard => SqlFunctionArg::Wildcard,
        FunctionArgHead::Other => SqlFunctionArg::Other,
    }
}

/// Reads the arguments of a call.
fn read_args(args: Vec<FunctionArg>, depth: usize) -> (asts: Vec<SqlFunctionArg>)
    ensures
        reads_args(asts@, args@, depth as nat),
    decreases depth, 2nat,
{
    let ghost all = args@;
    let mut asts: Vec<SqlFunctionArg> = Vec::new();
    for item in rest: args
        invariant
            rest.seq() == all,
            asts@.len() == rest.index(),
            forall|index: int|
                0 <= index < asts@.len() ==> (match function_arg_head_of(all[index]) {
                    FunctionArgHead::Expr(expr) => #[trigger] asts@[index] matches SqlFunctionArg::Expr(
                        ast,
                    ) && reads_expr(ast, expr, depth as nat),
                    FunctionArgHead::Wildcard => asts@[index] is Wildcard,
                    FunctionArgHead::Other => asts@[index] is Other,
                }),
    {
        assert(item == all[rest.index()]);
        asts.push(read_arg(item, depth));
    }
    asts
}

/// Reads a query.
fn read_query(query: Query, depth: usize) -> (ast: QueryAst)
    ensures
        reads_query(ast, query, depth as nat),
    decreases depth, 8nat,
{
    let extras = query_extras(&query);
    let parts = query_parts(query);
    let ctes = match parts.ctes {
        Some(queries) => Some(read_queries(queries, depth)),
        None => None,
    };
    let body = read_body(*parts.body, depth);
    let order_by = match parts.order_by {
        Some(order_by) => Some(read_order_by(order_by, depth)),
        None => None,
    };
    let limit_clause = match parts.limit_clause {
        Some(clause) => Some(read_limit(clause, depth)),
        None => None,
    };
    QueryAst { ctes, body, order_by, limit_clause, extras }
}

/// Reads the queries of a `WITH`.
fn read_queries(queries: Vec<Query>, depth: usize) -> (asts: Vec<QueryAst>)
    ensures
        reads_queries(asts@, queries@, depth as nat),
    decreases depth, 7nat,
{
    let ghost all = queries@;
    let mut asts: Vec<QueryAst> = Vec::new();
    if depth == 0 {
        return asts;
    }
    let below: usize = depth - 1;
    for item in rest: queries
        invariant
            rest.seq() == all,
            below == depth - 1,
            asts@.len() == rest.index(),
            forall|index: int|
                0 <= index < asts@.len() ==> reads_query(
                    #[trigger] asts@[index],
                    all[index],
                    below as nat,
                ),
    {
        assert(item == all[rest.index()]);
        asts.push(read_query(item, below));
    }
    asts
}

/// Reads an `ORDER BY`.
fn read_order_by(order_by: OrderBy, depth: usize) -> (ast: OrderClause)
    ensures
        reads_order_by(ast, order_by, depth as nat),
    decreases depth, 3nat,
{
    let text = order_by_text(&order_by);
    let parts = order_by_parts(order_by);
    let expressions = match parts.expressions {
        Some(keys) => Some(read_keys(keys, depth)),
        None => None,
    };
    OrderClause { text, expressions, interpolate: parts.interpolate }
}

/// Reads a key of an `ORDER BY`.
fn read_key(key: OrderByExpr, depth: usize) -> (ast: OrderKey)
    ensures
        reads_key(ast, key, depth as nat),
    decreases depth, 1nat,
{
    let parts = order_by_expr_parts(key);
    OrderKey {
        expr: read_expr(parts.expr, depth),
        asc: parts.asc,
        nulls_first: parts.nulls_first,
        with_fill: parts.with_fill,
    }
}

/// Reads the keys of an `ORDER BY`.
fn read_keys(items: Vec<OrderByExpr>, depth: usize) -> (asts: Vec<OrderKey>)
    ensures
        asts@.len() == items@.len(),
        forall|index: int|
            0 <= index < asts@.len() ==> reads_key(
                #[trigger] asts@[index],
                items@[index],
                depth as nat,
            ),
    decreases depth, 2nat,
{
    let ghost all = items@;
    let mut asts: Vec<OrderKey> = Vec::new();
    for item in rest: items
        invariant
            rest.seq() == all,
            asts@.len() == rest.index(),
            forall|index: int|
                0 <= index < asts@.len() ==> reads_key(
                    #[trigger] asts@[index],
                    all[index],
                    depth as nat,
                ),
    {
        assert(item == all[rest.index()]);
        asts.push(read_key(item, depth));
    }
    asts
}

/// Reads a limit clause.
fn read_limit(clause: LimitClause, depth: usize) -> (ast: LimitAst)
    ensures
        reads_limit(ast, clause, depth as nat),
    decreases depth, 2nat,
{
    match limit_parts(clause) {
        Some(parts) => {
            let limit = read_clause(parts.limit, depth);
            let offset = read_clause(parts.offset, depth);
            LimitAst::LimitOffset { limit, offset, limit_by: parts.limit_by }
        },
        None => LimitAst::OffsetCommaLimit,
    }
}

/// Reads the body of a query.
fn read_body(body: SetExpr, depth: usize) -> (ast: QueryBody)
    ensures
        reads_body(ast, body, depth as nat),
    decreases depth, 3nat,
{
    if depth == 0 {
        return QueryBody::Other;
    }
    let below: usize = depth - 1;
    match set_expr_head(body) {
        SetExprHead::Select(select) => QueryBody::Select(Box::new(read_select(*select, below))),
        SetExprHead::Query(query) => QueryBody::Query(Box::new(read_query(*query, below))),
        SetExprHead::SetOperation(left, right) => {
            let left = Box::new(read_body(*left, below));
            let right = Box::new(read_body(*right, below));
            QueryBody::SetOperation { left, right }
        },
        SetExprHead::Other => QueryBody::Other,
    }
}

/// Reads a `SELECT`.
fn read_select(select: Select, depth: usize) -> (ast: SelectAst)
    ensures
        reads_select(ast, select, depth as nat),
    decreases depth, 8nat,
{
    let extras = select_extras(&select);
    let distinct = select_distinct(&select);
    let parts = select_parts(select);
    let projection = read_items(parts.projection, depth);
    let from = read_tables(parts.from, depth);
    let selection = read_clause(parts.selection, depth);
    let group_by = read_group_by(parts.group_by, depth);
    let having = read_clause(parts.having, depth);
    SelectAst { distinct, projection, from, selection, group_by, having, extras }
}

/// Reads a `GROUP BY`.
fn read_group_by(group_by: GroupByExpr, depth: usize) -> (ast: GroupBy)
    ensures
        reads_group_by(ast, group_by, depth as nat),
    decreases depth, 2nat,
{
    let text = group_by_text(&group_by);
    let parts = group_by_parts(group_by);
    let expressions = match parts.expressions {
        Some(exprs) => Some(read_exprs(exprs, depth)),
        None => None,
    };
    GroupBy { text, expressions, modifiers: parts.modifiers }
}

/// Reads an item of a `SELECT` list.
fn read_item(item: SelectItem, depth: usize) -> (ast: SelectEntry)
    ensures
        reads_item(ast, item, depth as nat),
    decreases depth, 1nat,
{
    let text = select_item_text(&item);
    let kind = match select_item_head(item) {
        SelectItemHead::UnnamedExpr(expr) => SelectEntryKind::UnnamedExpr(read_expr(expr, depth)),
        SelectItemHead::ExprWithAlias(expr, alias) => {
            let expr = read_expr(expr, depth);
            SelectEntryKind::ExprWithAlias { expr, alias }
        },
        SelectItemHead::ExprWithAliases => SelectEntryKind::ExprWithAliases,
        SelectItemHead::QualifiedName(parts) => SelectEntryKind::QualifiedWildcard(
            read_dotted(parts),
        ),
        SelectItemHead::QualifiedExpr => SelectEntryKind::QualifiedWildcard(None),
        SelectItemHead::Wildcard => SelectEntryKind::Wildcard,
    };
    SelectEntry { text, kind }
}

/// Reads a `SELECT` list.
fn read_items(items: Vec<SelectItem>, depth: usize) -> (asts: Vec<SelectEntry>)
    ensures
        asts@.len() == items@.len(),
        forall|index: int|
            0 <= index < asts@.len() ==> reads_item(
                #[trigger] asts@[index],
                items@[index],
                depth as nat,
            ),
    decreases depth, 2nat,
{
    let ghost all = items@;
    let mut asts: Vec<SelectEntry> = Vec::new();
    for item in rest: items
        invariant
            rest.seq() == all,
            asts@.len() == rest.index(),
            forall|index: int|
                0 <= index < asts@.len() ==> reads_item(
                    #[trigger] asts@[index],
                    all[index],
                    depth as nat,
                ),
    {
        assert(item == all[rest.index()]);
        asts.push(read_item(item, depth));
    }
    asts
}

/// Reads the tables of a `FROM`.
fn read_tables(items: Vec<TableWithJoins>, depth: usize) -> (asts: Vec<FromTable>)
    ensures
        asts@.len() == items@.len(),
        forall|index: int|
            0 <= index < asts@.len() ==> reads_table(
                #[trigger] asts@[index],
                items@[index],
                depth as nat,
            ),
    decreases depth, 6nat,
{
    let ghost all = items@;
    let mut asts: Vec<FromTable> = Vec::new();
    for item in rest: items
        invariant
            rest.seq() == all,
            asts@.len() == rest.index(),
            forall|index: int|
                0 <= index < asts@.len() ==> reads_table(
                    #[trigger] asts@[index],
                    all[index],
                    depth as nat,
                ),
    {
        assert(item == all[rest.index()]);
        asts.push(read_table(item, depth));
    }
    asts
}

/// Reads a table of a `FROM`.
fn read_table(table: TableWithJoins, depth: usize) -> (ast: FromTable)
    ensures
        reads_table(ast, table, depth as nat),
    decreases depth, 5nat,
{
    let parts = table_parts(table);
    let relation = read_source(parts.relation, depth);
    let joins = read_joins(parts.joins, depth);
    FromTable { relation, joins }
}

/// Reads what a `FROM` reads.
fn read_source(factor: TableFactor, depth: usize) -> (ast: TableSource)
    ensures
        reads_source(ast, factor, depth as nat),
    decreases depth, 1nat,
{
    if depth == 0 {
        return TableSource::Other;
    }
    let below: usize = depth - 1;
    let said = table_extras(&factor);
    match table_factor_head(factor) {
        TableFactorHead::Table(parts, alias) => match said {
            Some(extras) => {
                let name = read_name(parts);
                TableSource::Table { name, alias, extras }
            },
            None => TableSource::Other,
        },
        TableFactorHead::Derived(subquery, alias) => {
            let subquery = Box::new(read_query(*subquery, below));
            TableSource::Derived { subquery, alias }
        },
        TableFactorHead::TableFunction => TableSource::TableFunction,
        TableFactorHead::NestedJoin(table) => TableSource::NestedJoin(
            Box::new(read_table(*table, below)),
        ),
        TableFactorHead::Other => TableSource::Other,
    }
}

/// Reads joined tables.
fn read_joins(items: Vec<Join>, depth: usize) -> (asts: Vec<JoinedTable>)
    ensures
        asts@.len() == items@.len(),
        forall|index: int|
            0 <= index < asts@.len() ==> reads_join(
                #[trigger] asts@[index],
                items@[index],
                depth as nat,
            ),
    decreases depth, 4nat,
{
    let ghost all = items@;
    let mut asts: Vec<JoinedTable> = Vec::new();
    for item in rest: items
        invariant
            rest.seq() == all,
            asts@.len() == rest.index(),
            forall|index: int|
                0 <= index < asts@.len() ==> reads_join(
                    #[trigger] asts@[index],
                    all[index],
                    depth as nat,
                ),
    {
        assert(item == all[rest.index()]);
        asts.push(read_join(item, depth));
    }
    asts
}

/// Reads a joined table.
fn read_join(join: Join, depth: usize) -> (ast: JoinedTable)
    ensures
        reads_join(ast, join, depth as nat),
    decreases depth, 3nat,
{
    let parts = join_parts(join);
    let relation = read_source(parts.relation, depth);
    let operator = match join_operator_head(parts.operator) {
        JoinOperatorHead::Join(constraint) => JoinKind::Inner(read_on(constraint, depth)),
        JoinOperatorHead::Inner(constraint) => JoinKind::Inner(read_on(constraint, depth)),
        JoinOperatorHead::Left(constraint) => JoinKind::Left(read_on(constraint, depth)),
        JoinOperatorHead::LeftOuter(constraint) => JoinKind::Left(read_on(constraint, depth)),
        JoinOperatorHead::Semi(constraint) => JoinKind::Semi(read_on(constraint, depth)),
        JoinOperatorHead::LeftSemi(constraint) => JoinKind::Semi(read_on(constraint, depth)),
        JoinOperatorHead::Other => JoinKind::Other,
    };
    JoinedTable { relation, operator }
}

/// Reads the condition of a join.
fn read_on(constraint: JoinConstraint, depth: usize) -> (ast: JoinOn)
    ensures
        reads_on(ast, constraint, depth as nat),
    decreases depth, 1nat,
{
    match join_condition(constraint) {
        Some(condition) => JoinOn::On(read_expr(condition, depth)),
        None => JoinOn::Other,
    }
}

/// Reads a statement.
fn read_statement(statement: Statement, depth: usize) -> (ast: StatementAst)
    ensures
        reads_statement(ast, statement, depth as nat),
{
    match statement_query(statement) {
        Some(query) => StatementAst::Query(Box::new(read_query(*query, depth))),
        None => StatementAst::Other,
    }
}

/// Whether statements are read as they are.
pub open spec fn reads_statements(
    asts: Seq<StatementAst>,
    statements: Seq<Statement>,
    depth: nat,
) -> bool {
    &&& asts.len() == statements.len()
    &&& forall|index: int|
        0 <= index < asts.len() ==> reads_statement(
            #[trigger] asts[index],
            statements[index],
            depth,
        )
}

/// The statements that a text holds, or the message of why it holds none. A text that
/// flushes the logs of a channel without naming it is not parsed.
pub open spec fn statements_of(sql: Seq<char>) -> Result<Seq<Statement>, Seq<char>> {
    if breaks_off(sql) {
        Err("sql parser error: FLUSH RELAY LOGS FOR CHANNEL without a name"@)
    } else {
        match parsed_statements(sql) {
            Ok(statements) => Ok(statements@),
            Err(message) => Err(message@),
        }
    }
}

/// Whether a result is what a text parses to: its statements, read to the depth of its
/// length, or the message of why it holds none.
pub open spec fn reads_sql(sql: Seq<char>, result: SqlResult<Vec<StatementAst>>) -> bool {
    match statements_of(sql) {
        Ok(statements) => result matches Ok(asts) && reads_statements(asts@, statements, sql.len()),
        Err(message) => fails_unsupported(result, message),
    }
}

/// Whether the parser breaks off at a text.
fn stops_parser(sql: &str) -> (stops: bool)
    ensures
        stops == breaks_off(sql@),
{
    match tokenize(sql) {
        Err(_) => false,
        Ok(tokens) => {
            let ghost all = tokens@;
            let mut heads: Vec<TokenHead> = Vec::new();
            for token in rest: tokens
                invariant
                    rest.seq() == all,
                    heads@ =~= token_heads(all).take(rest.index()),
            {
                assert(token == all[rest.index()]);
                heads.push(token_head(token));
            }
            assert(heads@ =~= token_heads(all));
            finds_unnamed_channel(heads)
        },
    }
}

/// Parses a text and reads its statements.
pub fn read_sql(sql: &str) -> (result: SqlResult<Vec<StatementAst>>)
    ensures
        reads_sql(sql@, result),
{
    if stops_parser(sql) {
        return Err(
            SqlError::unsupported(
                "sql parser error: FLUSH RELAY LOGS FOR CHANNEL without a name",
            ),
        );
    }
    let depth: usize = sql.unicode_len();
    match parse_statements(sql) {
        Ok(statements) => {
            let ghost all = statements@;
            let mut asts: Vec<StatementAst> = Vec::new();
            for item in rest: statements
                invariant
                    rest.seq() == all,
                    asts@.len() == rest.index(),
                    forall|index: int|
                        0 <= index < asts@.len() ==> reads_statement(
                            #[trigger] asts@[index],
                            all[index],
                            depth as nat,
                        ),
            {
                assert(item == all[rest.index()]);
                asts.push(read_statement(item, depth));
            }
            Ok(asts)
        },
        Err(message) => Err(SqlError::UnsupportedSql(message)),
    }
}

} // verus!
