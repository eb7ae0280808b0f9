//! What a filter of a statement needs to be applied.

use vstd::prelude::*;
use crate::ast::{
    QueryAst, QueryBody, SqlBinaryOperator, SqlExpr, SqlExprKind, SqlFunction, SqlFunctionArg,
    SqlUnaryOperator,
};
use crate::error::{fails_with, Failure, SqlResult};
use crate::literals::{literal_of, sql_literal_value};
use crate::names::{
    add_columns_once, alias_view, column_belongs, column_in, parse_struct_field_access,
    sql_column_name, struct_field_of, unqualified_column_matches_table_alias, with_columns, Scope,
    Tables,
};
use crate::scalar::{
    called_function, parse_scalar_sql_expression, read_called_function, scalar_columns,
    scalar_expression_columns, scalar_of,
};
use crate::text::{eq_ignore_ascii_case, same_ignoring_case, string_copy, texts};

verus! {

/// Whether one side of a comparison has to be computed: it is neither a bare column nor
/// a literal.
pub open spec fn side_is_computed(expr: SqlExpr) -> bool {
    match expr.kind {
        SqlExprKind::Identifier(_) => false,
        SqlExprKind::CompoundIdentifier(names) => names@.len() > 1,
        SqlExprKind::Function(_) => true,
        SqlExprKind::Substring { .. } => true,
        SqlExprKind::Cast { .. } => true,
        SqlExprKind::Case { .. } => true,
        SqlExprKind::CompoundFieldAccess => true,
        _ => literal_of(expr) is None,
    }
}

/// Whether one side of a comparison has to be computed.
pub fn scalar_predicate_side_requires_expression(expr: &SqlExpr) -> (computed: bool)
    ensures
        computed == side_is_computed(*expr),
{
    match &expr.kind {
        SqlExprKind::Identifier(_) => false,
        SqlExprKind::CompoundIdentifier(names) => names.len() > 1,
        SqlExprKind::Function(_)
        | SqlExprKind::Substring { .. }
        | SqlExprKind::Cast { .. }
        | SqlExprKind::Case { .. }
        | SqlExprKind::CompoundFieldAccess => true,
        _ => sql_literal_value(expr).is_err(),
    }
}

/// Whether one of the expressions has to be computed.
pub open spec fn any_computed(list: Seq<SqlExpr>) -> bool {
    exists|index: int| 0 <= index < list.len() && side_is_computed(#[trigger] list[index])
}

/// Whether one of the expressions has to be computed.
fn any_side_computed(list: &Vec<SqlExpr>) -> (computed: bool)
    ensures
        computed == any_computed(list@),
{
    let mut index: usize = 0;
    while index < list.len()
        invariant
            index <= list@.len(),
            forall|earlier: int|
                0 <= earlier < index ==> !side_is_computed(#[trigger] list@[earlier]),
        decreases list@.len() - index,
    {
        if scalar_predicate_side_requires_expression(&list[index]) {
            return true;
        }
        index += 1;
    }
    false
}

/// Whether a filter compares something that has to be computed.
pub open spec fn is_computed(expr: SqlExpr) -> bool
    decreases expr,
{
    match expr.kind {
        SqlExprKind::BinaryOp { left, op, right } => if op == SqlBinaryOperator::And || op
            == SqlBinaryOperator::Or {
            is_computed(*left) || is_computed(*right)
        } else {
            side_is_computed(*left) || side_is_computed(*right)
        },
        SqlExprKind::UnaryOp { op, expr } => op == SqlUnaryOperator::Not && is_computed(*expr),
        SqlExprKind::Nested(inner) => is_computed(*inner),
        SqlExprKind::IsNull(inner) => side_is_computed(*inner),
        SqlExprKind::IsNotNull(inner) => side_is_computed(*inner),
        SqlExprKind::InList { expr, list, .. } => side_is_computed(*expr) || any_computed(list@),
        SqlExprKind::Between { expr, low, high, .. } => side_is_computed(*expr)
            || side_is_computed(*low) || side_is_computed(*high),
        SqlExprKind::Like { expr, pattern, .. } => side_is_computed(*expr) || side_is_computed(
            *pattern,
        ),
        _ => false,
    }
}

/// Whether a filter compares something that has to be computed.
pub fn predicate_requires_expression_path(expr: &SqlExpr) -> (computed: bool)
    ensures
        computed == is_computed(*expr),
    decreases *expr,
{
    match &expr.kind {
        SqlExprKind::BinaryOp { left, op, right } => match op {
            SqlBinaryOperator::And | SqlBinaryOperator::Or => {
                predicate_requires_expression_path(left) || predicate_requires_expression_path(right)
            },
            _ => {
                scalar_predicate_side_requires_expression(left)
                    || scalar_predicate_side_requires_expression(right)
            },
        },
        SqlExprKind::UnaryOp { op, expr } => *op == SqlUnaryOperator::Not
            && predicate_requires_expression_path(expr),
        SqlExprKind::Nested(inner) => predicate_requires_expression_path(inner),
        SqlExprKind::IsNull(inner) | SqlExprKind::IsNotNull(inner) => {
            scalar_predicate_side_requires_expression(inner)
        },
        SqlExprKind::InList { expr, list, .. } => {
            scalar_predicate_side_requires_expression(expr) || any_side_computed(list)
        },
        SqlExprKind::Between { expr, low, high, .. } => {
            scalar_predicate_side_requires_expression(expr)
                || scalar_predicate_side_requires_expression(low)
                || scalar_predicate_side_requires_expression(high)
        },
        SqlExprKind::Like { expr, pattern, .. } => {
            scalar_predicate_side_requires_expression(expr)
                || scalar_predicate_side_requires_expression(pattern)
        },
        _ => false,
    }
}

/// Whether an expression holds a subquery, of any kind or only as a value.
pub open spec fn holds_subquery(expr: SqlExpr, only_scalar: bool) -> bool
    decreases expr,
{
    match expr.kind {
        SqlExprKind::Subquery(_) => true,
        SqlExprKind::Exists { .. } => !only_scalar,
        SqlExprKind::InSubquery { expr, .. } => !only_scalar,
        SqlExprKind::BinaryOp { left, right, .. } => holds_subquery(*left, only_scalar)
            || holds_subquery(*right, only_scalar),
        SqlExprKind::Nested(inner) => holds_subquery(*inner, only_scalar),
        SqlExprKind::UnaryOp { expr, .. } => holds_subquery(*expr, only_scalar),
        SqlExprKind::IsNull(inner) => holds_subquery(*inner, only_scalar),
        SqlExprKind::IsNotNull(inner) => holds_subquery(*inner, only_scalar),
        SqlExprKind::InList { expr, list, .. } => holds_subquery(*expr, only_scalar)
            || list_holds_subquery(list, list.len() as nat, only_scalar),
        SqlExprKind::Between { expr, low, high, .. } => holds_subquery(*expr, only_scalar)
            || holds_subquery(*low, only_scalar) || holds_subquery(*high, only_scalar),
        SqlExprKind::Like { expr, pattern, .. } => holds_subquery(*expr, only_scalar)
            || holds_subquery(*pattern, only_scalar),
        _ => false,
    }
}

/// Whether one of the first expressions holds a subquery.
pub open spec fn list_holds_subquery(list: Vec<SqlExpr>, count: nat, only_scalar: bool) -> bool
    decreases list, count,
{
    if count == 0 || count > list.len() {
        false
    } else {
        list_holds_subquery(list, (count - 1) as nat, only_scalar) || holds_subquery(
            list[count - 1],
            only_scalar,
        )
    }
}

/// Whether an expression holds a subquery, of any kind or only as a value.
fn finds_subquery(expr: &SqlExpr, only_scalar: bool) -> (found: bool)
    ensures
        found == holds_subquery(*expr, only_scalar),
    decreases *expr,
{
    match &expr.kind {
        SqlExprKind::Subquery(_) => true,
        SqlExprKind::Exists { .. } | SqlExprKind::InSubquery { .. } => !only_scalar,
        SqlExprKind::BinaryOp { left, right, .. } => {
            finds_subquery(left, only_scalar) || finds_subquery(right, only_scalar)
        },
        SqlExprKind::Nested(inner) => finds_subquery(inner, only_scalar),
        SqlExprKind::UnaryOp { expr, .. } => finds_subquery(expr, only_scalar),
        SqlExprKind::IsNull(inner) | SqlExprKind::IsNotNull(inner) => {
            finds_subquery(inner, only_scalar)
        },
        SqlExprKind::InList { expr, list, .. } => {
            finds_subquery(expr, only_scalar) || finds_subquery_in(list, only_scalar)
        },
        SqlExprKind::Between { expr, low, high, .. } => {
            finds_subquery(expr, only_scalar) || finds_subquery(low, only_scalar)
                || finds_subquery(high, only_scalar)
        },
        SqlExprKind::Like { expr, pattern, .. } => {
            finds_subquery(expr, only_scalar) || finds_subquery(pattern, only_scalar)
        },
        _ => false,
    }
}

/// Whether one of the expressions holds a subquery.
fn finds_subquery_in(list: &Vec<SqlExpr>, only_scalar: bool) -> (found: bool)
    ensures
        found == list_holds_subquery(*list, list.len() as nat, only_scalar),
    decreases *list,
{
    let mut found = false;
    let mut index: usize = 0;
    while index < list.len()
        invariant
            index <= list.len(),
            found == list_holds_subquery(*list, index as nat, only_scalar),
        decreases list.len() - index,
    {
        if !found {
            found = finds_subquery(&list[index], only_scalar);
        }
        index += 1;
    }
    found
}

/// Whether an expression holds a subquery as a value.
pub fn expr_contains_scalar_subquery(expr: &SqlExpr) -> (found: bool)
    ensures
        found == holds_subquery(*expr, true),
{
    finds_subquery(expr, true)
}

/// Whether an expression holds a subquery whose rows are wanted.
pub fn expr_contains_materializable_subquery(expr: &SqlExpr) -> (found: bool)
    ensures
        found == holds_subquery(*expr, false),
{
    finds_subquery(expr, false)
}

/// The arguments of a call that are expressions.
pub open spec fn argument_exprs<'a>(args: Seq<SqlFunctionArg>) -> Seq<SqlExpr>
    decreases args.len(),
{
    if args.len() == 0 {
        Seq::empty()
    } else {
        match args.last() {
            SqlFunctionArg::Expr(expr) => argument_exprs(args.drop_last()).push(expr),
            _ => argument_exprs(args.drop_last()),
        }
    }
}

/// The arguments of a call that are expressions.
pub fn function_arg_exprs<'a>(function: &'a SqlFunction) -> (exprs: Vec<&'a SqlExpr>)
    ensures
        exprs@.map_values(|expr: &SqlExpr| *expr) == (match function.args {
            Some(args) => argument_exprs(args@),
            None => Seq::empty(),
        }),
{
    let mut exprs: Vec<&'a SqlExpr> = Vec::new();
    match &function.args {
        Some(args) => {
            let mut index: usize = 0;
            assert(args@.take(0) =~= Seq::empty());
            assert(exprs@.map_values(|expr: &SqlExpr| *expr) =~= Seq::empty());
            while index < args.len()
                invariant
                    index <= args@.len(),
                    exprs@.map_values(|expr: &SqlExpr| *expr) == argument_exprs(
                        args@.take(index as int),
                    ),
                decreases args@.len() - index,
            {
                assert(args@.take(index + 1).drop_last() =~= args@.take(index as int));
                match &args[index] {
                    SqlFunctionArg::Expr(expr) => {
                        let ghost before = exprs@;
                        exprs.push(expr);
                        assert(exprs@.map_values(|expr: &SqlExpr| *expr) =~= before.map_values(
                            |expr: &SqlExpr| *expr,
                        ).push(*expr));
                    },
                    _ => {},
                }
                index += 1;
            }
            assert(args@.take(index as int) =~= args@);
        },
        None => {
            assert(exprs@.map_values(|expr: &SqlExpr| *expr) =~= Seq::empty());
        },
    }
    exprs
}

/// The columns of an outer table that an expression of a subquery may read: bare ones
/// that belong to the table by their prefix, and those qualified by its alias.
pub open spec fn outer_columns(expr: SqlExpr, table_alias: Option<Seq<char>>) -> Seq<Seq<char>>
    decreases expr,
{
    match expr.kind {
        SqlExprKind::BinaryOp { left, right, .. } => outer_columns(*left, table_alias)
            + outer_columns(*right, table_alias),
        SqlExprKind::UnaryOp { expr, .. } => outer_columns(*expr, table_alias),
        SqlExprKind::Nested(inner) => outer_columns(*inner, table_alias),
        SqlExprKind::IsNull(inner) => outer_columns(*inner, table_alias),
        SqlExprKind::IsNotNull(inner) => outer_columns(*inner, table_alias),
        SqlExprKind::Cast { expr, .. } => outer_columns(*expr, table_alias),
        SqlExprKind::Identifier(name) => if column_belongs(name@, table_alias) {
            seq![name@]
        } else {
            Seq::empty()
        },
        SqlExprKind::CompoundIdentifier(names) => match table_alias {
            Some(alias) => if names@.len() == 2 && same_ignoring_case(names@[0]@, alias) {
                seq![names@[1]@]
            } else {
                Seq::empty()
            },
            None => Seq::empty(),
        },
        SqlExprKind::InList { expr, list, .. } => outer_columns(*expr, table_alias)
            + outer_columns_in(list, list.len() as nat, table_alias),
        SqlExprKind::Exists { subquery, .. } => subquery_outer_columns(*subquery, table_alias),
        SqlExprKind::InSubquery { subquery, .. } => subquery_outer_columns(*subquery, table_alias),
        SqlExprKind::Subquery(subquery) => subquery_outer_columns(*subquery, table_alias),
        SqlExprKind::Function(function) => match function.args {
            Some(args) => outer_columns_of_args(args, args.len() as nat, table_alias),
            None => Seq::empty(),
        },
        _ => Seq::empty(),
    }
}

/// The columns of an outer table that the first expressions may read.
pub open spec fn outer_columns_in(
    list: Vec<SqlExpr>,
    count: nat,
    table_alias: Option<Seq<char>>,
) -> Seq<
    Seq<char>,
>
    decreases list, count,
{
    if count == 0 || count > list.len() {
        Seq::empty()
    } else {
        outer_columns_in(list, (count - 1) as nat, table_alias) + outer_columns(
            list[count - 1],
            table_alias,
        )
    }
}

/// The columns of an outer table that the first arguments may read.
pub open spec fn outer_columns_of_args(
    args: Vec<SqlFunctionArg>,
    count: nat,
    table_alias: Option<Seq<char>>,
) -> Seq<Seq<char>>
    decreases args, count,
{
    if count == 0 || count > args.len() {
        Seq::empty()
    } else {
        let earlier = outer_columns_of_args(args, (count - 1) as nat, table_alias);
        match args[count - 1] {
            SqlFunctionArg::Expr(expr) => earlier + outer_columns(expr, table_alias),
            _ => earlier,
        }
    }
}

/// The columns of an outer table that the filter of a subquery may read.
pub open spec fn subquery_outer_columns(
    query: QueryAst,
    table_alias: Option<Seq<char>>,
) -> Seq<Seq<char>>
    decreases query,
{
    match query.body {
        QueryBody::Select(select) => match select.selection {
            Some(selection) => outer_columns(selection, table_alias),
            None => Seq::empty(),
        },
        _ => Seq::empty(),
    }
}

/// No column.
fn no_columns() -> (columns: Vec<String>)
    ensures
        texts(columns@) == Seq::<Seq<char>>::empty(),
{
    let columns: Vec<String> = Vec::new();
    assert(texts(columns@) =~= Seq::<Seq<char>>::empty());
    columns
}

/// One column.
fn one_column(column: String) -> (columns: Vec<String>)
    ensures
        texts(columns@) == seq![column@],
{
    let columns: Vec<String> = vec![column];
    assert(texts(columns@) =~= seq![column@]);
    columns
}

/// The columns, then more of them.
fn both_columns(first: Vec<String>, second: Vec<String>) -> (columns: Vec<String>)
    ensures
        texts(columns@) == texts(first@) + texts(second@),
{
    let ghost head = first@;
    let ghost tail = second@;
    let mut columns = first;
    let mut more = second;
    columns.append(&mut more);
    assert(texts(columns@) =~= texts(head) + texts(tail));
    columns
}

/// The columns of an outer table that an expression of a subquery may read.
fn collect_outer_column_candidates(expr: &SqlExpr, table_alias: Option<&str>) -> (columns: Vec<
    String,
>)
    ensures
        texts(columns@) == outer_columns(*expr, alias_view(table_alias)),
    decreases *expr,
{
    match &expr.kind {
        SqlExprKind::BinaryOp { left, right, .. } => both_columns(
            collect_outer_column_candidates(left, table_alias),
            collect_outer_column_candidates(right, table_alias),
        ),
        SqlExprKind::UnaryOp { expr, .. } => collect_outer_column_candidates(expr, table_alias),
        SqlExprKind::Nested(inner) => collect_outer_column_candidates(inner, table_alias),
        SqlExprKind::IsNull(inner) => collect_outer_column_candidates(inner, table_alias),
        SqlExprKind::IsNotNull(inner) => collect_outer_column_candidates(inner, table_alias),
        SqlExprKind::Cast { expr, .. } => collect_outer_column_candidates(expr, table_alias),
        SqlExprKind::Identifier(name) => {
            if unqualified_column_matches_table_alias(name.as_str(), table_alias) {
                one_column(string_copy(name))
            } else {
                no_columns()
            }
        },
        SqlExprKind::CompoundIdentifier(names) => match table_alias {
            Some(alias) => {
                if names.len() == 2 && eq_ignore_ascii_case(names[0].as_str(), alias) {
                    one_column(string_copy(&names[1]))
                } else {
                    no_columns()
                }
            },
            None => no_columns(),
        },
        SqlExprKind::InList { expr, list, .. } => both_columns(
            collect_outer_column_candidates(expr, table_alias),
            collect_outer_columns_in(list, table_alias),
        ),
        SqlExprKind::Exists { subquery, .. } => collect_subquery_outer_columns(
            subquery,
            table_alias,
        ),
        SqlExprKind::InSubquery { subquery, .. } => collect_subquery_outer_columns(
            subquery,
            table_alias,
        ),
        SqlExprKind::Subquery(subquery) => collect_subquery_outer_columns(subquery, table_alias),
        SqlExprKind::Function(function) => match &function.args {
            Some(args) => collect_outer_columns_of_args(args, table_alias),
            None => no_columns(),
        },
        _ => no_columns(),
    }
}

/// The columns of an outer table that the expressions may read.
fn collect_outer_columns_in(
    list: &Vec<SqlExpr>,
    table_alias: Option<&str>,
) -> (columns: Vec<String>)
    ensures
        texts(columns@) == outer_columns_in(*list, list.len() as nat, alias_view(table_alias)),
    decreases *list,
{
    let mut columns = no_columns();
    let mut index: usize = 0;
    while index < list.len()
        invariant
            index <= list.len(),
            texts(columns@) == outer_columns_in(*list, index as nat, alias_view(table_alias)),
        decreases list.len() - index,
    {
        let more = collect_outer_column_candidates(&list[index], table_alias);
        columns = both_columns(columns, more);
        index += 1;
    }
    columns
}

/// The columns of an outer table that the arguments may read.
fn collect_outer_columns_of_args(args: &Vec<SqlFunctionArg>, table_alias: Option<&str>) -> (columns:
    Vec<String>)
    ensures
        texts(columns@) == outer_columns_of_args(*args, args.len() as nat, alias_view(table_alias)),
    decreases *args,
{
    let mut columns = no_columns();
    let mut index: usize = 0;
    while index < args.len()
        invariant
            index <= args.len(),
            texts(columns@) == outer_columns_of_args(*args, index as nat, alias_view(table_alias)),
        decreases args.len() - index,
    {
        match &args[index] {
            SqlFunctionArg::Expr(expr) => {
                let more = collect_outer_column_candidates(expr, table_alias);
                columns = both_columns(columns, more);
            },
            _ => {},
        }
        index += 1;
    }
    columns
}

/// The columns of an outer table that the filter of a subquery may read.
fn collect_subquery_outer_columns(query: &QueryAst, table_alias: Option<&str>) -> (columns: Vec<
    String,
>)
    ensures
        texts(columns@) == subquery_outer_columns(*query, alias_view(table_alias)),
    decreases *query,
{
    match &query.body {
        QueryBody::Select(select) => match &select.selection {
            Some(selection) => collect_outer_column_candidates(selection, table_alias),
            None => no_columns(),
        },
        _ => no_columns(),
    }
}

/// The columns that a filter reads, as they occur, or why they cannot be told.
pub open spec fn filter_columns(expr: SqlExpr, table_alias: Option<Seq<char>>) -> Result<
    Seq<Seq<char>>,
    Failure,
>
    decreases expr,
{
    match expr.kind {
        SqlExprKind::BinaryOp { left, right, .. } => joined_columns(
            filter_columns(*left, table_alias),
            filter_columns(*right, table_alias),
        ),
        SqlExprKind::UnaryOp { expr, .. } => filter_columns(*expr, table_alias),
        SqlExprKind::Nested(inner) => filter_columns(*inner, table_alias),
        SqlExprKind::IsNull(inner) => filter_columns(*inner, table_alias),
        SqlExprKind::IsNotNull(inner) => filter_columns(*inner, table_alias),
        SqlExprKind::Cast { expr, .. } => filter_columns(*expr, table_alias),
        SqlExprKind::Identifier(_) => named_column(expr, table_alias),
        SqlExprKind::CompoundIdentifier(_) => named_column(expr, table_alias),
        SqlExprKind::CompoundFieldAccess => computed_columns(expr, table_alias),
        SqlExprKind::Substring { .. } => computed_columns(expr, table_alias),
        SqlExprKind::Function(function) => if called_function(function) is Some {
            computed_columns(expr, table_alias)
        } else {
            Ok(Seq::empty())
        },
        SqlExprKind::InList { expr, list, .. } => joined_columns(
            filter_columns(*expr, table_alias),
            filter_columns_in(list, list.len() as nat, table_alias),
        ),
        SqlExprKind::Like { expr, pattern, .. } => joined_columns(
            filter_columns(*expr, table_alias),
            filter_columns(*pattern, table_alias),
        ),
        SqlExprKind::Exists { subquery, .. } => Ok(subquery_outer_columns(*subquery, table_alias)),
        SqlExprKind::InSubquery { subquery, .. } => Ok(
            subquery_outer_columns(*subquery, table_alias),
        ),
        SqlExprKind::Subquery(subquery) => Ok(subquery_outer_columns(*subquery, table_alias)),
        _ => Ok(Seq::empty()),
    }
}

/// The columns of two parts, the first failure where one fails.
pub open spec fn joined_columns(
    first: Result<Seq<Seq<char>>, Failure>,
    second: Result<Seq<Seq<char>>, Failure>,
) -> Result<Seq<Seq<char>>, Failure> {
    match first {
        Err(failure) => Err(failure),
        Ok(head) => match second {
            Err(failure) => Err(failure),
            Ok(tail) => Ok(head + tail),
        },
    }
}

/// The column that an expression names, or accesses a field of.
pub open spec fn named_column(expr: SqlExpr, table_alias: Option<Seq<char>>) -> Result<
    Seq<Seq<char>>,
    Failure,
> {
    match struct_field_of(expr, Tables::Table(table_alias)) {
        Some((column, _)) => Ok(seq![column]),
        None => match column_in(expr, Tables::Table(table_alias)) {
            Ok(column) => Ok(seq![column]),
            Err(failure) => Err(failure),
        },
    }
}

/// The columns of a scalar expression.
pub open spec fn computed_columns(expr: SqlExpr, table_alias: Option<Seq<char>>) -> Result<
    Seq<Seq<char>>,
    Failure,
> {
    match scalar_of(expr, Tables::Table(table_alias)) {
        Ok(scalar) => Ok(scalar_columns(scalar)),
        Err(failure) => Err(failure),
    }
}

/// The columns that the first expressions read.
pub open spec fn filter_columns_in(
    list: Vec<SqlExpr>,
    count: nat,
    table_alias: Option<Seq<char>>,
) -> Result<Seq<Seq<char>>, Failure>
    decreases list, count,
{
    if count == 0 || count > list.len() {
        Ok(Seq::empty())
    } else {
        joined_columns(
            filter_columns_in(list, (count - 1) as nat, table_alias),
            filter_columns(list[count - 1], table_alias),
        )
    }
}

/// Whether a result is the given columns.
pub open spec fn gives_columns(
    result: SqlResult<Vec<String>>,
    expected: Result<Seq<Seq<char>>, Failure>,
) -> bool {
    match expected {
        Ok(columns) => result matches Ok(found) && texts(found@) == columns,
        Err(failure) => fails_with(result, failure),
    }
}

/// The columns of two parts.
fn join_columns(
    first: SqlResult<Vec<String>>,
    second: SqlResult<Vec<String>>,
) -> (result: SqlResult<
    Vec<String>,
>)
    ensures
        forall|
            head: Result<Seq<Seq<char>>, Failure>,
            tail: Result<Seq<Seq<char>>, Failure>,
        |
            #[trigger] gives_columns(first, head) && #[trigger] gives_columns(second, tail)
                ==> gives_columns(result, joined_columns(head, tail)),
{
    match first {
        Err(error) => Err(error),
        Ok(head) => match second {
            Err(error) => Err(error),
            Ok(tail) => Ok(both_columns(head, tail)),
        },
    }
}

/// The columns of a scalar expression.
fn read_computed_columns(expr: &SqlExpr, table_alias: Option<&str>) -> (result: SqlResult<
    Vec<String>,
>)
    ensures
        gives_columns(result, computed_columns(*expr, alias_view(table_alias))),
{
    match parse_scalar_sql_expression(expr, Scope::Table(table_alias)) {
        Ok(scalar) => Ok(scalar_expression_columns(&scalar)),
        Err(error) => Err(error),
    }
}

/// The columns that a filter reads, as they occur.
fn collect_predicate_expression_columns(expr: &SqlExpr, table_alias: Option<&str>) -> (result:
    SqlResult<Vec<String>>)
    ensures
        gives_columns(result, filter_columns(*expr, alias_view(table_alias))),
    decreases *expr,
{
    match &expr.kind {
        SqlExprKind::BinaryOp { left, right, .. } => join_columns(
            collect_predicate_expression_columns(left, table_alias),
            collect_predicate_expression_columns(right, table_alias),
        ),
        SqlExprKind::UnaryOp { expr, .. } => collect_predicate_expression_columns(
            expr,
            table_alias,
        ),
        SqlExprKind::Nested(inner) => collect_predicate_expression_columns(inner, table_alias),
        SqlExprKind::IsNull(inner) => collect_predicate_expression_columns(inner, table_alias),
        SqlExprKind::IsNotNull(inner) => collect_predicate_expression_columns(inner, table_alias),
        SqlExprKind::Cast { expr, .. } => collect_predicate_expression_columns(expr, table_alias),
        SqlExprKind::Identifier(_) | SqlExprKind::CompoundIdentifier(_) => {
            match parse_struct_field_access(expr, Scope::Table(table_alias)) {
                Some((column, _)) => Ok(one_column(column)),
                None => match sql_column_name(expr, Scope::Table(table_alias)) {
                    Ok(column) => Ok(one_column(column)),
                    Err(error) => Err(error),
                },
            }
        },
        SqlExprKind::CompoundFieldAccess => read_computed_columns(expr, table_alias),
        SqlExprKind::Substring { .. } => read_computed_columns(expr, table_alias),
        SqlExprKind::Function(function) => {
            if read_called_function(function).is_some() {
                read_computed_columns(expr, table_alias)
            } else {
                Ok(no_columns())
            }
        },
        SqlExprKind::InList { expr, list, .. } => join_columns(
            collect_predicate_expression_columns(expr, table_alias),
            collect_columns_in(list, table_alias),
        ),
        SqlExprKind::Like { expr, pattern, .. } => join_columns(
            collect_predicate_expression_columns(expr, table_alias),
            collect_predicate_expression_columns(pattern, table_alias),
        ),
        SqlExprKind::Exists { subquery, .. } => Ok(
            collect_subquery_outer_columns(subquery, table_alias),
        ),
        SqlExprKind::InSubquery { subquery, .. } => Ok(
            collect_subquery_outer_columns(subquery, table_alias),
        ),
        SqlExprKind::Subquery(subquery) => Ok(
            collect_subquery_outer_columns(subquery, table_alias),
        ),
        _ => Ok(no_columns()),
    }
}

/// The columns that the expressions read.
fn collect_columns_in(list: &Vec<SqlExpr>, table_alias: Option<&str>) -> (result: SqlResult<
    Vec<String>,
>)
    ensures
        gives_columns(result, filter_columns_in(*list, list.len() as nat, alias_view(table_alias))),
    decreases *list,
{
    let mut columns: SqlResult<Vec<String>> = Ok(no_columns());
    let mut index: usize = 0;
    while index < list.len()
        invariant
            index <= list.len(),
            gives_columns(columns, filter_columns_in(*list, index as nat, alias_view(table_alias))),
        decreases list.len() - index,
    {
        let more = collect_predicate_expression_columns(&list[index], table_alias);
        columns = join_columns(columns, more);
        index += 1;
    }
    columns
}

/// The columns that a filter reads, each once.
pub fn predicate_expression_columns(
    expr: &SqlExpr,
    table_alias: Option<&str>,
) -> (result: SqlResult<
    Vec<String>,
>)
    ensures
        match filter_columns(*expr, alias_view(table_alias)) {
            Ok(columns) => result matches Ok(found) && texts(found@) == with_columns(
                Seq::empty(),
                columns,
            ),
            Err(failure) => fails_with(result, failure),
        },
{
    match collect_predicate_expression_columns(expr, table_alias) {
        Ok(columns) => {
            let mut once = no_columns();
            add_columns_once(&mut once, columns);
            Ok(once)
        },
        Err(error) => Err(error),
    }
}

} // verus!
