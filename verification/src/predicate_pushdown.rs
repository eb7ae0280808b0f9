//! The part of a computed filter that a scan can apply ahead.
//!
//! A filter that has to be computed is applied to the rows that a scan gives out. Some
//! of it, such as a comparison of a column with a literal, the scan can apply itself:
//! the filters here let every row pass that the whole filter lets pass.

use vstd::prelude::*;
use crate::ast::{SqlBinaryOperator, SqlExpr, SqlExprKind, SqlValue, SqlValueKind};
use crate::conjuncts::{collect_sql_and_conjuncts, conjuncts_of};
use crate::error::{fails_with, Failure, SqlError, SqlResult};
use crate::filters::{
    comparison_of, literal_views, reverse_binary_operator, reversed, sql_comparison_op,
    ComparisonExpr, ComparisonOp, Filter, FilterExpr,
};
use crate::literals::{literal_of, sql_literal_value, Literal, LiteralValue};
use crate::names::{Scope, Tables};
use crate::predicates::{
    expr_contains_materializable_subquery, holds_subquery, is_computed,
    predicate_requires_expression_path,
};
use crate::scalar::{
    parse_scalar_sql_expression, scalar_models, scalar_of, Scalar, ScalarFunction,
    ScalarSqlExpression,
};
use crate::text::{chars_of, comes_before, joined, str_eq, str_less, string_copy};

verus! {

/// What a filter that can be applied ahead is, or why that cannot be told.
pub type Ahead = Result<Option<Filter>, Failure>;

/// The failure of an expression that must be a literal.
pub open spec fn no_literal(expr: SqlExpr) -> Failure {
    Failure::Unsupported("expected literal value, got "@ + expr.text@)
}

/// The column that an expression is, in parentheses or not.
pub open spec fn bare_column(expr: SqlExpr, scope: Tables) -> Result<Option<Seq<char>>, Failure> {
    match scalar_of(expr, scope) {
        Err(failure) => Err(failure),
        Ok(Scalar::Column(column)) => Ok(Some(column)),
        Ok(_) => Ok(None),
    }
}

/// The column that an expression is.
fn simple_column_wrapped_expression(expr: &SqlExpr, scope: Scope<'_>) -> (result: SqlResult<
    Option<String>,
>)
    ensures
        match bare_column(*expr, scope@) {
            Ok(Some(column)) => result matches Ok(Some(found)) && found@ == column,
            Ok(None) => result matches Ok(None),
            Err(failure) => fails_with(result, failure),
        },
{
    match parse_scalar_sql_expression(expr, scope) {
        Ok(ScalarSqlExpression::Column(column)) => Ok(Some(column)),
        Ok(_) => Ok(None),
        Err(error) => Err(error),
    }
}

/// Whether two integers compare as the operator says.
pub open spec fn integers_compare(left: int, op: SqlBinaryOperator, right: int) -> bool {
    match op {
        SqlBinaryOperator::Eq => left == right,
        SqlBinaryOperator::NotEq => left != right,
        SqlBinaryOperator::Gt => left > right,
        SqlBinaryOperator::GtEq => left >= right,
        SqlBinaryOperator::Lt => left < right,
        SqlBinaryOperator::LtEq => left <= right,
        _ => false,
    }
}

/// Whether two texts compare as the operator says.
pub open spec fn texts_compare(left: Seq<char>, op: SqlBinaryOperator, right: Seq<char>) -> bool {
    match op {
        SqlBinaryOperator::Eq => left == right,
        SqlBinaryOperator::NotEq => left != right,
        SqlBinaryOperator::Gt => comes_before(right, left),
        SqlBinaryOperator::GtEq => left == right || comes_before(right, left),
        SqlBinaryOperator::Lt => comes_before(left, right),
        SqlBinaryOperator::LtEq => left == right || comes_before(left, right),
        _ => false,
    }
}

/// Whether a literal may compare with another as the operator says. A null compares with
/// nothing; numbers that are no integers, and literals of different types, are not told
/// apart.
pub open spec fn may_compare(left: Literal, op: SqlBinaryOperator, right: Literal) -> bool {
    match (left, right) {
        (Literal::Null, _) => false,
        (_, Literal::Null) => false,
        (Literal::Int64(first), Literal::Int64(second)) => integers_compare(first, op, second),
        (Literal::Utf8(first), Literal::Utf8(second)) => texts_compare(first, op, second),
        _ => true,
    }
}

/// Whether two integers compare as the operator says.
fn compare_integers(left: i64, op: SqlBinaryOperator, right: i64) -> (passes: bool)
    ensures
        passes == integers_compare(left as int, op, right as int),
{
    match op {
        SqlBinaryOperator::Eq => left == right,
        SqlBinaryOperator::NotEq => left != right,
        SqlBinaryOperator::Gt => left > right,
        SqlBinaryOperator::GtEq => left >= right,
        SqlBinaryOperator::Lt => left < right,
        SqlBinaryOperator::LtEq => left <= right,
        _ => false,
    }
}

/// Whether two texts compare as the operator says.
fn compare_texts(left: &str, op: SqlBinaryOperator, right: &str) -> (passes: bool)
    ensures
        passes == texts_compare(left@, op, right@),
{
    match op {
        SqlBinaryOperator::Eq => str_eq(left, right),
        SqlBinaryOperator::NotEq => !str_eq(left, right),
        SqlBinaryOperator::Gt => str_less(right, left),
        SqlBinaryOperator::GtEq => str_eq(left, right) || str_less(right, left),
        SqlBinaryOperator::Lt => str_less(left, right),
        SqlBinaryOperator::LtEq => str_eq(left, right) || str_less(left, right),
        _ => false,
    }
}

/// Whether a literal may compare with another as the operator says.
fn compare_literal_values(
    left: &LiteralValue,
    op: SqlBinaryOperator,
    right: &LiteralValue,
) -> (passes:
    bool)
    ensures
        passes == may_compare(left@, op, right@),
{
    match (left, right) {
        (LiteralValue::Null, _) => false,
        (_, LiteralValue::Null) => false,
        (LiteralValue::Int64(first), LiteralValue::Int64(second)) => compare_integers(
            *first,
            op,
            *second,
        ),
        (LiteralValue::Utf8(first), LiteralValue::Utf8(second)) => compare_texts(
            first.as_str(),
            op,
            second.as_str(),
        ),
        _ => true,
    }
}

/// A column, else a literal where it is null, compared with a literal: the column is
/// compared, or is null where the literal in its place may pass.
pub open spec fn fallback_ahead(expr: Scalar, op: SqlBinaryOperator, literal: Literal) -> Option<
    Filter,
> {
    match expr {
        Scalar::Call { function, args } => if function == ScalarFunction::Coalesce && args.len() == 2 {
            match (args[0], args[1]) {
                (Scalar::Column(column), Scalar::Literal(fallback)) => {
                    let compared = Filter::Comparison { column, op: comparison_of(op), value: literal };
                    if may_compare(fallback, op, literal) {
                        Some(
                            Filter::Or(
                                Box::new(compared),
                                Box::new(Filter::IsNull { column, negated: false }),
                            ),
                        )
                    } else {
                        Some(compared)
                    }
                },
                _ => None,
            }
        } else {
            None
        },
        _ => None,
    }
}

/// A column compared with a literal, in that order.
pub open spec fn column_comparison_ahead(
    expr: SqlExpr,
    op: SqlBinaryOperator,
    literal_expr: SqlExpr,
    scope: Tables,
) -> Ahead {
    match literal_of(literal_expr) {
        None => Ok(None),
        Some(literal) => match scalar_of(expr, scope) {
            Err(failure) => Err(failure),
            Ok(Scalar::Column(column)) => Ok(
                Some(Filter::Comparison { column, op: comparison_of(op), value: literal }),
            ),
            Ok(scalar) => Ok(fallback_ahead(scalar, op, literal)),
        },
    }
}

/// A column compared with a literal, in either order.
pub open spec fn comparison_ahead(
    left: SqlExpr,
    op: SqlBinaryOperator,
    right: SqlExpr,
    scope: Tables,
) -> Ahead {
    match column_comparison_ahead(left, op, right, scope) {
        Ok(None) => column_comparison_ahead(right, reversed(op), left, scope),
        decided => decided,
    }
}

/// The literals of a list that are not null, or why one is none.
pub open spec fn present_literals(list: Seq<SqlExpr>) -> Result<Seq<Literal>, Failure>
    decreases list.len(),
{
    if list.len() == 0 {
        Ok(Seq::empty())
    } else {
        match present_literals(list.drop_last()) {
            Err(failure) => Err(failure),
            Ok(earlier) => match literal_of(list.last()) {
                None => Err(no_literal(list.last())),
                Some(Literal::Null) => Ok(earlier),
                Some(literal) => Ok(earlier.push(literal)),
            },
        }
    }
}

/// Whether one of the literals of a list is null.
pub open spec fn lists_null(list: Seq<SqlExpr>) -> bool {
    exists|index: int|
        0 <= index < list.len() && literal_of(#[trigger] list[index]) == Some(Literal::Null)
}

/// A column that is one of a list of literals.
pub open spec fn in_list_ahead(
    expr: SqlExpr,
    list: Seq<SqlExpr>,
    negated: bool,
    scope: Tables,
) -> Ahead {
    if negated {
        Ok(None)
    } else {
        match bare_column(expr, scope) {
            Err(failure) => Err(failure),
            Ok(None) => Ok(None),
            Ok(Some(column)) => match present_literals(list) {
                Err(failure) => Err(failure),
                Ok(values) => if values.len() == 0 {
                    Ok(None)
                } else {
                    Ok(
                        Some(
                            Filter::InList {
                                column,
                                values,
                                negated: false,
                                has_null: lists_null(list),
                            },
                        ),
                    )
                },
            },
        }
    }
}

/// A column that lies between two literals, or does not.
pub open spec fn between_ahead(
    expr: SqlExpr,
    negated: bool,
    low: SqlExpr,
    high: SqlExpr,
    scope: Tables,
) -> Ahead {
    match bare_column(expr, scope) {
        Err(failure) => Err(failure),
        Ok(None) => Ok(None),
        Ok(Some(column)) => match (literal_of(low), literal_of(high)) {
            (None, _) => Err(no_literal(low)),
            (_, None) => Err(no_literal(high)),
            (Some(from), Some(to)) => {
                let lower = Filter::Comparison {
                    column,
                    op: if negated {
                        ComparisonOp::Lt
                    } else {
                        ComparisonOp::GtEq
                    },
                    value: from,
                };
                let upper = Filter::Comparison {
                    column,
                    op: if negated {
                        ComparisonOp::Gt
                    } else {
                        ComparisonOp::LtEq
                    },
                    value: to,
                };
                Ok(
                    Some(
                        if negated {
                            Filter::Or(Box::new(lower), Box::new(upper))
                        } else {
                            Filter::And(Box::new(lower), Box::new(upper))
                        },
                    ),
                )
            },
        },
    }
}

/// A column that is null, or is not.
pub open spec fn null_ahead(expr: SqlExpr, negated: bool, scope: Tables) -> Ahead {
    match bare_column(expr, scope) {
        Err(failure) => Err(failure),
        Ok(None) => Ok(None),
        Ok(Some(column)) => Ok(Some(Filter::IsNull { column, negated })),
    }
}

/// The pattern that an expression must be.
pub open spec fn pattern_of(pattern: SqlExpr) -> Result<Seq<char>, Failure> {
    match literal_of(pattern) {
        Some(Literal::Utf8(text)) => Ok(text),
        Some(_) => Err(
            Failure::Unsupported("LIKE pattern must be a string literal, got "@ + pattern.text@),
        ),
        None => Err(no_literal(pattern)),
    }
}

/// The escape character that a literal must be, where there is one.
pub open spec fn escape_of(escape_char: Option<SqlValue>) -> Result<Option<char>, Failure> {
    match escape_char {
        None => Ok(None),
        Some(value) => match value.kind {
            SqlValueKind::SingleQuotedString(text) => if text@.len() == 1 {
                Ok(Some(text@[0]))
            } else {
                Err(Failure::Unsupported("LIKE ESCAPE must be one character, got "@ + value.text@))
            },
            _ => Err(
                Failure::Unsupported("LIKE ESCAPE must be one character, got "@ + value.text@),
            ),
        },
    }
}

/// A column that is like a pattern, or is not.
pub open spec fn like_ahead(
    expr: SqlExpr,
    pattern: SqlExpr,
    negated: bool,
    any: bool,
    escape_char: Option<SqlValue>,
    case_insensitive: bool,
    scope: Tables,
) -> Ahead {
    if any {
        Ok(None)
    } else {
        match bare_column(expr, scope) {
            Err(failure) => Err(failure),
            Ok(None) => Ok(None),
            Ok(Some(column)) => match pattern_of(pattern) {
                Err(failure) => Err(failure),
                Ok(pattern) => match escape_of(escape_char) {
                    Err(failure) => Err(failure),
                    Ok(escape) => Ok(
                        Some(Filter::Like { column, pattern, negated, escape, case_insensitive }),
                    ),
                },
            },
        }
    }
}

/// Whether an operator compares.
pub open spec fn compares(op: SqlBinaryOperator) -> bool {
    op == SqlBinaryOperator::Eq || op == SqlBinaryOperator::NotEq || op == SqlBinaryOperator::Gt
        || op == SqlBinaryOperator::GtEq || op == SqlBinaryOperator::Lt || op
        == SqlBinaryOperator::LtEq
}

/// Both of two filters, as far as they are there.
pub open spec fn both_ahead(first: Option<Filter>, second: Option<Filter>) -> Option<Filter> {
    match (first, second) {
        (Some(left), Some(right)) => Some(Filter::And(Box::new(left), Box::new(right))),
        (Some(left), None) => Some(left),
        (None, right) => right,
    }
}

/// The part of a filter that can be applied ahead.
pub open spec fn ahead_of(expr: SqlExpr, scope: Tables) -> Ahead
    decreases expr,
{
    match expr.kind {
        SqlExprKind::Nested(inner) => ahead_of(*inner, scope),
        SqlExprKind::BinaryOp { left, op, right } => if op == SqlBinaryOperator::And {
            match ahead_of(*left, scope) {
                Err(failure) => Err(failure),
                Ok(first) => match ahead_of(*right, scope) {
                    Err(failure) => Err(failure),
                    Ok(second) => Ok(both_ahead(first, second)),
                },
            }
        } else if op == SqlBinaryOperator::Or {
            match ahead_of(*left, scope) {
                Err(failure) => Err(failure),
                Ok(None) => Ok(None),
                Ok(Some(first)) => match ahead_of(*right, scope) {
                    Err(failure) => Err(failure),
                    Ok(None) => Ok(None),
                    Ok(Some(second)) => Ok(
                        Some(Filter::Or(Box::new(first), Box::new(second))),
                    ),
                },
            }
        } else if compares(op) {
            comparison_ahead(*left, op, *right, scope)
        } else {
            Ok(None)
        },
        SqlExprKind::InList { expr, list, negated } => in_list_ahead(*expr, list@, negated, scope),
        SqlExprKind::Between { expr, negated, low, high } => between_ahead(
            *expr,
            negated,
            *low,
            *high,
            scope,
        ),
        SqlExprKind::IsNull(inner) => null_ahead(*inner, false, scope),
        SqlExprKind::IsNotNull(inner) => null_ahead(*inner, true, scope),
        SqlExprKind::Like { expr, pattern, negated, any, escape_char, case_insensitive } => like_ahead(
            *expr,
            *pattern,
            negated,
            any,
            escape_char,
            case_insensitive,
            scope,
        ),
        _ => Ok(None),
    }
}

/// Whether a result is a filter that can be applied ahead.
pub open spec fn gives_ahead(result: SqlResult<Option<FilterExpr>>, expected: Ahead) -> bool {
    match expected {
        Ok(Some(filter)) => result matches Ok(Some(found)) && found.model() == filter,
        Ok(None) => result matches Ok(None),
        Err(failure) => fails_with(result, failure),
    }
}

/// A column compared with a literal, in that order.
fn safe_column_wrapper_comparison_pushdown(
    expr: &SqlExpr,
    op: SqlBinaryOperator,
    literal_expr: &SqlExpr,
    scope: Scope<'_>,
) -> (result: SqlResult<Option<FilterExpr>>)
    ensures
        gives_ahead(result, column_comparison_ahead(*expr, op, *literal_expr, scope@)),
{
    let literal = match sql_literal_value(literal_expr) {
        Ok(literal) => literal,
        Err(_) => {
            return Ok(None);
        },
    };
    match parse_scalar_sql_expression(expr, scope) {
        Err(error) => Err(error),
        Ok(ScalarSqlExpression::Column(column)) => Ok(
            Some(
                FilterExpr::Comparison(
                    ComparisonExpr { column, op: sql_comparison_op(op), value: literal },
                ),
            ),
        ),
        Ok(scalar) => Ok(coalesce_comparison_pushdown(&scalar, op, &literal)),
    }
}

/// A column, else a literal where it is null, compared with a literal.
fn coalesce_comparison_pushdown(
    scalar: &ScalarSqlExpression,
    op: SqlBinaryOperator,
    literal: &LiteralValue,
) -> (filter: Option<FilterExpr>)
    ensures
        match fallback_ahead(scalar.model(), op, literal@) {
            Some(expected) => filter matches Some(filter) && filter.model() == expected,
            None => filter is None,
        },
{
    match scalar {
        ScalarSqlExpression::Call { function, args } => {
            proof {
                reveal_with_fuel(scalar_models, 3);
                reveal_with_fuel(ScalarSqlExpression::model, 3);
                crate::scalar::lemma_models_len(*args, args.len() as nat);
            }
            if *function != ScalarFunction::Coalesce || args.len() != 2 {
                return None;
            }
            proof {
                crate::scalar::lemma_model_at(*args, 2, 0);
                crate::scalar::lemma_model_at(*args, 2, 1);
            }
            match (&args[0], &args[1]) {
                (ScalarSqlExpression::Column(column), ScalarSqlExpression::Literal(fallback)) => {
                    let compared = FilterExpr::Comparison(
                        ComparisonExpr {
                            column: string_copy(column),
                            op: sql_comparison_op(op),
                            value: literal.copy(),
                        },
                    );
                    if compare_literal_values(fallback, op, literal) {
                        let null = FilterExpr::IsNull { column: string_copy(column), negated: false };
                        proof {
                            reveal_with_fuel(FilterExpr::model, 2);
                        }
                        Some(FilterExpr::Or(Box::new(compared), Box::new(null)))
                    } else {
                        Some(compared)
                    }
                },
                _ => None,
            }
        },
        _ => None,
    }
}

/// A column compared with a literal, in either order.
fn safe_expression_comparison_pushdown(
    left: &SqlExpr,
    op: SqlBinaryOperator,
    right: &SqlExpr,
    scope: Scope<'_>,
) -> (result: SqlResult<Option<FilterExpr>>)
    ensures
        gives_ahead(result, comparison_ahead(*left, op, *right, scope@)),
{
    match safe_column_wrapper_comparison_pushdown(left, op, right, scope) {
        Ok(None) => safe_column_wrapper_comparison_pushdown(
            right,
            reverse_binary_operator(op),
            left,
            scope,
        ),
        decided => decided,
    }
}

/// A literal that is none fails the list.
proof fn lemma_literals_fail(list: Seq<SqlExpr>, count: int)
    requires
        0 <= count <= list.len(),
        present_literals(list.take(count)) is Err,
    ensures
        present_literals(list) == present_literals(list.take(count)),
    decreases list.len() - count,
{
    if count < list.len() {
        assert(list.take(count + 1).drop_last() =~= list.take(count));
        lemma_literals_fail(list, count + 1);
    } else {
        assert(list.take(count) =~= list);
    }
}

/// The literals of a list that are not null, and whether one is null.
pub(crate) fn read_literals(list: &Vec<SqlExpr>) -> (result: SqlResult<(Vec<LiteralValue>, bool)>)
    ensures
        match present_literals(list@) {
            Ok(values) => result matches Ok((found, has_null)) && literal_views(found@) == values
                && has_null == lists_null(list@),
            Err(failure) => fails_with(result, failure),
        },
{
    let mut values: Vec<LiteralValue> = Vec::new();
    let mut has_null = false;
    let mut index: usize = 0;
    proof {
        assert(list@.take(0) =~= Seq::empty());
        assert(literal_views(values@) =~= Seq::empty());
    }
    while index < list.len()
        invariant
            index <= list@.len(),
            present_literals(list@.take(index as int)) == Ok::<Seq<Literal>, Failure>(
                literal_views(values@),
            ),
            has_null == (exists|earlier: int|
                0 <= earlier < index && literal_of(#[trigger] list@[earlier]) == Some(
                    Literal::Null,
                )),
        decreases list@.len() - index,
    {
        assert(list@.take(index + 1).drop_last() =~= list@.take(index as int));
        assert(list@.take(index + 1).last() == list@[index as int]);
        match sql_literal_value(&list[index]) {
            Ok(LiteralValue::Null) => {
                has_null = true;
                assert(literal_of(list@[index as int]) == Some(Literal::Null));
            },
            Ok(value) => {
                let ghost before = values@;
                values.push(value);
                assert(literal_views(values@) =~= literal_views(before).push(value@));
            },
            Err(error) => {
                proof {
                    lemma_literals_fail(list@, index + 1);
                }
                return Err(error);
            },
        }
        index += 1;
    }
    assert(list@.take(index as int) =~= list@);
    Ok((values, has_null))
}

/// A column that is one of a list of literals.
fn safe_expression_in_list_pushdown(
    expr: &SqlExpr,
    list: &Vec<SqlExpr>,
    negated: bool,
    scope: Scope<'_>,
) -> (result: SqlResult<Option<FilterExpr>>)
    ensures
        gives_ahead(result, in_list_ahead(*expr, list@, negated, scope@)),
{
    if negated {
        return Ok(None);
    }
    match simple_column_wrapped_expression(expr, scope) {
        Err(error) => Err(error),
        Ok(None) => Ok(None),
        Ok(Some(column)) => match read_literals(list) {
            Err(error) => Err(error),
            Ok((values, has_null)) => {
                assert(literal_views(values@).len() == values@.len());
                if values.len() == 0 {
                    Ok(None)
                } else {
                    Ok(Some(FilterExpr::InList { column, values, negated: false, has_null }))
                }
            },
        },
    }
}

/// A column that lies between two literals, or does not.
fn safe_expression_between_pushdown(
    expr: &SqlExpr,
    negated: bool,
    low: &SqlExpr,
    high: &SqlExpr,
    scope: Scope<'_>,
) -> (result: SqlResult<Option<FilterExpr>>)
    ensures
        gives_ahead(result, between_ahead(*expr, negated, *low, *high, scope@)),
{
    let column = match simple_column_wrapped_expression(expr, scope) {
        Err(error) => {
            return Err(error);
        },
        Ok(None) => {
            return Ok(None);
        },
        Ok(Some(column)) => column,
    };
    let low = match sql_literal_value(low) {
        Err(error) => {
            return Err(error);
        },
        Ok(value) => value,
    };
    let high = match sql_literal_value(high) {
        Err(error) => {
            return Err(error);
        },
        Ok(value) => value,
    };
    let lower = FilterExpr::Comparison(
        ComparisonExpr {
            column: string_copy(&column),
            op: if negated {
                ComparisonOp::Lt
            } else {
                ComparisonOp::GtEq
            },
            value: low,
        },
    );
    let upper = FilterExpr::Comparison(
        ComparisonExpr {
            column,
            op: if negated {
                ComparisonOp::Gt
            } else {
                ComparisonOp::LtEq
            },
            value: high,
        },
    );
    proof {
        reveal_with_fuel(FilterExpr::model, 2);
    }
    if negated {
        Ok(Some(FilterExpr::Or(Box::new(lower), Box::new(upper))))
    } else {
        Ok(Some(FilterExpr::And(Box::new(lower), Box::new(upper))))
    }
}

/// A column that is null, or is not.
fn safe_expression_null_pushdown(expr: &SqlExpr, negated: bool, scope: Scope<'_>) -> (result:
    SqlResult<Option<FilterExpr>>)
    ensures
        gives_ahead(result, null_ahead(*expr, negated, scope@)),
{
    match simple_column_wrapped_expression(expr, scope) {
        Err(error) => Err(error),
        Ok(None) => Ok(None),
        Ok(Some(column)) => Ok(Some(FilterExpr::IsNull { column, negated })),
    }
}

/// The pattern that an expression must be.
pub(crate) fn sql_like_pattern(pattern: &SqlExpr) -> (result: SqlResult<String>)
    ensures
        match pattern_of(*pattern) {
            Ok(text) => result matches Ok(found) && found@ == text,
            Err(failure) => fails_with(result, failure),
        },
{
    match sql_literal_value(pattern) {
        Ok(LiteralValue::Utf8(text)) => Ok(text),
        Ok(_) => Err(
            SqlError::UnsupportedSql(
                joined("LIKE pattern must be a string literal, got ", pattern.text.as_str()),
            ),
        ),
        Err(error) => Err(error),
    }
}

/// The escape character that a literal must be, where there is one.
pub(crate) fn sql_like_escape(escape_char: &Option<SqlValue>) -> (result: SqlResult<Option<char>>)
    ensures
        match escape_of(*escape_char) {
            Ok(escape) => result matches Ok(found) && found == escape,
            Err(failure) => fails_with(result, failure),
        },
{
    match escape_char {
        None => Ok(None),
        Some(value) => {
            match &value.kind {
                SqlValueKind::SingleQuotedString(text) => {
                    let characters = chars_of(text.as_str());
                    if characters.len() == 1 {
                        return Ok(Some(characters[0]));
                    }
                },
                _ => {},
            }
            Err(
                SqlError::UnsupportedSql(
                    joined("LIKE ESCAPE must be one character, got ", value.text.as_str()),
                ),
            )
        },
    }
}

/// A column that is like a pattern, or is not.
fn safe_expression_like_pushdown(
    expr: &SqlExpr,
    pattern: &SqlExpr,
    negated: bool,
    any: bool,
    escape_char: &Option<SqlValue>,
    case_insensitive: bool,
    scope: Scope<'_>,
) -> (result: SqlResult<Option<FilterExpr>>)
    ensures
        gives_ahead(
            result,
            like_ahead(*expr, *pattern, negated, any, *escape_char, case_insensitive, scope@),
        ),
{
    if any {
        return Ok(None);
    }
    match simple_column_wrapped_expression(expr, scope) {
        Err(error) => Err(error),
        Ok(None) => Ok(None),
        Ok(Some(column)) => match sql_like_pattern(pattern) {
            Err(error) => Err(error),
            Ok(pattern) => match sql_like_escape(escape_char) {
                Err(error) => Err(error),
                Ok(escape) => Ok(
                    Some(FilterExpr::Like { column, pattern, negated, escape, case_insensitive }),
                ),
            },
        },
    }
}

/// The part of a filter that can be applied ahead.
pub fn safe_expression_pushdown_filter(expr: &SqlExpr, scope: Scope<'_>) -> (result: SqlResult<
    Option<FilterExpr>,
>)
    ensures
        gives_ahead(result, ahead_of(*expr, scope@)),
    decreases *expr,
{
    match &expr.kind {
        SqlExprKind::Nested(inner) => safe_expression_pushdown_filter(inner, scope),
        SqlExprKind::BinaryOp { left, op, right } => match op {
            SqlBinaryOperator::And => {
                let first = match safe_expression_pushdown_filter(left, scope) {
                    Err(error) => {
                        return Err(error);
                    },
                    Ok(first) => first,
                };
                let second = match safe_expression_pushdown_filter(right, scope) {
                    Err(error) => {
                        return Err(error);
                    },
                    Ok(second) => second,
                };
                Ok(
                    match (first, second) {
                        (Some(left), Some(right)) => Some(
                            FilterExpr::And(Box::new(left), Box::new(right)),
                        ),
                        (Some(left), None) => Some(left),
                        (None, right) => right,
                    },
                )
            },
            SqlBinaryOperator::Or => match safe_expression_pushdown_filter(left, scope) {
                Err(error) => Err(error),
                Ok(None) => Ok(None),
                Ok(Some(first)) => match safe_expression_pushdown_filter(right, scope) {
                    Err(error) => Err(error),
                    Ok(None) => Ok(None),
                    Ok(Some(second)) => Ok(
                        Some(FilterExpr::Or(Box::new(first), Box::new(second))),
                    ),
                },
            },
            SqlBinaryOperator::Eq
            | SqlBinaryOperator::NotEq
            | SqlBinaryOperator::Gt
            | SqlBinaryOperator::GtEq
            | SqlBinaryOperator::Lt
            | SqlBinaryOperator::LtEq => safe_expression_comparison_pushdown(
                left,
                *op,
                right,
                scope,
            ),
            _ => Ok(None),
        },
        SqlExprKind::InList { expr, list, negated } => safe_expression_in_list_pushdown(
            expr,
            list,
            *negated,
            scope,
        ),
        SqlExprKind::Between { expr, negated, low, high } => safe_expression_between_pushdown(
            expr,
            *negated,
            low,
            high,
            scope,
        ),
        SqlExprKind::IsNull(inner) => safe_expression_null_pushdown(inner, false, scope),
        SqlExprKind::IsNotNull(inner) => safe_expression_null_pushdown(inner, true, scope),
        SqlExprKind::Like { expr, pattern, negated, any, escape_char, case_insensitive } => {
            safe_expression_like_pushdown(
                expr,
                pattern,
                *negated,
                *any,
                escape_char,
                *case_insensitive,
                scope,
            )
        },
        _ => Ok(None),
    }
}

/// What a row says: the values of its columns, and how values compare, are like a pattern,
/// and come out of whatever else a statement may hold.
pub struct RowTruth {
    pub column: spec_fn(Seq<char>) -> Literal,
    pub compared: spec_fn(Literal, ComparisonOp, Literal) -> bool,
    pub like: spec_fn(Literal, Seq<char>, Option<char>, bool) -> bool,
    pub computed: spec_fn(Scalar) -> Literal,
    pub tested: spec_fn(SqlExpr) -> bool,
}

/// Whether values compare soundly: alike whichever side they stand on, integers by their
/// order and texts by theirs.
pub open spec fn compares_soundly(row: RowTruth) -> bool {
    forall|left: Literal, op: SqlBinaryOperator, right: Literal|
        #![trigger (row.compared)(left, comparison_of(op), right)]
        compares(op) && !(left is Null) && !(right is Null) ==> {
            &&& (row.compared)(left, comparison_of(op), right) ==> may_compare(left, op, right)
            &&& (row.compared)(left, comparison_of(op), right) == (row.compared)(
                right,
                comparison_of(reversed(op)),
                left,
            )
        }
}

/// Whether a value compares with another. A null compares with nothing.
pub open spec fn compare_in(
    row: RowTruth,
    left: Literal,
    op: ComparisonOp,
    right: Literal,
) -> bool {
    !(left is Null) && !(right is Null) && (row.compared)(left, op, right)
}

/// What a scalar expression comes to in a row. `COALESCE` of two takes the second where
/// the first is null.
pub open spec fn scalar_in(row: RowTruth, scalar: Scalar) -> Literal
    decreases scalar,
{
    match scalar {
        Scalar::Column(column) => (row.column)(column),
        Scalar::Literal(literal) => literal,
        Scalar::Call { function, args } => if function == ScalarFunction::Coalesce && args.len()
            == 2 {
            if scalar_in(row, args[0]) is Null {
                scalar_in(row, args[1])
            } else {
                scalar_in(row, args[0])
            }
        } else {
            (row.computed)(scalar)
        },
        _ => (row.computed)(scalar),
    }
}

/// What an expression of a statement comes to in a row, null for one that is no scalar
/// expression.
pub open spec fn value_in(row: RowTruth, expr: SqlExpr, scope: Tables) -> Literal {
    match scalar_of(expr, scope) {
        Ok(scalar) => scalar_in(row, scalar),
        Err(_) => Literal::Null,
    }
}

/// Whether a value is one of a list. It is neither in the list nor outside where it is
/// null, nor outside where the list has a null.
pub open spec fn listed_in(
    row: RowTruth,
    value: Literal,
    list: Seq<SqlExpr>,
    negated: bool,
    scope: Tables,
) -> bool {
    if negated {
        !(value is Null) && forall|index: int|
            0 <= index < list.len() ==> {
                let other = value_in(row, #[trigger] list[index], scope);
                !(other is Null) && !(row.compared)(value, ComparisonOp::Eq, other)
            }
    } else {
        exists|index: int|
            0 <= index < list.len() && compare_in(
                row,
                value,
                ComparisonOp::Eq,
                value_in(row, #[trigger] list[index], scope),
            )
    }
}

/// Whether a filter of a statement holds in a row.
pub open spec fn holds(row: RowTruth, expr: SqlExpr, scope: Tables) -> bool
    decreases expr,
{
    match expr.kind {
        SqlExprKind::Nested(inner) => holds(row, *inner, scope),
        SqlExprKind::BinaryOp { left, op, right } => if op == SqlBinaryOperator::And {
            holds(row, *left, scope) && holds(row, *right, scope)
        } else if op == SqlBinaryOperator::Or {
            holds(row, *left, scope) || holds(row, *right, scope)
        } else if compares(op) {
            compare_in(
                row,
                value_in(row, *left, scope),
                comparison_of(op),
                value_in(row, *right, scope),
            )
        } else {
            (row.tested)(expr)
        },
        SqlExprKind::InList { expr: listed, list, negated } => listed_in(
            row,
            value_in(row, *listed, scope),
            list@,
            negated,
            scope,
        ),
        SqlExprKind::Between { expr: between, negated, low, high } => {
            let value = value_in(row, *between, scope);
            let from = value_in(row, *low, scope);
            let to = value_in(row, *high, scope);
            if negated {
                compare_in(row, value, ComparisonOp::Lt, from) || compare_in(
                    row,
                    value,
                    ComparisonOp::Gt,
                    to,
                )
            } else {
                compare_in(row, value, ComparisonOp::GtEq, from) && compare_in(
                    row,
                    value,
                    ComparisonOp::LtEq,
                    to,
                )
            }
        },
        SqlExprKind::IsNull(inner) => value_in(row, *inner, scope) is Null,
        SqlExprKind::IsNotNull(inner) => !(value_in(row, *inner, scope) is Null),
        SqlExprKind::Like { expr: text, pattern, negated, any, escape_char, case_insensitive } => {
            let value = value_in(row, *text, scope);
            match (any, pattern_of(*pattern), escape_of(escape_char)) {
                (false, Ok(pattern), Ok(escape)) => !(value is Null) && (row.like)(
                    value,
                    pattern,
                    escape,
                    case_insensitive,
                ) != negated,
                _ => (row.tested)(expr),
            }
        },
        _ => (row.tested)(expr),
    }
}

/// Whether a filter of a scan passes a row.
pub open spec fn passes(row: RowTruth, filter: Filter) -> bool
    decreases filter,
{
    match filter {
        Filter::Comparison { column, op, value } => compare_in(
            row,
            (row.column)(column),
            op,
            value,
        ),
        Filter::And(left, right) => passes(row, *left) && passes(row, *right),
        Filter::Or(left, right) => passes(row, *left) || passes(row, *right),
        Filter::InList { column, values, negated, has_null } => {
            let value = (row.column)(column);
            if negated {
                !(value is Null) && !has_null && forall|index: int|
                    0 <= index < values.len() ==> !(row.compared)(
                        value,
                        ComparisonOp::Eq,
                        #[trigger] values[index],
                    )
            } else {
                exists|index: int|
                    0 <= index < values.len() && compare_in(
                        row,
                        value,
                        ComparisonOp::Eq,
                        #[trigger] values[index],
                    )
            }
        },
        Filter::IsNull { column, negated } => ((row.column)(column) is Null) != negated,
        Filter::Like { column, pattern, negated, escape, case_insensitive } => !((row.column)(
            column,
        ) is Null) && (row.like)((row.column)(column), pattern, escape, case_insensitive)
            != negated,
    }
}

/// A literal comes to itself.
proof fn lemma_literal_in(row: RowTruth, expr: SqlExpr, scope: Tables)
    ensures
        literal_of(expr) matches Some(literal) ==> value_in(row, expr, scope) == literal,
{
}

/// The literals of a list that are not null are all taken over.
proof fn lemma_literals_taken(list: Seq<SqlExpr>, index: int)
    requires
        present_literals(list) is Ok,
        0 <= index < list.len(),
    ensures
        literal_of(list[index]) is Some,
        literal_of(list[index])->Some_0 is Null || present_literals(list)->Ok_0.contains(
            literal_of(list[index])->Some_0,
        ),
    decreases list.len(),
{
    let values = present_literals(list)->Ok_0;
    let earlier = present_literals(list.drop_last())->Ok_0;
    if index < list.len() - 1 {
        lemma_literals_taken(list.drop_last(), index);
        let literal = literal_of(list[index])->Some_0;
        if earlier.contains(literal) {
            let place = choose|place: int| 0 <= place < earlier.len() && earlier[place] == literal;
            assert(values[place] == literal);
        }
    } else if !(literal_of(list[index])->Some_0 is Null) {
        assert(values[earlier.len() as int] == literal_of(list[index])->Some_0);
    }
}

/// A comparison of a column, or of a column with a literal in its place, with a literal
/// passes ahead where it holds.
proof fn lemma_comparison_agrees(
    row: RowTruth,
    expr: SqlExpr,
    op: SqlBinaryOperator,
    literal_expr: SqlExpr,
    scope: Tables,
)
    requires
        compares_soundly(row),
        compares(op),
        compare_in(
            row,
            value_in(row, expr, scope),
            comparison_of(op),
            value_in(row, literal_expr, scope),
        ),
    ensures
        column_comparison_ahead(expr, op, literal_expr, scope) matches Ok(Some(filter)) ==> passes(
            row,
            filter,
        ),
{
    reveal_with_fuel(scalar_in, 2);
    reveal_with_fuel(passes, 2);
    lemma_literal_in(row, literal_expr, scope);
}

/// A value that is in a list of literals passes ahead.
proof fn lemma_listed_agrees(
    row: RowTruth,
    listed: SqlExpr,
    list: Seq<SqlExpr>,
    negated: bool,
    scope: Tables,
)
    requires
        listed_in(row, value_in(row, listed, scope), list, negated, scope),
    ensures
        in_list_ahead(
            listed,
            list,
            negated,
            scope,
        ) matches Ok(Some(filter)) ==> passes(row, filter),
{
    match in_list_ahead(listed, list, negated, scope) {
        Ok(Some(filter)) => {
            let value = value_in(row, listed, scope);
            let index = choose|index: int|
                0 <= index < list.len() && compare_in(
                    row,
                    value,
                    ComparisonOp::Eq,
                    value_in(row, #[trigger] list[index], scope),
                );
            let values = present_literals(list)->Ok_0;
            lemma_literals_taken(list, index);
            lemma_literal_in(row, list[index], scope);
            let literal = literal_of(list[index])->Some_0;
            let place = choose|place: int| 0 <= place < values.len() && values[place] == literal;
            let column = bare_column(listed, scope)->Ok_0->Some_0;
            assert(value == (row.column)(column));
            assert(filter->InList_values == values);
            assert(compare_in(row, value, ComparisonOp::Eq, values[place]));
            assert(passes(row, filter));
        },
        _ => {},
    }
}

/// A filter applied ahead loses no row: it passes wherever the whole filter holds.
pub proof fn law_ahead_loses_nothing(expr: SqlExpr, scope: Tables, row: RowTruth)
    requires
        compares_soundly(row),
        holds(row, expr, scope),
    ensures
        ahead_of(expr, scope) matches Ok(Some(filter)) ==> passes(row, filter),
    decreases expr,
{
    reveal_with_fuel(passes, 2);
    match expr.kind {
        SqlExprKind::Nested(inner) => {
            law_ahead_loses_nothing(*inner, scope, row);
        },
        SqlExprKind::BinaryOp { left, op, right } => {
            if op == SqlBinaryOperator::And {
                law_ahead_loses_nothing(*left, scope, row);
                law_ahead_loses_nothing(*right, scope, row);
            } else if op == SqlBinaryOperator::Or {
                if holds(row, *left, scope) {
                    law_ahead_loses_nothing(*left, scope, row);
                } else {
                    law_ahead_loses_nothing(*right, scope, row);
                }
            } else if compares(op) {
                lemma_comparison_agrees(row, *left, op, *right, scope);
                let first = value_in(row, *left, scope);
                let second = value_in(row, *right, scope);
                assert((row.compared)(first, comparison_of(op), second) == (row.compared)(
                    second,
                    comparison_of(reversed(op)),
                    first,
                ));
                lemma_comparison_agrees(row, *right, reversed(op), *left, scope);
            }
        },
        SqlExprKind::InList { expr: listed, list, negated } => {
            lemma_listed_agrees(row, *listed, list@, negated, scope);
        },
        SqlExprKind::Between { low, high, .. } => {
            lemma_literal_in(row, *low, scope);
            lemma_literal_in(row, *high, scope);
        },
        _ => {},
    }
}

/// What is applied ahead of compound filters: nothing of a `NOT`, nothing of an `OR` unless
/// something is of both sides, and of an `AND` what is of either side.
pub proof fn law_ahead_of_compounds(expr: SqlExpr, scope: Tables)
    ensures
        match expr.kind {
            SqlExprKind::UnaryOp { .. } => ahead_of(expr, scope) == Ok::<Option<Filter>, Failure>(
                None,
            ),
            SqlExprKind::BinaryOp { left, op, right } => match (
                ahead_of(*left, scope),
                ahead_of(*right, scope),
            ) {
                (Ok(first), Ok(second)) => {
                    &&& op == SqlBinaryOperator::Or ==> (ahead_of(expr, scope) == Ok::<
                        Option<Filter>,
                        Failure,
                    >(None) <==> (first is None || second is None))
                    &&& op == SqlBinaryOperator::And ==> ahead_of(expr, scope) == Ok::<
                        Option<Filter>,
                        Failure,
                    >(both_ahead(first, second))
                },
                _ => true,
            },
            _ => true,
        },
{
}

/// How a conjunct of a filter is applied.
pub enum ConjunctPlan<'a> {
    /// It is computed from the rows that a scan gives out, with what can be applied ahead.
    Computed { conjunct: &'a SqlExpr, ahead: Option<FilterExpr> },
    /// The scan applies it, once its subqueries are known.
    Scanned(&'a SqlExpr),
}

/// Whether a plan is that of a conjunct.
pub open spec fn plans_conjunct(plan: ConjunctPlan, conjunct: &SqlExpr, scope: Tables) -> bool {
    if is_computed(*conjunct) && !holds_subquery(*conjunct, false) {
        plan matches ConjunctPlan::Computed { conjunct: planned, ahead } && planned == conjunct
            && gives_ahead(Ok(ahead), ahead_of(*conjunct, scope))
    } else {
        plan matches ConjunctPlan::Scanned(planned) && planned == conjunct
    }
}

/// Whether a conjunct fails to be planned.
pub open spec fn fails_conjunct(conjunct: &SqlExpr, scope: Tables) -> bool {
    &&& is_computed(*conjunct)
    &&& !holds_subquery(*conjunct, false)
    &&& ahead_of(*conjunct, scope) is Err
}

/// How each conjunct of a filter is applied. The first conjunct that cannot be planned
/// is an error.
pub fn split_expression_filters<'a>(selection: &'a SqlExpr, scope: Scope<'_>) -> (result: SqlResult<
    Vec<ConjunctPlan<'a>>,
>)
    ensures
        match result {
            Ok(plans) => {
                &&& plans@.len() == conjuncts_of(selection).len()
                &&& forall|index: int|
                    0 <= index < plans@.len() ==> plans_conjunct(
                        #[trigger] plans@[index],
                        conjuncts_of(selection)[index],
                        scope@,
                    )
            },
            Err(error) => exists|index: int|
                {
                    &&& 0 <= index < conjuncts_of(selection).len()
                    &&& fails_conjunct(#[trigger] conjuncts_of(selection)[index], scope@)
                    &&& ahead_of(*conjuncts_of(selection)[index], scope@) == Err::<
                        Option<Filter>,
                        Failure,
                    >(error.failure())
                    &&& forall|earlier: int|
                        0 <= earlier < index ==> !fails_conjunct(
                            #[trigger] conjuncts_of(selection)[earlier],
                            scope@,
                        )
                },
        },
{
    let conjuncts = collect_sql_and_conjuncts(selection);
    let mut plans: Vec<ConjunctPlan<'a>> = Vec::new();
    let mut index: usize = 0;
    while index < conjuncts.len()
        invariant
            conjuncts@ == conjuncts_of(selection),
            index <= conjuncts@.len(),
            plans@.len() == index,
            forall|earlier: int|
                0 <= earlier < index ==> plans_conjunct(
                    #[trigger] plans@[earlier],
                    conjuncts@[earlier],
                    scope@,
                ),
            forall|earlier: int|
                0 <= earlier < index ==> !fails_conjunct(#[trigger] conjuncts@[earlier], scope@),
        decreases conjuncts@.len() - index,
    {
        let conjunct: &'a SqlExpr = conjuncts[index];
        if predicate_requires_expression_path(conjunct) && !expr_contains_materializable_subquery(
            conjunct,
        ) {
            match safe_expression_pushdown_filter(conjunct, scope) {
                Ok(ahead) => {
                    plans.push(ConjunctPlan::Computed { conjunct, ahead });
                },
                Err(error) => {
                    assert(fails_conjunct(conjuncts@[index as int], scope@));
                    return Err(error);
                },
            }
        } else {
            plans.push(ConjunctPlan::Scanned(conjunct));
        }
        index += 1;
    }
    Ok(plans)
}

} // verus!
