//! Filters of statements that a scan can apply as they are.

use vstd::prelude::*;
use crate::aggregates::{aggregate_text, aggregate_to_string, parse_aggregate, plain_aggregate};
use crate::ast::{SqlBinaryOperator, SqlExpr, SqlExprKind};
use crate::error::{fails_with, Failure, SqlError, SqlResult};
use crate::filters::{
    comparison_of, reverse_binary_operator, reversed, sql_comparison_op, ComparisonExpr,
    ComparisonOp, Filter, FilterExpr,
};
use crate::literals::{literal_of, sql_literal_value, Literal, LiteralValue};
use crate::names::{column_in, sql_column_name, Scope, Tables};
use crate::predicate_pushdown::{
    compares, escape_of, lists_null, no_literal, pattern_of, present_literals, read_literals,
    sql_like_escape, sql_like_pattern,
};
use crate::projection_parser::pair_texts;
use crate::query_modifiers::{resolve_alias, resolved_alias};
use crate::text::{joined, string_copy};

verus! {

/// What the names of a filter are looked up in; the filter of groups may test aggregates.
#[derive(Clone, Copy)]
pub struct FilterNames<'a> {
    pub aliases: &'a [(String, String)],
    pub scope: Scope<'a>,
    pub aggregates: bool,
}

/// What the names of a filter are looked up in, as a value.
pub struct FilterScope {
    pub aliases: Seq<(Seq<char>, Seq<char>)>,
    pub tables: Tables,
    pub aggregates: bool,
}

impl<'a> View for FilterNames<'a> {
    type V = FilterScope;

    open spec fn view(&self) -> FilterScope {
        FilterScope {
            aliases: pair_texts(self.aliases@),
            tables: self.scope@,
            aggregates: self.aggregates,
        }
    }
}

/// The failure of an expression that is no filter.
pub open spec fn no_filter(expr: SqlExpr) -> Failure {
    Failure::Unsupported("unsupported WHERE expression: "@ + expr.text@)
}

/// Whether an expression can be tested: a column, or an aggregate where they may be.
pub open spec fn is_testable(expr: SqlExpr, names: FilterScope) -> bool {
    match expr.kind {
        SqlExprKind::Identifier(_) => true,
        SqlExprKind::CompoundIdentifier(_) => true,
        SqlExprKind::Function(_) => names.aggregates,
        _ => false,
    }
}

/// The column that is tested.
pub open spec fn tested_column(expr: SqlExpr, names: FilterScope) -> Result<Seq<char>, Failure> {
    let name = match expr.kind {
        SqlExprKind::Identifier(_) => column_in(expr, names.tables),
        SqlExprKind::CompoundIdentifier(_) => column_in(expr, names.tables),
        SqlExprKind::Function(function) => if names.aggregates {
            match plain_aggregate(function, expr.text@, names.tables) {
                Ok(aggregate) => Ok(aggregate_text(aggregate)),
                Err(failure) => Err(failure),
            }
        } else {
            Err(no_filter(expr))
        },
        _ => Err(no_filter(expr)),
    };
    match name {
        Ok(name) => Ok(resolved_alias(name, names.aliases)),
        Err(failure) => Err(failure),
    }
}

/// A column compared with a literal.
pub open spec fn comparison_filter(
    column: SqlExpr,
    op: SqlBinaryOperator,
    literal: SqlExpr,
    names: FilterScope,
) -> Result<Filter, Failure> {
    match tested_column(column, names) {
        Err(failure) => Err(failure),
        Ok(tested) => match literal_of(literal) {
            None => Err(no_literal(literal)),
            Some(value) => Ok(
                Filter::Comparison { column: tested, op: comparison_of(op), value },
            ),
        },
    }
}

/// The filter that an expression is.
pub open spec fn filter_of(expr: SqlExpr, names: FilterScope) -> Result<Filter, Failure>
    decreases expr,
{
    match expr.kind {
        SqlExprKind::Nested(inner) => filter_of(*inner, names),
        SqlExprKind::BinaryOp { left, op, right } => if op == SqlBinaryOperator::And || op
            == SqlBinaryOperator::Or {
            match filter_of(*left, names) {
                Err(failure) => Err(failure),
                Ok(first) => match filter_of(*right, names) {
                    Err(failure) => Err(failure),
                    Ok(second) => Ok(
                        if op == SqlBinaryOperator::And {
                            Filter::And(Box::new(first), Box::new(second))
                        } else {
                            Filter::Or(Box::new(first), Box::new(second))
                        },
                    ),
                },
            }
        } else if !compares(op) {
            Err(no_filter(expr))
        } else if is_testable(*left, names) {
            comparison_filter(*left, op, *right, names)
        } else if is_testable(*right, names) {
            comparison_filter(*right, reversed(op), *left, names)
        } else {
            Err(no_filter(expr))
        },
        SqlExprKind::InList { expr: tested, list, negated } => match tested_column(*tested, names) {
            Err(failure) => Err(failure),
            Ok(column) => match present_literals(list@) {
                Err(failure) => Err(failure),
                Ok(values) => Ok(
                    Filter::InList { column, values, negated, has_null: lists_null(list@) },
                ),
            },
        },
        SqlExprKind::Between { expr: tested, negated, low, high } => match tested_column(
            *tested,
            names,
        ) {
            Err(failure) => Err(failure),
            Ok(column) => match (literal_of(*low), literal_of(*high)) {
                (None, _) => Err(no_literal(*low)),
                (_, None) => Err(no_literal(*high)),
                (Some(from), Some(to)) => Ok(range_filter(column, negated, from, to)),
            },
        },
        SqlExprKind::IsNull(inner) => match tested_column(*inner, names) {
            Err(failure) => Err(failure),
            Ok(column) => Ok(Filter::IsNull { column, negated: false }),
        },
        SqlExprKind::IsNotNull(inner) => match tested_column(*inner, names) {
            Err(failure) => Err(failure),
            Ok(column) => Ok(Filter::IsNull { column, negated: true }),
        },
        SqlExprKind::Like { expr: tested, pattern, negated, any, escape_char, case_insensitive } => {
            if any {
                Err(no_filter(expr))
            } else {
                match tested_column(*tested, names) {
                    Err(failure) => Err(failure),
                    Ok(column) => match pattern_of(*pattern) {
                        Err(failure) => Err(failure),
                        Ok(pattern) => match escape_of(escape_char) {
                            Err(failure) => Err(failure),
                            Ok(escape) => Ok(
                                Filter::Like { column, pattern, negated, escape, case_insensitive },
                            ),
                        },
                    },
                }
            }
        },
        _ => Err(no_filter(expr)),
    }
}

/// A column within a range, or outside it.
pub open spec fn range_filter(
    column: Seq<char>,
    negated: bool,
    from: Literal,
    to: Literal,
) -> Filter {
    if negated {
        Filter::Or(
            Box::new(Filter::Comparison { column, op: ComparisonOp::Lt, value: from }),
            Box::new(Filter::Comparison { column, op: ComparisonOp::Gt, value: to }),
        )
    } else {
        Filter::And(
            Box::new(Filter::Comparison { column, op: ComparisonOp::GtEq, value: from }),
            Box::new(Filter::Comparison { column, op: ComparisonOp::LtEq, value: to }),
        )
    }
}

/// Whether a result is the filter that an expression is.
pub open spec fn gives_filter(
    result: SqlResult<FilterExpr>,
    expected: Result<Filter, Failure>,
) -> bool {
    match expected {
        Ok(filter) => result matches Ok(found) && found.model() == filter,
        Err(failure) => fails_with(result, failure),
    }
}

/// The error of an expression that is no filter.
fn refuse_filter(expr: &SqlExpr) -> (error: SqlError)
    ensures
        error.failure() == no_filter(*expr),
{
    SqlError::UnsupportedSql(joined("unsupported WHERE expression: ", expr.text.as_str()))
}

/// Whether an expression can be tested.
fn can_test(expr: &SqlExpr, names: FilterNames<'_>) -> (testable: bool)
    ensures
        testable == is_testable(*expr, names@),
{
    match &expr.kind {
        SqlExprKind::Identifier(_) | SqlExprKind::CompoundIdentifier(_) => true,
        SqlExprKind::Function(_) => names.aggregates,
        _ => false,
    }
}

/// The column that is tested.
fn parse_tested_column(expr: &SqlExpr, names: FilterNames<'_>) -> (result: SqlResult<String>)
    ensures
        match tested_column(*expr, names@) {
            Ok(column) => result matches Ok(found) && found@ == column,
            Err(failure) => fails_with(result, failure),
        },
{
    let name = match &expr.kind {
        SqlExprKind::Identifier(_) | SqlExprKind::CompoundIdentifier(_) => sql_column_name(
            expr,
            names.scope,
        ),
        SqlExprKind::Function(function) => {
            if !names.aggregates {
                return Err(refuse_filter(expr));
            }
            match parse_aggregate(function, &expr.text, names.scope) {
                Ok(aggregate) => Ok(aggregate_to_string(&aggregate)),
                Err(error) => Err(error),
            }
        },
        _ => {
            return Err(refuse_filter(expr));
        },
    };
    match name {
        Ok(name) => Ok(resolve_alias(name.as_str(), names.aliases)),
        Err(error) => Err(error),
    }
}

/// A column compared with a literal.
fn parse_comparison(
    column: &SqlExpr,
    op: SqlBinaryOperator,
    literal: &SqlExpr,
    names: FilterNames<'_>,
) -> (result: SqlResult<FilterExpr>)
    ensures
        gives_filter(result, comparison_filter(*column, op, *literal, names@)),
{
    match parse_tested_column(column, names) {
        Err(error) => Err(error),
        Ok(column) => match sql_literal_value(literal) {
            Err(error) => Err(error),
            Ok(value) => Ok(
                FilterExpr::Comparison(ComparisonExpr { column, op: sql_comparison_op(op), value }),
            ),
        },
    }
}

/// A column within a range, or outside it.
fn make_range(
    column: String,
    negated: bool,
    from: LiteralValue,
    to: LiteralValue,
) -> (filter: FilterExpr)
    ensures
        filter.model() == range_filter(column@, negated, from@, to@),
{
    proof {
        reveal_with_fuel(FilterExpr::model, 2);
    }
    let lower_op = if negated {
        ComparisonOp::Lt
    } else {
        ComparisonOp::GtEq
    };
    let upper_op = if negated {
        ComparisonOp::Gt
    } else {
        ComparisonOp::LtEq
    };
    let lower = FilterExpr::Comparison(
        ComparisonExpr { column: string_copy(&column), op: lower_op, value: from },
    );
    let upper = FilterExpr::Comparison(ComparisonExpr { column, op: upper_op, value: to });
    if negated {
        FilterExpr::Or(Box::new(lower), Box::new(upper))
    } else {
        FilterExpr::And(Box::new(lower), Box::new(upper))
    }
}

/// The filter that an expression is.
pub fn parse_filter(expr: &SqlExpr, names: FilterNames<'_>) -> (result: SqlResult<FilterExpr>)
    ensures
        gives_filter(result, filter_of(*expr, names@)),
    decreases *expr,
{
    match &expr.kind {
        SqlExprKind::Nested(inner) => parse_filter(inner, names),
        SqlExprKind::BinaryOp { left, op, right } => match op {
            SqlBinaryOperator::And | SqlBinaryOperator::Or => {
                let first = match parse_filter(left, names) {
                    Err(error) => {
                        return Err(error);
                    },
                    Ok(first) => first,
                };
                let second = match parse_filter(right, names) {
                    Err(error) => {
                        return Err(error);
                    },
                    Ok(second) => second,
                };
                if *op == SqlBinaryOperator::And {
                    Ok(FilterExpr::And(Box::new(first), Box::new(second)))
                } else {
                    Ok(FilterExpr::Or(Box::new(first), Box::new(second)))
                }
            },
            SqlBinaryOperator::Eq
            | SqlBinaryOperator::NotEq
            | SqlBinaryOperator::Gt
            | SqlBinaryOperator::GtEq
            | SqlBinaryOperator::Lt
            | SqlBinaryOperator::LtEq => {
                if can_test(left, names) {
                    parse_comparison(left, *op, right, names)
                } else if can_test(right, names) {
                    parse_comparison(right, reverse_binary_operator(*op), left, names)
                } else {
                    Err(refuse_filter(expr))
                }
            },
            _ => Err(refuse_filter(expr)),
        },
        SqlExprKind::InList { expr: tested, list, negated } => {
            match parse_tested_column(tested, names) {
                Err(error) => Err(error),
                Ok(column) => match read_literals(list) {
                    Err(error) => Err(error),
                    Ok((values, has_null)) => Ok(
                        FilterExpr::InList { column, values, negated: *negated, has_null },
                    ),
                },
            }
        },
        SqlExprKind::Between { expr: tested, negated, low, high } => {
            match parse_tested_column(tested, names) {
                Err(error) => Err(error),
                Ok(column) => match sql_literal_value(low) {
                    Err(error) => Err(error),
                    Ok(from) => match sql_literal_value(high) {
                        Err(error) => Err(error),
                        Ok(to) => Ok(make_range(column, *negated, from, to)),
                    },
                },
            }
        },
        SqlExprKind::IsNull(inner) => match parse_tested_column(inner, names) {
            Err(error) => Err(error),
            Ok(column) => Ok(FilterExpr::IsNull { column, negated: false }),
        },
        SqlExprKind::IsNotNull(inner) => match parse_tested_column(inner, names) {
            Err(error) => Err(error),
            Ok(column) => Ok(FilterExpr::IsNull { column, negated: true }),
        },
        SqlExprKind::Like { expr: tested, pattern, negated, any, escape_char, case_insensitive } => {
            if *any {
                return Err(refuse_filter(expr));
            }
            match parse_tested_column(tested, names) {
                Err(error) => Err(error),
                Ok(column) => match sql_like_pattern(pattern) {
                    Err(error) => Err(error),
                    Ok(pattern) => match sql_like_escape(escape_char) {
                        Err(error) => Err(error),
                        Ok(escape) => Ok(
                            FilterExpr::Like {
                                column,
                                pattern,
                                negated: *negated,
                                escape,
                                case_insensitive: *case_insensitive,
                            },
                        ),
                    },
                },
            }
        },
        _ => Err(refuse_filter(expr)),
    }
}

} // verus!
