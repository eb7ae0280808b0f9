//! Filters that a scan applies.

use vstd::prelude::*;
use crate::ast::SqlBinaryOperator;
use crate::literals::{Literal, LiteralValue};
use crate::text::{chars_of, string_from};

verus! {

/// A comparison.
#[derive(Clone, Copy, Debug, PartialEq, Eq, Structural)]
pub enum ComparisonOp {
    Eq,
    NotEq,
    Gt,
    GtEq,
    Lt,
    LtEq,
}

/// A column compared with a value.
#[derive(Debug)]
pub struct ComparisonExpr {
    pub column: String,
    pub op: ComparisonOp,
    pub value: LiteralValue,
}

/// A filter on the columns of a table.
#[derive(Debug)]
pub enum FilterExpr {
    Comparison(ComparisonExpr),
    And(Box<FilterExpr>, Box<FilterExpr>),
    Or(Box<FilterExpr>, Box<FilterExpr>),
    InList { column: String, values: Vec<LiteralValue>, negated: bool, has_null: bool },
    IsNull { column: String, negated: bool },
    Like {
        column: String,
        pattern: String,
        negated: bool,
        escape: Option<char>,
        case_insensitive: bool,
    },
}

/// A filter, as a value.
pub enum Filter {
    Comparison { column: Seq<char>, op: ComparisonOp, value: Literal },
    And(Box<Filter>, Box<Filter>),
    Or(Box<Filter>, Box<Filter>),
    InList { column: Seq<char>, values: Seq<Literal>, negated: bool, has_null: bool },
    IsNull { column: Seq<char>, negated: bool },
    Like {
        column: Seq<char>,
        pattern: Seq<char>,
        negated: bool,
        escape: Option<char>,
        case_insensitive: bool,
    },
}

/// The values of literals.
pub open spec fn literal_views(values: Seq<LiteralValue>) -> Seq<Literal> {
    values.map_values(|value: LiteralValue| value@)
}

impl FilterExpr {
    /// The filter, as a value.
    pub open spec fn model(self) -> Filter
        decreases self,
    {
        match self {
            FilterExpr::Comparison(comparison) => Filter::Comparison {
                column: comparison.column@,
                op: comparison.op,
                value: comparison.value@,
            },
            FilterExpr::And(left, right) => Filter::And(
                Box::new((*left).model()),
                Box::new((*right).model()),
            ),
            FilterExpr::Or(left, right) => Filter::Or(
                Box::new((*left).model()),
                Box::new((*right).model()),
            ),
            FilterExpr::InList { column, values, negated, has_null } => Filter::InList {
                column: column@,
                values: literal_views(values@),
                negated,
                has_null,
            },
            FilterExpr::IsNull { column, negated } => Filter::IsNull { column: column@, negated },
            FilterExpr::Like { column, pattern, negated, escape, case_insensitive } => Filter::Like {
                column: column@,
                pattern: pattern@,
                negated,
                escape,
                case_insensitive,
            },
        }
    }
}

/// The comparison that an operator makes; what does not compare is taken for equality.
pub open spec fn comparison_of(op: SqlBinaryOperator) -> ComparisonOp {
    match op {
        SqlBinaryOperator::NotEq => ComparisonOp::NotEq,
        SqlBinaryOperator::Gt => ComparisonOp::Gt,
        SqlBinaryOperator::GtEq => ComparisonOp::GtEq,
        SqlBinaryOperator::Lt => ComparisonOp::Lt,
        SqlBinaryOperator::LtEq => ComparisonOp::LtEq,
        _ => ComparisonOp::Eq,
    }
}

/// The comparison that an operator makes.
pub fn sql_comparison_op(op: SqlBinaryOperator) -> (comparison: ComparisonOp)
    ensures
        comparison == comparison_of(op),
{
    match op {
        SqlBinaryOperator::NotEq => ComparisonOp::NotEq,
        SqlBinaryOperator::Gt => ComparisonOp::Gt,
        SqlBinaryOperator::GtEq => ComparisonOp::GtEq,
        SqlBinaryOperator::Lt => ComparisonOp::Lt,
        SqlBinaryOperator::LtEq => ComparisonOp::LtEq,
        _ => ComparisonOp::Eq,
    }
}

/// The operator that compares the same with the sides swapped.
pub open spec fn reversed(op: SqlBinaryOperator) -> SqlBinaryOperator {
    match op {
        SqlBinaryOperator::Gt => SqlBinaryOperator::Lt,
        SqlBinaryOperator::GtEq => SqlBinaryOperator::LtEq,
        SqlBinaryOperator::Lt => SqlBinaryOperator::Gt,
        SqlBinaryOperator::LtEq => SqlBinaryOperator::GtEq,
        other => other,
    }
}

/// The operator that compares the same with the sides swapped.
pub fn reverse_binary_operator(op: SqlBinaryOperator) -> (swapped: SqlBinaryOperator)
    ensures
        swapped == reversed(op),
{
    match op {
        SqlBinaryOperator::Gt => SqlBinaryOperator::Lt,
        SqlBinaryOperator::GtEq => SqlBinaryOperator::LtEq,
        SqlBinaryOperator::Lt => SqlBinaryOperator::Gt,
        SqlBinaryOperator::LtEq => SqlBinaryOperator::GtEq,
        other => other,
    }
}

/// Swapping the sides twice changes nothing.
pub proof fn law_reversed_twice(op: SqlBinaryOperator)
    ensures
        reversed(reversed(op)) == op,
{
}

/// The filters that keep the keys of a range, as values.
pub open spec fn range_filters(column: Seq<char>, min_key: int, max_key: int) -> Seq<Filter> {
    seq![
        Filter::Comparison { column, op: ComparisonOp::GtEq, value: Literal::Int64(min_key) },
        Filter::Comparison { column, op: ComparisonOp::LtEq, value: Literal::Int64(max_key) },
    ]
}

/// Filters as values.
pub open spec fn filter_models(filters: Seq<FilterExpr>) -> Seq<Filter> {
    filters.map_values(|filter: FilterExpr| filter.model())
}

/// The filters that keep the keys from `min_key` up to `max_key`.
pub fn i64_range_pruning_predicates(column: &str, min_key: i64, max_key: i64) -> (filters: Vec<
    FilterExpr,
>)
    ensures
        filter_models(filters@) == range_filters(column@, min_key as int, max_key as int),
{
    let characters = chars_of(column);
    let filters: Vec<FilterExpr> = vec![
        FilterExpr::Comparison(ComparisonExpr {
            column: string_from(characters.as_slice()),
            op: ComparisonOp::GtEq,
            value: LiteralValue::Int64(min_key),
        }),
        FilterExpr::Comparison(ComparisonExpr {
            column: string_from(characters.as_slice()),
            op: ComparisonOp::LtEq,
            value: LiteralValue::Int64(max_key),
        }),
    ];
    assert(filter_models(filters@) =~= range_filters(column@, min_key as int, max_key as int));
    filters
}

/// The filter that asks for all of the given ones, the first two first.
pub open spec fn all_of(filters: Seq<Filter>) -> Option<Filter>
    decreases filters.len(),
{
    if filters.len() == 0 {
        None
    } else {
        match all_of(filters.drop_last()) {
            None => Some(filters.last()),
            Some(earlier) => Some(Filter::And(Box::new(earlier), Box::new(filters.last()))),
        }
    }
}

/// The filter that asks for all of the given ones, `None` where there are none.
pub fn combine_expr_filters(filters: Vec<FilterExpr>) -> (combined: Option<FilterExpr>)
    ensures
        match all_of(filter_models(filters@)) {
            None => combined is None,
            Some(filter) => combined matches Some(found) && found.model() == filter,
        },
{
    let ghost models = filter_models(filters@);
    let mut combined: Option<FilterExpr> = None;
    assert(models.take(0) =~= Seq::empty());
    for filter in rest: filters
        invariant
            models == filter_models(rest.seq()),
            match all_of(models.take(rest.index() as int)) {
                None => combined is None,
                Some(filter) => combined matches Some(found) && found.model() == filter,
            },
    {
        proof {
            let index = rest.index() as int;
            assert(models.take(index + 1).drop_last() =~= models.take(index));
            assert(models[index] == filter.model());
        }
        combined = match combined {
            None => Some(filter),
            Some(earlier) => Some(FilterExpr::And(Box::new(earlier), Box::new(filter))),
        };
    }
    assert(models.take(models.len() as int) =~= models);
    combined
}

} // verus!
