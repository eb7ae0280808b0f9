//! Literal values.

use vstd::prelude::*;
use crate::ast::{SqlExpr, SqlExprKind, SqlUnaryOperator, SqlValue, SqlValueKind};
use crate::calendar::{date_days, date_text_days};
use crate::error::{fails_unsupported, fails_with, Failure, SqlError, SqlResult};
use crate::text::{
    eq_ignore_ascii_case, i64_value, joined, parse_i64, parse_usize, same_ignoring_case,
    string_copy, usize_value,
};

verus! {

/// A literal value. A number that is no 64-bit integer is kept as it is written.
#[derive(Debug)]
pub enum LiteralValue {
    Null,
    Boolean(bool),
    Int64(i64),
    Float64(String),
    Utf8(String),
}

/// A literal value, as a value.
pub enum Literal {
    Null,
    Boolean(bool),
    Int64(int),
    Float64(Seq<char>),
    Utf8(Seq<char>),
}

impl View for LiteralValue {
    type V = Literal;

    open spec fn view(&self) -> Literal {
        match self {
            LiteralValue::Null => Literal::Null,
            LiteralValue::Boolean(value) => Literal::Boolean(*value),
            LiteralValue::Int64(value) => Literal::Int64(*value as int),
            LiteralValue::Float64(text) => Literal::Float64(text@),
            LiteralValue::Utf8(text) => Literal::Utf8(text@),
        }
    }
}

impl LiteralValue {
    /// A copy of the value.
    pub fn copy(&self) -> (copied: LiteralValue)
        ensures
            copied@ == self@,
    {
        match self {
            LiteralValue::Null => LiteralValue::Null,
            LiteralValue::Boolean(value) => LiteralValue::Boolean(*value),
            LiteralValue::Int64(value) => LiteralValue::Int64(*value),
            LiteralValue::Float64(text) => LiteralValue::Float64(string_copy(text)),
            LiteralValue::Utf8(text) => LiteralValue::Utf8(string_copy(text)),
        }
    }
}

/// The number that digits write.
pub open spec fn number_literal(text: Seq<char>) -> Literal {
    match i64_value(text) {
        Some(value) => Literal::Int64(value),
        None => Literal::Float64(text),
    }
}

/// What a literal of a statement is worth, `None` where it is of another kind.
pub open spec fn value_literal(value: SqlValue) -> Option<Literal> {
    match value.kind {
        SqlValueKind::Number(text) => Some(number_literal(text@)),
        SqlValueKind::SingleQuotedString(text) => Some(Literal::Utf8(text@)),
        SqlValueKind::Boolean(flag) => Some(Literal::Boolean(flag)),
        SqlValueKind::Null => Some(Literal::Null),
        SqlValueKind::Other => None,
    }
}

/// A number with the other sign.
pub open spec fn negated_number(text: Seq<char>) -> Literal {
    match i64_value(text) {
        Some(value) => Literal::Int64(-value),
        None => Literal::Float64("-"@ + text),
    }
}

/// What an expression that is a literal is worth: a literal, a signed number, or a date
/// as its text. `None` for any other expression.
pub open spec fn literal_of(expr: SqlExpr) -> Option<Literal> {
    match expr.kind {
        SqlExprKind::Value(value) => value_literal(value),
        SqlExprKind::TypedString { data_type, value } => match value.kind {
            SqlValueKind::SingleQuotedString(text) => if same_ignoring_case(data_type@, "date"@) {
                Some(Literal::Utf8(text@))
            } else {
                None
            },
            _ => None,
        },
        SqlExprKind::UnaryOp { op, expr } => match (op, signed_number(*expr)) {
            (SqlUnaryOperator::Minus, Some(text)) => Some(negated_number(text)),
            (SqlUnaryOperator::Plus, Some(text)) => Some(number_literal(text)),
            _ => None,
        },
        _ => None,
    }
}

/// The text of an expression that is a number.
pub open spec fn signed_number(expr: SqlExpr) -> Option<Seq<char>> {
    match expr.kind {
        SqlExprKind::Value(value) => match value.kind {
            SqlValueKind::Number(text) => Some(text@),
            _ => None,
        },
        _ => None,
    }
}

/// The number that digits write.
fn read_number(text: &String) -> (value: LiteralValue)
    ensures
        value@ == number_literal(text@),
{
    match parse_i64(text.as_str()) {
        Some(value) => LiteralValue::Int64(value),
        None => LiteralValue::Float64(string_copy(text)),
    }
}

/// What an expression that is a literal is worth.
fn read_literal(expr: &SqlExpr) -> (value: Option<LiteralValue>)
    ensures
        match literal_of(*expr) {
            Some(literal) => value matches Some(value) && value@ == literal,
            None => value is None,
        },
{
    match &expr.kind {
        SqlExprKind::Value(value) => match &value.kind {
            SqlValueKind::Number(text) => Some(read_number(text)),
            SqlValueKind::SingleQuotedString(text) => Some(LiteralValue::Utf8(string_copy(text))),
            SqlValueKind::Boolean(flag) => Some(LiteralValue::Boolean(*flag)),
            SqlValueKind::Null => Some(LiteralValue::Null),
            SqlValueKind::Other => None,
        },
        SqlExprKind::TypedString { data_type, value } => match &value.kind {
            SqlValueKind::SingleQuotedString(text) => {
                if eq_ignore_ascii_case(data_type.as_str(), "date") {
                    Some(LiteralValue::Utf8(string_copy(text)))
                } else {
                    None
                }
            },
            _ => None,
        },
        SqlExprKind::UnaryOp { op, expr } => match &expr.kind {
            SqlExprKind::Value(value) => match &value.kind {
                SqlValueKind::Number(text) => match op {
                    SqlUnaryOperator::Minus => match parse_i64(text.as_str()) {
                        Some(value) => Some(LiteralValue::Int64(-value)),
                        None => Some(LiteralValue::Float64(joined("-", text.as_str()))),
                    },
                    SqlUnaryOperator::Plus => Some(read_number(text)),
                    _ => None,
                },
                _ => None,
            },
            _ => None,
        },
        _ => None,
    }
}

/// Whether a result is what an expression that must be a literal is worth.
pub open spec fn literal_reading(expr: SqlExpr, result: SqlResult<LiteralValue>) -> bool {
    match literal_of(expr) {
        Some(literal) => result matches Ok(value) && value@ == literal,
        None => fails_unsupported(result, "expected literal value, got "@ + expr.text@),
    }
}

/// What an expression that must be a literal is worth.
pub fn sql_literal_value(expr: &SqlExpr) -> (result: SqlResult<LiteralValue>)
    ensures
        literal_reading(*expr, result),
{
    match read_literal(expr) {
        Some(value) => Ok(value),
        None => Err(
            SqlError::UnsupportedSql(joined("expected literal value, got ", expr.text.as_str())),
        ),
    }
}

/// The count that an expression must be.
pub open spec fn count_of(expr: SqlExpr) -> Result<int, Failure> {
    match expr.kind {
        SqlExprKind::Value(value) => match value.kind {
            SqlValueKind::Number(text) => match usize_value(text@) {
                Some(count) => Ok(count),
                None => Err(Failure::Unsupported("invalid integer literal: "@ + text@)),
            },
            _ => Err(Failure::Unsupported("expected integer literal, got "@ + expr.text@)),
        },
        _ => Err(Failure::Unsupported("expected integer literal, got "@ + expr.text@)),
    }
}

/// The count that an expression must be.
pub fn parse_usize_literal(expr: &SqlExpr) -> (result: SqlResult<usize>)
    ensures
        match count_of(*expr) {
            Ok(count) => result matches Ok(value) && value == count,
            Err(failure) => fails_with(result, failure),
        },
{
    match &expr.kind {
        SqlExprKind::Value(value) => match &value.kind {
            SqlValueKind::Number(text) => match parse_usize(text.as_str()) {
                Some(count) => Ok(count),
                None => Err(
                    SqlError::UnsupportedSql(joined("invalid integer literal: ", text.as_str())),
                ),
            },
            _ => Err(
                SqlError::UnsupportedSql(
                    joined("expected integer literal, got ", expr.text.as_str()),
                ),
            ),
        },
        _ => Err(
            SqlError::UnsupportedSql(joined("expected integer literal, got ", expr.text.as_str())),
        ),
    }
}

/// Whether a result is the day that an expression must be.
pub open spec fn date_reading(expr: SqlExpr, result: SqlResult<i32>) -> bool {
    match literal_of(expr) {
        Some(Literal::Utf8(text)) => match date_text_days(text) {
            Some(days) => result matches Ok(value) && value == days,
            None => fails_unsupported(result, "invalid DATE literal"@),
        },
        Some(_) => fails_unsupported(result, "expected DATE expression, got "@ + expr.text@),
        None => fails_unsupported(result, "expected literal value, got "@ + expr.text@),
    }
}

/// The day that an expression must be.
pub fn literal_date_days(expr: &SqlExpr) -> (result: SqlResult<i32>)
    ensures
        date_reading(*expr, result),
{
    match sql_literal_value(expr) {
        Ok(LiteralValue::Utf8(text)) => date_days(text.as_str()),
        Ok(_) => Err(
            SqlError::UnsupportedSql(joined("expected DATE expression, got ", expr.text.as_str())),
        ),
        Err(error) => Err(error),
    }
}

/// Whether a result is the day that an expression may be: `None` where it is no text.
pub open spec fn optional_date_reading(expr: SqlExpr, result: SqlResult<Option<i32>>) -> bool {
    match literal_of(expr) {
        Some(Literal::Utf8(text)) => match date_text_days(text) {
            Some(days) => result matches Ok(Some(value)) && value == days,
            None => fails_unsupported(result, "invalid DATE literal"@),
        },
        _ => result matches Ok(None),
    }
}

/// The day that an expression may be, `None` where it is no text.
pub fn maybe_literal_date_days(expr: &SqlExpr) -> (result: SqlResult<Option<i32>>)
    ensures
        optional_date_reading(*expr, result),
{
    match read_literal(expr) {
        Some(LiteralValue::Utf8(text)) => match date_days(text.as_str()) {
            Ok(days) => Ok(Some(days)),
            Err(error) => Err(error),
        },
        _ => Ok(None),
    }
}

} // verus!
