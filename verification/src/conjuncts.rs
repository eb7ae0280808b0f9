//! What the conjuncts of a filter say of a column.

use vstd::prelude::*;
use crate::ast::{SqlBinaryOperator, SqlExpr, SqlExprKind};
use crate::calendar::date_text_days;
use crate::error::{fails_unsupported, SqlError, SqlResult};
use crate::literals::{
    date_reading, literal_date_days, literal_of, maybe_literal_date_days, sql_literal_value,
    Literal, LiteralValue,
};
use crate::row_scan::{follows, Step};
use crate::text::{
    contains_char, eq_ignore_ascii_case, joined, same_ignoring_case, strip_prefix_char,
    strip_suffix_char,
};

verus! {

/// The conjuncts of a filter, first to last.
pub open spec fn conjuncts_of<'a>(expr: &'a SqlExpr) -> Seq<&'a SqlExpr>
    decreases *expr,
{
    match &expr.kind {
        SqlExprKind::BinaryOp { left, op, right } => if *op == SqlBinaryOperator::And {
            conjuncts_of(&**left) + conjuncts_of(&**right)
        } else {
            seq![expr]
        },
        SqlExprKind::Nested(inner) => conjuncts_of(&**inner),
        _ => seq![expr],
    }
}

/// The conjuncts of a filter, first to last.
pub fn collect_sql_and_conjuncts<'a>(expr: &'a SqlExpr) -> (conjuncts: Vec<&'a SqlExpr>)
    ensures
        conjuncts@ == conjuncts_of(expr),
    decreases *expr,
{
    match &expr.kind {
        SqlExprKind::BinaryOp { left, op, right } => {
            if *op == SqlBinaryOperator::And {
                let mut conjuncts = collect_sql_and_conjuncts(left);
                let mut more = collect_sql_and_conjuncts(right);
                conjuncts.append(&mut more);
                return conjuncts;
            }
        },
        SqlExprKind::Nested(inner) => {
            return collect_sql_and_conjuncts(inner);
        },
        _ => {},
    }
    let conjuncts: Vec<&'a SqlExpr> = vec![expr];
    assert(conjuncts@ =~= seq![expr]);
    conjuncts
}

/// Whether an expression is a column of the given name, in any case, whatever table it
/// is of.
pub open spec fn is_column_named(expr: SqlExpr, column: Seq<char>) -> bool
    decreases expr,
{
    match expr.kind {
        SqlExprKind::Identifier(name) => same_ignoring_case(name@, column),
        SqlExprKind::CompoundIdentifier(names) => names@.len() > 0 && same_ignoring_case(
            names@.last()@,
            column,
        ),
        SqlExprKind::Nested(inner) => is_column_named(*inner, column),
        _ => false,
    }
}

/// Whether an expression is a column of the given name.
pub fn sql_expr_column_matches(expr: &SqlExpr, column: &str) -> (matches: bool)
    ensures
        matches == is_column_named(*expr, column@),
    decreases *expr,
{
    match &expr.kind {
        SqlExprKind::Identifier(name) => eq_ignore_ascii_case(name.as_str(), column),
        SqlExprKind::CompoundIdentifier(names) => names.len() > 0 && eq_ignore_ascii_case(
            names[names.len() - 1].as_str(),
            column,
        ),
        SqlExprKind::Nested(inner) => sql_expr_column_matches(inner, column),
        _ => false,
    }
}

/// The first step that keeps something or fails.
pub open spec fn first_step<T>(steps: spec_fn(int) -> Step<T>, count: int) -> Step<T>
    decreases count,
{
    if count <= 0 {
        Step::Skip
    } else {
        match first_step(steps, count - 1) {
            Step::Skip => steps(count - 1),
            decided => decided,
        }
    }
}

/// The last thing kept, unless a step fails.
pub open spec fn last_step<T>(steps: spec_fn(int) -> Step<T>, count: int) -> Step<T>
    decreases count,
{
    if count <= 0 {
        Step::Skip
    } else {
        match last_step(steps, count - 1) {
            Step::Fail(message) => Step::Fail(message),
            earlier => match steps(count - 1) {
                Step::Skip => earlier,
                decided => decided,
            },
        }
    }
}

proof fn lemma_first_stays<T>(steps: spec_fn(int) -> Step<T>, count: int, more: int)
    requires
        count <= more,
        !(first_step(steps, count) is Skip),
    ensures
        first_step(steps, more) == first_step(steps, count),
    decreases more - count,
{
    if count < more {
        lemma_first_stays(steps, count, more - 1);
    }
}

proof fn lemma_failure_stays_last<T>(steps: spec_fn(int) -> Step<T>, count: int, more: int)
    requires
        count <= more,
        last_step(steps, count) is Fail,
    ensures
        last_step(steps, more) == last_step(steps, count),
    decreases more - count,
{
    if count < more {
        lemma_failure_stays_last(steps, count, more - 1);
    }
}

/// Whether a result is the text that a step says.
pub open spec fn follows_text(result: SqlResult<Option<String>>, step: Step<Seq<char>>) -> bool {
    match step {
        Step::Skip => result matches Ok(None),
        Step::Keep(text) => result matches Ok(Some(kept)) && kept@ == text,
        Step::Fail(message) => fails_unsupported(result, message),
    }
}

/// Whether a result is the literal that a step says.
pub open spec fn follows_literal(
    result: SqlResult<Option<LiteralValue>>,
    step: Step<Literal>,
) -> bool {
    match step {
        Step::Skip => result matches Ok(None),
        Step::Keep(literal) => result matches Ok(Some(kept)) && kept@ == literal,
        Step::Fail(message) => fails_unsupported(result, message),
    }
}

/// Reading an expression that must be a literal.
pub open spec fn literal_step(expr: SqlExpr) -> Step<Literal> {
    match literal_of(expr) {
        Some(literal) => Step::Keep(literal),
        None => Step::Fail("expected literal value, got "@ + expr.text@),
    }
}

/// The other side of a comparison of a column by the given operator.
pub open spec fn compared_side(
    conjunct: SqlExpr,
    operator: SqlBinaryOperator,
    column: Seq<char>,
) -> Option<SqlExpr> {
    match conjunct.kind {
        SqlExprKind::BinaryOp { left, op, right } => if op != operator {
            None
        } else if is_column_named(*left, column) {
            Some(*right)
        } else if is_column_named(*right, column) {
            Some(*left)
        } else {
            None
        },
        _ => None,
    }
}

/// Reading what a column is compared with.
pub open spec fn compared_step(
    conjunct: SqlExpr,
    operator: SqlBinaryOperator,
    column: Seq<char>,
) -> Step<Literal> {
    match compared_side(conjunct, operator, column) {
        Some(side) => literal_step(side),
        None => Step::Skip,
    }
}

/// Reads what a column is compared with.
fn read_compared(conjunct: &SqlExpr, operator: SqlBinaryOperator, column: &str) -> (result:
    SqlResult<Option<LiteralValue>>)
    ensures
        follows_literal(result, compared_step(*conjunct, operator, column@)),
{
    match &conjunct.kind {
        SqlExprKind::BinaryOp { left, op, right } => {
            if *op != operator {
                return Ok(None);
            }
            let side = if sql_expr_column_matches(left, column) {
                right
            } else if sql_expr_column_matches(right, column) {
                left
            } else {
                return Ok(None);
            };
            match sql_literal_value(side) {
                Ok(value) => Ok(Some(value)),
                Err(error) => Err(error),
            }
        },
        _ => Ok(None),
    }
}

/// The text that a column is compared with.
pub open spec fn text_step(step: Step<Literal>) -> Step<Seq<char>> {
    match step {
        Step::Keep(Literal::Utf8(text)) => Step::Keep(text),
        Step::Fail(message) => Step::Fail(message),
        _ => Step::Skip,
    }
}

/// The texts that a column is compared with, conjunct by conjunct.
pub open spec fn compared_texts(
    conjuncts: Seq<&SqlExpr>,
    operator: SqlBinaryOperator,
    column: Seq<char>,
) -> spec_fn(int) -> Step<Seq<char>> {
    |index: int| text_step(compared_step(*conjuncts[index], operator, column))
}

/// The first text that a column is compared with by the given operator.
fn compared_text(conjuncts: &[&SqlExpr], operator: SqlBinaryOperator, column: &str) -> (result:
    SqlResult<Option<String>>)
    ensures
        follows_text(
            result,
            first_step(
                compared_texts(conjuncts@, operator, column@),
                conjuncts@.len() as int,
            ),
        ),
{
    let ghost steps = compared_texts(conjuncts@, operator, column@);
    let mut index: usize = 0;
    while index < conjuncts.len()
        invariant
            index <= conjuncts@.len(),
            steps == compared_texts(conjuncts@, operator, column@),
            first_step(steps, index as int) is Skip,
        decreases conjuncts@.len() - index,
    {
        let found = read_compared(conjuncts[index], operator, column);
        assert(first_step(steps, index + 1) == steps(index as int));
        match found {
            Ok(Some(LiteralValue::Utf8(text))) => {
                proof {
                    lemma_first_stays(steps, index + 1, conjuncts@.len() as int);
                }
                return Ok(Some(text));
            },
            Ok(_) => {},
            Err(error) => {
                proof {
                    lemma_first_stays(steps, index + 1, conjuncts@.len() as int);
                }
                return Err(error);
            },
        }
        index += 1;
    }
    Ok(None)
}

/// The first text that a column must be equal to.
pub fn string_equality_literal(conjuncts: &[&SqlExpr], column: &str) -> (result: SqlResult<
    Option<String>,
>)
    ensures
        follows_text(
            result,
            first_step(
                compared_texts(conjuncts@, SqlBinaryOperator::Eq, column@),
                conjuncts@.len() as int,
            ),
        ),
{
    compared_text(conjuncts, SqlBinaryOperator::Eq, column)
}

/// The first text that a column must not be equal to.
pub fn string_inequality_literal(conjuncts: &[&SqlExpr], column: &str) -> (result: SqlResult<
    Option<String>,
>)
    ensures
        follows_text(
            result,
            first_step(
                compared_texts(conjuncts@, SqlBinaryOperator::NotEq, column@),
                conjuncts@.len() as int,
            ),
        ),
{
    compared_text(conjuncts, SqlBinaryOperator::NotEq, column)
}

/// The integer that a column is compared with.
pub open spec fn integer_of_step(step: Step<Literal>) -> Step<i64> {
    match step {
        Step::Keep(Literal::Int64(value)) => Step::Keep(value as i64),
        Step::Fail(message) => Step::Fail(message),
        _ => Step::Skip,
    }
}

/// The integers that a column must be equal to, conjunct by conjunct.
pub open spec fn equal_integers(
    conjuncts: Seq<&SqlExpr>,
    column: Seq<char>,
) -> spec_fn(int) -> Step<
    i64,
> {
    |index: int| integer_of_step(compared_step(*conjuncts[index], SqlBinaryOperator::Eq, column))
}

/// The first integer that a column must be equal to.
pub fn numeric_i64_equality_literal(conjuncts: &[&SqlExpr], column: &str) -> (result: SqlResult<
    Option<i64>,
>)
    ensures
        follows(
            result,
            first_step(equal_integers(conjuncts@, column@), conjuncts@.len() as int),
        ),
{
    let ghost steps = equal_integers(conjuncts@, column@);
    let mut index: usize = 0;
    while index < conjuncts.len()
        invariant
            index <= conjuncts@.len(),
            steps == equal_integers(conjuncts@, column@),
            first_step(steps, index as int) is Skip,
        decreases conjuncts@.len() - index,
    {
        let found = read_compared(conjuncts[index], SqlBinaryOperator::Eq, column);
        assert(first_step(steps, index + 1) == steps(index as int));
        match found {
            Ok(Some(LiteralValue::Int64(value))) => {
                proof {
                    lemma_first_stays(steps, index + 1, conjuncts@.len() as int);
                }
                return Ok(Some(value));
            },
            Ok(_) => {},
            Err(error) => {
                proof {
                    lemma_first_stays(steps, index + 1, conjuncts@.len() as int);
                }
                return Err(error);
            },
        }
        index += 1;
    }
    Ok(None)
}

/// Which wildcards a pattern must have beside its literal text.
#[derive(Clone, Copy, PartialEq, Eq, Structural)]
pub enum PatternShape {
    /// The text, then anything.
    Prefix,
    /// Anything, then the text.
    Suffix,
    /// Anything, the text, anything.
    Contains,
}

/// Whether a text has no wildcard.
pub open spec fn is_plain(text: Seq<char>) -> bool {
    !text.contains('%') && !text.contains('_')
}

/// The literal text of a pattern of the given shape, `None` where it has another shape.
pub open spec fn pattern_text(pattern: Seq<char>, shape: PatternShape) -> Option<Seq<char>> {
    let text = match shape {
        PatternShape::Prefix => if pattern.len() > 0 && pattern.last() == '%' {
            Some(pattern.drop_last())
        } else {
            None
        },
        PatternShape::Suffix => if pattern.len() > 0 && pattern[0] == '%' {
            Some(pattern.skip(1))
        } else {
            None
        },
        PatternShape::Contains => if pattern.len() > 1 && pattern[0] == '%' && pattern.last()
            == '%' {
            Some(pattern.skip(1).drop_last())
        } else {
            None
        },
    };
    match text {
        Some(text) => if is_plain(text) {
            Some(text)
        } else {
            None
        },
        None => None,
    }
}

/// The literal text of a pattern of the given shape.
fn read_pattern_text(pattern: &str, shape: PatternShape) -> (text: Option<String>)
    ensures
        match pattern_text(pattern@, shape) {
            Some(expected) => text matches Some(text) && text@ == expected,
            None => text is None,
        },
{
    let rest = match shape {
        PatternShape::Prefix => strip_suffix_char(pattern, '%'),
        PatternShape::Suffix => strip_prefix_char(pattern, '%'),
        PatternShape::Contains => match strip_prefix_char(pattern, '%') {
            Some(rest) => strip_suffix_char(rest.as_str(), '%'),
            None => None,
        },
    };
    match rest {
        Some(text) => {
            if contains_char(text.as_str(), '%') || contains_char(text.as_str(), '_') {
                None
            } else {
                Some(text)
            }
        },
        None => None,
    }
}

/// The literal text of the pattern that a column must be like, or not.
pub open spec fn pattern_step(
    conjunct: SqlExpr,
    column: Seq<char>,
    not: bool,
    shape: PatternShape,
) -> Step<Seq<char>> {
    match conjunct.kind {
        SqlExprKind::Like { expr, pattern, negated, case_insensitive, .. } => if case_insensitive
            || negated != not || !is_column_named(*expr, column) {
            Step::Skip
        } else {
            match literal_step(*pattern) {
                Step::Fail(message) => Step::Fail(message),
                Step::Keep(Literal::Utf8(text)) => match pattern_text(text, shape) {
                    Some(text) => Step::Keep(text),
                    None => Step::Skip,
                },
                _ => Step::Skip,
            }
        },
        _ => Step::Skip,
    }
}

/// The literal texts of patterns, conjunct by conjunct.
pub open spec fn pattern_steps(
    conjuncts: Seq<&SqlExpr>,
    column: Seq<char>,
    not: bool,
    shape: PatternShape,
) -> spec_fn(int) -> Step<Seq<char>> {
    |index: int| pattern_step(*conjuncts[index], column, not, shape)
}

/// Reads the literal text of the pattern that a column must be like, or not.
fn read_pattern(conjunct: &SqlExpr, column: &str, not: bool, shape: PatternShape) -> (result:
    SqlResult<Option<String>>)
    ensures
        follows_text(result, pattern_step(*conjunct, column@, not, shape)),
{
    match &conjunct.kind {
        SqlExprKind::Like { expr, pattern, negated, case_insensitive, .. } => {
            if *case_insensitive || *negated != not || !sql_expr_column_matches(expr, column) {
                return Ok(None);
            }
            match sql_literal_value(pattern) {
                Ok(LiteralValue::Utf8(text)) => Ok(read_pattern_text(text.as_str(), shape)),
                Ok(_) => Ok(None),
                Err(error) => Err(error),
            }
        },
        _ => Ok(None),
    }
}

/// The first literal text of the given shape.
fn first_pattern(conjuncts: &[&SqlExpr], column: &str, not: bool, shape: PatternShape) -> (result:
    SqlResult<Option<String>>)
    ensures
        follows_text(
            result,
            first_step(
                pattern_steps(conjuncts@, column@, not, shape),
                conjuncts@.len() as int,
            ),
        ),
{
    let ghost steps = pattern_steps(conjuncts@, column@, not, shape);
    let mut index: usize = 0;
    while index < conjuncts.len()
        invariant
            index <= conjuncts@.len(),
            steps == pattern_steps(conjuncts@, column@, not, shape),
            first_step(steps, index as int) is Skip,
        decreases conjuncts@.len() - index,
    {
        let found = read_pattern(conjuncts[index], column, not, shape);
        assert(first_step(steps, index + 1) == steps(index as int));
        match found {
            Ok(None) => {},
            decided => {
                proof {
                    lemma_first_stays(steps, index + 1, conjuncts@.len() as int);
                }
                return decided;
            },
        }
        index += 1;
    }
    Ok(None)
}

/// The first text that a column must not start with.
pub fn not_like_prefix_literal(conjuncts: &[&SqlExpr], column: &str) -> (result: SqlResult<
    Option<String>,
>)
    ensures
        follows_text(
            result,
            first_step(
                pattern_steps(conjuncts@, column@, true, PatternShape::Prefix),
                conjuncts@.len() as int,
            ),
        ),
{
    first_pattern(conjuncts, column, true, PatternShape::Prefix)
}

/// The first text that a column must end with.
pub fn like_suffix_literal(conjuncts: &[&SqlExpr], column: &str) -> (result: SqlResult<
    Option<String>,
>)
    ensures
        follows_text(
            result,
            first_step(
                pattern_steps(conjuncts@, column@, false, PatternShape::Suffix),
                conjuncts@.len() as int,
            ),
        ),
{
    first_pattern(conjuncts, column, false, PatternShape::Suffix)
}

/// The first text that a column must contain.
pub fn like_contains_literal(conjuncts: &[&SqlExpr], column: &str) -> (result: SqlResult<
    Option<String>,
>)
    ensures
        follows_text(
            result,
            first_step(
                pattern_steps(conjuncts@, column@, false, PatternShape::Contains),
                conjuncts@.len() as int,
            ),
        ),
{
    first_pattern(conjuncts, column, false, PatternShape::Contains)
}

/// The two literals that a range of a column goes between.
pub open spec fn between_step(conjunct: SqlExpr, column: Seq<char>) -> Step<(SqlExpr, SqlExpr)> {
    match conjunct.kind {
        SqlExprKind::Between { expr, negated, low, high } => if negated || !is_column_named(
            *expr,
            column,
        ) {
            Step::Skip
        } else {
            Step::Keep((*low, *high))
        },
        _ => Step::Skip,
    }
}

/// The ranges of a column, conjunct by conjunct.
pub open spec fn between_steps(conjuncts: Seq<&SqlExpr>, column: Seq<char>) -> spec_fn(int) -> Step<
    (SqlExpr, SqlExpr),
> {
    |index: int| between_step(*conjuncts[index], column)
}

/// The ends of the first range of a column.
fn first_between<'a>(conjuncts: &[&'a SqlExpr], column: &str) -> (ends: Option<
    (&'a SqlExpr, &'a SqlExpr),
>)
    ensures
        match first_step(between_steps(conjuncts@, column@), conjuncts@.len() as int) {
            Step::Keep((low, high)) => ends matches Some((from, to)) && *from == low && *to == high,
            Step::Skip => ends is None,
            Step::Fail(_) => false,
        },
{
    let ghost steps = between_steps(conjuncts@, column@);
    let mut index: usize = 0;
    while index < conjuncts.len()
        invariant
            index <= conjuncts@.len(),
            steps == between_steps(conjuncts@, column@),
            first_step(steps, index as int) is Skip,
        decreases conjuncts@.len() - index,
    {
        let conjunct: &'a SqlExpr = conjuncts[index];
        assert(first_step(steps, index + 1) == steps(index as int));
        match &conjunct.kind {
            SqlExprKind::Between { expr, negated, low, high } => {
                if !*negated && sql_expr_column_matches(expr, column) {
                    proof {
                        lemma_first_stays(steps, index + 1, conjuncts@.len() as int);
                    }
                    return Some((&**low, &**high));
                }
            },
            _ => {},
        }
        index += 1;
    }
    None
}

/// Whether an expression that must be a literal is a number.
pub open spec fn number_step(expr: SqlExpr) -> Step<Literal> {
    match literal_step(expr) {
        Step::Keep(Literal::Int64(value)) => Step::Keep(Literal::Int64(value)),
        Step::Keep(Literal::Float64(text)) => Step::Keep(Literal::Float64(text)),
        Step::Keep(_) => Step::Fail("expected numeric literal, got "@ + expr.text@),
        other => other,
    }
}

/// The number that an expression must be.
fn read_number(expr: &SqlExpr) -> (result: SqlResult<LiteralValue>)
    ensures
        match number_step(*expr) {
            Step::Keep(literal) => result matches Ok(value) && value@ == literal,
            Step::Fail(message) => fails_unsupported(result, message),
            Step::Skip => false,
        },
{
    match sql_literal_value(expr) {
        Ok(LiteralValue::Int64(value)) => Ok(LiteralValue::Int64(value)),
        Ok(LiteralValue::Float64(text)) => Ok(LiteralValue::Float64(text)),
        Ok(_) => Err(
            SqlError::UnsupportedSql(joined("expected numeric literal, got ", expr.text.as_str())),
        ),
        Err(error) => Err(error),
    }
}

/// The first range of numbers that a column must lie in.
pub fn numeric_between_bounds(conjuncts: &[&SqlExpr], column: &str) -> (result: SqlResult<
    Option<(LiteralValue, LiteralValue)>,
>)
    ensures
        match first_step(between_steps(conjuncts@, column@), conjuncts@.len() as int) {
            Step::Keep((low, high)) => match (number_step(low), number_step(high)) {
                (Step::Fail(message), _) => fails_unsupported(result, message),
                (Step::Keep(_), Step::Fail(message)) => fails_unsupported(result, message),
                (Step::Keep(from), Step::Keep(to)) => result matches Ok(Some((least, greatest)))
                    && least@ == from && greatest@ == to,
                _ => false,
            },
            _ => result matches Ok(None),
        },
{
    match first_between(conjuncts, column) {
        Some((low, high)) => match read_number(low) {
            Ok(least) => match read_number(high) {
                Ok(greatest) => Ok(Some((least, greatest))),
                Err(error) => Err(error),
            },
            Err(error) => Err(error),
        },
        None => Ok(None),
    }
}

/// The first range of days that a column must lie in.
pub fn date_between_bounds(conjuncts: &[&SqlExpr], column: &str) -> (result: SqlResult<
    Option<(i32, i32)>,
>)
    ensures
        match first_step(between_steps(conjuncts@, column@), conjuncts@.len() as int) {
            Step::Keep((low, high)) => match result {
                Ok(Some((from, to))) => date_reading(low, Ok(from)) && date_reading(high, Ok(to)),
                Ok(None) => false,
                Err(error) => date_reading(low, Err(error)) || ((exists|from: i32|
                    date_reading(low, Ok(from))) && date_reading(high, Err(error))),
            },
            _ => result matches Ok(None),
        },
{
    match first_between(conjuncts, column) {
        Some((low, high)) => match literal_date_days(low) {
            Ok(from) => {
                assert(date_reading(*low, Ok(from)));
                match literal_date_days(high) {
                    Ok(to) => Ok(Some((from, to))),
                    Err(error) => Err(error),
                }
            },
            Err(error) => Err(error),
        },
        None => Ok(None),
    }
}

/// The bound that a conjunct sets to a column from above, or from below.
pub open spec fn bound_side(conjunct: SqlExpr, column: Seq<char>, upper: bool) -> Option<SqlExpr> {
    match conjunct.kind {
        SqlExprKind::BinaryOp { left, op, right } => {
            let less = op == SqlBinaryOperator::Lt || op == SqlBinaryOperator::LtEq;
            let more = op == SqlBinaryOperator::Gt || op == SqlBinaryOperator::GtEq;
            if (if upper {
                less
            } else {
                more
            }) && is_column_named(*left, column) {
                Some(*right)
            } else if (if upper {
                more
            } else {
                less
            }) && is_column_named(*right, column) {
                Some(*left)
            } else {
                None
            }
        },
        _ => None,
    }
}

/// The bounds of a column, conjunct by conjunct.
pub open spec fn bound_steps(
    conjuncts: Seq<&SqlExpr>,
    column: Seq<char>,
    upper: bool,
) -> spec_fn(int) -> Step<Literal> {
    |index: int|
        match bound_side(*conjuncts[index], column, upper) {
            Some(side) => number_step(side),
            None => Step::Skip,
        }
}

/// The expression that bounds a column from above, or from below.
fn read_bound_side<'a>(conjunct: &'a SqlExpr, column: &str, upper: bool) -> (side: Option<
    &'a SqlExpr,
>)
    ensures
        match bound_side(*conjunct, column@, upper) {
            Some(expected) => side matches Some(side) && *side == expected,
            None => side is None,
        },
{
    match &conjunct.kind {
        SqlExprKind::BinaryOp { left, op, right } => {
            let less = match op {
                SqlBinaryOperator::Lt | SqlBinaryOperator::LtEq => true,
                _ => false,
            };
            let more = match op {
                SqlBinaryOperator::Gt | SqlBinaryOperator::GtEq => true,
                _ => false,
            };
            if (if upper {
                less
            } else {
                more
            }) && sql_expr_column_matches(left, column) {
                Some(&**right)
            } else if (if upper {
                more
            } else {
                less
            }) && sql_expr_column_matches(right, column) {
                Some(&**left)
            } else {
                None
            }
        },
        _ => None,
    }
}

/// The last number that bounds a column from above, or from below.
fn last_bound(conjuncts: &[&SqlExpr], column: &str, upper: bool) -> (result: SqlResult<
    Option<LiteralValue>,
>)
    ensures
        follows_literal(
            result,
            last_step(bound_steps(conjuncts@, column@, upper), conjuncts@.len() as int),
        ),
{
    let ghost steps = bound_steps(conjuncts@, column@, upper);
    let mut bound: Option<LiteralValue> = None;
    let mut index: usize = 0;
    while index < conjuncts.len()
        invariant
            index <= conjuncts@.len(),
            steps == bound_steps(conjuncts@, column@, upper),
            follows_literal(Ok(bound), last_step(steps, index as int)),
        decreases conjuncts@.len() - index,
    {
        match read_bound_side(conjuncts[index], column, upper) {
            Some(side) => match read_number(side) {
                Ok(value) => {
                    bound = Some(value);
                },
                Err(error) => {
                    proof {
                        lemma_failure_stays_last(steps, index + 1, conjuncts@.len() as int);
                    }
                    return Err(error);
                },
            },
            None => {},
        }
        index += 1;
    }
    Ok(bound)
}

/// The last number that bounds a column from above.
pub fn upper_numeric_bound(conjuncts: &[&SqlExpr], column: &str) -> (result: SqlResult<
    Option<LiteralValue>,
>)
    ensures
        follows_literal(
            result,
            last_step(bound_steps(conjuncts@, column@, true), conjuncts@.len() as int),
        ),
{
    last_bound(conjuncts, column, true)
}

/// The last number that bounds a column from below.
pub fn lower_numeric_bound(conjuncts: &[&SqlExpr], column: &str) -> (result: SqlResult<
    Option<LiteralValue>,
>)
    ensures
        follows_literal(
            result,
            last_step(bound_steps(conjuncts@, column@, false), conjuncts@.len() as int),
        ),
{
    last_bound(conjuncts, column, false)
}

/// The day that bounds a column, conjunct by conjunct; what is no text bounds nothing.
pub open spec fn day_bound_steps(
    conjuncts: Seq<&SqlExpr>,
    column: Seq<char>,
    upper: bool,
) -> spec_fn(int) -> Step<i32> {
    |index: int|
        match bound_side(*conjuncts[index], column, upper) {
            Some(side) => match literal_of(side) {
                Some(Literal::Utf8(text)) => match date_text_days(text) {
                    Some(days) => Step::Keep(days as i32),
                    None => Step::Fail("invalid DATE literal"@),
                },
                _ => Step::Skip,
            },
            None => Step::Skip,
        }
}

/// The range of days that the conjuncts leave to a column: from the last day that
/// bounds it from below up to the last that bounds it from above. Nothing where it is
/// not bounded on both sides; a text that is no day is an error.
pub open spec fn day_range(conjuncts: Seq<&SqlExpr>, column: Seq<char>) -> Step<(i32, i32)> {
    let start = last_step(day_bound_steps(conjuncts, column, false), conjuncts.len() as int);
    let end = last_step(day_bound_steps(conjuncts, column, true), conjuncts.len() as int);
    match (start, end) {
        (Step::Fail(_), _) => Step::Fail("invalid DATE literal"@),
        (_, Step::Fail(_)) => Step::Fail("invalid DATE literal"@),
        (Step::Keep(from), Step::Keep(to)) => Step::Keep((from, to)),
        _ => Step::Skip,
    }
}

/// The range of days that the conjuncts leave to a column.
pub fn date_range_bounds(conjuncts: &[&SqlExpr], column: &str) -> (result: SqlResult<
    Option<(i32, i32)>,
>)
    ensures
        follows(result, day_range(conjuncts@, column@)),
{
    let ghost lower = day_bound_steps(conjuncts@, column@, false);
    let ghost upper = day_bound_steps(conjuncts@, column@, true);
    let mut start: Option<i32> = None;
    let mut end: Option<i32> = None;
    let mut index: usize = 0;
    while index < conjuncts.len()
        invariant
            index <= conjuncts@.len(),
            lower == day_bound_steps(conjuncts@, column@, false),
            upper == day_bound_steps(conjuncts@, column@, true),
            last_step(lower, index as int) == (match start {
                Some(day) => Step::Keep(day),
                None => Step::Skip,
            }),
            last_step(upper, index as int) == (match end {
                Some(day) => Step::Keep(day),
                None => Step::Skip,
            }),
        decreases conjuncts@.len() - index,
    {
        let conjunct = conjuncts[index];
        let below = read_bound_side(conjunct, column, false);
        let above = read_bound_side(conjunct, column, true);
        match below {
            Some(side) => match maybe_literal_date_days(side) {
                Ok(Some(days)) => {
                    start = Some(days);
                },
                Ok(None) => {},
                Err(error) => {
                    proof {
                        lemma_failed_day(conjuncts@, column@, false, index as int);
                    }
                    return Err(error);
                },
            },
            None => {},
        }
        match above {
            Some(side) => match maybe_literal_date_days(side) {
                Ok(Some(days)) => {
                    end = Some(days);
                },
                Ok(None) => {},
                Err(error) => {
                    proof {
                        lemma_failed_day(conjuncts@, column@, true, index as int);
                    }
                    return Err(error);
                },
            },
            None => {},
        }
        index += 1;
    }
    match (start, end) {
        (Some(from), Some(to)) => Ok(Some((from, to))),
        _ => Ok(None),
    }
}

/// A conjunct that bounds a column by a text that is no day fails the whole.
proof fn lemma_failed_day(conjuncts: Seq<&SqlExpr>, column: Seq<char>, upper: bool, index: int)
    requires
        0 <= index < conjuncts.len(),
        day_bound_steps(conjuncts, column, upper)(index) is Fail,
    ensures
        last_step(day_bound_steps(conjuncts, column, upper), conjuncts.len() as int) is Fail,
{
    let steps = day_bound_steps(conjuncts, column, upper);
    assert(last_step(steps, index + 1) is Fail);
    lemma_failure_stays_last(steps, index + 1, conjuncts.len() as int);
}

} // verus!
