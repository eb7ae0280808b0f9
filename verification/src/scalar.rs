//! Scalar expressions.

use vstd::prelude::*;
use crate::ast::{
    FunctionExtras, SqlBinaryOperator, SqlExpr, SqlExprKind, SqlFunction, SqlFunctionArg,
};
use crate::error::{fails_with, Failure, SqlError, SqlResult};
use crate::literals::{literal_of, sql_literal_value, Literal, LiteralValue};
use crate::names::{
    column_in, parse_struct_field_access, sql_column_name, struct_field_of, Scope, Tables,
};
use crate::text::{joined, lowered, str_eq, string_copy, texts, to_ascii_lowercase};

verus! {

/// The functions of scalar expressions.
#[derive(Clone, Copy, Debug, PartialEq, Eq, Structural)]
pub enum ScalarFunction {
    Coalesce,
    Lower,
    Upper,
    Length,
    Trim,
    Abs,
    Round,
    Floor,
    Ceil,
    Replace,
    Concat,
    Substring,
}

/// A scalar expression.
#[derive(Debug)]
pub enum ScalarSqlExpression {
    Column(String),
    StructField { column: String, field: String },
    Literal(LiteralValue),
    Binary {
        left: Box<ScalarSqlExpression>,
        op: SqlBinaryOperator,
        right: Box<ScalarSqlExpression>,
    },
    Cast { expr: Box<ScalarSqlExpression>, target: String },
    Call { function: ScalarFunction, args: Vec<ScalarSqlExpression> },
}

/// A scalar expression, as a value.
pub enum Scalar {
    Column(Seq<char>),
    StructField { column: Seq<char>, field: Seq<char> },
    Literal(Literal),
    Binary { left: Box<Scalar>, op: SqlBinaryOperator, right: Box<Scalar> },
    Cast { expr: Box<Scalar>, target: Seq<char> },
    Call { function: ScalarFunction, args: Seq<Scalar> },
}

impl ScalarSqlExpression {
    /// The expression, as a value.
    pub open spec fn model(self) -> Scalar
        decreases self,
    {
        match self {
            ScalarSqlExpression::Column(column) => Scalar::Column(column@),
            ScalarSqlExpression::StructField { column, field } => Scalar::StructField {
                column: column@,
                field: field@,
            },
            ScalarSqlExpression::Literal(value) => Scalar::Literal(value@),
            ScalarSqlExpression::Binary { left, op, right } => Scalar::Binary {
                left: Box::new((*left).model()),
                op,
                right: Box::new((*right).model()),
            },
            ScalarSqlExpression::Cast { expr, target } => Scalar::Cast {
                expr: Box::new((*expr).model()),
                target: target@,
            },
            ScalarSqlExpression::Call { function, args } => Scalar::Call {
                function,
                args: scalar_models(args, args.len() as nat),
            },
        }
    }
}

/// The first expressions, as values.
pub open spec fn scalar_models(args: Vec<ScalarSqlExpression>, count: nat) -> Seq<Scalar>
    decreases args, count,
{
    if count == 0 || count > args.len() {
        Seq::empty()
    } else {
        scalar_models(args, (count - 1) as nat).push(args[count - 1].model())
    }
}

/// The function of a name, in any case.
pub open spec fn scalar_function(name: Seq<char>) -> Option<ScalarFunction> {
    let name = lowered(name);
    if name == "coalesce"@ {
        Some(ScalarFunction::Coalesce)
    } else if name == "lower"@ {
        Some(ScalarFunction::Lower)
    } else if name == "upper"@ {
        Some(ScalarFunction::Upper)
    } else if name == "length"@ {
        Some(ScalarFunction::Length)
    } else if name == "trim"@ {
        Some(ScalarFunction::Trim)
    } else if name == "abs"@ {
        Some(ScalarFunction::Abs)
    } else if name == "round"@ {
        Some(ScalarFunction::Round)
    } else if name == "floor"@ {
        Some(ScalarFunction::Floor)
    } else if name == "ceil"@ {
        Some(ScalarFunction::Ceil)
    } else if name == "replace"@ {
        Some(ScalarFunction::Replace)
    } else if name == "concat"@ {
        Some(ScalarFunction::Concat)
    } else {
        None
    }
}

/// The function of a name, in any case.
pub fn read_scalar_function(name: &str) -> (function: Option<ScalarFunction>)
    ensures
        function == scalar_function(name@),
{
    let name = to_ascii_lowercase(name);
    let name = name.as_str();
    if str_eq(name, "coalesce") {
        Some(ScalarFunction::Coalesce)
    } else if str_eq(name, "lower") {
        Some(ScalarFunction::Lower)
    } else if str_eq(name, "upper") {
        Some(ScalarFunction::Upper)
    } else if str_eq(name, "length") {
        Some(ScalarFunction::Length)
    } else if str_eq(name, "trim") {
        Some(ScalarFunction::Trim)
    } else if str_eq(name, "abs") {
        Some(ScalarFunction::Abs)
    } else if str_eq(name, "round") {
        Some(ScalarFunction::Round)
    } else if str_eq(name, "floor") {
        Some(ScalarFunction::Floor)
    } else if str_eq(name, "ceil") {
        Some(ScalarFunction::Ceil)
    } else if str_eq(name, "replace") {
        Some(ScalarFunction::Replace)
    } else if str_eq(name, "concat") {
        Some(ScalarFunction::Concat)
    } else {
        None
    }
}

/// Whether a function takes so many arguments.
pub open spec fn takes(function: ScalarFunction, count: int) -> bool {
    match function {
        ScalarFunction::Coalesce => count >= 1,
        ScalarFunction::Concat => count >= 1,
        ScalarFunction::Replace => count == 3,
        ScalarFunction::Substring => count == 2 || count == 3,
        _ => count == 1,
    }
}

/// Whether a function takes so many arguments.
fn takes_args(function: ScalarFunction, count: usize) -> (accepted: bool)
    ensures
        accepted == takes(function, count as int),
{
    match function {
        ScalarFunction::Coalesce => count >= 1,
        ScalarFunction::Concat => count >= 1,
        ScalarFunction::Replace => count == 3,
        ScalarFunction::Substring => count == 2 || count == 3,
        _ => count == 1,
    }
}

/// Whether a call has nothing beside its arguments and a filter.
pub open spec fn call_is_plain(extras: FunctionExtras) -> bool {
    !extras.distinct && !extras.null_treatment && !extras.over
        && extras.within_group == 0 && extras.clauses == 0
}

/// Whether a call has nothing beside its arguments and a filter.
pub fn is_plain_call(extras: &FunctionExtras) -> (plain: bool)
    ensures
        plain == call_is_plain(*extras),
{
    !extras.distinct && !extras.null_treatment && !extras.over
        && extras.within_group == 0 && extras.clauses == 0
}

/// Whether an operator computes.
pub open spec fn is_arithmetic(op: SqlBinaryOperator) -> bool {
    op == SqlBinaryOperator::Plus || op == SqlBinaryOperator::Minus || op
        == SqlBinaryOperator::Multiply || op == SqlBinaryOperator::Divide || op
        == SqlBinaryOperator::Modulo
}

/// The failure of an expression that is no scalar expression.
pub open spec fn no_scalar(expr: SqlExpr) -> Failure {
    Failure::Unsupported("unsupported scalar expression: "@ + expr.text@)
}

/// The scalar function that a call is of, where it is one.
pub open spec fn called_function(function: SqlFunction) -> Option<ScalarFunction> {
    match (function.name, function.args) {
        (Some(name), Some(args)) => match scalar_function(name@) {
            Some(called) => if call_is_plain(function.extras) && function.filter is None && takes(
                called,
                args@.len() as int,
            ) {
                Some(called)
            } else {
                None
            },
            None => None,
        },
        _ => None,
    }
}

/// The scalar function that a call is of, where it is one.
pub fn read_called_function(function: &SqlFunction) -> (called: Option<ScalarFunction>)
    ensures
        called == called_function(*function),
{
    match (&function.name, &function.args) {
        (Some(name), Some(args)) => match read_scalar_function(name.as_str()) {
            Some(called) => {
                if is_plain_call(&function.extras) && function.filter.is_none() && takes_args(
                    called,
                    args.len(),
                ) {
                    Some(called)
                } else {
                    None
                }
            },
            None => None,
        },
        _ => None,
    }
}

/// The scalar expression that an expression is.
pub open spec fn scalar_of(expr: SqlExpr, scope: Tables) -> Result<Scalar, Failure>
    decreases expr,
{
    match expr.kind {
        SqlExprKind::Identifier(_) => match column_in(expr, scope) {
            Ok(column) => Ok(Scalar::Column(column)),
            Err(failure) => Err(failure),
        },
        SqlExprKind::CompoundIdentifier(_) => match struct_field_of(expr, scope) {
            Some((column, field)) => Ok(Scalar::StructField { column, field }),
            None => match column_in(expr, scope) {
                Ok(column) => Ok(Scalar::Column(column)),
                Err(failure) => Err(failure),
            },
        },
        SqlExprKind::Nested(inner) => scalar_of(*inner, scope),
        SqlExprKind::BinaryOp { left, op, right } => if !is_arithmetic(op) {
            Err(no_scalar(expr))
        } else {
            match scalar_of(*left, scope) {
                Err(failure) => Err(failure),
                Ok(first) => match scalar_of(*right, scope) {
                    Err(failure) => Err(failure),
                    Ok(second) => Ok(
                        Scalar::Binary { left: Box::new(first), op, right: Box::new(second) },
                    ),
                },
            }
        },
        SqlExprKind::Cast { expr: inner, data_type } => match scalar_of(*inner, scope) {
            Err(failure) => Err(failure),
            Ok(scalar) => Ok(Scalar::Cast { expr: Box::new(scalar), target: data_type@ }),
        },
        SqlExprKind::Function(function) => match (called_function(function), function.args) {
            (Some(called), Some(args)) => match scalar_args(
                args,
                args.len() as nat,
                scope,
                expr.text@,
            ) {
                Err(failure) => Err(failure),
                Ok(scalars) => Ok(Scalar::Call { function: called, args: scalars }),
            },
            _ => Err(no_scalar(expr)),
        },
        SqlExprKind::Substring { expr: cut, substring_from, substring_for } => match substring_from {
            None => Err(no_scalar(expr)),
            Some(from) => match scalar_of(*cut, scope) {
                Err(failure) => Err(failure),
                Ok(whole) => match scalar_of(*from, scope) {
                    Err(failure) => Err(failure),
                    Ok(start) => match substring_for {
                        None => Ok(
                            Scalar::Call {
                                function: ScalarFunction::Substring,
                                args: seq![whole, start],
                            },
                        ),
                        Some(length) => match scalar_of(*length, scope) {
                            Err(failure) => Err(failure),
                            Ok(count) => Ok(
                                Scalar::Call {
                                    function: ScalarFunction::Substring,
                                    args: seq![whole, start, count],
                                },
                            ),
                        },
                    },
                },
            },
        },
        _ => match literal_of(expr) {
            Some(literal) => Ok(Scalar::Literal(literal)),
            None => Err(no_scalar(expr)),
        },
    }
}

/// The scalar expressions that the first arguments of a call are.
pub open spec fn scalar_args(
    args: Vec<SqlFunctionArg>,
    count: nat,
    scope: Tables,
    text: Seq<char>,
) -> Result<Seq<Scalar>, Failure>
    decreases args, count,
{
    if count == 0 || count > args.len() {
        Ok(Seq::empty())
    } else {
        match scalar_args(args, (count - 1) as nat, scope, text) {
            Err(failure) => Err(failure),
            Ok(earlier) => match args[count - 1] {
                SqlFunctionArg::Expr(expr) => match scalar_of(expr, scope) {
                    Err(failure) => Err(failure),
                    Ok(scalar) => Ok(earlier.push(scalar)),
                },
                _ => Err(Failure::Unsupported("unsupported scalar expression: "@ + text)),
            },
        }
    }
}

/// Whether a result is the scalar expression that an expression is.
pub open spec fn reads_scalar(
    expr: SqlExpr,
    scope: Tables,
    result: SqlResult<ScalarSqlExpression>,
) -> bool {
    match scalar_of(expr, scope) {
        Ok(scalar) => result matches Ok(parsed) && parsed.model() == scalar,
        Err(failure) => fails_with(result, failure),
    }
}

/// The error of an expression that is no scalar expression.
fn refuse_scalar(text: &String) -> (error: SqlError)
    ensures
        error.failure() == Failure::Unsupported("unsupported scalar expression: "@ + text@),
{
    SqlError::UnsupportedSql(joined("unsupported scalar expression: ", text.as_str()))
}

/// Models of a list that got longer.
proof fn lemma_models_push(
    shorter: Vec<ScalarSqlExpression>,
    longer: Vec<ScalarSqlExpression>,
    count: nat,
)
    requires
        count <= shorter@.len() <= longer@.len(),
        longer@.take(shorter@.len() as int) == shorter@,
    ensures
        scalar_models(longer, count) == scalar_models(shorter, count),
    decreases count,
{
    if count > 0 {
        lemma_models_push(shorter, longer, (count - 1) as nat);
        assert(longer@.take(shorter@.len() as int)[count - 1] == longer@[count - 1]);
    }
}

/// A failed argument fails the call.
proof fn lemma_args_fail(
    args: Vec<SqlFunctionArg>,
    count: nat,
    more: nat,
    scope: Tables,
    text: Seq<char>,
)
    requires
        count <= more <= args@.len(),
        scalar_args(args, count, scope, text) is Err,
    ensures
        scalar_args(args, more, scope, text) == scalar_args(args, count, scope, text),
    decreases more - count,
{
    if count < more {
        lemma_args_fail(args, count, (more - 1) as nat, scope, text);
    }
}

/// Parses an expression as a scalar expression.
pub fn parse_scalar_sql_expression(expr: &SqlExpr, scope: Scope<'_>) -> (result: SqlResult<
    ScalarSqlExpression,
>)
    ensures
        reads_scalar(*expr, scope@, result),
    decreases *expr,
{
    match &expr.kind {
        SqlExprKind::Identifier(_) | SqlExprKind::CompoundIdentifier(_) => {
            match parse_struct_field_access(expr, scope) {
                Some((column, field)) => Ok(ScalarSqlExpression::StructField { column, field }),
                None => match sql_column_name(expr, scope) {
                    Ok(column) => Ok(ScalarSqlExpression::Column(column)),
                    Err(error) => Err(error),
                },
            }
        },
        SqlExprKind::Nested(inner) => parse_scalar_sql_expression(inner, scope),
        SqlExprKind::BinaryOp { left, op, right } => {
            let arithmetic = match op {
                SqlBinaryOperator::Plus
                | SqlBinaryOperator::Minus
                | SqlBinaryOperator::Multiply
                | SqlBinaryOperator::Divide
                | SqlBinaryOperator::Modulo => true,
                _ => false,
            };
            if !arithmetic {
                return Err(refuse_scalar(&expr.text));
            }
            match parse_scalar_sql_expression(left, scope) {
                Err(error) => Err(error),
                Ok(left) => match parse_scalar_sql_expression(right, scope) {
                    Err(error) => Err(error),
                    Ok(right) => Ok(
                        ScalarSqlExpression::Binary {
                            left: Box::new(left),
                            op: *op,
                            right: Box::new(right),
                        },
                    ),
                },
            }
        },
        SqlExprKind::Cast { expr: inner, data_type } => {
            match parse_scalar_sql_expression(inner, scope) {
                Err(error) => Err(error),
                Ok(scalar) => Ok(
                    ScalarSqlExpression::Cast {
                        expr: Box::new(scalar),
                        target: string_copy(data_type),
                    },
                ),
            }
        },
        SqlExprKind::Function(function) => match (read_called_function(function), &function.args) {
            (Some(called), Some(args)) => match parse_scalar_args(args, scope, &expr.text) {
                Err(error) => Err(error),
                Ok(scalars) => Ok(ScalarSqlExpression::Call { function: called, args: scalars }),
            },
            _ => Err(refuse_scalar(&expr.text)),
        },
        SqlExprKind::Substring { expr: cut, substring_from, substring_for } => match substring_from {
            None => Err(refuse_scalar(&expr.text)),
            Some(from) => {
                let whole = match parse_scalar_sql_expression(cut, scope) {
                    Err(error) => {
                        return Err(error);
                    },
                    Ok(whole) => whole,
                };
                let start = match parse_scalar_sql_expression(from, scope) {
                    Err(error) => {
                        return Err(error);
                    },
                    Ok(start) => start,
                };
                let mut args: Vec<ScalarSqlExpression> = vec![whole, start];
                proof {
                    reveal_with_fuel(scalar_models, 4);
                    assert(scalar_models(args, 2) =~= seq![whole.model(), start.model()]);
                }
                match substring_for {
                    None => {},
                    Some(length) => match parse_scalar_sql_expression(length, scope) {
                        Err(error) => {
                            return Err(error);
                        },
                        Ok(count) => {
                            args.push(count);
                            proof {
                                assert(scalar_models(args, 3) =~= seq![
                                    whole.model(),
                                    start.model(),
                                    count.model(),
                                ]);
                            }
                        },
                    },
                }
                Ok(ScalarSqlExpression::Call { function: ScalarFunction::Substring, args })
            },
        },
        _ => match sql_literal_value(expr) {
            Ok(value) => Ok(ScalarSqlExpression::Literal(value)),
            Err(_) => Err(refuse_scalar(&expr.text)),
        },
    }
}

/// Parses the arguments of a call as scalar expressions.
fn parse_scalar_args(args: &Vec<SqlFunctionArg>, scope: Scope<'_>, text: &String) -> (result:
    SqlResult<Vec<ScalarSqlExpression>>)
    ensures
        match scalar_args(*args, args.len() as nat, scope@, text@) {
            Ok(scalars) => result matches Ok(parsed) && scalar_models(parsed, parsed.len() as nat)
                == scalars,
            Err(failure) => fails_with(result, failure),
        },
    decreases *args,
{
    let mut parsed: Vec<ScalarSqlExpression> = Vec::new();
    let mut index: usize = 0;
    while index < args.len()
        invariant
            index <= args.len(),
            parsed.len() == index,
            scalar_args(*args, index as nat, scope@, text@) == Ok::<Seq<Scalar>, Failure>(
                scalar_models(parsed, index as nat),
            ),
        decreases args.len() - index,
    {
        match &args[index] {
            SqlFunctionArg::Expr(expr) => match parse_scalar_sql_expression(expr, scope) {
                Ok(scalar) => {
                    let ghost shorter = parsed;
                    parsed.push(scalar);
                    proof {
                        assert(parsed@.take(shorter@.len() as int) =~= shorter@);
                        lemma_models_push(shorter, parsed, index as nat);
                    }
                },
                Err(error) => {
                    proof {
                        lemma_args_fail(
                            *args,
                            (index + 1) as nat,
                            args.len() as nat,
                            scope@,
                            text@,
                        );
                    }
                    return Err(error);
                },
            },
            _ => {
                proof {
                    lemma_args_fail(*args, (index + 1) as nat, args.len() as nat, scope@, text@);
                }
                return Err(refuse_scalar(text));
            },
        }
        index += 1;
    }
    Ok(parsed)
}

/// The columns that a scalar expression reads, as they occur.
pub open spec fn scalar_columns(expr: Scalar) -> Seq<Seq<char>>
    decreases expr,
{
    match expr {
        Scalar::Column(column) => seq![column],
        Scalar::StructField { column, .. } => seq![column],
        Scalar::Literal(_) => Seq::empty(),
        Scalar::Binary { left, right, .. } => scalar_columns(*left) + scalar_columns(*right),
        Scalar::Cast { expr, .. } => scalar_columns(*expr),
        Scalar::Call { args, .. } => args_columns(args, args.len()),
    }
}

/// The columns that the first arguments read.
pub open spec fn args_columns(args: Seq<Scalar>, count: nat) -> Seq<Seq<char>>
    decreases args, count,
{
    if count == 0 || count > args.len() {
        Seq::empty()
    } else {
        args_columns(args, (count - 1) as nat) + scalar_columns(args[count - 1])
    }
}

/// The columns that a scalar expression reads, as they occur.
pub fn scalar_expression_columns(expr: &ScalarSqlExpression) -> (columns: Vec<String>)
    ensures
        texts(columns@) == scalar_columns(expr.model()),
    decreases *expr,
{
    match expr {
        ScalarSqlExpression::Column(column) => {
            let columns = vec![string_copy(column)];
            assert(texts(columns@) =~= seq![column@]);
            columns
        },
        ScalarSqlExpression::StructField { column, .. } => {
            let columns = vec![string_copy(column)];
            assert(texts(columns@) =~= seq![column@]);
            columns
        },
        ScalarSqlExpression::Literal(_) => {
            let columns: Vec<String> = Vec::new();
            assert(texts(columns@) =~= Seq::empty());
            columns
        },
        ScalarSqlExpression::Binary { left, right, .. } => {
            let mut columns = scalar_expression_columns(left);
            let mut more = scalar_expression_columns(right);
            let ghost first = columns@;
            let ghost second = more@;
            columns.append(&mut more);
            assert(texts(columns@) =~= texts(first) + texts(second));
            columns
        },
        ScalarSqlExpression::Cast { expr, .. } => scalar_expression_columns(expr),
        ScalarSqlExpression::Call { args, .. } => argument_columns(args),
    }
}

/// The columns that arguments read, as they occur.
fn argument_columns(args: &Vec<ScalarSqlExpression>) -> (columns: Vec<String>)
    ensures
        texts(columns@) == args_columns(
            scalar_models(*args, args.len() as nat),
            scalar_models(*args, args.len() as nat).len(),
        ),
    decreases *args,
{
    let ghost models = scalar_models(*args, args.len() as nat);
    let mut columns: Vec<String> = Vec::new();
    let mut index: usize = 0;
    assert(texts(columns@) =~= args_columns(models, 0));
    while index < args.len()
        invariant
            index <= args.len(),
            models == scalar_models(*args, args.len() as nat),
            texts(columns@) == args_columns(models, index as nat),
        decreases args.len() - index,
    {
        let mut more = scalar_expression_columns(&args[index]);
        let ghost first = columns@;
        let ghost second = more@;
        columns.append(&mut more);
        proof {
            lemma_model_at(*args, args.len() as nat, index as int);
            assert(texts(columns@) =~= texts(first) + texts(second));
        }
        index += 1;
    }
    proof {
        lemma_models_len(*args, args.len() as nat);
    }
    columns
}

pub proof fn lemma_models_len(args: Vec<ScalarSqlExpression>, count: nat)
    requires
        count <= args.len(),
    ensures
        scalar_models(args, count).len() == count,
    decreases count,
{
    if count > 0 {
        lemma_models_len(args, (count - 1) as nat);
    }
}

pub proof fn lemma_model_at(args: Vec<ScalarSqlExpression>, count: nat, index: int)
    requires
        0 <= index < count <= args.len(),
    ensures
        scalar_models(args, count).len() == count,
        scalar_models(args, count)[index] == args[index].model(),
    decreases count,
{
    lemma_models_len(args, count);
    lemma_models_len(args, (count - 1) as nat);
    if index < count - 1 {
        lemma_model_at(args, (count - 1) as nat, index);
    }
}

} // verus!
