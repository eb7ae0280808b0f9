//! Aggregates of a `SELECT` list.

use std::sync::Arc;
use vstd::prelude::*;
use crate::ast::{share_expr, SqlBinaryOperator, SqlExpr, SqlExprKind, SqlFunction, SqlFunctionArg};
use crate::error::{fails_with, Failure, SqlError, SqlResult};
use crate::literals::{literal_of, sql_literal_value, Literal, LiteralValue};
use crate::names::{column_in, sql_column_name, Scope, Tables};
use crate::scalar::{
    call_is_plain, is_arithmetic, is_plain_call, parse_scalar_sql_expression, scalar_columns,
    scalar_expression_columns, scalar_of, Scalar, ScalarSqlExpression,
};
use crate::text::{
    decimal_digits, decimal_text, joined, lowered, str_eq, string_copy, texts, to_ascii_lowercase,
};

verus! {

/// What an aggregate computes.
#[derive(Clone, Copy, Debug, PartialEq, Eq, Structural)]
pub enum AggregateFunction {
    Count,
    Sum,
    Avg,
    Min,
    Max,
}

/// An aggregate of a column, or of rows where there is no column.
#[derive(Debug)]
pub struct AggregateExpr {
    pub function: AggregateFunction,
    pub column: Option<String>,
}

/// An aggregate, as a value.
pub struct Aggregate {
    pub function: AggregateFunction,
    pub column: Option<Seq<char>>,
}

impl View for AggregateExpr {
    type V = Aggregate;

    open spec fn view(&self) -> Aggregate {
        Aggregate {
            function: self.function,
            column: match self.column {
                Some(column) => Some(column@),
                None => None,
            },
        }
    }
}

/// The name of an aggregate.
pub open spec fn aggregate_name(function: AggregateFunction) -> Seq<char> {
    match function {
        AggregateFunction::Count => "count"@,
        AggregateFunction::Sum => "sum"@,
        AggregateFunction::Avg => "avg"@,
        AggregateFunction::Min => "min"@,
        AggregateFunction::Max => "max"@,
    }
}

/// The name of an aggregate.
fn name_of_aggregate(function: AggregateFunction) -> (name: &'static str)
    ensures
        name@ == aggregate_name(function),
{
    match function {
        AggregateFunction::Count => "count",
        AggregateFunction::Sum => "sum",
        AggregateFunction::Avg => "avg",
        AggregateFunction::Min => "min",
        AggregateFunction::Max => "max",
    }
}

/// The text of an aggregate.
pub open spec fn aggregate_text(aggregate: Aggregate) -> Seq<char> {
    aggregate_name(aggregate.function) + "("@ + (match aggregate.column {
        Some(column) => column,
        None => "*"@,
    }) + ")"@
}

/// The text of an aggregate.
pub fn aggregate_to_string(aggregate: &AggregateExpr) -> (text: String)
    ensures
        text@ == aggregate_text(aggregate@),
{
    let opened = joined(name_of_aggregate(aggregate.function), "(");
    let argument = match &aggregate.column {
        Some(column) => joined(opened.as_str(), column.as_str()),
        None => joined(opened.as_str(), "*"),
    };
    joined(argument.as_str(), ")")
}

/// The aggregate of a name, in any case.
pub open spec fn aggregate_function(name: Seq<char>) -> Option<AggregateFunction> {
    let name = lowered(name);
    if name == "count"@ {
        Some(AggregateFunction::Count)
    } else if name == "sum"@ {
        Some(AggregateFunction::Sum)
    } else if name == "avg"@ {
        Some(AggregateFunction::Avg)
    } else if name == "min"@ {
        Some(AggregateFunction::Min)
    } else if name == "max"@ {
        Some(AggregateFunction::Max)
    } else {
        None
    }
}

/// The aggregate of a name, in any case.
pub fn read_aggregate_function(name: &str) -> (function: Option<AggregateFunction>)
    ensures
        function == aggregate_function(name@),
{
    let name = to_ascii_lowercase(name);
    let name = name.as_str();
    if str_eq(name, "count") {
        Some(AggregateFunction::Count)
    } else if str_eq(name, "sum") {
        Some(AggregateFunction::Sum)
    } else if str_eq(name, "avg") {
        Some(AggregateFunction::Avg)
    } else if str_eq(name, "min") {
        Some(AggregateFunction::Min)
    } else if str_eq(name, "max") {
        Some(AggregateFunction::Max)
    } else {
        None
    }
}

/// What a call of an aggregate is applied to.
pub enum AggregateInput {
    Rows,
    Expr(SqlExpr),
}

/// The aggregate that a call is of and what it is applied to, `None` where it is none.
pub open spec fn aggregate_call(function: SqlFunction) -> Option<(
    AggregateFunction,
    AggregateInput,
)> {
    match (function.name, function.args) {
        (Some(name), Some(args)) => match aggregate_function(name@) {
            Some(called) => if !call_is_plain(function.extras) || args@.len() != 1 {
                None
            } else {
                match args@[0] {
                    SqlFunctionArg::Expr(expr) => Some((called, AggregateInput::Expr(expr))),
                    SqlFunctionArg::Wildcard => if called == AggregateFunction::Count {
                        Some((called, AggregateInput::Rows))
                    } else {
                        None
                    },
                    SqlFunctionArg::Other => None,
                }
            },
            None => None,
        },
        _ => None,
    }
}

/// The aggregate that a call is of, with the expression it is applied to; without one it
/// is applied to rows.
fn read_aggregate_call<'a>(function: &'a SqlFunction) -> (called: Option<
    (AggregateFunction, Option<&'a SqlExpr>),
>)
    ensures
        match aggregate_call(*function) {
            Some((
                name,
                AggregateInput::Rows,
            )) => called matches Some((found, None)) && found == name,
            Some((name, AggregateInput::Expr(expr))) => called matches Some((found, Some(input)))
                && found == name && *input == expr,
            None => called is None,
        },
{
    match (&function.name, &function.args) {
        (Some(name), Some(args)) => match read_aggregate_function(name.as_str()) {
            Some(called) => {
                if !is_plain_call(&function.extras) || args.len() != 1 {
                    return None;
                }
                match &args[0] {
                    SqlFunctionArg::Expr(expr) => Some((called, Some(expr))),
                    SqlFunctionArg::Wildcard => {
                        if called == AggregateFunction::Count {
                            Some((called, None))
                        } else {
                            None
                        }
                    },
                    SqlFunctionArg::Other => None,
                }
            },
            None => None,
        },
        _ => None,
    }
}

/// The failure of a call that is no aggregate.
pub open spec fn no_aggregate(text: Seq<char>) -> Failure {
    Failure::Unsupported("unsupported aggregate function: "@ + text)
}

/// The error of a call that is no aggregate.
fn refuse_aggregate(text: &String) -> (error: SqlError)
    ensures
        error.failure() == no_aggregate(text@),
{
    SqlError::UnsupportedSql(joined("unsupported aggregate function: ", text.as_str()))
}

/// The aggregate of a column, or of all rows, that a call is.
pub open spec fn plain_aggregate(function: SqlFunction, text: Seq<char>, scope: Tables) -> Result<
    Aggregate,
    Failure,
> {
    match if function.filter is None {
        aggregate_call(function)
    } else {
        None
    } {
        None => Err(no_aggregate(text)),
        Some((called, AggregateInput::Rows)) => Ok(Aggregate { function: called, column: None }),
        Some((called, AggregateInput::Expr(expr))) => match column_in(expr, scope) {
            Ok(column) => Ok(Aggregate { function: called, column: Some(column) }),
            Err(failure) => Err(failure),
        },
    }
}

/// The aggregate of a column, or of rows, that a call is.
pub fn parse_aggregate(
    function: &SqlFunction,
    text: &String,
    scope: Scope<'_>,
) -> (result: SqlResult<
    AggregateExpr,
>)
    ensures
        match plain_aggregate(*function, text@, scope@) {
            Ok(aggregate) => result matches Ok(found) && found@ == aggregate,
            Err(failure) => fails_with(result, failure),
        },
{
    if function.filter.is_some() {
        return Err(refuse_aggregate(text));
    }
    match read_aggregate_call(function) {
        None => Err(refuse_aggregate(text)),
        Some((called, None)) => Ok(AggregateExpr { function: called, column: None }),
        Some((called, Some(expr))) => match sql_column_name(expr, scope) {
            Ok(column) => Ok(AggregateExpr { function: called, column: Some(column) }),
            Err(error) => Err(error),
        },
    }
}

/// An expression with the name that it is put out under.
#[derive(Debug)]
pub struct ProjectionExpression {
    pub output_name: String,
    pub expr: ScalarSqlExpression,
}

/// An expression with its name, as a value.
pub struct NamedScalar {
    pub name: Seq<char>,
    pub expr: Scalar,
}

impl ProjectionExpression {
    /// The expression with its name, as a value.
    pub open spec fn model(self) -> NamedScalar {
        NamedScalar { name: self.output_name@, expr: self.expr.model() }
    }
}

/// Expressions with their names, as values.
pub open spec fn named_models(expressions: Seq<ProjectionExpression>) -> Seq<NamedScalar> {
    expressions.map_values(|expression: ProjectionExpression| expression.model())
}

/// Aggregates as values.
pub open spec fn aggregate_views(aggregates: Seq<AggregateExpr>) -> Seq<Aggregate> {
    aggregates.map_values(|aggregate: AggregateExpr| aggregate@)
}

/// An aggregate of the rows that a condition lets through, and what it is applied to; one
/// that counts rows is applied to the literal one.
#[derive(Debug)]
pub struct NativeFilteredAggregateSpec {
    pub aggregate: AggregateExpr,
    pub input: ScalarSqlExpression,
    pub condition: Arc<SqlExpr>,
}

/// An aggregate of the rows that a condition lets through, as a value.
pub struct FilteredAggregate {
    pub aggregate: Aggregate,
    pub input: Scalar,
    pub condition: SqlExpr,
}

impl NativeFilteredAggregateSpec {
    /// The aggregate with its condition, as a value.
    pub open spec fn model(self) -> FilteredAggregate {
        FilteredAggregate {
            aggregate: self.aggregate@,
            input: self.input.model(),
            condition: *self.condition,
        }
    }
}

/// Aggregates with their conditions, as values.
pub open spec fn filtered_models(specs: Seq<NativeFilteredAggregateSpec>) -> Seq<
    FilteredAggregate,
> {
    specs.map_values(|spec: NativeFilteredAggregateSpec| spec.model())
}

/// The aggregate of a call with its condition, where it has one.
pub open spec fn filtered_by(
    filter: Option<Arc<SqlExpr>>,
    aggregate: Aggregate,
    input: Scalar,
) -> Seq<FilteredAggregate> {
    match filter {
        Some(condition) => seq![FilteredAggregate { aggregate, input, condition: *condition }],
        None => Seq::empty(),
    }
}

/// How the names of columns begin that hold the input of an aggregate.
pub open spec fn input_prefix() -> Seq<char> {
    "__dodam_agg_expr_"@
}

/// The name of the column that holds the input of an aggregate.
pub open spec fn input_name(index: nat) -> Seq<char> {
    input_prefix() + decimal_digits(index)
}

/// The aggregates of a part of a `SELECT` list: the expression over their results, the
/// aggregates, those with conditions, the expressions that they are applied to, and the
/// columns read: by those expressions, and beside the aggregates.
pub struct AggregateReading {
    pub expr: Scalar,
    pub aggregates: Seq<Aggregate>,
    pub filtered: Seq<FilteredAggregate>,
    pub inputs: Seq<NamedScalar>,
    pub input_columns: Seq<Seq<char>>,
    pub columns: Seq<Seq<char>>,
}

/// The aggregate that a call is, with the expression that it is applied to where that is
/// no column; `inputs` such expressions were met before.
pub open spec fn aggregate_of(
    function: SqlFunction,
    text: Seq<char>,
    scope: Tables,
    inputs: nat,
) -> Result<AggregateReading, Failure> {
    match aggregate_call(function) {
        None => Err(no_aggregate(text)),
        Some((called, AggregateInput::Rows)) => Ok(
            single_aggregate(
                Aggregate { function: called, column: None },
                function.filter,
                Scalar::Literal(Literal::Int64(1)),
            ),
        ),
        Some((called, AggregateInput::Expr(expr))) => match scalar_of(expr, scope) {
            Err(failure) => Err(failure),
            Ok(Scalar::Column(column)) => Ok(
                single_aggregate(
                    Aggregate { function: called, column: Some(column) },
                    function.filter,
                    Scalar::Column(column),
                ),
            ),
            Ok(scalar) => {
                let aggregate = Aggregate { function: called, column: Some(input_name(inputs)) };
                Ok(
                    AggregateReading {
                        expr: Scalar::Column(aggregate_text(aggregate)),
                        aggregates: seq![aggregate],
                        filtered: filtered_by(function.filter, aggregate, scalar),
                        inputs: seq![NamedScalar { name: input_name(inputs), expr: scalar }],
                        input_columns: scalar_columns(scalar),
                        columns: Seq::empty(),
                    },
                )
            },
        },
    }
}

/// An aggregate of a column or of rows, alone.
pub open spec fn single_aggregate(
    aggregate: Aggregate,
    filter: Option<Arc<SqlExpr>>,
    input: Scalar,
) -> AggregateReading {
    AggregateReading {
        expr: Scalar::Column(aggregate_text(aggregate)),
        aggregates: seq![aggregate],
        filtered: filtered_by(filter, aggregate, input),
        inputs: Seq::empty(),
        input_columns: Seq::empty(),
        columns: Seq::empty(),
    }
}

/// The aggregates of a part of a `SELECT` list, being parsed.
pub struct ParsedAggregates {
    pub expr: ScalarSqlExpression,
    pub aggregates: Vec<AggregateExpr>,
    pub filtered: Vec<NativeFilteredAggregateSpec>,
    pub inputs: Vec<ProjectionExpression>,
    pub input_columns: Vec<String>,
    pub columns: Vec<String>,
}

impl ParsedAggregates {
    /// The aggregates, as a value.
    pub open spec fn model(self) -> AggregateReading {
        AggregateReading {
            expr: self.expr.model(),
            aggregates: aggregate_views(self.aggregates@),
            filtered: filtered_models(self.filtered@),
            inputs: named_models(self.inputs@),
            input_columns: texts(self.input_columns@),
            columns: texts(self.columns@),
        }
    }
}

/// The aggregate of a call with its condition, where it has one.
fn filtered_aggregate_spec_from_function(
    function: &SqlFunction,
    aggregate: &AggregateExpr,
    input: ScalarSqlExpression,
) -> (specs: Vec<NativeFilteredAggregateSpec>)
    ensures
        filtered_models(specs@) == filtered_by(function.filter, aggregate@, input.model()),
{
    match &function.filter {
        Some(condition) => {
            let copied = AggregateExpr {
                function: aggregate.function,
                column: match &aggregate.column {
                    Some(column) => Some(string_copy(column)),
                    None => None,
                },
            };
            let specs = vec![
                NativeFilteredAggregateSpec {
                    aggregate: copied,
                    input,
                    condition: share_expr(condition),
                },
            ];
            assert(filtered_models(specs@) =~= filtered_by(
                function.filter,
                aggregate@,
                input.model(),
            ));
            specs
        },
        None => {
            let specs: Vec<NativeFilteredAggregateSpec> = Vec::new();
            assert(filtered_models(specs@) =~= Seq::empty());
            specs
        },
    }
}

/// An aggregate of a column or of rows, alone.
fn alone(aggregate: AggregateExpr, function: &SqlFunction, input: ScalarSqlExpression) -> (parsed:
    ParsedAggregates)
    ensures
        parsed.model() == single_aggregate(aggregate@, function.filter, input.model()),
{
    let text = aggregate_to_string(&aggregate);
    let filtered = filtered_aggregate_spec_from_function(function, &aggregate, input);
    let parsed = ParsedAggregates {
        expr: ScalarSqlExpression::Column(text),
        aggregates: vec![aggregate],
        filtered,
        inputs: Vec::new(),
        input_columns: Vec::new(),
        columns: Vec::new(),
    };
    proof {
        let model = parsed.model();
        assert(model.aggregates =~= seq![aggregate@]);
        assert(model.inputs =~= Seq::empty());
        assert(model.input_columns =~= Seq::empty());
        assert(model.columns =~= Seq::empty());
    }
    parsed
}

/// The name of the column that holds the input of an aggregate.
fn name_of_input(index: usize) -> (name: String)
    ensures
        name@ == input_name(index as nat),
{
    let digits = decimal_text(index as u64);
    joined("__dodam_agg_expr_", digits.as_str())
}

/// The aggregate that a call is, with the expression that it is applied to.
pub fn parse_aggregate_with_input_expression(
    function: &SqlFunction,
    text: &String,
    scope: Scope<'_>,
    inputs: usize,
) -> (result: SqlResult<ParsedAggregates>)
    ensures
        match aggregate_of(*function, text@, scope@, inputs as nat) {
            Ok(reading) => result matches Ok(parsed) && parsed.model() == reading,
            Err(failure) => fails_with(result, failure),
        },
{
    match read_aggregate_call(function) {
        None => Err(refuse_aggregate(text)),
        Some((called, None)) => Ok(
            alone(
                AggregateExpr { function: called, column: None },
                function,
                ScalarSqlExpression::Literal(LiteralValue::Int64(1)),
            ),
        ),
        Some((called, Some(expr))) => match parse_scalar_sql_expression(expr, scope) {
            Err(error) => Err(error),
            Ok(ScalarSqlExpression::Column(column)) => {
                let input = ScalarSqlExpression::Column(string_copy(&column));
                Ok(alone(AggregateExpr { function: called, column: Some(column) }, function, input))
            },
            Ok(scalar) => {
                let input = match parse_scalar_sql_expression(expr, scope) {
                    Ok(input) => input,
                    Err(error) => {
                        return Err(error);
                    },
                };
                let input_columns = scalar_expression_columns(&scalar);
                let aggregate = AggregateExpr {
                    function: called,
                    column: Some(name_of_input(inputs)),
                };
                let filtered = filtered_aggregate_spec_from_function(function, &aggregate, input);
                let parsed = ParsedAggregates {
                    expr: ScalarSqlExpression::Column(aggregate_to_string(&aggregate)),
                    aggregates: vec![aggregate],
                    filtered,
                    inputs: vec![
                        ProjectionExpression { output_name: name_of_input(inputs), expr: scalar },
                    ],
                    input_columns,
                    columns: Vec::new(),
                };
                proof {
                    let model = parsed.model();
                    assert(model.aggregates =~= seq![aggregate@]);
                    assert(model.inputs =~= seq![
                        NamedScalar { name: input_name(inputs as nat), expr: scalar.model() },
                    ]);
                    assert(model.columns =~= Seq::empty());
                }
                Ok(parsed)
            },
        },
    }
}

/// Two expressions over aggregates with an operator between them.
pub open spec fn combined(
    first: AggregateReading,
    op: SqlBinaryOperator,
    second: AggregateReading,
) -> AggregateReading {
    AggregateReading {
        expr: Scalar::Binary { left: Box::new(first.expr), op, right: Box::new(second.expr) },
        aggregates: first.aggregates + second.aggregates,
        filtered: first.filtered + second.filtered,
        inputs: first.inputs + second.inputs,
        input_columns: first.input_columns + second.input_columns,
        columns: first.columns + second.columns,
    }
}

/// An expression over aggregates: `None` where it holds something else than aggregates,
/// columns, literals and the operators between them, or more expressions that aggregates
/// are applied to than can be counted.
pub open spec fn aggregates_in(
    expr: SqlExpr,
    scope: Tables,
    inputs: nat,
) -> Option<AggregateReading>
    decreases expr,
{
    match expr.kind {
        SqlExprKind::Nested(inner) => aggregates_in(*inner, scope, inputs),
        SqlExprKind::BinaryOp { left, op, right } => if !is_arithmetic(op) {
            None
        } else {
            match aggregates_in(*left, scope, inputs) {
                None => None,
                Some(first) => if inputs + first.inputs.len() > usize::MAX {
                    None
                } else {
                    match aggregates_in(*right, scope, inputs + first.inputs.len()) {
                        None => None,
                        Some(second) => Some(combined(first, op, second)),
                    }
                },
            }
        },
        SqlExprKind::Function(function) => match aggregate_of(function, expr.text@, scope, inputs) {
            Ok(reading) => Some(reading),
            Err(_) => None,
        },
        SqlExprKind::Identifier(_) => column_beside(expr, scope),
        SqlExprKind::CompoundIdentifier(_) => column_beside(expr, scope),
        _ => match literal_of(expr) {
            Some(literal) => Some(
                AggregateReading {
                    expr: Scalar::Literal(literal),
                    aggregates: Seq::empty(),
                    filtered: Seq::empty(),
                    inputs: Seq::empty(),
                    input_columns: Seq::empty(),
                    columns: Seq::empty(),
                },
            ),
            None => None,
        },
    }
}

/// A column beside aggregates.
pub open spec fn column_beside(expr: SqlExpr, scope: Tables) -> Option<AggregateReading> {
    match column_in(expr, scope) {
        Ok(column) => Some(
            AggregateReading {
                expr: Scalar::Column(column),
                aggregates: Seq::empty(),
                filtered: Seq::empty(),
                inputs: Seq::empty(),
                input_columns: Seq::empty(),
                columns: seq![column],
            },
        ),
        Err(_) => None,
    }
}

/// Two expressions over aggregates with an operator between them.
fn combine(
    first: ParsedAggregates,
    op: SqlBinaryOperator,
    second: ParsedAggregates,
) -> (parsed: ParsedAggregates)
    ensures
        parsed.model() == combined(first.model(), op, second.model()),
{
    let ghost left = first;
    let ghost right = second;
    let mut aggregates = first.aggregates;
    let mut more_aggregates = second.aggregates;
    aggregates.append(&mut more_aggregates);
    let mut filtered = first.filtered;
    let mut more_filtered = second.filtered;
    filtered.append(&mut more_filtered);
    let mut inputs = first.inputs;
    let mut more_inputs = second.inputs;
    inputs.append(&mut more_inputs);
    let mut input_columns = first.input_columns;
    let mut more_input_columns = second.input_columns;
    input_columns.append(&mut more_input_columns);
    let mut columns = first.columns;
    let mut more_columns = second.columns;
    columns.append(&mut more_columns);
    let parsed = ParsedAggregates {
        expr: ScalarSqlExpression::Binary {
            left: Box::new(first.expr),
            op,
            right: Box::new(second.expr),
        },
        aggregates,
        filtered,
        inputs,
        input_columns,
        columns,
    };
    proof {
        let model = parsed.model();
        let expected = combined(left.model(), op, right.model());
        assert(model.aggregates =~= expected.aggregates);
        assert(model.filtered =~= expected.filtered);
        assert(model.inputs =~= expected.inputs);
        assert(model.input_columns =~= expected.input_columns);
        assert(model.columns =~= expected.columns);
    }
    parsed
}

/// An expression without aggregates that reads the given columns.
fn without_aggregates(expr: ScalarSqlExpression, columns: Vec<String>) -> (parsed: ParsedAggregates)
    ensures
        parsed.model() == (AggregateReading {
            expr: expr.model(),
            aggregates: Seq::empty(),
            filtered: Seq::empty(),
            inputs: Seq::empty(),
            input_columns: Seq::empty(),
            columns: texts(columns@),
        }),
{
    let parsed = ParsedAggregates {
        expr,
        aggregates: Vec::new(),
        filtered: Vec::new(),
        inputs: Vec::new(),
        input_columns: Vec::new(),
        columns,
    };
    proof {
        let model = parsed.model();
        assert(model.aggregates =~= Seq::empty());
        assert(model.filtered =~= Seq::empty());
        assert(model.inputs =~= Seq::empty());
        assert(model.input_columns =~= Seq::empty());
    }
    parsed
}

/// An expression over aggregates.
pub fn parse_aggregate_output_expression(
    expr: &SqlExpr,
    scope: Scope<'_>,
    inputs: usize,
) -> (parsed: Option<ParsedAggregates>)
    ensures
        match aggregates_in(*expr, scope@, inputs as nat) {
            Some(reading) => parsed matches Some(parsed) && parsed.model() == reading,
            None => parsed is None,
        },
    decreases *expr,
{
    match &expr.kind {
        SqlExprKind::Nested(inner) => parse_aggregate_output_expression(inner, scope, inputs),
        SqlExprKind::BinaryOp { left, op, right } => {
            let arithmetic = match op {
                SqlBinaryOperator::Plus
                | SqlBinaryOperator::Minus
                | SqlBinaryOperator::Multiply
                | SqlBinaryOperator::Divide
                | SqlBinaryOperator::Modulo => true,
                _ => false,
            };
            if !arithmetic {
                return None;
            }
            match parse_aggregate_output_expression(left, scope, inputs) {
                None => None,
                Some(first) => {
                    let met: usize = first.inputs.len();
                    assert(first.model().inputs.len() == met);
                    if met > usize::MAX - inputs {
                        return None;
                    }
                    match parse_aggregate_output_expression(right, scope, inputs + met) {
                        None => None,
                        Some(second) => Some(combine(first, *op, second)),
                    }
                },
            }
        },
        SqlExprKind::Function(function) => {
            match parse_aggregate_with_input_expression(function, &expr.text, scope, inputs) {
                Ok(parsed) => Some(parsed),
                Err(_) => None,
            }
        },
        SqlExprKind::Identifier(_) | SqlExprKind::CompoundIdentifier(_) => {
            match sql_column_name(expr, scope) {
                Ok(column) => {
                    let columns: Vec<String> = vec![string_copy(&column)];
                    assert(texts(columns@) =~= seq![column@]);
                    Some(without_aggregates(ScalarSqlExpression::Column(column), columns))
                },
                Err(_) => None,
            }
        },
        _ => match sql_literal_value(expr) {
            Ok(value) => {
                let columns: Vec<String> = Vec::new();
                assert(texts(columns@) =~= Seq::empty());
                Some(without_aggregates(ScalarSqlExpression::Literal(value), columns))
            },
            Err(_) => None,
        },
    }
}

} // verus!
