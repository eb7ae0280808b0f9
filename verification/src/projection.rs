//! The list of a `SELECT`.

use vstd::prelude::*;
use crate::aggregates::{
    aggregate_of, aggregate_text, aggregates_in, input_prefix, Aggregate, AggregateReading,
    FilteredAggregate, NamedScalar, ProjectionExpression,
};
use crate::ast::{GroupBy, SelectEntry, SelectEntryKind, SqlExpr, SqlExprKind};
use crate::error::{fails_with, Failure, SqlError, SqlResult};
use crate::names::{
    column_in, lemma_with_columns_holds, sql_column_name, struct_field_of, with_columns, Scope,
    Tables,
};
use crate::predicates::filter_columns;
use crate::scalar::{
    called_function, parse_scalar_sql_expression, scalar_columns, scalar_of, Scalar,
};
use crate::text::{decimal_digits, decimal_text, has_prefix, joined, str_eq, string_copy, texts};

verus! {

/// An expression of a `GROUP BY` that is no column: its text, and the column that holds
/// its value.
#[derive(Debug)]
pub struct GroupExpressionBinding {
    pub source: String,
    pub expression: ProjectionExpression,
}

/// An expression of a `GROUP BY`, as a value.
pub struct GroupBinding {
    pub source: Seq<char>,
    pub expression: NamedScalar,
}

/// Expressions of a `GROUP BY`, as values.
pub open spec fn binding_models(bindings: Seq<GroupExpressionBinding>) -> Seq<GroupBinding> {
    bindings.map_values(
        |binding: GroupExpressionBinding|
            GroupBinding { source: binding.source@, expression: binding.expression.model() },
    )
}

/// How the names of columns begin that hold an expression of a `GROUP BY`.
pub open spec fn group_prefix() -> Seq<char> {
    "__dodam_group_expr_"@
}

/// The name of the column that holds an expression of a `GROUP BY`.
pub open spec fn group_name(index: nat) -> Seq<char> {
    group_prefix() + decimal_digits(index)
}

/// The keys of a `GROUP BY`: the columns, and the expressions that are no columns.
pub struct GroupKeys {
    pub columns: Seq<Seq<char>>,
    pub bindings: Seq<GroupBinding>,
}

/// Whether an expression is a name.
pub open spec fn is_name(expr: SqlExpr) -> bool {
    expr.kind is Identifier || expr.kind is CompoundIdentifier
}

/// The keys that expressions are.
pub open spec fn keys_of(exprs: Seq<SqlExpr>, scope: Tables) -> Result<GroupKeys, Failure>
    decreases exprs.len(),
{
    if exprs.len() == 0 {
        Ok(GroupKeys { columns: Seq::empty(), bindings: Seq::empty() })
    } else {
        match keys_of(exprs.drop_last(), scope) {
            Err(failure) => Err(failure),
            Ok(keys) => key_after(keys, exprs.last(), scope),
        }
    }
}

/// The keys with one more.
pub open spec fn key_after(
    keys: GroupKeys,
    expr: SqlExpr,
    scope: Tables,
) -> Result<GroupKeys, Failure> {
    if is_name(expr) {
        match column_in(expr, scope) {
            Err(failure) => Err(failure),
            Ok(column) => Ok(
                GroupKeys { columns: keys.columns.push(column), bindings: keys.bindings },
            ),
        }
    } else {
        match scalar_of(expr, scope) {
            Err(failure) => Err(failure),
            Ok(scalar) => {
                let name = group_name(keys.bindings.len());
                Ok(
                    GroupKeys {
                        columns: keys.columns.push(name),
                        bindings: keys.bindings.push(
                            GroupBinding {
                                source: expr.text@,
                                expression: NamedScalar { name, expr: scalar },
                            },
                        ),
                    },
                )
            },
        }
    }
}

/// The keys of a `GROUP BY`.
pub open spec fn group_keys(group_by: GroupBy, scope: Tables) -> Result<GroupKeys, Failure> {
    match group_by.expressions {
        Some(exprs) => if group_by.modifiers != 0 {
            Err(Failure::Unsupported("GROUP BY ALL and GROUP BY modifiers are not supported"@))
        } else {
            keys_of(exprs@, scope)
        },
        None => Err(
            Failure::Unsupported("GROUP BY ALL and GROUP BY modifiers are not supported"@),
        ),
    }
}

/// The keys of a `GROUP BY`, parsed.
pub struct ParsedGroupBy {
    pub columns: Vec<String>,
    pub bindings: Vec<GroupExpressionBinding>,
}

impl ParsedGroupBy {
    /// The keys, as a value.
    pub open spec fn model(self) -> GroupKeys {
        GroupKeys { columns: texts(self.columns@), bindings: binding_models(self.bindings@) }
    }
}

proof fn lemma_keys_fail(exprs: Seq<SqlExpr>, scope: Tables, count: int)
    requires
        0 <= count <= exprs.len(),
        keys_of(exprs.take(count), scope) is Err,
    ensures
        keys_of(exprs, scope) == keys_of(exprs.take(count), scope),
    decreases exprs.len() - count,
{
    if count < exprs.len() {
        assert(exprs.take(count + 1).drop_last() =~= exprs.take(count));
        lemma_keys_fail(exprs, scope, count + 1);
    } else {
        assert(exprs.take(count) =~= exprs);
    }
}

/// The name of the column that holds an expression of a `GROUP BY`.
fn name_of_group(index: usize) -> (name: String)
    ensures
        name@ == group_name(index as nat),
{
    let digits = decimal_text(index as u64);
    joined("__dodam_group_expr_", digits.as_str())
}

/// The keys of a `GROUP BY`.
pub fn parse_group_by(group_by: &GroupBy, scope: Scope<'_>) -> (result: SqlResult<ParsedGroupBy>)
    ensures
        match group_keys(*group_by, scope@) {
            Ok(keys) => result matches Ok(parsed) && parsed.model() == keys,
            Err(failure) => fails_with(result, failure),
        },
{
    let exprs = match &group_by.expressions {
        Some(exprs) => exprs,
        None => {
            return Err(
                SqlError::unsupported("GROUP BY ALL and GROUP BY modifiers are not supported"),
            );
        },
    };
    if group_by.modifiers != 0 {
        return Err(SqlError::unsupported("GROUP BY ALL and GROUP BY modifiers are not supported"));
    }
    let mut parsed = ParsedGroupBy { columns: Vec::new(), bindings: Vec::new() };
    let mut index: usize = 0;
    proof {
        assert(exprs@.take(0) =~= Seq::empty());
        assert(parsed.model().columns =~= Seq::empty());
        assert(parsed.model().bindings =~= Seq::empty());
    }
    while index < exprs.len()
        invariant
            index <= exprs@.len(),
            keys_of(exprs@.take(index as int), scope@) == Ok::<GroupKeys, Failure>(parsed.model()),
            group_by.expressions == Some(*exprs),
            group_by.modifiers == 0,
        decreases exprs@.len() - index,
    {
        let expr = &exprs[index];
        let ghost before = parsed.model();
        proof {
            assert(exprs@.take(index + 1).drop_last() =~= exprs@.take(index as int));
            assert(exprs@.take(index + 1).last() == *expr);
            if key_after(before, *expr, scope@) is Err {
                lemma_keys_fail(exprs@, scope@, index + 1);
            }
        }
        let named = match &expr.kind {
            SqlExprKind::Identifier(_) | SqlExprKind::CompoundIdentifier(_) => true,
            _ => false,
        };
        if named {
            match sql_column_name(expr, scope) {
                Ok(column) => {
                    parsed.columns.push(column);
                    assert(parsed.model().columns =~= before.columns.push(column@));
                },
                Err(error) => {
                    return Err(error);
                },
            }
        } else {
            match parse_scalar_sql_expression(expr, scope) {
                Ok(scalar) => {
                    let count: usize = parsed.bindings.len();
                    assert(before.bindings.len() == count);
                    let ghost name = group_name(count as nat);
                    parsed.columns.push(name_of_group(count));
                    parsed.bindings.push(
                        GroupExpressionBinding {
                            source: string_copy(&expr.text),
                            expression: ProjectionExpression {
                                output_name: name_of_group(count),
                                expr: scalar,
                            },
                        },
                    );
                    proof {
                        assert(parsed.model().columns =~= before.columns.push(name));
                        assert(parsed.model().bindings =~= before.bindings.push(
                            GroupBinding {
                                source: expr.text@,
                                expression: NamedScalar { name, expr: scalar.model() },
                            },
                        ));
                    }
                },
                Err(error) => {
                    return Err(error);
                },
            }
        }
        index += 1;
    }
    assert(exprs@.take(index as int) =~= exprs@);
    Ok(parsed)
}

/// The column that holds the expression of a `GROUP BY` with the given text.
pub open spec fn bound_column(bindings: Seq<GroupBinding>, text: Seq<char>) -> Option<Seq<char>>
    decreases bindings.len(),
{
    if bindings.len() == 0 {
        None
    } else {
        match bound_column(bindings.drop_last(), text) {
            Some(column) => Some(column),
            None => if bindings.last().source == text {
                Some(bindings.last().expression.name)
            } else {
                None
            },
        }
    }
}

proof fn lemma_bound_stays(bindings: Seq<GroupBinding>, text: Seq<char>, count: int)
    requires
        0 <= count <= bindings.len(),
        bound_column(bindings.take(count), text) is Some,
    ensures
        bound_column(bindings, text) == bound_column(bindings.take(count), text),
    decreases bindings.len() - count,
{
    if count < bindings.len() {
        assert(bindings.take(count + 1).drop_last() =~= bindings.take(count));
        lemma_bound_stays(bindings, text, count + 1);
    } else {
        assert(bindings.take(count) =~= bindings);
    }
}

/// The column that holds the expression of a `GROUP BY` with the given text.
pub fn projected_group_expression(bindings: &Vec<GroupExpressionBinding>, text: &String) -> (column:
    Option<String>)
    ensures
        match bound_column(binding_models(bindings@), text@) {
            Some(expected) => column matches Some(column) && column@ == expected,
            None => column is None,
        },
{
    let ghost models = binding_models(bindings@);
    let mut index: usize = 0;
    assert(models.take(0) =~= Seq::empty());
    while index < bindings.len()
        invariant
            index <= bindings@.len(),
            models == binding_models(bindings@),
            bound_column(models.take(index as int), text@) is None,
        decreases bindings@.len() - index,
    {
        proof {
            assert(models.take(index + 1).drop_last() =~= models.take(index as int));
            assert(models.take(index + 1).last() == models[index as int]);
        }
        if str_eq(bindings[index].source.as_str(), text.as_str()) {
            proof {
                lemma_bound_stays(models, text@, index + 1);
            }
            return Some(string_copy(&bindings[index].expression.output_name));
        }
        index += 1;
    }
    assert(models.take(index as int) =~= models);
    None
}

/// What one item adds to a `SELECT` list.
pub struct ItemReading {
    pub columns: Seq<Seq<char>>,
    pub aggregates: Seq<Aggregate>,
    pub filtered: Seq<FilteredAggregate>,
    pub inputs: Seq<NamedScalar>,
    pub input_columns: Seq<Seq<char>>,
    pub alias: Option<(Seq<char>, Seq<char>)>,
    pub expression: Option<NamedScalar>,
    pub wildcard: bool,
    pub qualifier: Option<Seq<char>>,
}

/// An item that puts an expression out and reads columns for it.
pub open spec fn plain_item(
    columns: Seq<Seq<char>>,
    expression: NamedScalar,
    alias: Option<(Seq<char>, Seq<char>)>,
) -> ItemReading {
    ItemReading {
        columns,
        aggregates: Seq::empty(),
        filtered: Seq::empty(),
        inputs: Seq::empty(),
        input_columns: Seq::empty(),
        alias,
        expression: Some(expression),
        wildcard: false,
        qualifier: None,
    }
}

/// An item with aggregates.
pub open spec fn aggregate_item(
    reading: AggregateReading,
    expression: Option<NamedScalar>,
    alias: Option<(Seq<char>, Seq<char>)>,
) -> ItemReading {
    ItemReading {
        columns: reading.columns,
        aggregates: reading.aggregates,
        filtered: reading.filtered,
        inputs: reading.inputs,
        input_columns: reading.input_columns,
        alias,
        expression,
        wildcard: false,
        qualifier: None,
    }
}

/// An item for all columns, of the table that is named.
pub open spec fn wildcard_item(qualifier: Option<Seq<char>>) -> ItemReading {
    ItemReading {
        columns: Seq::empty(),
        aggregates: Seq::empty(),
        filtered: Seq::empty(),
        inputs: Seq::empty(),
        input_columns: Seq::empty(),
        alias: None,
        expression: None,
        wildcard: true,
        qualifier,
    }
}

/// The alias of an item that has one.
pub open spec fn alias_pair(alias: Option<Seq<char>>, target: Seq<char>) -> Option<
    (Seq<char>, Seq<char>),
> {
    match alias {
        Some(alias) => Some((alias, target)),
        None => None,
    }
}

/// A scalar expression, put out under the given name.
pub open spec fn scalar_item(expr: SqlExpr, name: Seq<char>, scope: Tables) -> Result<
    ItemReading,
    Failure,
> {
    match scalar_of(expr, scope) {
        Err(failure) => Err(failure),
        Ok(scalar) => Ok(
            plain_item(scalar_columns(scalar), NamedScalar { name, expr: scalar }, None),
        ),
    }
}

/// A field of a column, put out under its own name or an alias.
pub open spec fn field_item(
    column: Seq<char>,
    field: Seq<char>,
    alias: Option<Seq<char>>,
) -> ItemReading {
    let name = match alias {
        Some(alias) => alias,
        None => field,
    };
    plain_item(
        seq![column],
        NamedScalar { name, expr: Scalar::StructField { column, field } },
        alias_pair(alias, name),
    )
}

/// What an expression adds to a `SELECT` list, with an alias or without. A column is put
/// out as it is, a field of a column under its name; an expression of the `GROUP BY` by the
/// column that holds it; a call is a scalar function or an aggregate; anything else is an
/// expression over aggregates, or a scalar expression.
pub open spec fn expr_item(
    expr: SqlExpr,
    alias: Option<Seq<char>>,
    scope: Tables,
    bindings: Seq<GroupBinding>,
    inputs: nat,
) -> Result<ItemReading, Failure> {
    let name = match alias {
        Some(alias) => alias,
        None => expr.text@,
    };
    if struct_field_of(expr, scope) is Some {
        let (column, field) = struct_field_of(expr, scope)->Some_0;
        Ok(field_item(column, field, alias))
    } else if is_name(expr) {
        match column_in(expr, scope) {
            Err(failure) => Err(failure),
            Ok(column) => Ok(
                plain_item(
                    seq![column],
                    NamedScalar {
                        name: match alias {
                            Some(alias) => alias,
                            None => column,
                        },
                        expr: Scalar::Column(column),
                    },
                    alias_pair(alias, column),
                ),
            ),
        }
    } else {
        match bound_column(bindings, expr.text@) {
            Some(column) => Ok(
                plain_item(
                    seq![column],
                    NamedScalar { name, expr: Scalar::Column(column) },
                    Some((name, column)),
                ),
            ),
            None => match expr.kind {
                SqlExprKind::Function(function) => if called_function(function) is Some {
                    scalar_item(expr, name, scope)
                } else {
                    match aggregate_of(function, expr.text@, scope, inputs) {
                        Err(failure) => Err(failure),
                        Ok(reading) => Ok(
                            aggregate_item(
                                reading,
                                None,
                                alias_pair(alias, aggregate_text(reading.aggregates[0])),
                            ),
                        ),
                    }
                },
                _ => match aggregates_in(expr, scope, inputs) {
                    Some(reading) => if reading.aggregates.len() > 0 {
                        Ok(
                            aggregate_item(
                                reading,
                                Some(NamedScalar { name, expr: reading.expr }),
                                alias_pair(alias, name),
                            ),
                        )
                    } else {
                        scalar_item(expr, name, scope)
                    },
                    None => scalar_item(expr, name, scope),
                },
            },
        }
    }
}

/// What an item adds to a `SELECT` list.
pub open spec fn item_reading(
    item: SelectEntry,
    scope: Tables,
    bindings: Seq<GroupBinding>,
    inputs: nat,
) -> Result<ItemReading, Failure> {
    match item.kind {
        SelectEntryKind::Wildcard => Ok(wildcard_item(None)),
        SelectEntryKind::QualifiedWildcard(name) => match name {
            None => Err(Failure::Unsupported("unsupported qualified wildcard: "@ + item.text@)),
            Some(qualifier) => match scope {
                Tables::Table(Some(alias)) => if alias == qualifier@ {
                    Ok(wildcard_item(Some(qualifier@)))
                } else {
                    Err(Failure::UnknownColumn(qualifier@ + ".*"@))
                },
                _ => Ok(wildcard_item(Some(qualifier@))),
            },
        },
        SelectEntryKind::UnnamedExpr(expr) => expr_item(expr, None, scope, bindings, inputs),
        SelectEntryKind::ExprWithAlias { expr, alias } => expr_item(
            expr,
            Some(alias@),
            scope,
            bindings,
            inputs,
        ),
        SelectEntryKind::ExprWithAliases => Err(
            Failure::Unsupported("multi-alias SELECT items are not supported"@),
        ),
    }
}

/// What the items of a `SELECT` list add up to.
pub struct Selected {
    pub columns: Seq<Seq<char>>,
    pub aggregates: Seq<Aggregate>,
    pub filtered: Seq<FilteredAggregate>,
    pub inputs: Seq<NamedScalar>,
    pub input_columns: Seq<Seq<char>>,
    pub aliases: Seq<(Seq<char>, Seq<char>)>,
    pub expressions: Seq<NamedScalar>,
    pub wildcard: bool,
    pub qualifiers: Seq<Seq<char>>,
}

/// Nothing selected.
pub open spec fn nothing_selected() -> Selected {
    Selected {
        columns: Seq::empty(),
        aggregates: Seq::empty(),
        filtered: Seq::empty(),
        inputs: Seq::empty(),
        input_columns: Seq::empty(),
        aliases: Seq::empty(),
        expressions: Seq::empty(),
        wildcard: false,
        qualifiers: Seq::empty(),
    }
}

/// A list with one more where there is one.
pub open spec fn pushed<T>(list: Seq<T>, value: Option<T>) -> Seq<T> {
    match value {
        Some(value) => list.push(value),
        None => list,
    }
}

/// What is selected with one more item. A column is read once.
pub open spec fn with_item(selected: Selected, item: ItemReading) -> Selected {
    Selected {
        columns: with_columns(selected.columns, item.columns),
        aggregates: selected.aggregates + item.aggregates,
        filtered: selected.filtered + item.filtered,
        inputs: selected.inputs + item.inputs,
        input_columns: with_columns(selected.input_columns, item.input_columns),
        aliases: pushed(selected.aliases, item.alias),
        expressions: pushed(selected.expressions, item.expression),
        wildcard: selected.wildcard || item.wildcard,
        qualifiers: pushed(selected.qualifiers, item.qualifier),
    }
}

/// What the items of a `SELECT` list add up to, or the first failure.
pub open spec fn selected_by(
    items: Seq<SelectEntry>,
    scope: Tables,
    bindings: Seq<GroupBinding>,
) -> Result<Selected, Failure>
    decreases items.len(),
{
    if items.len() == 0 {
        Ok(nothing_selected())
    } else {
        match selected_by(items.drop_last(), scope, bindings) {
            Err(failure) => Err(failure),
            Ok(selected) => match item_reading(
                items.last(),
                scope,
                bindings,
                selected.inputs.len(),
            ) {
                Err(failure) => Err(failure),
                Ok(item) => Ok(with_item(selected, item)),
            },
        }
    }
}

/// What a `SELECT` list comes to.
pub struct Projected {
    pub projection: Option<Seq<Seq<char>>>,
    pub aggregates: Seq<Aggregate>,
    pub filtered_aggregates: Seq<FilteredAggregate>,
    pub aggregate_expressions: Seq<NamedScalar>,
    pub aliases: Seq<(Seq<char>, Seq<char>)>,
    pub expressions: Seq<NamedScalar>,
    pub ordinal_targets: Seq<Seq<char>>,
    pub qualified_wildcards: Seq<Seq<char>>,
}

/// The names that positions in an `ORDER BY` stand for: without aggregates those that the
/// expressions are put out under, else the columns and then the aggregates.
pub open spec fn position_names(selected: Selected) -> Seq<Seq<char>> {
    if selected.aggregates.len() == 0 {
        selected.expressions.map_values(|expression: NamedScalar| expression.name)
    } else {
        selected.columns + selected.aggregates.map_values(
            |aggregate: Aggregate| aggregate_text(aggregate),
        )
    }
}

/// Whether an expression reads the result of an aggregate.
pub open spec fn reads_aggregate(expr: Scalar, aggregates: Seq<Aggregate>) -> bool {
    exists|index: int|
        0 <= index < aggregates.len() && scalar_columns(expr).contains(
            aggregate_text(#[trigger] aggregates[index]),
        )
}

/// Whether an expression beside aggregates can be put out: a column, or an expression
/// over their results.
pub open spec fn fits_aggregates(expr: Scalar, aggregates: Seq<Aggregate>) -> bool {
    expr is Column || reads_aggregate(expr, aggregates)
}

/// Whether every expression can be put out beside the aggregates.
pub open spec fn all_fit(selected: Selected) -> bool {
    forall|index: int|
        0 <= index < selected.expressions.len() ==> fits_aggregates(
            (#[trigger] selected.expressions[index]).expr,
            selected.aggregates,
        )
}

/// The first column that is no key of the `GROUP BY`.
pub open spec fn first_ungrouped(columns: Seq<Seq<char>>, keys: Seq<Seq<char>>) -> Option<Seq<char>>
    decreases columns.len(),
{
    if columns.len() == 0 {
        None
    } else {
        match first_ungrouped(columns.drop_last(), keys) {
            Some(column) => Some(column),
            None => if keys.contains(columns.last()) {
                None
            } else {
                Some(columns.last())
            },
        }
    }
}

/// The columns that are in the table, not made for a `GROUP BY`.
pub open spec fn stored_columns(columns: Seq<Seq<char>>) -> Seq<Seq<char>>
    decreases columns.len(),
{
    if columns.len() == 0 {
        Seq::empty()
    } else if has_prefix(columns.last(), group_prefix()) {
        stored_columns(columns.drop_last())
    } else {
        stored_columns(columns.drop_last()).push(columns.last())
    }
}

/// The columns in the table that aggregates are applied to.
pub open spec fn aggregated_columns(aggregates: Seq<Aggregate>) -> Seq<Seq<char>>
    decreases aggregates.len(),
{
    if aggregates.len() == 0 {
        Seq::empty()
    } else {
        let earlier = aggregated_columns(aggregates.drop_last());
        match aggregates.last().column {
            Some(column) => if has_prefix(column, input_prefix()) {
                earlier
            } else {
                earlier.push(column)
            },
            None => earlier,
        }
    }
}

/// The columns that the expressions of a `GROUP BY` read.
pub open spec fn binding_columns(bindings: Seq<GroupBinding>) -> Seq<Seq<char>>
    decreases bindings.len(),
{
    if bindings.len() == 0 {
        Seq::empty()
    } else {
        binding_columns(bindings.drop_last()) + scalar_columns(bindings.last().expression.expr)
    }
}

/// The columns that aggregates with conditions read, each once and after the given ones,
/// or why the columns of a condition cannot be told.
pub open spec fn with_filtered_columns(
    columns: Seq<Seq<char>>,
    specs: Seq<FilteredAggregate>,
) -> Result<Seq<Seq<char>>, Failure>
    decreases specs.len(),
{
    if specs.len() == 0 {
        Ok(columns)
    } else {
        match with_filtered_columns(columns, specs.drop_last()) {
            Err(failure) => Err(failure),
            Ok(earlier) => match filter_columns(specs.last().condition, None) {
                Err(failure) => Err(failure),
                Ok(read) => Ok(
                    with_columns(
                        with_columns(earlier, scalar_columns(specs.last().input)),
                        with_columns(Seq::empty(), read),
                    ),
                ),
            },
        }
    }
}

/// The columns that a `SELECT` list with aggregates reads.
pub open spec fn read_for_aggregates(selected: Selected, bindings: Seq<GroupBinding>) -> Result<
    Seq<Seq<char>>,
    Failure,
> {
    match with_filtered_columns(
        with_columns(stored_columns(selected.columns), aggregated_columns(selected.aggregates)),
        selected.filtered,
    ) {
        Err(failure) => Err(failure),
        Ok(read) => Ok(
            with_columns(with_columns(read, selected.input_columns), binding_columns(bindings)),
        ),
    }
}

/// What a `SELECT` list of `items` items comes to.
pub open spec fn projected_from(
    selected: Selected,
    items: int,
    keys: Seq<Seq<char>>,
    bindings: Seq<GroupBinding>,
) -> Result<Projected, Failure> {
    if selected.wildcard && items != 1 {
        Err(Failure::Unsupported("SELECT * cannot be mixed with other items"@))
    } else if selected.aggregates.len() == 0 {
        Ok(
            Projected {
                projection: if selected.wildcard {
                    None
                } else {
                    Some(selected.columns)
                },
                aggregates: selected.aggregates,
                filtered_aggregates: selected.filtered,
                aggregate_expressions: selected.inputs,
                aliases: selected.aliases,
                expressions: if selected.wildcard {
                    Seq::empty()
                } else {
                    selected.expressions
                },
                ordinal_targets: position_names(selected),
                qualified_wildcards: selected.qualifiers,
            },
        )
    } else if !all_fit(selected) {
        Err(
            Failure::Unsupported(
                "aggregate SELECT queries do not support scalar projection expressions yet"@,
            ),
        )
    } else {
        match first_ungrouped(selected.columns, keys) {
            Some(column) => Err(
                Failure::Unsupported(
                    "non-aggregate SELECT column "@ + column + " must appear in GROUP BY"@,
                ),
            ),
            None => match read_for_aggregates(selected, bindings) {
                Err(failure) => Err(failure),
                Ok(read) => Ok(
                    Projected {
                        projection: Some(read),
                        aggregates: selected.aggregates,
                        filtered_aggregates: selected.filtered,
                        aggregate_expressions: selected.inputs + bindings.map_values(
                            |binding: GroupBinding| binding.expression,
                        ),
                        aliases: selected.aliases,
                        expressions: selected.expressions,
                        ordinal_targets: position_names(selected),
                        qualified_wildcards: selected.qualifiers,
                    },
                ),
            },
        }
    }
}

/// What a `SELECT` list comes to, or the first failure.
pub open spec fn projection_of(
    items: Seq<SelectEntry>,
    keys: Seq<Seq<char>>,
    bindings: Seq<GroupBinding>,
    scope: Tables,
) -> Result<Projected, Failure> {
    match selected_by(items, scope, bindings) {
        Err(failure) => Err(failure),
        Ok(selected) => projected_from(selected, items.len() as int, keys, bindings),
    }
}

/// Beside aggregates only keys of the `GROUP BY` are listed.
pub proof fn law_listed_beside_aggregates_are_keys(
    selected: Selected,
    items: int,
    keys: Seq<Seq<char>>,
    bindings: Seq<GroupBinding>,
    column: Seq<char>,
)
    requires
        selected.aggregates.len() > 0,
        projected_from(selected, items, keys, bindings) is Ok,
        selected.columns.contains(column),
    ensures
        keys.contains(column),
{
    let place = choose|place: int|
        0 <= place < selected.columns.len() && selected.columns[place] == column;
    lemma_all_grouped(selected.columns, keys, place);
}

proof fn lemma_all_grouped(columns: Seq<Seq<char>>, keys: Seq<Seq<char>>, place: int)
    requires
        first_ungrouped(columns, keys) is None,
        0 <= place < columns.len(),
    ensures
        keys.contains(columns[place]),
    decreases columns.len(),
{
    if place < columns.len() - 1 {
        lemma_all_grouped(columns.drop_last(), keys, place);
    }
}

/// Whether an aggregate with a condition reads a column: for its input, or to test the
/// condition.
pub open spec fn filtered_reads(spec: FilteredAggregate, column: Seq<char>) -> bool {
    scalar_columns(spec.input).contains(column) || (filter_columns(
        spec.condition,
        None,
    ) matches Ok(read) && read.contains(column))
}

proof fn lemma_filtered_columns_hold(
    columns: Seq<Seq<char>>,
    specs: Seq<FilteredAggregate>,
    column: Seq<char>,
)
    requires
        with_filtered_columns(columns, specs) is Ok,
    ensures
        with_filtered_columns(columns, specs)->Ok_0.contains(column) <==> (columns.contains(column)
            || exists|place: int|
            0 <= place < specs.len() && filtered_reads(#[trigger] specs[place], column)),
    decreases specs.len(),
{
    if specs.len() > 0 {
        let before = specs.drop_last();
        lemma_filtered_columns_hold(columns, before, column);
        let earlier = with_filtered_columns(columns, before)->Ok_0;
        let read = filter_columns(specs.last().condition, None)->Ok_0;
        let inputs = with_columns(earlier, scalar_columns(specs.last().input));
        lemma_with_columns_holds(earlier, scalar_columns(specs.last().input), column);
        lemma_with_columns_holds(Seq::empty(), read, column);
        lemma_with_columns_holds(inputs, with_columns(Seq::empty(), read), column);
        let last = specs.len() - 1;
        if earlier.contains(column) && !columns.contains(column) {
            let place = choose|place: int|
                0 <= place < before.len() && filtered_reads(#[trigger] before[place], column);
            assert(filtered_reads(specs[place], column));
        }
        if filtered_reads(specs.last(), column) {
            assert(filtered_reads(specs[last], column));
        }
        if exists|place: int|
            0 <= place < specs.len() && filtered_reads(#[trigger] specs[place], column) {
            let place = choose|place: int|
                0 <= place < specs.len() && filtered_reads(#[trigger] specs[place], column);
            if place < last {
                assert(filtered_reads(before[place], column));
            }
        }
    }
}

/// A list with aggregates reads every column that its aggregates, their conditions, their
/// inputs and the keys of the `GROUP BY` are made of.
pub proof fn law_aggregates_find_their_columns(
    selected: Selected,
    items: int,
    keys: Seq<Seq<char>>,
    bindings: Seq<GroupBinding>,
    column: Seq<char>,
)
    requires
        selected.aggregates.len() > 0,
        projected_from(selected, items, keys, bindings) is Ok,
    ensures
        projected_from(selected, items, keys, bindings)->Ok_0.projection matches Some(read) && (
        read.contains(column) <==> (stored_columns(selected.columns).contains(column)
            || aggregated_columns(selected.aggregates).contains(column) || (exists|place: int|
            0 <= place < selected.filtered.len() && filtered_reads(
                #[trigger] selected.filtered[place],
                column,
            )) || selected.input_columns.contains(column) || binding_columns(bindings).contains(
            column,
        ))),
{
    let listed = stored_columns(selected.columns);
    let aggregated = with_columns(listed, aggregated_columns(selected.aggregates));
    let filtered = with_filtered_columns(aggregated, selected.filtered)->Ok_0;
    let with_inputs = with_columns(filtered, selected.input_columns);
    lemma_with_columns_holds(listed, aggregated_columns(selected.aggregates), column);
    lemma_filtered_columns_hold(aggregated, selected.filtered, column);
    lemma_with_columns_holds(filtered, selected.input_columns, column);
    lemma_with_columns_holds(with_inputs, binding_columns(bindings), column);
}

} // verus!
