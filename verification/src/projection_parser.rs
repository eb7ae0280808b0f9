//! Parsing the list of a `SELECT`.

use vstd::prelude::*;
use crate::aggregates::{
    aggregate_text, aggregate_to_string, aggregate_views, filtered_models, named_models,
    parse_aggregate_output_expression, parse_aggregate_with_input_expression, AggregateExpr,
    FilteredAggregate, NamedScalar, NativeFilteredAggregateSpec, ParsedAggregates,
    ProjectionExpression,
};
use crate::ast::{SelectEntry, SelectEntryKind, SqlExpr, SqlExprKind};
use crate::error::{fails_with, Failure, SqlError, SqlResult};
use crate::names::{
    add_columns_once, contains_text, parse_struct_field_access, projected, sql_column_name, Scope,
    Tables,
};
use crate::plan::Projection;
use crate::predicates::predicate_expression_columns;
use crate::projection::{
    aggregate_item, aggregated_columns, alias_pair, all_fit, binding_columns, binding_models,
    expr_item, field_item, first_ungrouped, fits_aggregates, item_reading, nothing_selected,
    plain_item, position_names, projected_group_expression, projection_of, reads_aggregate,
    scalar_item, selected_by, stored_columns, wildcard_item, with_filtered_columns, with_item,
    GroupBinding, GroupExpressionBinding, ItemReading, ParsedGroupBy, Projected, Selected,
};
use crate::scalar::{
    parse_scalar_sql_expression, read_called_function, scalar_columns, scalar_expression_columns,
    Scalar, ScalarSqlExpression,
};
use crate::text::{joined, starts_with, str_eq, string_copy, texts};

verus! {

/// Pairs of strings, as values.
pub open spec fn pair_texts(pairs: Seq<(String, String)>) -> Seq<(Seq<char>, Seq<char>)> {
    pairs.map_values(|pair: (String, String)| (pair.0@, pair.1@))
}

/// What one item adds to a `SELECT` list, parsed.
struct ParsedItem {
    columns: Vec<String>,
    aggregates: Vec<AggregateExpr>,
    filtered: Vec<NativeFilteredAggregateSpec>,
    inputs: Vec<ProjectionExpression>,
    input_columns: Vec<String>,
    alias: Option<(String, String)>,
    expression: Option<ProjectionExpression>,
    wildcard: bool,
    qualifier: Option<String>,
}

impl ParsedItem {
    /// What the item adds, as a value.
    spec fn model(self) -> ItemReading {
        ItemReading {
            columns: texts(self.columns@),
            aggregates: aggregate_views(self.aggregates@),
            filtered: filtered_models(self.filtered@),
            inputs: named_models(self.inputs@),
            input_columns: texts(self.input_columns@),
            alias: match self.alias {
                Some((alias, target)) => Some((alias@, target@)),
                None => None,
            },
            expression: match self.expression {
                Some(expression) => Some(expression.model()),
                None => None,
            },
            wildcard: self.wildcard,
            qualifier: match self.qualifier {
                Some(qualifier) => Some(qualifier@),
                None => None,
            },
        }
    }
}

/// An item that puts an expression out and reads columns for it.
fn put_out(
    columns: Vec<String>,
    expression: ProjectionExpression,
    alias: Option<(String, String)>,
) -> (item: ParsedItem)
    ensures
        item.model() == plain_item(
            texts(columns@),
            expression.model(),
            match alias {
                Some((alias, target)) => Some((alias@, target@)),
                None => None,
            },
        ),
{
    let item = ParsedItem {
        columns,
        aggregates: Vec::new(),
        filtered: Vec::new(),
        inputs: Vec::new(),
        input_columns: Vec::new(),
        alias,
        expression: Some(expression),
        wildcard: false,
        qualifier: None,
    };
    proof {
        let model = item.model();
        assert(model.aggregates =~= Seq::empty());
        assert(model.filtered =~= Seq::empty());
        assert(model.inputs =~= Seq::empty());
        assert(model.input_columns =~= Seq::empty());
    }
    item
}

/// An item with aggregates.
fn put_aggregates(
    parsed: ParsedAggregates,
    expression: Option<ProjectionExpression>,
    alias: Option<(String, String)>,
) -> (item: ParsedItem)
    ensures
        item.model() == aggregate_item(
            parsed.model(),
            match expression {
                Some(expression) => Some(expression.model()),
                None => None,
            },
            match alias {
                Some((alias, target)) => Some((alias@, target@)),
                None => None,
            },
        ),
{
    ParsedItem {
        columns: parsed.columns,
        aggregates: parsed.aggregates,
        filtered: parsed.filtered,
        inputs: parsed.inputs,
        input_columns: parsed.input_columns,
        alias,
        expression,
        wildcard: false,
        qualifier: None,
    }
}

/// An item for all columns, of the table that is named.
fn put_wildcard(qualifier: Option<String>) -> (item: ParsedItem)
    ensures
        item.model() == wildcard_item(
            match qualifier {
                Some(qualifier) => Some(qualifier@),
                None => None,
            },
        ),
{
    let item = ParsedItem {
        columns: Vec::new(),
        aggregates: Vec::new(),
        filtered: Vec::new(),
        inputs: Vec::new(),
        input_columns: Vec::new(),
        alias: None,
        expression: None,
        wildcard: true,
        qualifier,
    };
    proof {
        let model = item.model();
        assert(model.columns =~= Seq::empty());
        assert(model.aggregates =~= Seq::empty());
        assert(model.filtered =~= Seq::empty());
        assert(model.inputs =~= Seq::empty());
        assert(model.input_columns =~= Seq::empty());
    }
    item
}

/// The text of an alias.
spec fn alias_text(alias: Option<&String>) -> Option<Seq<char>> {
    match alias {
        Some(alias) => Some(alias@),
        None => None,
    }
}

/// The alias of an item that has one.
fn make_alias(alias: Option<&String>, target: &String) -> (pair: Option<(String, String)>)
    ensures
        (match pair {
            Some((alias, target)) => Some((alias@, target@)),
            None => None,
        }) == alias_pair(alias_text(alias), target@),
{
    match alias {
        Some(alias) => Some((string_copy(alias), string_copy(target))),
        None => None,
    }
}

/// Whether a result is what an item adds.
spec fn gives_item(result: SqlResult<ParsedItem>, expected: Result<ItemReading, Failure>) -> bool {
    match expected {
        Ok(reading) => result matches Ok(item) && item.model() == reading,
        Err(failure) => fails_with(result, failure),
    }
}

/// A scalar expression, put out under the given name.
fn parse_scalar_projection(expr: &SqlExpr, name: &String, scope: Scope<'_>) -> (result: SqlResult<
    ParsedItem,
>)
    ensures
        gives_item(result, scalar_item(*expr, name@, scope@)),
{
    match parse_scalar_sql_expression(expr, scope) {
        Ok(scalar) => {
            let columns = scalar_expression_columns(&scalar);
            Ok(
                put_out(
                    columns,
                    ProjectionExpression { output_name: string_copy(name), expr: scalar },
                    None,
                ),
            )
        },
        Err(error) => Err(error),
    }
}

/// A column, put out under the given name.
fn put_column(column: String, name: String, alias: Option<(String, String)>) -> (item: ParsedItem)
    ensures
        item.model() == plain_item(
            seq![column@],
            NamedScalar { name: name@, expr: Scalar::Column(column@) },
            match alias {
                Some((alias, target)) => Some((alias@, target@)),
                None => None,
            },
        ),
{
    let columns: Vec<String> = vec![string_copy(&column)];
    assert(texts(columns@) =~= seq![column@]);
    put_out(
        columns,
        ProjectionExpression { output_name: name, expr: ScalarSqlExpression::Column(column) },
        alias,
    )
}

/// A field of a column, put out under its own name or an alias.
fn put_field(column: String, field: String, alias: Option<&String>) -> (item: ParsedItem)
    ensures
        item.model() == field_item(column@, field@, alias_text(alias)),
{
    let name = match alias {
        Some(alias) => string_copy(alias),
        None => string_copy(&field),
    };
    let pair = make_alias(alias, &name);
    let columns: Vec<String> = vec![string_copy(&column)];
    assert(texts(columns@) =~= seq![column@]);
    put_out(
        columns,
        ProjectionExpression {
            output_name: name,
            expr: ScalarSqlExpression::StructField { column, field },
        },
        pair,
    )
}

/// What an expression adds to a `SELECT` list, with an alias or without.
fn parse_expr_item(
    expr: &SqlExpr,
    alias: Option<&String>,
    scope: Scope<'_>,
    bindings: &Vec<GroupExpressionBinding>,
    inputs: usize,
) -> (result: SqlResult<ParsedItem>)
    ensures
        gives_item(
            result,
            expr_item(
                *expr,
                alias_text(alias),
                scope@,
                binding_models(bindings@),
                inputs as nat,
            ),
        ),
{
    let name = match alias {
        Some(alias) => alias,
        None => &expr.text,
    };
    let named = match &expr.kind {
        SqlExprKind::Identifier(_) | SqlExprKind::CompoundIdentifier(_) => true,
        _ => false,
    };
    match parse_struct_field_access(expr, scope) {
        Some((column, field)) => {
            return Ok(put_field(column, field, alias));
        },
        None => {},
    }
    if named {
        return match sql_column_name(expr, scope) {
            Ok(column) => {
                let output = match alias {
                    Some(alias) => string_copy(alias),
                    None => string_copy(&column),
                };
                let pair = make_alias(alias, &column);
                Ok(put_column(column, output, pair))
            },
            Err(error) => Err(error),
        };
    }
    match projected_group_expression(bindings, &expr.text) {
        Some(column) => {
            let pair = Some((string_copy(name), string_copy(&column)));
            return Ok(put_column(column, string_copy(name), pair));
        },
        None => {},
    }
    match &expr.kind {
        SqlExprKind::Function(function) => {
            if read_called_function(function).is_some() {
                return parse_scalar_projection(expr, name, scope);
            }
            match parse_aggregate_with_input_expression(function, &expr.text, scope, inputs) {
                Ok(parsed) => {
                    assert(parsed.model().aggregates.len() == 1);
                    assert(parsed.model().aggregates[0] == parsed.aggregates@[0]@);
                    let text = aggregate_to_string(&parsed.aggregates[0]);
                    let pair = make_alias(alias, &text);
                    Ok(put_aggregates(parsed, None, pair))
                },
                Err(error) => Err(error),
            }
        },
        _ => match parse_aggregate_output_expression(expr, scope, inputs) {
            Some(parsed) => {
                assert(parsed.model().aggregates.len() == parsed.aggregates@.len());
                if parsed.aggregates.len() > 0 {
                    let pair = make_alias(alias, name);
                    let over = ParsedAggregates {
                        expr: ScalarSqlExpression::Column(String::new()),
                        aggregates: parsed.aggregates,
                        filtered: parsed.filtered,
                        inputs: parsed.inputs,
                        input_columns: parsed.input_columns,
                        columns: parsed.columns,
                    };
                    let expression = ProjectionExpression {
                        output_name: string_copy(name),
                        expr: parsed.expr,
                    };
                    Ok(put_aggregates(over, Some(expression), pair))
                } else {
                    parse_scalar_projection(expr, name, scope)
                }
            },
            None => parse_scalar_projection(expr, name, scope),
        },
    }
}

/// What an item adds to a `SELECT` list.
fn parse_item(
    item: &SelectEntry,
    scope: Scope<'_>,
    bindings: &Vec<GroupExpressionBinding>,
    inputs: usize,
) -> (result: SqlResult<ParsedItem>)
    ensures
        gives_item(
            result,
            item_reading(*item, scope@, binding_models(bindings@), inputs as nat),
        ),
{
    match &item.kind {
        SelectEntryKind::Wildcard => Ok(put_wildcard(None)),
        SelectEntryKind::QualifiedWildcard(name) => match name {
            None => Err(
                SqlError::UnsupportedSql(
                    joined("unsupported qualified wildcard: ", item.text.as_str()),
                ),
            ),
            Some(qualifier) => {
                match scope {
                    Scope::Table(Some(alias)) => {
                        if !str_eq(alias, qualifier.as_str()) {
                            return Err(
                                SqlError::UnknownColumn(joined(qualifier.as_str(), ".*")),
                            );
                        }
                    },
                    _ => {},
                }
                Ok(put_wildcard(Some(string_copy(qualifier))))
            },
        },
        SelectEntryKind::UnnamedExpr(expr) => parse_expr_item(expr, None, scope, bindings, inputs),
        SelectEntryKind::ExprWithAlias { expr, alias } => parse_expr_item(
            expr,
            Some(alias),
            scope,
            bindings,
            inputs,
        ),
        SelectEntryKind::ExprWithAliases => Err(
            SqlError::unsupported("multi-alias SELECT items are not supported"),
        ),
    }
}

/// What the items of a `SELECT` list add up to, being parsed.
struct Selection {
    columns: Vec<String>,
    aggregates: Vec<AggregateExpr>,
    filtered: Vec<NativeFilteredAggregateSpec>,
    inputs: Vec<ProjectionExpression>,
    input_columns: Vec<String>,
    aliases: Vec<(String, String)>,
    expressions: Vec<ProjectionExpression>,
    wildcard: bool,
    qualifiers: Vec<String>,
}

impl Selection {
    /// What is selected, as a value.
    spec fn model(self) -> Selected {
        Selected {
            columns: texts(self.columns@),
            aggregates: aggregate_views(self.aggregates@),
            filtered: filtered_models(self.filtered@),
            inputs: named_models(self.inputs@),
            input_columns: texts(self.input_columns@),
            aliases: pair_texts(self.aliases@),
            expressions: named_models(self.expressions@),
            wildcard: self.wildcard,
            qualifiers: texts(self.qualifiers@),
        }
    }

    /// Nothing selected.
    fn new() -> (selection: Selection)
        ensures
            selection.model() == nothing_selected(),
    {
        let selection = Selection {
            columns: Vec::new(),
            aggregates: Vec::new(),
            filtered: Vec::new(),
            inputs: Vec::new(),
            input_columns: Vec::new(),
            aliases: Vec::new(),
            expressions: Vec::new(),
            wildcard: false,
            qualifiers: Vec::new(),
        };
        proof {
            let model = selection.model();
            assert(model.columns =~= Seq::empty());
            assert(model.aggregates =~= Seq::empty());
        assert(model.filtered =~= Seq::empty());
            assert(model.inputs =~= Seq::empty());
            assert(model.input_columns =~= Seq::empty());
            assert(model.aliases =~= Seq::empty());
            assert(model.expressions =~= Seq::empty());
            assert(model.qualifiers =~= Seq::empty());
        }
        selection
    }

    /// Adds an item.
    fn add(&mut self, item: ParsedItem)
        ensures
            final(self).model() == with_item(old(self).model(), item.model()),
    {
        let ghost before = self.model();
        let ghost added = item.model();
        let ghost aggregates = self.aggregates@;
        let ghost filtered = self.filtered@;
        let ghost inputs = self.inputs@;
        add_columns_once(&mut self.columns, item.columns);
        let mut more_aggregates = item.aggregates;
        let ghost new_aggregates = more_aggregates@;
        self.aggregates.append(&mut more_aggregates);
        assert(aggregate_views(self.aggregates@) =~= aggregate_views(aggregates) + aggregate_views(
            new_aggregates,
        ));
        let mut more_filtered = item.filtered;
        let ghost new_filtered = more_filtered@;
        self.filtered.append(&mut more_filtered);
        assert(filtered_models(self.filtered@) =~= filtered_models(filtered) + filtered_models(
            new_filtered,
        ));
        let mut more_inputs = item.inputs;
        let ghost new_inputs = more_inputs@;
        self.inputs.append(&mut more_inputs);
        assert(named_models(self.inputs@) =~= named_models(inputs) + named_models(new_inputs));
        add_columns_once(&mut self.input_columns, item.input_columns);
        match item.alias {
            Some(pair) => {
                let ghost aliases = self.aliases@;
                self.aliases.push(pair);
                assert(pair_texts(self.aliases@) =~= pair_texts(aliases).push(
                    (pair.0@, pair.1@),
                ));
            },
            None => {},
        }
        match item.expression {
            Some(expression) => {
                let ghost expressions = self.expressions@;
                self.expressions.push(expression);
                assert(named_models(self.expressions@) =~= named_models(expressions).push(
                    expression.model(),
                ));
            },
            None => {},
        }
        if item.wildcard {
            self.wildcard = true;
        }
        match item.qualifier {
            Some(qualifier) => {
                let ghost qualifiers = self.qualifiers@;
                self.qualifiers.push(qualifier);
                assert(texts(self.qualifiers@) =~= texts(qualifiers).push(qualifier@));
            },
            None => {},
        }
    }
}

proof fn lemma_selection_fails(
    items: Seq<SelectEntry>,
    scope: Tables,
    bindings: Seq<GroupBinding>,
    count: int,
)
    requires
        0 <= count <= items.len(),
        selected_by(items.take(count), scope, bindings) is Err,
    ensures
        selected_by(items, scope, bindings) == selected_by(items.take(count), scope, bindings),
    decreases items.len() - count,
{
    if count < items.len() {
        assert(items.take(count + 1).drop_last() =~= items.take(count));
        lemma_selection_fails(items, scope, bindings, count + 1);
    } else {
        assert(items.take(count) =~= items);
    }
}

/// What the items of a `SELECT` list add up to.
fn select_items(
    items: &Vec<SelectEntry>,
    scope: Scope<'_>,
    bindings: &Vec<GroupExpressionBinding>,
) -> (result: SqlResult<Selection>)
    ensures
        match selected_by(items@, scope@, binding_models(bindings@)) {
            Ok(selected) => result matches Ok(selection) && selection.model() == selected,
            Err(failure) => fails_with(result, failure),
        },
{
    let ghost models = binding_models(bindings@);
    let mut selection = Selection::new();
    let mut index: usize = 0;
    assert(items@.take(0) =~= Seq::empty());
    while index < items.len()
        invariant
            index <= items@.len(),
            models == binding_models(bindings@),
            selected_by(items@.take(index as int), scope@, models) == Ok::<Selected, Failure>(
                selection.model(),
            ),
        decreases items@.len() - index,
    {
        proof {
            assert(items@.take(index + 1).drop_last() =~= items@.take(index as int));
            assert(items@.take(index + 1).last() == items@[index as int]);
            assert(selection.model().inputs.len() == selection.inputs@.len());
        }
        match parse_item(&items[index], scope, bindings, selection.inputs.len()) {
            Ok(item) => {
                selection.add(item);
            },
            Err(error) => {
                proof {
                    lemma_selection_fails(items@, scope@, models, index + 1);
                }
                return Err(error);
            },
        }
        index += 1;
    }
    assert(items@.take(index as int) =~= items@);
    Ok(selection)
}

/// A `SELECT` list, parsed.
#[derive(Debug)]
pub struct ParsedProjection {
    pub projection: Projection,
    pub aggregates: Vec<AggregateExpr>,
    pub filtered_aggregates: Vec<NativeFilteredAggregateSpec>,
    pub aggregate_expressions: Vec<ProjectionExpression>,
    pub aliases: Vec<(String, String)>,
    pub expressions: Vec<ProjectionExpression>,
    pub ordinal_targets: Vec<String>,
    pub qualified_wildcards: Vec<String>,
}

impl ParsedProjection {
    /// What the list comes to, as a value.
    pub open spec fn model(self) -> Projected {
        Projected {
            projection: projected(self.projection),
            aggregates: aggregate_views(self.aggregates@),
            filtered_aggregates: filtered_models(self.filtered_aggregates@),
            aggregate_expressions: named_models(self.aggregate_expressions@),
            aliases: pair_texts(self.aliases@),
            expressions: named_models(self.expressions@),
            ordinal_targets: texts(self.ordinal_targets@),
            qualified_wildcards: texts(self.qualified_wildcards@),
        }
    }
}

/// The names that positions in an `ORDER BY` stand for.
fn projection_ordinal_targets(selection: &Selection) -> (names: Vec<String>)
    ensures
        texts(names@) == position_names(selection.model()),
{
    let ghost expected = position_names(selection.model());
    let mut names: Vec<String> = Vec::new();
    assert(selection.model().aggregates.len() == selection.aggregates@.len());
    if selection.aggregates.len() == 0 {
        let mut index: usize = 0;
        while index < selection.expressions.len()
            invariant
                index <= selection.expressions@.len(),
                selection.model().aggregates.len() == 0,
                expected == position_names(selection.model()),
                texts(names@) =~= expected.take(index as int),
            decreases selection.expressions@.len() - index,
        {
            let ghost before = names@;
            let name = string_copy(&selection.expressions[index].output_name);
            names.push(name);
            proof {
                assert(expected[index as int] == name@);
                assert(texts(names@) =~= texts(before).push(name@));
                assert(expected.take(index + 1) =~= expected.take(index as int).push(name@));
            }
            index += 1;
        }
        assert(expected.take(index as int) =~= expected);
        return names;
    }
    let mut index: usize = 0;
    while index < selection.columns.len()
        invariant
            index <= selection.columns@.len(),
            selection.model().aggregates.len() > 0,
            expected == position_names(selection.model()),
            texts(names@) =~= expected.take(index as int),
        decreases selection.columns@.len() - index,
    {
        let ghost before = names@;
        let name = string_copy(&selection.columns[index]);
        names.push(name);
        proof {
            assert(expected[index as int] == name@);
            assert(texts(names@) =~= texts(before).push(name@));
            assert(expected.take(index + 1) =~= expected.take(index as int).push(name@));
        }
        index += 1;
    }
    let mut place: usize = 0;
    while place < selection.aggregates.len()
        invariant
            place <= selection.aggregates@.len(),
            selection.model().aggregates.len() > 0,
            expected == position_names(selection.model()),
            texts(names@) =~= expected.take(selection.columns@.len() + place),
        decreases selection.aggregates@.len() - place,
    {
        let ghost before = names@;
        let ghost at = selection.columns@.len() + place;
        let name = aggregate_to_string(&selection.aggregates[place]);
        names.push(name);
        proof {
            assert(selection.model().aggregates[place as int] == selection.aggregates@[place as int]@);
            assert(expected[at] == name@);
            assert(texts(names@) =~= texts(before).push(name@));
            assert(expected.take(at + 1) =~= expected.take(at).push(name@));
        }
        place += 1;
    }
    assert(expected.take(selection.columns@.len() + place) =~= expected);
    names
}

/// Whether an expression reads the result of an aggregate.
fn scalar_expression_references_aggregate(
    expr: &ScalarSqlExpression,
    aggregates: &Vec<AggregateExpr>,
) -> (found: bool)
    ensures
        found == reads_aggregate(expr.model(), aggregate_views(aggregates@)),
{
    let columns = scalar_expression_columns(expr);
    let ghost views = aggregate_views(aggregates@);
    let mut index: usize = 0;
    while index < aggregates.len()
        invariant
            index <= aggregates@.len(),
            views == aggregate_views(aggregates@),
            texts(columns@) == scalar_columns(expr.model()),
            forall|earlier: int|
                0 <= earlier < index ==> !scalar_columns(expr.model()).contains(
                    aggregate_text(#[trigger] views[earlier]),
                ),
        decreases aggregates@.len() - index,
    {
        let text = aggregate_to_string(&aggregates[index]);
        assert(views[index as int] == aggregates@[index as int]@);
        if contains_text(columns.as_slice(), text.as_str()) {
            return true;
        }
        index += 1;
    }
    false
}

/// Whether every expression can be put out beside the aggregates.
fn expressions_fit(selection: &Selection) -> (fit: bool)
    ensures
        fit == all_fit(selection.model()),
{
    let ghost selected = selection.model();
    let mut index: usize = 0;
    while index < selection.expressions.len()
        invariant
            index <= selection.expressions@.len(),
            selected == selection.model(),
            forall|earlier: int|
                0 <= earlier < index ==> fits_aggregates(
                    (#[trigger] selected.expressions[earlier]).expr,
                    selected.aggregates,
                ),
        decreases selection.expressions@.len() - index,
    {
        let expr = &selection.expressions[index].expr;
        assert(selected.expressions[index as int].expr == expr.model());
        let column = match expr {
            ScalarSqlExpression::Column(_) => true,
            _ => false,
        };
        if !column && !scalar_expression_references_aggregate(expr, &selection.aggregates) {
            assert(!fits_aggregates(selected.expressions[index as int].expr, selected.aggregates));
            return false;
        }
        index += 1;
    }
    true
}

pub proof fn lemma_ungrouped_stays(columns: Seq<Seq<char>>, keys: Seq<Seq<char>>, count: int)
    requires
        0 <= count <= columns.len(),
        first_ungrouped(columns.take(count), keys) is Some,
    ensures
        first_ungrouped(columns, keys) == first_ungrouped(columns.take(count), keys),
    decreases columns.len() - count,
{
    if count < columns.len() {
        assert(columns.take(count + 1).drop_last() =~= columns.take(count));
        lemma_ungrouped_stays(columns, keys, count + 1);
    } else {
        assert(columns.take(count) =~= columns);
    }
}

/// The first column that is no key of the `GROUP BY`.
fn find_ungrouped(columns: &Vec<String>, keys: &Vec<String>) -> (column: Option<String>)
    ensures
        match first_ungrouped(texts(columns@), texts(keys@)) {
            Some(expected) => column matches Some(column) && column@ == expected,
            None => column is None,
        },
{
    let ghost all = texts(columns@);
    let mut index: usize = 0;
    assert(all.take(0) =~= Seq::empty());
    while index < columns.len()
        invariant
            index <= columns@.len(),
            all == texts(columns@),
            first_ungrouped(all.take(index as int), texts(keys@)) is None,
        decreases columns@.len() - index,
    {
        proof {
            assert(all.take(index + 1).drop_last() =~= all.take(index as int));
            assert(all.take(index + 1).last() == columns@[index as int]@);
        }
        if !contains_text(keys.as_slice(), columns[index].as_str()) {
            proof {
                lemma_ungrouped_stays(all, texts(keys@), index + 1);
            }
            return Some(string_copy(&columns[index]));
        }
        index += 1;
    }
    assert(all.take(index as int) =~= all);
    None
}

/// The columns that are in the table, not made for a `GROUP BY`.
fn physical_projection_columns(columns: &Vec<String>) -> (stored: Vec<String>)
    ensures
        texts(stored@) == stored_columns(texts(columns@)),
{
    let ghost all = texts(columns@);
    let mut stored: Vec<String> = Vec::new();
    let mut index: usize = 0;
    proof {
        assert(all.take(0) =~= Seq::empty());
        assert(texts(stored@) =~= Seq::empty());
    }
    while index < columns.len()
        invariant
            index <= columns@.len(),
            all == texts(columns@),
            texts(stored@) == stored_columns(all.take(index as int)),
        decreases columns@.len() - index,
    {
        proof {
            assert(all.take(index + 1).drop_last() =~= all.take(index as int));
            assert(all.take(index + 1).last() == columns@[index as int]@);
        }
        if !starts_with(columns[index].as_str(), "__dodam_group_expr_") {
            let ghost before = stored@;
            stored.push(string_copy(&columns[index]));
            assert(texts(stored@) =~= texts(before).push(columns@[index as int]@));
        }
        index += 1;
    }
    assert(all.take(index as int) =~= all);
    stored
}

/// The columns in the table that aggregates are applied to.
fn aggregate_source_columns(aggregates: &Vec<AggregateExpr>) -> (columns: Vec<String>)
    ensures
        texts(columns@) == aggregated_columns(aggregate_views(aggregates@)),
{
    let ghost all = aggregate_views(aggregates@);
    let mut columns: Vec<String> = Vec::new();
    let mut index: usize = 0;
    proof {
        assert(all.take(0) =~= Seq::empty());
        assert(texts(columns@) =~= Seq::empty());
    }
    while index < aggregates.len()
        invariant
            index <= aggregates@.len(),
            all == aggregate_views(aggregates@),
            texts(columns@) == aggregated_columns(all.take(index as int)),
        decreases aggregates@.len() - index,
    {
        proof {
            assert(all.take(index + 1).drop_last() =~= all.take(index as int));
            assert(all.take(index + 1).last() == aggregates@[index as int]@);
        }
        match &aggregates[index].column {
            Some(column) => {
                if !starts_with(column.as_str(), "__dodam_agg_expr_") {
                    let ghost before = columns@;
                    columns.push(string_copy(column));
                    assert(texts(columns@) =~= texts(before).push(column@));
                }
            },
            None => {},
        }
        index += 1;
    }
    assert(all.take(index as int) =~= all);
    columns
}

/// The columns that the expressions of a `GROUP BY` read, and the expressions.
fn take_bindings(bindings: Vec<GroupExpressionBinding>) -> (taken: (
    Vec<String>,
    Vec<ProjectionExpression>,
))
    ensures
        texts(taken.0@) == binding_columns(binding_models(bindings@)),
        named_models(taken.1@) == binding_models(bindings@).map_values(
            |binding: GroupBinding| binding.expression,
        ),
{
    let ghost all = binding_models(bindings@);
    let ghost named = all.map_values(|binding: GroupBinding| binding.expression);
    let ghost given = bindings@;
    let mut columns: Vec<String> = Vec::new();
    let mut expressions: Vec<ProjectionExpression> = Vec::new();
    proof {
        assert(all.take(0) =~= Seq::empty());
        assert(texts(columns@) =~= Seq::empty());
        assert(named_models(expressions@) =~= named.take(0));
    }
    for binding in rest: bindings
        invariant
            rest.seq() == given,
            all == binding_models(given),
            named == all.map_values(|binding: GroupBinding| binding.expression),
            texts(columns@) == binding_columns(all.take(rest.index())),
            named_models(expressions@) == named.take(rest.index()),
    {
        let ghost index = rest.index();
        let ghost before = columns@;
        let ghost earlier = expressions@;
        let ghost bound = binding.expression.model();
        proof {
            assert(binding == given[index]);
            assert(named[index] == bound);
            assert(all.take(index + 1).drop_last() =~= all.take(index));
            assert(all.take(index + 1).last() == all[index]);
        }
        let mut more = scalar_expression_columns(&binding.expression.expr);
        let ghost added = more@;
        columns.append(&mut more);
        expressions.push(binding.expression);
        proof {
            assert(texts(columns@) =~= texts(before) + texts(added));
            assert(named_models(expressions@) =~= named_models(earlier).push(bound));
            assert(named.take(index + 1) =~= named.take(index).push(bound));
        }
    }
    proof {
        assert(all.take(given.len() as int) =~= all);
        assert(named.take(given.len() as int) =~= named);
    }
    (columns, expressions)
}

/// Parses the list of a `SELECT`.
pub fn parse_projection(
    items: &Vec<SelectEntry>,
    group_by: ParsedGroupBy,
    scope: Scope<'_>,
) -> (result:
    SqlResult<(ParsedProjection, Vec<String>)>)
    ensures
        match projection_of(
            items@,
            group_by.model().columns,
            group_by.model().bindings,
            scope@,
        ) {
            Ok(projected) => result matches Ok((parsed, keys)) && parsed.model() == projected
                && keys@ == group_by.columns@,
            Err(failure) => fails_with(result, failure),
        },
{
    let ghost keys = group_by.model().columns;
    let ghost bindings = group_by.model().bindings;
    let selection = match select_items(items, scope, &group_by.bindings) {
        Ok(selection) => selection,
        Err(error) => {
            return Err(error);
        },
    };
    let ghost selected = selection.model();
    if selection.wildcard && items.len() != 1 {
        return Err(SqlError::unsupported("SELECT * cannot be mixed with other items"));
    }
    let ordinal_targets = projection_ordinal_targets(&selection);
    assert(selected.aggregates.len() == selection.aggregates@.len());
    if selection.aggregates.len() == 0 {
        let projection = if selection.wildcard {
            Projection::All
        } else {
            Projection::Columns(selection.columns)
        };
        let expressions: Vec<ProjectionExpression> = if selection.wildcard {
            Vec::new()
        } else {
            selection.expressions
        };
        let parsed = ParsedProjection {
            projection,
            aggregates: selection.aggregates,
            filtered_aggregates: selection.filtered,
            aggregate_expressions: selection.inputs,
            aliases: selection.aliases,
            expressions,
            ordinal_targets,
            qualified_wildcards: selection.qualifiers,
        };
        proof {
            if selected.wildcard {
                assert(parsed.model().expressions =~= Seq::empty());
            }
        }
        return Ok((parsed, group_by.columns));
    }
    if !expressions_fit(&selection) {
        return Err(
            SqlError::unsupported(
                "aggregate SELECT queries do not support scalar projection expressions yet",
            ),
        );
    }
    match find_ungrouped(&selection.columns, &group_by.columns) {
        Some(column) => {
            let message = joined("non-aggregate SELECT column ", column.as_str());
            return Err(
                SqlError::UnsupportedSql(joined(message.as_str(), " must appear in GROUP BY")),
            );
        },
        None => {},
    }
    let mut columns = physical_projection_columns(&selection.columns);
    let sources = aggregate_source_columns(&selection.aggregates);
    add_columns_once(&mut columns, sources);
    match add_filtered_aggregate_projection_columns(&mut columns, selection.filtered.as_slice()) {
        Ok(()) => {},
        Err(error) => {
            return Err(error);
        },
    }
    add_columns_once(&mut columns, selection.input_columns);
    let (grouped, mut group_expressions) = take_bindings(group_by.bindings);
    add_columns_once(&mut columns, grouped);
    let ghost inputs = selection.inputs@;
    let ghost more = group_expressions@;
    let mut aggregate_expressions = selection.inputs;
    aggregate_expressions.append(&mut group_expressions);
    let parsed = ParsedProjection {
        projection: Projection::Columns(columns),
        aggregates: selection.aggregates,
        filtered_aggregates: selection.filtered,
        aggregate_expressions,
        aliases: selection.aliases,
        expressions: selection.expressions,
        ordinal_targets,
        qualified_wildcards: selection.qualifiers,
    };
    proof {
        assert(parsed.model().aggregate_expressions =~= named_models(inputs) + named_models(more));
    }
    Ok((parsed, group_by.columns))
}

/// Whether every expression is a column.
pub fn projection_expressions_are_plain_columns(expressions: &[ProjectionExpression]) -> (plain: bool)
    ensures
        plain == (forall|index: int|
            0 <= index < expressions@.len() ==> (#[trigger] expressions@[index]).expr is Column),
{
    let mut index: usize = 0;
    while index < expressions.len()
        invariant
            index <= expressions@.len(),
            forall|earlier: int|
                0 <= earlier < index ==> (#[trigger] expressions@[earlier]).expr is Column,
        decreases expressions@.len() - index,
    {
        let column = match &expressions[index].expr {
            ScalarSqlExpression::Column(_) => true,
            _ => false,
        };
        if !column {
            assert(!(expressions@[index as int].expr is Column));
            return false;
        }
        index += 1;
    }
    true
}

/// Whether some expression is no column.
pub fn projection_requires_expression_path(expressions: &[ProjectionExpression]) -> (computed: bool)
    ensures
        computed == (exists|index: int|
            0 <= index < expressions@.len() && !((#[trigger] expressions@[index]).expr is Column)),
{
    !projection_expressions_are_plain_columns(expressions)
}

proof fn lemma_filtered_fails(
    columns: Seq<Seq<char>>,
    specs: Seq<FilteredAggregate>,
    count: int,
)
    requires
        0 <= count <= specs.len(),
        with_filtered_columns(columns, specs.take(count)) is Err,
    ensures
        with_filtered_columns(columns, specs) == with_filtered_columns(columns, specs.take(count)),
    decreases specs.len() - count,
{
    if count < specs.len() {
        assert(specs.take(count + 1).drop_last() =~= specs.take(count));
        lemma_filtered_fails(columns, specs, count + 1);
    } else {
        assert(specs.take(count) =~= specs);
    }
}

/// Adds the columns that aggregates with conditions read. A condition whose columns
/// cannot be told is an error.
pub fn add_filtered_aggregate_projection_columns(
    projected_columns: &mut Vec<String>,
    specs: &[NativeFilteredAggregateSpec],
) -> (result: SqlResult<()>)
    ensures
        match with_filtered_columns(texts(old(projected_columns)@), filtered_models(specs@)) {
            Ok(columns) => result is Ok && texts(final(projected_columns)@) == columns,
            Err(failure) => fails_with(result, failure),
        },
{
    let ghost before = texts(projected_columns@);
    let mut index: usize = 0;
    let ghost all = filtered_models(specs@);
    assert(all.take(0) =~= Seq::empty());
    while index < specs.len()
        invariant
            index <= specs@.len(),
            before == texts(old(projected_columns)@),
            all == filtered_models(specs@),
            with_filtered_columns(before, all.take(index as int)) == Ok::<
                Seq<Seq<char>>,
                Failure,
            >(texts(projected_columns@)),
        decreases specs@.len() - index,
    {
        proof {
            assert(all.take(index + 1).drop_last() =~= all.take(index as int));
            assert(all.take(index + 1).last() == specs@[index as int].model());
        }
        let spec_columns = scalar_expression_columns(&specs[index].input);
        match predicate_expression_columns(&specs[index].condition, None) {
            Ok(read) => {
                add_columns_once(projected_columns, spec_columns);
                add_columns_once(projected_columns, read);
            },
            Err(error) => {
                proof {
                    lemma_filtered_fails(before, all, index + 1);
                }
                return Err(error);
            },
        }
        index += 1;
    }
    assert(all.take(index as int) =~= all);
    Ok(())
}

} // verus!
