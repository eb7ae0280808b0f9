//! What names, calls and the items of a `SELECT` list stand for.

use vstd::prelude::*;
use crate::aggregates::{
    aggregate_function, aggregate_of, aggregate_text, input_name, plain_aggregate, Aggregate,
    AggregateFunction,
};
use crate::ast::{
    GroupBy, SelectEntry, SelectEntryKind, SqlBinaryOperator, SqlExpr, SqlExprKind, SqlFunction,
    SqlFunctionArg, SqlUnaryOperator, SqlValue, SqlValueKind,
};
use crate::error::Failure;
use crate::filters::{all_of, range_filters, Filter};
use crate::literals::{literal_of, Literal};
use crate::names::{
    alias_with_prefix, column_belongs, column_in, column_prefix, first_underscore,
    first_with_prefix, law_with_columns, struct_field_of, table_prefix, with_columns, Tables,
};
use crate::projection::{
    bound_column, group_keys, keys_of, nothing_selected, position_names, selected_by, GroupBinding,
};
use crate::query_laws::RowValues;
use crate::query_modifiers::{position_of, resolved_alias, sorted_column, target_of, OrderScope};
use crate::scalar::{
    called_function, scalar_args, scalar_columns, scalar_function, scalar_of, Scalar,
    ScalarFunction,
};
use crate::text::{
    i64_value, lemma_digits_value_grows, lowered, same_ignoring_case, unsigned_digits, usize_value,
};

verus! {

/// Names are told apart by their letters, in any case: `COUNT`, `SUM`, `AVG`, `MIN` and `MAX`
/// each name their own aggregate, and no other name does.
pub proof fn law_aggregates_by_name(name: Seq<char>)
    ensures
        same_ignoring_case(name, "COUNT"@) <==> aggregate_function(name) == Some(
            AggregateFunction::Count,
        ),
        same_ignoring_case(name, "SUM"@) <==> aggregate_function(name) == Some(
            AggregateFunction::Sum,
        ),
        same_ignoring_case(name, "AVG"@) <==> aggregate_function(name) == Some(
            AggregateFunction::Avg,
        ),
        same_ignoring_case(name, "MIN"@) <==> aggregate_function(name) == Some(
            AggregateFunction::Min,
        ),
        same_ignoring_case(name, "MAX"@) <==> aggregate_function(name) == Some(
            AggregateFunction::Max,
        ),
{
    reveal_strlit("COUNT");
    reveal_strlit("SUM");
    reveal_strlit("AVG");
    reveal_strlit("MIN");
    reveal_strlit("MAX");
    reveal_strlit("count");
    reveal_strlit("sum");
    reveal_strlit("avg");
    reveal_strlit("min");
    reveal_strlit("max");
    assert(lowered("COUNT"@) =~= "count"@);
    assert(lowered("SUM"@) =~= "sum"@);
    assert(lowered("AVG"@) =~= "avg"@);
    assert(lowered("MIN"@) =~= "min"@);
    assert(lowered("MAX"@) =~= "max"@);
    assert("sum"@[0] == 's' && "avg"@[0] == 'a' && "min"@[1] == 'i' && "max"@[1] == 'a');
    assert("min"@[0] == 'm' && "max"@[0] == 'm' && "count"@.len() == 5 && "sum"@.len() == 3);
    assert("avg"@.len() == 3 && "min"@.len() == 3 && "max"@.len() == 3);
}

/// The column that an aggregate is found in again is named by its function and, in brackets,
/// by the column it is applied to, or by a star where it counts rows.
pub proof fn law_aggregate_texts(aggregate: Aggregate)
    ensures
        aggregate.column is None ==> aggregate.function == AggregateFunction::Count
            ==> aggregate_text(aggregate) == "count(*)"@,
        aggregate.column matches Some(column) ==> {
            &&& aggregate.function == AggregateFunction::Count ==> aggregate_text(aggregate)
                == "count("@ + column + ")"@
            &&& aggregate.function == AggregateFunction::Sum ==> aggregate_text(aggregate)
                == "sum("@ + column + ")"@
            &&& aggregate.function == AggregateFunction::Avg ==> aggregate_text(aggregate)
                == "avg("@ + column + ")"@
            &&& aggregate.function == AggregateFunction::Min ==> aggregate_text(aggregate)
                == "min("@ + column + ")"@
            &&& aggregate.function == AggregateFunction::Max ==> aggregate_text(aggregate)
                == "max("@ + column + ")"@
        },
{
    reveal_strlit("(");
    reveal_strlit("*");
    reveal_strlit(")");
    reveal_strlit("count(*)");
    reveal_strlit("count(");
    reveal_strlit("sum(");
    reveal_strlit("avg(");
    reveal_strlit("min(");
    reveal_strlit("max(");
    reveal_strlit("count");
    reveal_strlit("sum");
    reveal_strlit("avg");
    reveal_strlit("min");
    reveal_strlit("max");
    assert("count"@ + "("@ =~= "count("@);
    assert("sum"@ + "("@ =~= "sum("@);
    assert("avg"@ + "("@ =~= "avg("@);
    assert("min"@ + "("@ =~= "min("@);
    assert("max"@ + "("@ =~= "max("@);
    assert("count"@ + "("@ + "*"@ + ")"@ =~= "count(*)"@);
}

/// A scalar function is named by its letters, in any case, and no two names call the same.
pub proof fn law_scalar_functions_by_name(name: Seq<char>)
    ensures
        same_ignoring_case(name, "COALESCE"@) <==> scalar_function(name) == Some(
            ScalarFunction::Coalesce,
        ),
        same_ignoring_case(name, "LOWER"@) <==> scalar_function(name) == Some(
            ScalarFunction::Lower,
        ),
        same_ignoring_case(name, "UPPER"@) <==> scalar_function(name) == Some(
            ScalarFunction::Upper,
        ),
        same_ignoring_case(name, "LENGTH"@) <==> scalar_function(name) == Some(
            ScalarFunction::Length,
        ),
        same_ignoring_case(name, "TRIM"@) <==> scalar_function(name) == Some(ScalarFunction::Trim),
        same_ignoring_case(name, "ABS"@) <==> scalar_function(name) == Some(ScalarFunction::Abs),
        same_ignoring_case(name, "ROUND"@) <==> scalar_function(name) == Some(
            ScalarFunction::Round,
        ),
        same_ignoring_case(name, "FLOOR"@) <==> scalar_function(name) == Some(
            ScalarFunction::Floor,
        ),
        same_ignoring_case(name, "CEIL"@) <==> scalar_function(name) == Some(ScalarFunction::Ceil),
        same_ignoring_case(name, "REPLACE"@) <==> scalar_function(name) == Some(
            ScalarFunction::Replace,
        ),
        same_ignoring_case(name, "CONCAT"@) <==> scalar_function(name) == Some(
            ScalarFunction::Concat,
        ),
{
    reveal_strlit("COALESCE");
    reveal_strlit("LOWER");
    reveal_strlit("UPPER");
    reveal_strlit("LENGTH");
    reveal_strlit("TRIM");
    reveal_strlit("ABS");
    reveal_strlit("ROUND");
    reveal_strlit("FLOOR");
    reveal_strlit("CEIL");
    reveal_strlit("REPLACE");
    reveal_strlit("CONCAT");
    reveal_strlit("coalesce");
    reveal_strlit("lower");
    reveal_strlit("upper");
    reveal_strlit("length");
    reveal_strlit("trim");
    reveal_strlit("abs");
    reveal_strlit("round");
    reveal_strlit("floor");
    reveal_strlit("ceil");
    reveal_strlit("replace");
    reveal_strlit("concat");
    assert(lowered("COALESCE"@) =~= "coalesce"@);
    assert(lowered("LOWER"@) =~= "lower"@);
    assert(lowered("UPPER"@) =~= "upper"@);
    assert(lowered("LENGTH"@) =~= "length"@);
    assert(lowered("TRIM"@) =~= "trim"@);
    assert(lowered("ABS"@) =~= "abs"@);
    assert(lowered("ROUND"@) =~= "round"@);
    assert(lowered("FLOOR"@) =~= "floor"@);
    assert(lowered("CEIL"@) =~= "ceil"@);
    assert(lowered("REPLACE"@) =~= "replace"@);
    assert(lowered("CONCAT"@) =~= "concat"@);
    assert("lower"@[0] == 'l' && "upper"@[0] == 'u' && "round"@[0] == 'r' && "floor"@[0] == 'f');
    assert("trim"@[0] == 't' && "ceil"@[0] == 'c' && "length"@[0] == 'l' && "concat"@[0] == 'c');
    assert("coalesce"@.len() == 8 && "replace"@.len() == 7 && "abs"@.len() == 3);
    assert("lower"@.len() == 5 && "upper"@.len() == 5 && "round"@.len() == 5);
    assert("floor"@.len() == 5 && "trim"@.len() == 4 && "ceil"@.len() == 4);
    assert("length"@.len() == 6 && "concat"@.len() == 6);
}

/// The columns of a benchmark table begin with its letter, those of `partsupp` with `ps`; the
/// name of the table is read in any case, and no other table has a prefix.
pub proof fn law_prefixes_of_tables(alias: Seq<char>)
    ensures
        same_ignoring_case(alias, "customer"@) <==> table_prefix(alias) == Some("c"@),
        same_ignoring_case(alias, "orders"@) <==> table_prefix(alias) == Some("o"@),
        same_ignoring_case(alias, "lineitem"@) <==> table_prefix(alias) == Some("l"@),
        same_ignoring_case(alias, "part"@) <==> table_prefix(alias) == Some("p"@),
        same_ignoring_case(alias, "partsupp"@) <==> table_prefix(alias) == Some("ps"@),
        same_ignoring_case(alias, "supplier"@) <==> table_prefix(alias) == Some("s"@),
        same_ignoring_case(alias, "nation"@) <==> table_prefix(alias) == Some("n"@),
        same_ignoring_case(alias, "region"@) <==> table_prefix(alias) == Some("r"@),
{
    reveal_strlit("customer");
    reveal_strlit("orders");
    reveal_strlit("lineitem");
    reveal_strlit("part");
    reveal_strlit("partsupp");
    reveal_strlit("supplier");
    reveal_strlit("nation");
    reveal_strlit("region");
    reveal_strlit("c");
    reveal_strlit("o");
    reveal_strlit("l");
    reveal_strlit("p");
    reveal_strlit("ps");
    reveal_strlit("s");
    reveal_strlit("n");
    reveal_strlit("r");
    assert(lowered("customer"@) =~= "customer"@);
    assert(lowered("orders"@) =~= "orders"@);
    assert(lowered("lineitem"@) =~= "lineitem"@);
    assert(lowered("part"@) =~= "part"@);
    assert(lowered("partsupp"@) =~= "partsupp"@);
    assert(lowered("supplier"@) =~= "supplier"@);
    assert(lowered("nation"@) =~= "nation"@);
    assert(lowered("region"@) =~= "region"@);
    assert("customer"@[0] == 'c' && "orders"@[0] == 'o' && "lineitem"@[0] == 'l');
    assert("supplier"@[0] == 's' && "nation"@[0] == 'n' && "region"@[0] == 'r');
    assert("part"@.len() == 4 && "partsupp"@.len() == 8 && "part"@[0] == 'p');
    assert("partsupp"@[0] == 'p');
    assert("c"@[0] == 'c' && "o"@[0] == 'o' && "l"@[0] == 'l' && "p"@[0] == 'p');
    assert("s"@[0] == 's' && "n"@[0] == 'n' && "r"@[0] == 'r');
    assert("p"@.len() == 1 && "ps"@.len() == 2 && "c"@.len() == 1 && "o"@.len() == 1);
    assert("l"@.len() == 1 && "s"@.len() == 1 && "n"@.len() == 1 && "r"@.len() == 1);
}

/// The prefix of a column is what stands before its first underscore.
pub proof fn law_prefix_before_underscore(prefix: Seq<char>, rest: Seq<char>)
    requires
        forall|place: int| 0 <= place < prefix.len() ==> #[trigger] prefix[place] != '_',
    ensures
        column_prefix(prefix + seq!['_'] + rest) == Some(prefix),
        column_prefix(prefix) is None,
{
    let column = prefix + seq!['_'] + rest;
    assert(first_underscore(column, prefix.len() as int)) by {
        assert forall|earlier: int| 0 <= earlier < prefix.len() implies #[trigger] column[earlier]
            != '_' by {
            assert(column[earlier] == prefix[earlier]);
        }
    }
    let found = choose|place: int| first_underscore(column, place);
    assert(first_underscore(column, found));
    assert(column[prefix.len() as int] == '_');
    if found < prefix.len() {
        assert(column[found] == prefix[found]);
    }
    if prefix.len() < found {
        assert(column[prefix.len() as int] != '_');
    }
    assert(column.take(found) =~= prefix);
    assert forall|place: int| !first_underscore(prefix, place) by {}
}

/// In one table a column goes by its bare name, whatever alias stands before it, so long as
/// it is the table's. Of a table with an alias no other alias is accepted.
pub proof fn law_columns_of_one_table(expr: SqlExpr, alias: Option<Seq<char>>)
    ensures
        expr.kind matches SqlExprKind::Identifier(name) ==> column_in(expr, Tables::Table(alias))
            == Ok::<Seq<char>, Failure>(name@),
        expr.kind matches SqlExprKind::CompoundIdentifier(names) ==> names@.len() == 2 ==> (
        column_in(expr, Tables::Table(alias)) is Ok <==> alias is None || alias == Some(
            names@[0]@,
        )),
        expr.kind matches SqlExprKind::CompoundIdentifier(names) ==> column_in(
            expr,
            Tables::Table(alias),
        ) matches Ok(column) ==> names@.len() == 2 && column == names@[1]@,
{
}

/// In joined tables a column goes by its name behind that of its table. A bare name belongs
/// to the first table whose prefix it has.
pub proof fn law_columns_of_joined_tables(expr: SqlExpr, aliases: Seq<Seq<char>>) -> (place: int)
    ensures
        expr.kind matches SqlExprKind::CompoundIdentifier(names) ==> names@.len() == 2 ==> (
        column_in(expr, Tables::Join(aliases)) is Ok <==> aliases.contains(names@[0]@)),
        expr.kind matches SqlExprKind::CompoundIdentifier(names) ==> column_in(
            expr,
            Tables::Join(aliases),
        ) matches Ok(column) ==> names@.len() == 2 && column == names@[0]@ + "."@ + names@[1]@,
        expr.kind matches SqlExprKind::Identifier(name) ==> column_in(
            expr,
            Tables::Join(aliases),
        ) matches Ok(column) ==> {
            &&& 0 <= place < aliases.len()
            &&& column == aliases[place] + "."@ + name@
            &&& column_prefix(name@) is Some
            &&& table_prefix(aliases[place]) == column_prefix(name@)
            &&& forall|earlier: int|
                0 <= earlier < place ==> table_prefix(#[trigger] aliases[earlier])
                    != column_prefix(name@)
        },
        expr.kind matches SqlExprKind::Identifier(name) ==> column_in(expr, Tables::Join(aliases))
            is Err ==> column_prefix(name@) is None || forall|other: int|
            0 <= other < aliases.len() ==> table_prefix(#[trigger] aliases[other])
                != column_prefix(name@),
{
    match expr.kind {
        SqlExprKind::Identifier(name) => match column_prefix(name@) {
            Some(prefix) => {
                let found = choose|index: int| first_with_prefix(prefix, aliases, index);
                if alias_with_prefix(prefix, aliases) is None {
                    assert forall|other: int| 0 <= other < aliases.len() implies table_prefix(
                        #[trigger] aliases[other],
                    ) != Some(prefix) by {
                        if table_prefix(aliases[other]) == Some(prefix) {
                            lemma_first_with_prefix(prefix, aliases, other);
                        }
                    }
                }
                found
            },
            None => 0,
        },
        _ => 0,
    }
}

proof fn lemma_first_with_prefix(prefix: Seq<char>, aliases: Seq<Seq<char>>, place: int)
    requires
        0 <= place < aliases.len(),
        table_prefix(aliases[place]) == Some(prefix),
    ensures
        exists|index: int| first_with_prefix(prefix, aliases, index),
    decreases place,
{
    if exists|earlier: int|
        0 <= earlier < place && table_prefix(#[trigger] aliases[earlier]) == Some(prefix) {
        let earlier = choose|earlier: int|
            0 <= earlier < place && table_prefix(#[trigger] aliases[earlier]) == Some(prefix);
        lemma_first_with_prefix(prefix, aliases, earlier);
    } else {
        assert(first_with_prefix(prefix, aliases, place));
    }
}

/// A bare column belongs to a table exactly where it begins with the prefix of the table and
/// an underscore.
pub proof fn law_columns_belong_by_prefix(
    prefix: Seq<char>,
    rest: Seq<char>,
    alias: Option<Seq<char>>,
)
    requires
        forall|place: int| 0 <= place < prefix.len() ==> #[trigger] prefix[place] != '_',
    ensures
        column_belongs(prefix + seq!['_'] + rest, alias) <==> (alias matches Some(alias)
            && table_prefix(alias) == Some(prefix)),
        !column_belongs(prefix, alias),
{
    law_prefix_before_underscore(prefix, rest);
}

/// Two names beside the alias of the only table are a column and its field, and so are the
/// last two of three; in joined tables there are no fields.
pub proof fn law_fields_of_columns(expr: SqlExpr, scope: Tables)
    ensures
        scope is Join ==> struct_field_of(expr, scope) is None,
        struct_field_of(expr, scope) matches Some((column, field)) ==> (expr.kind
            matches SqlExprKind::CompoundIdentifier(names) && names@.len() >= 2 && column
            == names@[names@.len() - 2]@ && field == names@[names@.len() - 1]@ && (names@.len() == 3
            || names@.len() == 2 && scope != Tables::Table(Some(names@[0]@)))),
{
}

/// A call in an `ORDER BY` is an aggregate where its name is that of one, it has a single
/// argument and nothing beside it. The star counts rows; a column is aggregated under its
/// name.
pub proof fn law_calls_of_aggregates(function: SqlFunction, text: Seq<char>, scope: Tables)
    requires
        plain_aggregate(function, text, scope) is Ok,
    ensures
        function.filter is None,
        !function.extras.distinct && !function.extras.over && !function.extras.null_treatment,
        function.extras.within_group == 0 && function.extras.clauses == 0,
        function.name is Some && function.args is Some && function.args->0@.len() == 1,
        ({
            let found = plain_aggregate(function, text, scope)->Ok_0;
            &&& aggregate_function(function.name->0@) == Some(found.function)
            &&& match function.args->0@[0] {
                SqlFunctionArg::Wildcard => found.column is None && same_ignoring_case(
                    function.name->0@,
                    "COUNT"@,
                ),
                SqlFunctionArg::Expr(input) => found.column is Some && column_in(input, scope)
                    == Ok::<Seq<char>, Failure>(found.column->0),
                SqlFunctionArg::Other => false,
            }
        }),
{
    law_aggregates_by_name(function.name->0@);
}

/// A call in a `SELECT` list is one aggregate. One of a column is applied to the column; any
/// other expression is computed first, under a name that the aggregate is then applied to. A
/// `FILTER` goes with the aggregate and with what it is applied to.
pub proof fn law_selected_calls(function: SqlFunction, text: Seq<char>, scope: Tables, inputs: nat)
    requires
        aggregate_of(function, text, scope, inputs) is Ok,
    ensures
        function.name is Some && function.args is Some && function.args->0@.len() == 1,
        !function.extras.distinct && !function.extras.over,
        ({
            let reading = aggregate_of(function, text, scope, inputs)->Ok_0;
            let found = reading.aggregates[0];
            &&& reading.aggregates.len() == 1
            &&& aggregate_function(function.name->0@) == Some(found.function)
            &&& reading.expr == Scalar::Column(aggregate_text(found))
            &&& (function.filter is None ==> reading.filtered.len() == 0)
            &&& (function.filter matches Some(condition) ==> reading.filtered.len() == 1
                && reading.filtered[0].condition == *condition && reading.filtered[0].aggregate
                == found)
            &&& match function.args->0@[0] {
                SqlFunctionArg::Wildcard => {
                    &&& same_ignoring_case(function.name->0@, "COUNT"@)
                    &&& found.column is None
                    &&& reading.inputs.len() == 0
                    &&& (function.filter is Some ==> reading.filtered[0].input == Scalar::Literal(
                        Literal::Int64(1),
                    ))
                },
                SqlFunctionArg::Expr(input) => {
                    &&& scalar_of(input, scope) is Ok
                    &&& found.column is Some
                    &&& (function.filter is Some ==> reading.filtered[0].input == scalar_of(
                        input,
                        scope,
                    )->Ok_0)
                    &&& match scalar_of(input, scope)->Ok_0 {
                        Scalar::Column(column) => found.column->0 == column
                            && reading.inputs.len() == 0,
                        computed => {
                            &&& reading.inputs.len() == 1
                            &&& reading.inputs[0].expr == computed
                            &&& reading.inputs[0].name == found.column->0
                            &&& found.column->0 == input_name(inputs)
                            &&& reading.input_columns == scalar_columns(computed)
                        },
                    }
                },
                SqlFunctionArg::Other => false,
            }
        }),
{
    law_aggregates_by_name(function.name->0@);
}

/// Whether a column holds the value of an expression of a `GROUP BY`.
pub open spec fn is_bound_as(
    bindings: Seq<GroupBinding>,
    expr: SqlExpr,
    scope: Tables,
    column: Seq<char>,
) -> bool {
    exists|place: int|
        0 <= place < bindings.len() && (#[trigger] bindings[place]).source == expr.text@
            && bindings[place].expression.name == column && scalar_of(expr, scope) == Ok::<
            Scalar,
            Failure,
        >(bindings[place].expression.expr)
}

proof fn lemma_keys_in_places(exprs: Seq<SqlExpr>, scope: Tables)
    requires
        keys_of(exprs, scope) is Ok,
    ensures
        ({
            let keys = keys_of(exprs, scope)->Ok_0;
            &&& keys.columns.len() == exprs.len()
            &&& keys.bindings.len() <= exprs.len()
            &&& forall|place: int|
                0 <= place < exprs.len() ==> {
                    let expr = #[trigger] exprs[place];
                    if expr.kind is Identifier || expr.kind is CompoundIdentifier {
                        column_in(expr, scope) == Ok::<Seq<char>, Failure>(keys.columns[place])
                    } else {
                        is_bound_as(keys.bindings, expr, scope, keys.columns[place])
                    }
                }
        }),
    decreases exprs.len(),
{
    if exprs.len() > 0 {
        let shorter = exprs.drop_last();
        lemma_keys_in_places(shorter, scope);
        let before = keys_of(shorter, scope)->Ok_0;
        let keys = keys_of(exprs, scope)->Ok_0;
        assert forall|place: int| 0 <= place < exprs.len() implies {
            let expr = #[trigger] exprs[place];
            if expr.kind is Identifier || expr.kind is CompoundIdentifier {
                column_in(expr, scope) == Ok::<Seq<char>, Failure>(keys.columns[place])
            } else {
                is_bound_as(keys.bindings, expr, scope, keys.columns[place])
            }
        } by {
            let expr = exprs[place];
            if place < shorter.len() {
                assert(shorter[place] == expr);
                if !(expr.kind is Identifier || expr.kind is CompoundIdentifier) {
                    assert(is_bound_as(before.bindings, expr, scope, before.columns[place]));
                    let at = choose|at: int|
                        0 <= at < before.bindings.len() && (#[trigger] before.bindings[at]).source
                            == expr.text@ && before.bindings[at].expression.name
                            == before.columns[place] && scalar_of(expr, scope) == Ok::<
                            Scalar,
                            Failure,
                        >(before.bindings[at].expression.expr);
                    assert(keys.bindings[at] == before.bindings[at]);
                }
            } else if !(expr.kind is Identifier || expr.kind is CompoundIdentifier) {
                assert(keys.bindings[before.bindings.len() as int].source == expr.text@);
            }
        }
    }
}

/// There is a key for each expression of a `GROUP BY`, in the same order: a name groups by its
/// column, any other expression by the column that holds its value.
pub proof fn law_keys_of_groups(group_by: GroupBy, scope: Tables)
    requires
        group_keys(group_by, scope) is Ok,
    ensures
        group_by.modifiers == 0,
        group_by.expressions is Some,
        ({
            let keys = group_keys(group_by, scope)->Ok_0;
            let exprs = group_by.expressions->0@;
            &&& keys.columns.len() == exprs.len()
            &&& forall|place: int|
                0 <= place < exprs.len() ==> {
                    let expr = #[trigger] exprs[place];
                    if expr.kind is Identifier || expr.kind is CompoundIdentifier {
                        column_in(expr, scope) == Ok::<Seq<char>, Failure>(keys.columns[place])
                    } else {
                        is_bound_as(keys.bindings, expr, scope, keys.columns[place])
                    }
                }
        }),
{
    lemma_keys_in_places(group_by.expressions->0@, scope);
}

/// An expression that is written again as in the `GROUP BY` is taken from the column of the
/// first expression written so.
pub proof fn law_bound_by_text(bindings: Seq<GroupBinding>, text: Seq<char>) -> (place: int)
    ensures
        bound_column(bindings, text) matches Some(column) ==> {
            &&& 0 <= place < bindings.len()
            &&& bindings[place].source == text
            &&& bindings[place].expression.name == column
            &&& forall|earlier: int|
                0 <= earlier < place ==> (#[trigger] bindings[earlier]).source != text
        },
        bound_column(bindings, text) is None ==> forall|other: int|
            0 <= other < bindings.len() ==> (#[trigger] bindings[other]).source != text,
    decreases bindings.len(),
{
    if bindings.len() == 0 {
        0
    } else {
        let shorter = bindings.drop_last();
        let found = law_bound_by_text(shorter, text);
        assert forall|other: int| 0 <= other < shorter.len() implies #[trigger] bindings[other]
            == shorter[other] by {}
        if bound_column(shorter, text) is Some {
            found
        } else {
            bindings.len() - 1
        }
    }
}

/// An alias stands for the target that is written with it first, and any other name for
/// itself.
pub proof fn law_first_alias_counts(
    name: Seq<char>,
    aliases: Seq<(Seq<char>, Seq<char>)>,
) -> (place: int)
    ensures
        target_of(name, aliases) matches Some(target) ==> {
            &&& 0 <= place < aliases.len()
            &&& aliases[place] == (name, target)
            &&& resolved_alias(name, aliases) == target
            &&& forall|earlier: int|
                0 <= earlier < place ==> (#[trigger] aliases[earlier]).0 != name
        },
        target_of(name, aliases) is None ==> resolved_alias(name, aliases) == name && forall|
            other: int,
        |
            0 <= other < aliases.len() ==> (#[trigger] aliases[other]).0 != name,
    decreases aliases.len(),
{
    if aliases.len() == 0 {
        0
    } else {
        let shorter = aliases.drop_last();
        let found = law_first_alias_counts(name, shorter);
        assert forall|other: int| 0 <= other < shorter.len() implies #[trigger] aliases[other]
            == shorter[other] by {}
        if target_of(name, shorter) is Some {
            found
        } else {
            aliases.len() - 1
        }
    }
}

/// A number in an `ORDER BY` counts the items of the list from one; no other literal, and no
/// number past the end, is accepted.
pub proof fn law_positions_count_from_one(value: SqlValue, targets: Seq<Seq<char>>)
    ensures
        position_of(value, targets) is Ok <==> (value.kind matches SqlValueKind::Number(digits)
            && usize_value(digits@) matches Some(number) && 1 <= number <= targets.len()),
        position_of(value, targets) matches Ok(target) ==> {
            let number = usize_value(value.kind->Number_0@)->0;
            target == targets.skip(number - 1)[0]
        },
{
    if let SqlValueKind::Number(digits) = value.kind {
        if usize_value(digits@) is Some {
            lemma_digits_value_grows(unsigned_digits(digits@), 0);
        }
    }
    if position_of(value, targets) is Ok {
        let number = usize_value(value.kind->Number_0@)->0;
        assert(targets.skip(number - 1)[0] == targets[number - 1]);
    }
}

/// A key of an `ORDER BY` that is a name sorts by what the name stands for, one that is a
/// number by the item it counts to, one that is an aggregate by its column.
pub proof fn law_sorted_columns(expr: SqlExpr, names: OrderScope)
    ensures
        expr.kind matches SqlExprKind::Identifier(_) ==> (sorted_column(expr, names) is Ok
            <==> column_in(expr, names.tables) is Ok) && (sorted_column(expr, names) matches Ok(
            column,
        ) ==> column == resolved_alias(column_in(expr, names.tables)->Ok_0, names.aliases)),
        expr.kind matches SqlExprKind::Value(value) ==> (sorted_column(expr, names) matches Ok(
            column,
        ) ==> position_of(value, names.ordinal_targets) is Ok && column == resolved_alias(
            position_of(value, names.ordinal_targets)->Ok_0,
            names.aliases,
        )),
        expr.kind matches SqlExprKind::Function(function) ==> (sorted_column(expr, names)
            matches Ok(column) ==> plain_aggregate(function, expr.text@, names.tables) is Ok
            && column == resolved_alias(
            aggregate_text(plain_aggregate(function, expr.text@, names.tables)->Ok_0),
            names.aliases,
        )),
{
}

/// What a literal is worth: a number its value, with a minus before it the opposite, a text
/// itself, a date its text.
pub proof fn law_literals_are_worth(expr: SqlExpr)
    ensures
        expr.kind matches SqlExprKind::Value(value) ==> {
            &&& (value.kind matches SqlValueKind::Number(digits) ==> i64_value(
                digits@,
            ) matches Some(number) ==> literal_of(expr) == Some(Literal::Int64(number)))
            &&& (value.kind matches SqlValueKind::SingleQuotedString(text) ==> literal_of(expr)
                == Some(Literal::Utf8(text@)))
            &&& (value.kind matches SqlValueKind::Boolean(flag) ==> literal_of(expr) == Some(
                Literal::Boolean(flag),
            ))
            &&& (value.kind is Null <==> literal_of(expr) == Some(Literal::Null))
        },
        expr.kind matches SqlExprKind::UnaryOp { op, expr: inner } ==> {
            &&& (literal_of(expr) is Some ==> inner.kind is Value && literal_of(*inner) is Some)
            &&& (op == SqlUnaryOperator::Plus && literal_of(expr) is Some ==> literal_of(expr)
                == literal_of(*inner))
            &&& (op == SqlUnaryOperator::Minus ==> (literal_of(expr) matches Some(
                Literal::Int64(number),
            ) ==> literal_of(*inner) == Some(Literal::Int64(0 - number))))
        },
        expr.kind matches SqlExprKind::TypedString { data_type, value } ==> literal_of(
            expr,
        ) matches Some(literal) ==> same_ignoring_case(data_type@, "date"@) && (value.kind
            matches SqlValueKind::SingleQuotedString(text) && literal == Literal::Utf8(text@)),
{
}

impl RowValues {
    /// Whether the order of values is that of the integers.
    pub open spec fn orders_integers(self) -> bool {
        forall|left: int, right: int| #[trigger]
            (self.less)(Literal::Int64(left), Literal::Int64(right)) <==> left < right
    }

    /// Whether this row is kept by all of some filters.
    pub open spec fn kept_by_each(self, filters: Seq<Filter>) -> bool {
        forall|place: int| 0 <= place < filters.len() ==> self.kept_by(#[trigger] filters[place])
    }
}

/// The filters of a range of keys keep exactly the rows whose key lies in it, both ends
/// included.
pub proof fn law_ranges_keep_their_keys(
    values: RowValues,
    column: Seq<char>,
    key: int,
    min_key: int,
    max_key: int,
)
    requires
        values.orders_integers(),
        (values.column)(column) == Literal::Int64(key),
    ensures
        values.kept_by_each(range_filters(column, min_key, max_key)) <==> min_key <= key <= max_key,
{
    let filters = range_filters(column, min_key, max_key);
    assert(filters.len() == 2);
    assert((values.less)(Literal::Int64(key), Literal::Int64(min_key)) <==> key < min_key);
    assert((values.less)(Literal::Int64(max_key), Literal::Int64(key)) <==> max_key < key);
    assert(values.kept_by(filters[0]) <==> min_key <= key);
    assert(values.kept_by(filters[1]) <==> key <= max_key);
}

/// Filters put together keep the rows that each of them keeps; without any, all rows stay.
pub proof fn law_together_keep_each(values: RowValues, filters: Seq<Filter>)
    ensures
        filters.len() == 0 <==> all_of(filters) is None,
        values.kept_by_each(filters) <==> (all_of(filters) matches Some(all) ==> values.kept_by(
            all,
        )),
    decreases filters.len(),
{
    if filters.len() > 0 {
        let shorter = filters.drop_last();
        law_together_keep_each(values, shorter);
        assert(values.kept_by_each(filters) <==> values.kept_by_each(shorter) && values.kept_by(
            filters.last(),
        )) by {
            assert forall|place: int| 0 <= place < shorter.len() implies #[trigger] filters[place]
                == shorter[place] by {}
            assert forall|place: int| 0 <= place < shorter.len() implies #[trigger] shorter[place]
                == filters[place] by {}
            if values.kept_by_each(filters) {
                assert(values.kept_by(filters[filters.len() - 1]));
                assert forall|place: int| 0 <= place < shorter.len() implies values.kept_by(
                    #[trigger] shorter[place],
                ) by {
                    assert(values.kept_by(filters[place]));
                }
            }
            if values.kept_by_each(shorter) && values.kept_by(filters.last()) {
                assert forall|place: int| 0 <= place < filters.len() implies values.kept_by(
                    #[trigger] filters[place],
                ) by {
                    if place < shorter.len() {
                        assert(values.kept_by(shorter[place]));
                    }
                }
            }
        }
        match all_of(shorter) {
            Some(earlier) => {
                assert(all_of(filters) == Some(
                    Filter::And(Box::new(earlier), Box::new(filters.last())),
                ));
            },
            None => {},
        }
    }
}

/// What columns and expressions are worth as numbers; `rest` says it of what does not compute
/// with whole numbers.
pub struct Worth {
    pub column: spec_fn(Seq<char>) -> int,
    pub rest: spec_fn(Scalar) -> int,
}

impl Worth {
    /// What a planned expression is worth.
    pub open spec fn of_scalar(self, scalar: Scalar) -> int
        decreases scalar,
    {
        match scalar {
            Scalar::Column(column) => (self.column)(column),
            Scalar::Literal(Literal::Int64(number)) => number,
            Scalar::Binary { left, op, right } => if op == SqlBinaryOperator::Plus {
                self.of_scalar(*left) + self.of_scalar(*right)
            } else if op == SqlBinaryOperator::Minus {
                self.of_scalar(*left) - self.of_scalar(*right)
            } else if op == SqlBinaryOperator::Multiply {
                self.of_scalar(*left) * self.of_scalar(*right)
            } else {
                (self.rest)(scalar)
            },
            _ => (self.rest)(scalar),
        }
    }

    /// What a written expression is worth.
    pub open spec fn of_expr(self, expr: SqlExpr, scope: Tables) -> int
        decreases expr,
    {
        match expr.kind {
            SqlExprKind::Identifier(_) => (self.column)(column_in(expr, scope)->Ok_0),
            SqlExprKind::Nested(inner) => self.of_expr(*inner, scope),
            SqlExprKind::BinaryOp { left, op, right } => {
                let first = self.of_expr(*left, scope);
                let second = self.of_expr(*right, scope);
                match op {
                    SqlBinaryOperator::Plus => first + second,
                    SqlBinaryOperator::Minus => first - second,
                    SqlBinaryOperator::Multiply => first * second,
                    _ => (self.rest)(scalar_of(expr, scope)->Ok_0),
                }
            },
            _ => self.of_scalar(scalar_of(expr, scope)->Ok_0),
        }
    }
}

/// A planned expression is worth what the written one is: sums, differences and products keep
/// their operator and their sides.
pub proof fn law_planned_expressions_are_worth(worth: Worth, expr: SqlExpr, scope: Tables)
    requires
        scalar_of(expr, scope) is Ok,
    ensures
        worth.of_scalar(scalar_of(expr, scope)->Ok_0) == worth.of_expr(expr, scope),
    decreases expr,
{
    match expr.kind {
        SqlExprKind::Nested(inner) => {
            law_planned_expressions_are_worth(worth, *inner, scope);
        },
        SqlExprKind::BinaryOp { left, op, right } => {
            law_planned_expressions_are_worth(worth, *left, scope);
            law_planned_expressions_are_worth(worth, *right, scope);
        },
        _ => {},
    }
}

/// A call of a scalar function keeps its arguments in their places, and a cast what it casts
/// and to which type; a quotient or remainder keeps its sides.
pub proof fn law_planned_calls(expr: SqlExpr, scope: Tables)
    requires
        scalar_of(expr, scope) is Ok,
    ensures
        ({
            let scalar = scalar_of(expr, scope)->Ok_0;
            &&& (expr.kind matches SqlExprKind::Function(function) ==> {
                &&& function.name is Some && function.args is Some
                &&& scalar is Call
                &&& scalar_function(function.name->0@) == Some(scalar->Call_function)
                &&& scalar->args.len() == function.args->0@.len()
                &&& forall|place: int|
                    0 <= place < function.args->0@.len() ==> (#[trigger] function.args->0@[place]
                        matches SqlFunctionArg::Expr(argument) && scalar_of(argument, scope)
                        == Ok::<Scalar, Failure>(scalar->args[place]))
            })
            &&& (expr.kind matches SqlExprKind::Cast { expr: inner, data_type } ==> (scalar
                matches Scalar::Cast { expr: cast, target } && target == data_type@ && scalar_of(
                *inner,
                scope,
            ) == Ok::<Scalar, Failure>(*cast)))
            &&& (expr.kind matches SqlExprKind::BinaryOp { left, op, right } ==> (scalar
                matches Scalar::Binary { left: first, op: planned, right: second } && planned == op
                && scalar_of(*left, scope) == Ok::<Scalar, Failure>(*first) && scalar_of(
                *right,
                scope,
            ) == Ok::<Scalar, Failure>(*second)))
        }),
{
    match expr.kind {
        SqlExprKind::Function(function) => {
            lemma_planned_args(
                function.args->0,
                function.args->0.len() as nat,
                scope,
                expr.text@,
            );
        },
        _ => {},
    }
}

proof fn lemma_planned_args(
    args: Vec<SqlFunctionArg>,
    count: nat,
    scope: Tables,
    text: Seq<char>,
)
    requires
        count <= args@.len(),
        scalar_args(args, count, scope, text) is Ok,
    ensures
        ({
            let planned = scalar_args(args, count, scope, text)->Ok_0;
            &&& planned.len() == count
            &&& forall|place: int|
                0 <= place < count ==> (#[trigger] args@[place] matches SqlFunctionArg::Expr(
                    argument,
                ) && scalar_of(argument, scope) == Ok::<Scalar, Failure>(planned[place]))
        }),
    decreases count,
{
    if count > 0 {
        lemma_planned_args(args, (count - 1) as nat, scope, text);
        assert(args[count - 1] == args@[count - 1]);
    }
}

/// The name of an item that is a bare name, `None` of any other.
pub open spec fn bare_name(item: SelectEntry) -> Option<Seq<char>> {
    match item.kind {
        SelectEntryKind::UnnamedExpr(expr) => match expr.kind {
            SqlExprKind::Identifier(name) => Some(name@),
            _ => None,
        },
        SelectEntryKind::ExprWithAlias { expr, alias } => match expr.kind {
            SqlExprKind::Identifier(name) => Some(name@),
            _ => None,
        },
        _ => None,
    }
}

/// The alias of an item, `None` where it has none.
pub open spec fn written_alias(item: SelectEntry) -> Option<Seq<char>> {
    match item.kind {
        SelectEntryKind::ExprWithAlias { expr, alias } => Some(alias@),
        _ => None,
    }
}

/// The name that an item which is a bare name is put out under.
pub open spec fn shown_name(item: SelectEntry) -> Seq<char> {
    match written_alias(item) {
        Some(alias) => alias,
        None => bare_name(item)->0,
    }
}

/// A list of bare names of one table puts each of them out in its place, under its alias where
/// it has one, and a position in an `ORDER BY` finds it there. Nothing is aggregated, the
/// columns that are read are those that are named, and each alias stands for its column.
pub proof fn law_names_are_put_out(
    items: Seq<SelectEntry>,
    alias: Option<Seq<char>>,
    bindings: Seq<GroupBinding>,
)
    requires
        forall|place: int| 0 <= place < items.len() ==> bare_name(#[trigger] items[place]) is Some,
    ensures
        selected_by(items, Tables::Table(alias), bindings) is Ok,
        ({
            let selected = selected_by(items, Tables::Table(alias), bindings)->Ok_0;
            &&& selected.aggregates.len() == 0
            &&& !selected.wildcard
            &&& selected.qualifiers.len() == 0
            &&& selected.inputs.len() == 0
            &&& selected.filtered.len() == 0
            &&& selected.expressions.len() == items.len()
            &&& position_names(selected).len() == items.len()
            &&& forall|place: int|
                0 <= place < items.len() ==> {
                    let item = #[trigger] items[place];
                    &&& selected.expressions[place].expr == Scalar::Column(bare_name(item)->0)
                    &&& selected.expressions[place].name == shown_name(item)
                    &&& position_names(selected)[place] == shown_name(item)
                    &&& selected.columns.contains(bare_name(item)->0)
                    &&& (written_alias(item) matches Some(given) ==> selected.aliases.contains(
                        (given, bare_name(item)->0),
                    ))
                }
            &&& selected.columns.no_duplicates()
            &&& forall|column: Seq<char>| #[trigger]
                selected.columns.contains(column) ==> is_named_by(items, column)
        }),
    decreases items.len(),
{
    let scope = Tables::Table(alias);
    if items.len() == 0 {
        assert(nothing_selected().columns.no_duplicates());
    } else {
        let shorter = items.drop_last();
        let item = items.last();
        assert(bare_name(items[items.len() - 1]) is Some);
        assert forall|place: int| 0 <= place < shorter.len() implies bare_name(
            #[trigger] shorter[place],
        ) is Some by {
            assert(shorter[place] == items[place]);
        }
        law_names_are_put_out(shorter, alias, bindings);
        let before = selected_by(shorter, scope, bindings)->Ok_0;
        let selected = selected_by(items, scope, bindings)->Ok_0;
        let added = seq![bare_name(item)->0];
        law_with_columns(before.columns, added);
        assert(selected.columns == with_columns(before.columns, added));
        assert(added[0] == bare_name(item)->0);
        assert(added.contains(bare_name(item)->0));
        assert(selected.aggregates =~= Seq::empty());
        assert forall|place: int| 0 <= place < items.len() implies {
            let item = #[trigger] items[place];
            &&& selected.expressions[place].expr == Scalar::Column(bare_name(item)->0)
            &&& selected.expressions[place].name == shown_name(item)
            &&& position_names(selected)[place] == shown_name(item)
            &&& selected.columns.contains(bare_name(item)->0)
            &&& (written_alias(item) matches Some(given) ==> selected.aliases.contains(
                (given, bare_name(item)->0),
            ))
        } by {
            if place < shorter.len() {
                assert(shorter[place] == items[place]);
                assert(before.columns.contains(bare_name(shorter[place])->0));
                if let Some(given) = written_alias(shorter[place]) {
                    let pair = (given, bare_name(shorter[place])->0);
                    let at = choose|at: int|
                        0 <= at < before.aliases.len() && before.aliases[at] == pair;
                    assert(selected.aliases[at] == pair);
                }
            } else {
                if let Some(given) = written_alias(item) {
                    let pair = (given, bare_name(item)->0);
                    assert(selected.aliases[before.aliases.len() as int] == pair);
                }
            }
        }
        assert forall|column: Seq<char>| #[trigger] selected.columns.contains(
            column,
        ) implies is_named_by(items, column) by {
            if before.columns.contains(column) {
                let place = choose|place: int|
                    0 <= place < shorter.len() && bare_name(#[trigger] shorter[place]) == Some(
                        column,
                    );
                assert(items[place] == shorter[place]);
            } else {
                assert(items[items.len() - 1] == item);
            }
        }
    }
}

/// Whether one of some items is a bare name.
pub open spec fn is_named_by(items: Seq<SelectEntry>, name: Seq<char>) -> bool {
    exists|place: int| 0 <= place < items.len() && bare_name(#[trigger] items[place]) == Some(name)
}

/// The call that an item without an alias is, where it is one.
pub open spec fn bare_call(item: SelectEntry) -> Option<SqlFunction> {
    match item.kind {
        SelectEntryKind::UnnamedExpr(expr) => match expr.kind {
            SqlExprKind::Function(function) => Some(function),
            _ => None,
        },
        _ => None,
    }
}

/// Whether a call is that of an aggregate of a bare column.
pub open spec fn calls_with(function: SqlFunction, name: Seq<char>, column: Seq<char>) -> bool {
    &&& function.name matches Some(called) && same_ignoring_case(called@, name)
    &&& function.args is Some
    &&& function.args->0@.len() == 1
    &&& (function.args->0@[0] matches SqlFunctionArg::Expr(input) && (input.kind
        matches SqlExprKind::Identifier(found) && found@ == column))
}

/// Every call of an aggregate in the list of one table is computed: `SUM` of a column sums that
/// column, and the others likewise.
pub proof fn law_calls_are_computed(
    items: Seq<SelectEntry>,
    alias: Option<Seq<char>>,
    bindings: Seq<GroupBinding>,
    place: int,
    column: Seq<char>,
)
    requires
        selected_by(items, Tables::Table(alias), bindings) is Ok,
        0 <= place < items.len(),
        bare_call(items[place]) is Some,
        bound_column(bindings, items[place].kind->UnnamedExpr_0.text@) is None,
    ensures
        ({
            let selected = selected_by(items, Tables::Table(alias), bindings)->Ok_0;
            let call = bare_call(items[place])->0;
            &&& calls_with(call, "COUNT"@, column) ==> selected.aggregates.contains(
                (Aggregate { function: AggregateFunction::Count, column: Some(column) }),
            )
            &&& calls_with(call, "SUM"@, column) ==> selected.aggregates.contains(
                (Aggregate { function: AggregateFunction::Sum, column: Some(column) }),
            )
            &&& calls_with(call, "AVG"@, column) ==> selected.aggregates.contains(
                (Aggregate { function: AggregateFunction::Avg, column: Some(column) }),
            )
            &&& calls_with(call, "MIN"@, column) ==> selected.aggregates.contains(
                (Aggregate { function: AggregateFunction::Min, column: Some(column) }),
            )
            &&& calls_with(call, "MAX"@, column) ==> selected.aggregates.contains(
                (Aggregate { function: AggregateFunction::Max, column: Some(column) }),
            )
        }),
    decreases items.len(),
{
    let scope = Tables::Table(alias);
    let shorter = items.drop_last();
    let before = selected_by(shorter, scope, bindings)->Ok_0;
    let selected = selected_by(items, scope, bindings)->Ok_0;
    let call = bare_call(items[place])->0;
    if place < shorter.len() {
        assert(shorter[place] == items[place]);
        law_calls_are_computed(shorter, alias, bindings, place, column);
        assert forall|aggregate: Aggregate| before.aggregates.contains(
            aggregate,
        ) implies #[trigger] selected.aggregates.contains(aggregate) by {
            let at = choose|at: int|
                0 <= at < before.aggregates.len() && before.aggregates[at] == aggregate;
            assert(selected.aggregates[at] == aggregate);
        }
    } else {
        let name = call.name->0@;
        law_aggregates_by_name(name);
        lemma_aggregates_are_no_scalars(name);
        let expr = items[place].kind->UnnamedExpr_0;
        if aggregate_function(name) is Some {
            assert(called_function(call) is None);
            let reading = aggregate_of(call, expr.text@, scope, before.inputs.len());
            if reading is Ok {
                law_selected_calls(call, expr.text@, scope, before.inputs.len());
                let found = reading->Ok_0.aggregates[0];
                assert(selected.aggregates[before.aggregates.len() as int] == found);
                assert(selected.aggregates.contains(found));
            }
        }
    }
}

proof fn lemma_aggregates_are_no_scalars(name: Seq<char>)
    ensures
        aggregate_function(name) is Some ==> scalar_function(name) is None,
{
    law_aggregates_by_name(name);
    law_scalar_functions_by_name(name);
    reveal_strlit("count");
    reveal_strlit("sum");
    reveal_strlit("avg");
    reveal_strlit("min");
    reveal_strlit("max");
    reveal_strlit("coalesce");
    reveal_strlit("lower");
    reveal_strlit("upper");
    reveal_strlit("length");
    reveal_strlit("trim");
    reveal_strlit("abs");
    reveal_strlit("round");
    reveal_strlit("floor");
    reveal_strlit("ceil");
    reveal_strlit("replace");
    reveal_strlit("concat");
    assert("lower"@[0] == 'l' && "upper"@[0] == 'u' && "round"@[0] == 'r' && "floor"@[0] == 'f');
    assert("count"@[0] == 'c' && "abs"@[1] == 'b' && "avg"@[1] == 'v' && "sum"@[0] == 's');
    assert("min"@[0] == 'm' && "max"@[0] == 'm' && "abs"@[0] == 'a');
    assert("coalesce"@.len() == 8 && "replace"@.len() == 7 && "trim"@.len() == 4);
    assert("length"@.len() == 6 && "concat"@.len() == 6 && "ceil"@.len() == 4);
    assert("count"@.len() == 5 && "sum"@.len() == 3 && "avg"@.len() == 3 && "min"@.len() == 3);
    assert("max"@.len() == 3);
}

} // verus!
