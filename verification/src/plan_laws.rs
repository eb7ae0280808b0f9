//! What the plans of recognized queries read, said over the tables and conditions of the query.

use vstd::prelude::*;
use crate::ast::{
    FromTable, QueryAst, QueryBody, SelectAst, SqlBinaryOperator, SqlExpr, SqlExprKind, TableSource,
};
use crate::calendar::date_text_days;
use crate::conjuncts::{conjuncts_of, is_column_named, PatternShape};
use crate::error::Failure;
use crate::literals::{literal_of, Literal};
use crate::query_laws::{
    day_from, day_to, is_path_of, law_compared_text, law_day_range, law_pattern_text,
};
use crate::recognized::{
    last_named, prefix_supplier_of, pricing_summary_of, profit_rows_of, regional_revenue_of,
    returned_revenue_of, PrefixSupplier, Profit, RegionalRevenue, ReturnedRevenue,
};
use crate::subquery_literals::runs;
use crate::tables_from::{listed_tables, name_of, table_name, table_of, Table};
use crate::text::same_ignoring_case;

verus! {

/// Whether a table of a `FROM` goes by a name: its alias where it has one, else the name of
/// its file, in any case.
pub open spec fn goes_by(source: TableSource, path: Seq<char>, name: Seq<char>) -> bool {
    source matches TableSource::Table { alias, .. } && match alias {
        Some(alias) => same_ignoring_case(alias@, name),
        None => same_ignoring_case(table_name(path), name),
    }
}

/// Whether a path is that of a table of a `SELECT` that goes by a name.
pub open spec fn reads_table(select: SelectAst, name: Seq<char>, path: Seq<char>) -> bool {
    exists|index: int|
        0 <= index < select.from@.len() && is_path_of(
            path,
            (#[trigger] select.from@[index]).relation,
        ) && goes_by(select.from@[index].relation, path, name)
}

proof fn lemma_last_named(tables: Seq<Table>, name: Seq<char>) -> (index: int)
    requires
        last_named(tables, name) is Some,
    ensures
        0 <= index < tables.len(),
        tables[index].path == last_named(tables, name)->0,
        same_ignoring_case(name_of(tables[index]), name),
        forall|later: int|
            index < later < tables.len() ==> !same_ignoring_case(
                name_of(#[trigger] tables[later]),
                name,
            ),
    decreases tables.len(),
{
    if same_ignoring_case(name_of(tables.last()), name) {
        tables.len() - 1
    } else {
        let shorter = tables.drop_last();
        let index = lemma_last_named(shorter, name);
        assert forall|later: int| index < later < tables.len() implies !same_ignoring_case(
            name_of(#[trigger] tables[later]),
            name,
        ) by {
            if later < shorter.len() {
                assert(shorter[later] == tables[later]);
            }
        }
        index
    }
}

proof fn lemma_listed(from: Seq<FromTable>)
    requires
        listed_tables(from) is Ok,
    ensures
        listed_tables(from)->Ok_0.len() == from.len(),
        forall|place: int|
            0 <= place < from.len() ==> table_of((#[trigger] from[place]).relation) == Ok::<
                Table,
                Failure,
            >(listed_tables(from)->Ok_0[place]),
    decreases from.len(),
{
    if from.len() > 0 {
        let shorter = from.drop_last();
        lemma_listed(shorter);
        assert forall|place: int| 0 <= place < from.len() implies table_of(
            (#[trigger] from[place]).relation,
        ) == Ok::<Table, Failure>(listed_tables(from)->Ok_0[place]) by {
            if place < shorter.len() {
                assert(shorter[place] == from[place]);
            }
        }
    }
}

proof fn lemma_reads(select: SelectAst, name: Seq<char>)
    requires
        listed_tables(select.from@) is Ok,
        last_named(listed_tables(select.from@)->Ok_0, name) is Some,
    ensures
        reads_table(select, name, last_named(listed_tables(select.from@)->Ok_0, name)->0),
{
    let tables = listed_tables(select.from@)->Ok_0;
    let index = lemma_last_named(tables, name);
    lemma_listed(select.from@);
    assert(table_of(select.from@[index].relation) == Ok::<Table, Failure>(tables[index]));
    assert(is_path_of(tables[index].path, select.from@[index].relation));
}

/// The revenue of returned orders is read from the tables of the query that go by the names of
/// the plan, for the days that its condition on `o_orderdate` leaves.
pub proof fn law_returned_revenue_plan(query: QueryAst, plan: ReturnedRevenue)
    requires
        returned_revenue_of(query) == Ok::<Option<ReturnedRevenue>, Failure>(Some(plan)),
    ensures
        query.body matches QueryBody::Select(select) && select.selection matches Some(selection)
            && {
            &&& reads_table(*select, "customer"@, plan.customer)
            &&& reads_table(*select, "orders"@, plan.orders)
            &&& reads_table(*select, "lineitem"@, plan.lineitem)
            &&& reads_table(*select, "nation"@, plan.nation)
            &&& day_from(conjuncts_of(&selection), "o_orderdate"@, plan.start_days)
            &&& day_to(conjuncts_of(&selection), "o_orderdate"@, plan.end_days)
        },
{
    match query.body {
        QueryBody::Select(select) => match select.selection {
            Some(selection) => {
                lemma_reads(*select, "customer"@);
                lemma_reads(*select, "orders"@);
                lemma_reads(*select, "lineitem"@);
                lemma_reads(*select, "nation"@);
                law_day_range(conjuncts_of(&selection), "o_orderdate"@);
            },
            None => {},
        },
        _ => {},
    }
}

/// Whether one of the conditions says that a column is equal to a text.
pub open spec fn says_equal(conjuncts: Seq<&SqlExpr>, column: Seq<char>, text: Seq<char>) -> bool {
    exists|index: int|
        0 <= index < conjuncts.len() && ((#[trigger] conjuncts[index]).kind
            matches SqlExprKind::BinaryOp { left, op, right } && op == SqlBinaryOperator::Eq && ((
        is_column_named(*left, column) && literal_of(*right) == Some(Literal::Utf8(text))) || (
        is_column_named(*right, column) && literal_of(*left) == Some(Literal::Utf8(text)))))
}

/// The revenue of local suppliers is read from the tables of the query that go by the names of
/// the plan, for the region that `r_name` is set equal to and the days that the condition on
/// `o_orderdate` leaves.
pub proof fn law_regional_revenue_plan(query: QueryAst, plan: RegionalRevenue)
    requires
        regional_revenue_of(query) == Ok::<Option<RegionalRevenue>, Failure>(Some(plan)),
    ensures
        query.body matches QueryBody::Select(select) && select.selection matches Some(selection)
            && {
            &&& reads_table(*select, "customer"@, plan.customer)
            &&& reads_table(*select, "orders"@, plan.orders)
            &&& reads_table(*select, "lineitem"@, plan.lineitem)
            &&& reads_table(*select, "supplier"@, plan.supplier)
            &&& reads_table(*select, "nation"@, plan.nation)
            &&& reads_table(*select, "region"@, plan.region)
            &&& says_equal(conjuncts_of(&selection), "r_name"@, plan.region_name)
            &&& day_from(conjuncts_of(&selection), "o_orderdate"@, plan.start_days)
            &&& day_to(conjuncts_of(&selection), "o_orderdate"@, plan.end_days)
        },
{
    match query.body {
        QueryBody::Select(select) => match select.selection {
            Some(selection) => {
                lemma_reads(*select, "customer"@);
                lemma_reads(*select, "orders"@);
                lemma_reads(*select, "lineitem"@);
                lemma_reads(*select, "supplier"@);
                lemma_reads(*select, "nation"@);
                lemma_reads(*select, "region"@);
                let conjuncts = conjuncts_of(&selection);
                law_day_range(conjuncts, "o_orderdate"@);
                let index = law_compared_text(conjuncts, SqlBinaryOperator::Eq, "r_name"@);
                assert(says_equal(conjuncts, "r_name"@, plan.region_name)) by {
                    assert(conjuncts[index].kind is BinaryOp);
                }
            },
            None => {},
        },
        _ => {},
    }
}

/// Suppliers with enough of some parts are read from the tables of the query that go by the
/// names of the plan.
pub proof fn law_prefix_supplier_plan(query: QueryAst, plan: PrefixSupplier)
    requires
        prefix_supplier_of(query) == Ok::<Option<PrefixSupplier>, Failure>(Some(plan)),
    ensures
        query.body matches QueryBody::Select(select) && reads_table(
            *select,
            "supplier"@,
            plan.supplier,
        ) && reads_table(*select, "nation"@, plan.nation) && select.from@.len() == 2,
{
    match query.body {
        QueryBody::Select(select) => {
            lemma_reads(*select, "supplier"@);
            lemma_reads(*select, "nation"@);
            lemma_listed(select.from@);
        },
        _ => {},
    }
}

/// Whether one of the conditions says that a column holds a text, with no other wildcard.
pub open spec fn says_contains(
    conjuncts: Seq<&SqlExpr>,
    column: Seq<char>,
    text: Seq<char>,
) -> bool {
    exists|index: int|
        0 <= index < conjuncts.len() && ((#[trigger] conjuncts[index]).kind
            matches SqlExprKind::Like { expr, pattern, negated, case_insensitive, .. } && !negated
            && !case_insensitive && is_column_named(*expr, column) && literal_of(*pattern) == Some(
            Literal::Utf8((seq!['%'] + text).push('%')),
        ))
}

/// The rows that profit is reported of are read from the tables of the subquery that go by the
/// names of the plan, for the parts whose name holds the text of its `LIKE`.
pub proof fn law_profit_rows_plan(query: QueryAst, plan: Profit)
    requires
        profit_rows_of(query) == Ok::<Option<Profit>, Failure>(Some(plan)),
    ensures
        query.body matches QueryBody::Select(select) && select.selection matches Some(selection)
            && {
            &&& reads_table(*select, "part"@, plan.part)
            &&& reads_table(*select, "supplier"@, plan.supplier)
            &&& reads_table(*select, "lineitem"@, plan.lineitem)
            &&& reads_table(*select, "partsupp"@, plan.partsupp)
            &&& reads_table(*select, "orders"@, plan.orders)
            &&& reads_table(*select, "nation"@, plan.nation)
            &&& says_contains(conjuncts_of(&selection), "p_name"@, plan.name_substring)
        },
{
    match query.body {
        QueryBody::Select(select) => match select.selection {
            Some(selection) => {
                lemma_reads(*select, "part"@);
                lemma_reads(*select, "supplier"@);
                lemma_reads(*select, "lineitem"@);
                lemma_reads(*select, "partsupp"@);
                lemma_reads(*select, "orders"@);
                lemma_reads(*select, "nation"@);
                let conjuncts = conjuncts_of(&selection);
                let index = law_pattern_text(
                    conjuncts,
                    "p_name"@,
                    false,
                    PatternShape::Contains,
                );
                assert(conjuncts[index].kind is Like);
            },
            None => {},
        },
        _ => {},
    }
}

/// The pricing summary is read from the one table of the query, which goes by `lineitem`, up
/// to the day that the condition on `l_shipdate` allows and no later.
pub proof fn law_pricing_summary_plan(query: QueryAst, path: Seq<char>, cutoff: i32)
    requires
        pricing_summary_of(query) == Ok::<Option<(Seq<char>, i32)>, Failure>(Some((path, cutoff))),
    ensures
        query.body matches QueryBody::Select(select) && select.selection matches Some(selection)
            && {
            &&& select.from@.len() == 1
            &&& reads_table(*select, "lineitem"@, path)
            &&& allows_until(selection, "l_shipdate"@, cutoff)
        },
{
    match query.body {
        QueryBody::Select(select) => {
            assert(is_path_of(path, select.from@[0].relation));
            assert(goes_by(select.from@[0].relation, path, "lineitem"@));
        },
        _ => {},
    }
}

/// Whether a condition says that a column is no later than a day.
pub open spec fn allows_until(condition: SqlExpr, column: Seq<char>, day: i32) -> bool {
    condition.kind matches SqlExprKind::BinaryOp { left, op, right } && match op {
        SqlBinaryOperator::LtEq => is_column_named(*left, column) && is_day(*right, day),
        SqlBinaryOperator::GtEq => is_column_named(*right, column) && is_day(*left, day),
        _ => false,
    }
}

/// Whether an expression is a date.
pub open spec fn is_day(expr: SqlExpr, day: i32) -> bool {
    literal_of(expr) matches Some(Literal::Utf8(text)) && date_text_days(text) matches Some(days)
        && days as i32 == day
}

/// No part between marks is empty or holds a mark, and the parts put together are the text
/// without its marks.
pub proof fn law_parts_between_marks(text: Seq<char>, mark: char)
    ensures
        forall|place: int|
            0 <= place < runs(text, mark).0.len() ==> (#[trigger] runs(text, mark).0[place]).len()
                > 0 && !runs(text, mark).0[place].contains(mark),
        !runs(text, mark).1.contains(mark),
        runs(text, mark).0.flatten() + runs(text, mark).1 == text.filter(
            |character: char| character != mark,
        ),
    decreases text.len(),
{
    reveal(Seq::filter);
    let other = |character: char| character != mark;
    let (ended, run) = runs(text, mark);
    if text.len() == 0 {
        assert(ended.flatten() =~= Seq::empty());
        assert(ended.flatten() + run =~= text.filter(other));
    } else {
        let shorter = text.drop_last();
        let (before, going) = runs(shorter, mark);
        law_parts_between_marks(shorter, mark);
        if text.last() != mark {
            assert(run == going.push(text.last()));
            assert(ended.flatten() + run =~= (before.flatten() + going).push(text.last()));
            assert forall|place: int| 0 <= place < run.len() implies run[place] != mark by {
                if place < going.len() {
                    assert(going[place] == run[place]);
                    assert(going.contains(going[place]));
                }
            }
        } else if going.len() > 0 {
            before.lemma_flatten_push(going);
            assert(ended.flatten() + run =~= before.flatten() + going);
        } else {
            assert(ended.flatten() + run =~= before.flatten() + going);
        }
    }
}

} // verus!
