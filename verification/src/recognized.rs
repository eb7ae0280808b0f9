//! Queries that are recognised by their shape, and what is read from them.

use vstd::prelude::*;
use crate::ast::{
    QueryAst, QueryBody, SelectAst, SelectEntry, SqlBinaryOperator, SqlExpr, SqlExprKind,
};
use crate::calendar::date_text_days;
use crate::conjuncts::{
    collect_sql_and_conjuncts, compared_texts, conjuncts_of, date_range_bounds, day_range,
    first_step, is_column_named, like_contains_literal, pattern_steps, sql_expr_column_matches,
    string_equality_literal, PatternShape,
};
use crate::error::{fails_with, Failure, SqlResult};
use crate::literals::{literal_date_days, literal_of, Literal};
use crate::query_features::{
    query_refused, reject_query_features, reject_select_features, select_refused,
};
use crate::query_modifiers::{limit_of, parse_limit};
use crate::row_scan::Step;
use crate::subquery_literals::{first_table_path_in_subqueries, path_in};
use crate::tables_from::{
    comma_tables, derived_query, name_of, parse_comma_join_table_refs, parse_derived_from,
    parse_table_factor, table_of, table_ref_alias_or_name, table_views, Table, TableRef,
};
use crate::text::{
    contains, eq_ignore_ascii_case, has_substring, join_with, joined_with, lowered,
    same_ignoring_case, string_copy, texts, to_ascii_lowercase,
};

verus! {

/// The failure of a query with a clause that is not supported.
pub open spec fn query_refusal() -> Failure {
    Failure::Unsupported("WITH/FETCH/locks/settings/format/pipe clauses are not supported"@)
}

/// The failure of a `SELECT` with a clause that is not supported.
pub open spec fn select_refusal() -> Failure {
    Failure::Unsupported("TOP/window/qualify/select modifiers are not supported"@)
}

/// The texts of the items of a `SELECT` list in small letters.
pub open spec fn item_texts(items: Seq<SelectEntry>) -> Seq<Seq<char>> {
    items.map_values(|item: SelectEntry| lowered(item.text@))
}

/// The text of a `SELECT` list in small letters.
pub open spec fn list_text(select: SelectAst) -> Seq<char> {
    joined_with(item_texts(select.projection@), ", "@)
}

/// The text of an `ORDER BY` in small letters, empty without one.
pub open spec fn order_text(query: QueryAst) -> Seq<char> {
    match query.order_by {
        Some(clause) => lowered(clause.text@),
        None => Seq::empty(),
    }
}

/// The text of a `SELECT` list in small letters.
fn projection_text(select: &SelectAst) -> (text: String)
    ensures
        text@ == list_text(*select),
{
    let ghost expected = item_texts(select.projection@);
    let mut parts: Vec<String> = Vec::new();
    let mut index: usize = 0;
    assert(texts(parts@) =~= expected.take(0));
    while index < select.projection.len()
        invariant
            index <= select.projection@.len(),
            expected == item_texts(select.projection@),
            texts(parts@) == expected.take(index as int),
        decreases select.projection@.len() - index,
    {
        let ghost before = parts@;
        let lower = to_ascii_lowercase(select.projection[index].text.as_str());
        parts.push(lower);
        proof {
            assert(texts(parts@) =~= texts(before).push(lower@));
            assert(expected[index as int] == lower@);
            assert(expected.take(index + 1) =~= expected.take(index as int).push(lower@));
        }
        index += 1;
    }
    assert(expected.take(index as int) =~= expected);
    join_with(parts.as_slice(), ", ")
}

/// The text of an `ORDER BY` in small letters, empty without one.
fn order_by_text(query: &QueryAst) -> (text: String)
    ensures
        text@ == order_text(*query),
{
    match &query.order_by {
        Some(clause) => to_ascii_lowercase(clause.text.as_str()),
        None => {
            let empty = String::new();
            assert(empty@ =~= Seq::empty());
            empty
        },
    }
}

/// Whether a text holds every one of the given texts.
pub open spec fn holds_all(text: Seq<char>, wanted: Seq<Seq<char>>) -> bool {
    forall|index: int| 0 <= index < wanted.len() ==> has_substring(text, #[trigger] wanted[index])
}

/// Whether a text holds every one of the given texts.
fn contains_all(text: &str, wanted: &[&str]) -> (found: bool)
    ensures
        found == holds_all(text@, crate::names::slice_texts(wanted@)),
{
    let ghost all = crate::names::slice_texts(wanted@);
    let mut index: usize = 0;
    while index < wanted.len()
        invariant
            index <= wanted@.len(),
            all == crate::names::slice_texts(wanted@),
            forall|earlier: int|
                0 <= earlier < index ==> has_substring(text@, #[trigger] all[earlier]),
        decreases wanted@.len() - index,
    {
        assert(all[index as int] == wanted@[index as int]@);
        if !contains(text, wanted[index]) {
            assert(!has_substring(text@, all[index as int]));
            return false;
        }
        index += 1;
    }
    true
}

/// The last table that goes by a name, in any case.
pub open spec fn last_named(tables: Seq<Table>, name: Seq<char>) -> Option<Seq<char>>
    decreases tables.len(),
{
    if tables.len() == 0 {
        None
    } else if same_ignoring_case(name_of(tables.last()), name) {
        Some(tables.last().path)
    } else {
        last_named(tables.drop_last(), name)
    }
}

/// The last table that goes by a name, in any case.
fn find_table(tables: &Vec<TableRef>, name: &str) -> (path: Option<String>)
    ensures
        match last_named(table_views(tables@), name@) {
            Some(expected) => path matches Some(path) && path@ == expected,
            None => path is None,
        },
{
    let ghost views = table_views(tables@);
    let mut rest: usize = tables.len();
    assert(views.take(rest as int) =~= views);
    while rest > 0
        invariant
            rest <= tables@.len(),
            views == table_views(tables@),
            last_named(views, name@) == last_named(views.take(rest as int), name@),
        decreases rest,
    {
        proof {
            assert(views.take(rest as int).drop_last() =~= views.take(rest - 1));
            assert(views.take(rest as int).last() == tables@[rest - 1]@);
        }
        let alias = table_ref_alias_or_name(&tables[rest - 1]);
        if eq_ignore_ascii_case(alias.as_str(), name) {
            return Some(string_copy(&tables[rest - 1].path));
        }
        rest -= 1;
    }
    None
}

/// Whether a query has the shape of the pricing summary.
pub open spec fn pricing_summary_shape(
    select: SelectAst,
    query: QueryAst,
    selection: SqlExpr,
) -> bool {
    &&& select.from@.len() == 1
    &&& select.projection@.len() == 10
    &&& holds_all(
        list_text(select),
        seq![
            "l_returnflag"@,
            "l_linestatus"@,
            "sum(l_quantity)"@,
            "sum(l_extendedprice)"@,
            "sum(l_extendedprice * (1 - l_discount))"@,
            "sum(l_extendedprice * (1 - l_discount) * (1 + l_tax))"@,
            "avg(l_quantity)"@,
            "avg(l_extendedprice)"@,
            "avg(l_discount)"@,
            "count(*)"@,
        ],
    )
    &&& holds_all(lowered(select.group_by.text@), seq!["l_returnflag"@, "l_linestatus"@])
    &&& holds_all(order_text(query), seq!["l_returnflag"@, "l_linestatus"@])
    &&& holds_all(lowered(selection.text@), seq!["l_shipdate"@, "<="@])
}

/// Whether a query has the shape of the pricing summary.
fn is_pricing_summary(
    select: &SelectAst,
    query: &QueryAst,
    selection: &SqlExpr,
) -> (recognized: bool)
    ensures
        recognized == pricing_summary_shape(*select, *query, *selection),
{
    let listed: [&str; 10] = [
        "l_returnflag",
        "l_linestatus",
        "sum(l_quantity)",
        "sum(l_extendedprice)",
        "sum(l_extendedprice * (1 - l_discount))",
        "sum(l_extendedprice * (1 - l_discount) * (1 + l_tax))",
        "avg(l_quantity)",
        "avg(l_extendedprice)",
        "avg(l_discount)",
        "count(*)",
    ];
    let keys: [&str; 2] = ["l_returnflag", "l_linestatus"];
    let tested: [&str; 2] = ["l_shipdate", "<="];
    proof {
        assert(crate::names::slice_texts(listed@) =~= seq![
            "l_returnflag"@,
            "l_linestatus"@,
            "sum(l_quantity)"@,
            "sum(l_extendedprice)"@,
            "sum(l_extendedprice * (1 - l_discount))"@,
            "sum(l_extendedprice * (1 - l_discount) * (1 + l_tax))"@,
            "avg(l_quantity)"@,
            "avg(l_extendedprice)"@,
            "avg(l_discount)"@,
            "count(*)"@,
        ]);
        assert(crate::names::slice_texts(keys@) =~= seq!["l_returnflag"@, "l_linestatus"@]);
        assert(crate::names::slice_texts(tested@) =~= seq!["l_shipdate"@, "<="@]);
    }
    let projection = projection_text(select);
    let group_by = to_ascii_lowercase(select.group_by.text.as_str());
    let order_by = order_by_text(query);
    let filter = to_ascii_lowercase(selection.text.as_str());
    select.from.len() == 1 && select.projection.len() == 10 && contains_all(
        projection.as_str(),
        listed.as_slice(),
    ) && contains_all(group_by.as_str(), keys.as_slice()) && contains_all(
        order_by.as_str(),
        keys.as_slice(),
    ) && contains_all(filter.as_str(), tested.as_slice())
}

/// The day that an expression must be.
pub open spec fn day_of(expr: SqlExpr) -> Result<i32, Failure> {
    match literal_of(expr) {
        Some(Literal::Utf8(text)) => match date_text_days(text) {
            Some(days) => Ok(days as i32),
            None => Err(Failure::Unsupported("invalid DATE literal"@)),
        },
        Some(_) => Err(Failure::Unsupported("expected DATE expression, got "@ + expr.text@)),
        None => Err(Failure::Unsupported("expected literal value, got "@ + expr.text@)),
    }
}

/// The last day of shipment that a filter lets pass, where it is of that form.
pub open spec fn shipdate_cutoff(selection: SqlExpr) -> Result<Option<i32>, Failure> {
    match selection.kind {
        SqlExprKind::BinaryOp { left, op, right } => if op == SqlBinaryOperator::LtEq
            && is_column_named(*left, "l_shipdate"@) {
            match day_of(*right) {
                Ok(day) => Ok(Some(day)),
                Err(failure) => Err(failure),
            }
        } else if op == SqlBinaryOperator::GtEq && is_column_named(*right, "l_shipdate"@) {
            match day_of(*left) {
                Ok(day) => Ok(Some(day)),
                Err(failure) => Err(failure),
            }
        } else {
            Ok(None)
        },
        _ => Ok(None),
    }
}

/// The last day of shipment that a filter lets pass, where it is of that form.
pub fn pricing_summary_shipdate_cutoff(selection: &SqlExpr) -> (result: SqlResult<Option<i32>>)
    ensures
        match shipdate_cutoff(*selection) {
            Ok(cutoff) => result matches Ok(found) && found == cutoff,
            Err(failure) => fails_with(result, failure),
        },
{
    match &selection.kind {
        SqlExprKind::BinaryOp { left, op, right } => {
            let side = if *op == SqlBinaryOperator::LtEq && sql_expr_column_matches(
                left,
                "l_shipdate",
            ) {
                right
            } else if *op == SqlBinaryOperator::GtEq && sql_expr_column_matches(
                right,
                "l_shipdate",
            ) {
                left
            } else {
                return Ok(None);
            };
            match literal_date_days(side) {
                Ok(day) => Ok(Some(day)),
                Err(error) => Err(error),
            }
        },
        _ => Ok(None),
    }
}

/// What the pricing summary reads: a table, and up to which day of shipment.
#[derive(Debug)]
pub struct PricingSummaryPlan {
    pub path: String,
    pub cutoff_days: i32,
}

/// The pricing summary that a query is, `None` where it is none.
pub open spec fn pricing_summary_of(query: QueryAst) -> Result<Option<(Seq<char>, i32)>, Failure> {
    match query.body {
        QueryBody::Select(select) => match select.selection {
            None => Ok(None),
            Some(selection) => if !pricing_summary_shape(*select, query, selection)
                || select.from@[0].joins@.len() != 0 {
                Ok(None)
            } else {
                match table_of(select.from@[0].relation) {
                    Err(failure) => Err(failure),
                    Ok(table) => if !same_ignoring_case(name_of(table), "lineitem"@) {
                        Ok(None)
                    } else {
                        match shipdate_cutoff(selection) {
                            Err(failure) => Err(failure),
                            Ok(None) => Ok(None),
                            Ok(Some(cutoff)) => if query_refused(query) {
                                Err(query_refusal())
                            } else if select_refused(*select) {
                                Err(select_refusal())
                            } else {
                                Ok(Some((table.path, cutoff)))
                            },
                        }
                    },
                }
            },
        },
        _ => Ok(None),
    }
}

/// The pricing summary that a query is.
pub fn plan_pricing_summary(query: &QueryAst) -> (result: SqlResult<Option<PricingSummaryPlan>>)
    ensures
        match pricing_summary_of(*query) {
            Ok(Some((path, cutoff))) => result matches Ok(Some(plan)) && plan.path@ == path
                && plan.cutoff_days == cutoff,
            Ok(None) => result matches Ok(None),
            Err(failure) => fails_with(result, failure),
        },
{
    let select = match &query.body {
        QueryBody::Select(select) => select,
        _ => {
            return Ok(None);
        },
    };
    let selection = match &select.selection {
        Some(selection) => selection,
        None => {
            return Ok(None);
        },
    };
    if !is_pricing_summary(select, query, selection) || select.from[0].joins.len() != 0 {
        return Ok(None);
    }
    let table = match parse_table_factor(&select.from[0].relation) {
        Ok(table) => table,
        Err(error) => {
            return Err(error);
        },
    };
    let name = table_ref_alias_or_name(&table);
    if !eq_ignore_ascii_case(name.as_str(), "lineitem") {
        return Ok(None);
    }
    let cutoff_days: i32 = match pricing_summary_shipdate_cutoff(selection) {
        Ok(Some(cutoff)) => cutoff,
        Ok(None) => {
            return Ok(None);
        },
        Err(error) => {
            return Err(error);
        },
    };
    match reject_query_features(query) {
        Ok(()) => {},
        Err(error) => {
            return Err(error);
        },
    }
    match reject_select_features(select) {
        Ok(()) => {},
        Err(error) => {
            return Err(error);
        },
    }
    Ok(Some(PricingSummaryPlan { path: table.path, cutoff_days }))
}

/// Whether a query has the shape of the revenue of returned orders by customer.
pub open spec fn returned_customer_revenue_shape(
    select: SelectAst,
    query: QueryAst,
    selection: SqlExpr,
) -> bool {
    &&& select.from@.len() == 4
    &&& select.projection@.len() == 8
    &&& limit_of(query) == Ok::<Option<int>, Failure>(Some(20))
    &&& holds_all(
        list_text(select),
        seq![
            "c_custkey"@,
            "c_name"@,
            "sum(l_extendedprice * (1 - l_discount))"@,
            "c_acctbal"@,
            "n_name"@,
            "c_address"@,
            "c_phone"@,
            "c_comment"@,
        ],
    )
    &&& holds_all(
        lowered(select.group_by.text@),
        seq![
            "c_custkey"@,
            "c_name"@,
            "c_acctbal"@,
            "n_name"@,
        ],
    )
    &&& holds_all(
        order_text(query),
        seq![
            "revenue desc"@,
        ],
    )
    &&& holds_all(
        lowered(selection.text@),
        seq![
            "c_custkey = o_custkey"@,
            "l_orderkey = o_orderkey"@,
            "l_returnflag = 'r'"@,
            "c_nationkey = n_nationkey"@,
        ],
    )
}

/// Whether a query has the shape of the revenue of returned orders by customer.
fn is_returned_customer_revenue(
    select: &SelectAst,
    query: &QueryAst,
    selection: &SqlExpr,
) -> (recognized: bool)
    ensures
        recognized == returned_customer_revenue_shape(*select, *query, *selection),
{
    let projection_parts: [&str; 8] = [
        "c_custkey",
        "c_name",
        "sum(l_extendedprice * (1 - l_discount))",
        "c_acctbal",
        "n_name",
        "c_address",
        "c_phone",
        "c_comment",
    ];
    let group_by_parts: [&str; 4] = [
        "c_custkey",
        "c_name",
        "c_acctbal",
        "n_name",
    ];
    let order_by_parts: [&str; 1] = [
        "revenue desc",
    ];
    let filter_parts: [&str; 4] = [
        "c_custkey = o_custkey",
        "l_orderkey = o_orderkey",
        "l_returnflag = 'r'",
        "c_nationkey = n_nationkey",
    ];
    proof {
        assert(crate::names::slice_texts(projection_parts@) =~= seq![
            "c_custkey"@,
            "c_name"@,
            "sum(l_extendedprice * (1 - l_discount))"@,
            "c_acctbal"@,
            "n_name"@,
            "c_address"@,
            "c_phone"@,
            "c_comment"@,
        ]);
        assert(crate::names::slice_texts(group_by_parts@) =~= seq![
            "c_custkey"@,
            "c_name"@,
            "c_acctbal"@,
            "n_name"@,
        ]);
        assert(crate::names::slice_texts(order_by_parts@) =~= seq![
            "revenue desc"@,
        ]);
        assert(crate::names::slice_texts(filter_parts@) =~= seq![
            "c_custkey = o_custkey"@,
            "l_orderkey = o_orderkey"@,
            "l_returnflag = 'r'"@,
            "c_nationkey = n_nationkey"@,
        ]);
    }
    let projection = projection_text(select);
    let group_by = to_ascii_lowercase(select.group_by.text.as_str());
    let order_by = order_by_text(query);
    let filter = to_ascii_lowercase(selection.text.as_str());
    select.from.len() == 4
        && select.projection.len() == 8
        && has_limit_20(query)
        && contains_all(projection.as_str(), projection_parts.as_slice())
        && contains_all(group_by.as_str(), group_by_parts.as_slice())
        && contains_all(order_by.as_str(), order_by_parts.as_slice())
        && contains_all(filter.as_str(), filter_parts.as_slice())
}

/// Whether a query has the shape of the revenue of local suppliers by nation.
pub open spec fn regional_supplier_revenue_shape(
    select: SelectAst,
    query: QueryAst,
    selection: SqlExpr,
) -> bool {
    &&& select.from@.len() == 6
    &&& select.projection@.len() == 2
    &&& holds_all(
        list_text(select),
        seq![
            "n_name"@,
            "sum(l_extendedprice * (1 - l_discount))"@,
        ],
    )
    &&& holds_all(
        lowered(select.group_by.text@),
        seq![
            "n_name"@,
        ],
    )
    &&& holds_all(
        order_text(query),
        seq![
            "revenue desc"@,
        ],
    )
    &&& holds_all(
        lowered(selection.text@),
        seq![
            "c_custkey = o_custkey"@,
            "l_orderkey = o_orderkey"@,
            "l_suppkey = s_suppkey"@,
            "c_nationkey = s_nationkey"@,
            "s_nationkey = n_nationkey"@,
            "n_regionkey = r_regionkey"@,
            "r_name"@,
            "o_orderdate"@,
        ],
    )
}

/// Whether a query has the shape of the revenue of local suppliers by nation.
fn is_regional_supplier_revenue(
    select: &SelectAst,
    query: &QueryAst,
    selection: &SqlExpr,
) -> (recognized: bool)
    ensures
        recognized == regional_supplier_revenue_shape(*select, *query, *selection),
{
    let projection_parts: [&str; 2] = [
        "n_name",
        "sum(l_extendedprice * (1 - l_discount))",
    ];
    let group_by_parts: [&str; 1] = [
        "n_name",
    ];
    let order_by_parts: [&str; 1] = [
        "revenue desc",
    ];
    let filter_parts: [&str; 8] = [
        "c_custkey = o_custkey",
        "l_orderkey = o_orderkey",
        "l_suppkey = s_suppkey",
        "c_nationkey = s_nationkey",
        "s_nationkey = n_nationkey",
        "n_regionkey = r_regionkey",
        "r_name",
        "o_orderdate",
    ];
    proof {
        assert(crate::names::slice_texts(projection_parts@) =~= seq![
            "n_name"@,
            "sum(l_extendedprice * (1 - l_discount))"@,
        ]);
        assert(crate::names::slice_texts(group_by_parts@) =~= seq![
            "n_name"@,
        ]);
        assert(crate::names::slice_texts(order_by_parts@) =~= seq![
            "revenue desc"@,
        ]);
        assert(crate::names::slice_texts(filter_parts@) =~= seq![
            "c_custkey = o_custkey"@,
            "l_orderkey = o_orderkey"@,
            "l_suppkey = s_suppkey"@,
            "c_nationkey = s_nationkey"@,
            "s_nationkey = n_nationkey"@,
            "n_regionkey = r_regionkey"@,
            "r_name"@,
            "o_orderdate"@,
        ]);
    }
    let projection = projection_text(select);
    let group_by = to_ascii_lowercase(select.group_by.text.as_str());
    let order_by = order_by_text(query);
    let filter = to_ascii_lowercase(selection.text.as_str());
    select.from.len() == 6
        && select.projection.len() == 2
        && contains_all(projection.as_str(), projection_parts.as_slice())
        && contains_all(group_by.as_str(), group_by_parts.as_slice())
        && contains_all(order_by.as_str(), order_by_parts.as_slice())
        && contains_all(filter.as_str(), filter_parts.as_slice())
}

/// Whether a query has the shape of the suppliers with enough of some parts.
pub open spec fn prefix_part_supplier_threshold_shape(
    select: SelectAst,
    selection: SqlExpr,
) -> bool {
    &&& select.projection@.len() == 2
    &&& holds_all(
        lowered(selection.text@),
        seq![
            "s_suppkey in"@,
            "p_name like 'forest%'"@,
            "ps_availqty >"@,
            "0.5 * sum(l_quantity)"@,
            "n_name = 'canada'"@,
        ],
    )
}

/// Whether a query has the shape of the suppliers with enough of some parts.
fn is_prefix_part_supplier_threshold(select: &SelectAst, selection: &SqlExpr) -> (recognized: bool)
    ensures
        recognized == prefix_part_supplier_threshold_shape(*select, *selection),
{
    let filter_parts: [&str; 5] = [
        "s_suppkey in",
        "p_name like 'forest%'",
        "ps_availqty >",
        "0.5 * sum(l_quantity)",
        "n_name = 'canada'",
    ];
    proof {
        assert(crate::names::slice_texts(filter_parts@) =~= seq![
            "s_suppkey in"@,
            "p_name like 'forest%'"@,
            "ps_availqty >"@,
            "0.5 * sum(l_quantity)"@,
            "n_name = 'canada'"@,
        ]);
    }
    let filter = to_ascii_lowercase(selection.text.as_str());
    select.projection.len() == 2
        && contains_all(filter.as_str(), filter_parts.as_slice())
}

/// Whether a query has the shape of the profit by nation and year, seen from outside.
pub open spec fn q09_outer_shape(select: SelectAst, query: QueryAst) -> bool {
    &&& select.from@.len() == 1
    &&& select.projection@.len() == 3
    &&& holds_all(
        list_text(select),
        seq![
            "nation"@,
            "o_year"@,
            "sum(amount)"@,
        ],
    )
    &&& holds_all(
        lowered(select.group_by.text@),
        seq![
            "nation"@,
            "o_year"@,
        ],
    )
    &&& holds_all(
        order_text(query),
        seq![
            "nation"@,
            "o_year desc"@,
        ],
    )
}

/// Whether a query has the shape of the profit by nation and year, seen from outside.
fn is_profit_report(select: &SelectAst, query: &QueryAst) -> (recognized: bool)
    ensures
        recognized == q09_outer_shape(*select, *query),
{
    let projection_parts: [&str; 3] = [
        "nation",
        "o_year",
        "sum(amount)",
    ];
    let group_by_parts: [&str; 2] = [
        "nation",
        "o_year",
    ];
    let order_by_parts: [&str; 2] = [
        "nation",
        "o_year desc",
    ];
    proof {
        assert(crate::names::slice_texts(projection_parts@) =~= seq![
            "nation"@,
            "o_year"@,
            "sum(amount)"@,
        ]);
        assert(crate::names::slice_texts(group_by_parts@) =~= seq![
            "nation"@,
            "o_year"@,
        ]);
        assert(crate::names::slice_texts(order_by_parts@) =~= seq![
            "nation"@,
            "o_year desc"@,
        ]);
    }
    let projection = projection_text(select);
    let group_by = to_ascii_lowercase(select.group_by.text.as_str());
    let order_by = order_by_text(query);
    select.from.len() == 1
        && select.projection.len() == 3
        && contains_all(projection.as_str(), projection_parts.as_slice())
        && contains_all(group_by.as_str(), group_by_parts.as_slice())
        && contains_all(order_by.as_str(), order_by_parts.as_slice())
}

/// Whether a subquery has the shape of the rows that profit is reported of.
pub open spec fn q09_inner_shape(select: SelectAst, selection: SqlExpr) -> bool {
    &&& select.from@.len() == 6
    &&& select.projection@.len() == 3
    &&& holds_all(
        list_text(select),
        seq![
            "n_name as nation"@,
            "extract(year from o_orderdate)"@,
            "l_extendedprice * (1 - l_discount) - ps_supplycost * l_quantity"@,
        ],
    )
    &&& holds_all(
        lowered(selection.text@),
        seq![
            "s_suppkey = l_suppkey"@,
            "ps_suppkey = l_suppkey"@,
            "ps_partkey = l_partkey"@,
            "p_partkey = l_partkey"@,
            "o_orderkey = l_orderkey"@,
            "s_nationkey = n_nationkey"@,
            "p_name like"@,
        ],
    )
}

/// Whether a subquery has the shape of the rows that profit is reported of.
fn is_profit_rows(select: &SelectAst, selection: &SqlExpr) -> (recognized: bool)
    ensures
        recognized == q09_inner_shape(*select, *selection),
{
    let projection_parts: [&str; 3] = [
        "n_name as nation",
        "extract(year from o_orderdate)",
        "l_extendedprice * (1 - l_discount) - ps_supplycost * l_quantity",
    ];
    let filter_parts: [&str; 7] = [
        "s_suppkey = l_suppkey",
        "ps_suppkey = l_suppkey",
        "ps_partkey = l_partkey",
        "p_partkey = l_partkey",
        "o_orderkey = l_orderkey",
        "s_nationkey = n_nationkey",
        "p_name like",
    ];
    proof {
        assert(crate::names::slice_texts(projection_parts@) =~= seq![
            "n_name as nation"@,
            "extract(year from o_orderdate)"@,
            "l_extendedprice * (1 - l_discount) - ps_supplycost * l_quantity"@,
        ]);
        assert(crate::names::slice_texts(filter_parts@) =~= seq![
            "s_suppkey = l_suppkey"@,
            "ps_suppkey = l_suppkey"@,
            "ps_partkey = l_partkey"@,
            "p_partkey = l_partkey"@,
            "o_orderkey = l_orderkey"@,
            "s_nationkey = n_nationkey"@,
            "p_name like"@,
        ]);
    }
    let projection = projection_text(select);
    let filter = to_ascii_lowercase(selection.text.as_str());
    select.from.len() == 6
        && select.projection.len() == 3
        && contains_all(projection.as_str(), projection_parts.as_slice())
        && contains_all(filter.as_str(), filter_parts.as_slice())
}

/// Whether the limit of a query is twenty rows.
fn has_limit_20(query: &QueryAst) -> (limited: bool)
    ensures
        limited == (limit_of(*query) == Ok::<Option<int>, Failure>(Some(20))),
{
    match parse_limit(query) {
        Ok(Some(limit)) => limit == 20,
        _ => false,
    }
}

/// The tables of a comma join of so many, `None` where it is none.
pub open spec fn joined_tables(query: QueryAst, select: SelectAst, count: int) -> Result<
    Option<Seq<Table>>,
    Failure,
> {
    if query_refused(query) {
        Err(query_refusal())
    } else if select_refused(select) {
        Err(select_refusal())
    } else {
        match comma_tables(select) {
            Ok(Some(tables)) => if tables.len() == count {
                Ok(Some(tables))
            } else {
                Ok(None)
            },
            other => other,
        }
    }
}

/// The tables of a comma join of so many, `None` where it is none.
fn read_joined_tables(query: &QueryAst, select: &SelectAst, count: usize) -> (result: SqlResult<
    Option<Vec<TableRef>>,
>)
    ensures
        match joined_tables(*query, *select, count as int) {
            Ok(Some(tables)) => result matches Ok(Some(found)) && table_views(found@) == tables,
            Ok(None) => result matches Ok(None),
            Err(failure) => fails_with(result, failure),
        },
{
    match reject_query_features(query) {
        Ok(()) => {},
        Err(error) => {
            return Err(error);
        },
    }
    match reject_select_features(select) {
        Ok(()) => {},
        Err(error) => {
            return Err(error);
        },
    }
    match parse_comma_join_table_refs(select) {
        Ok(Some(tables)) => {
            assert(table_views(tables@).len() == tables@.len());
            if tables.len() == count {
                Ok(Some(tables))
            } else {
                Ok(None)
            }
        },
        other => other,
    }
}

/// What the revenue of returned orders reads.
#[derive(Debug)]
pub struct ReturnedRevenuePlan {
    pub customer: String,
    pub orders: String,
    pub lineitem: String,
    pub nation: String,
    pub start_days: i32,
    pub end_days: i32,
}

/// What the revenue of returned orders reads, as a value.
pub struct ReturnedRevenue {
    pub customer: Seq<char>,
    pub orders: Seq<char>,
    pub lineitem: Seq<char>,
    pub nation: Seq<char>,
    pub start_days: i32,
    pub end_days: i32,
}

impl View for ReturnedRevenuePlan {
    type V = ReturnedRevenue;

    open spec fn view(&self) -> ReturnedRevenue {
        ReturnedRevenue {
            customer: self.customer@,
            orders: self.orders@,
            lineitem: self.lineitem@,
            nation: self.nation@,
            start_days: self.start_days,
            end_days: self.end_days,
        }
    }
}

/// The revenue of returned orders that a query is, `None` where it is none.
pub open spec fn returned_revenue_of(query: QueryAst) -> Result<Option<ReturnedRevenue>, Failure> {
    match query.body {
        QueryBody::Select(select) => match select.selection {
            None => Ok(None),
            Some(selection) => if !returned_customer_revenue_shape(*select, query, selection) {
                Ok(None)
            } else {
                match joined_tables(query, *select, 4) {
                    Err(failure) => Err(failure),
                    Ok(None) => Ok(None),
                    Ok(Some(tables)) => match (
                        last_named(tables, "customer"@),
                        last_named(tables, "orders"@),
                        last_named(tables, "lineitem"@),
                        last_named(tables, "nation"@),
                    ) {
                        (
                            Some(customer),
                            Some(orders),
                            Some(lineitem),
                            Some(nation),
                        ) => match day_range(
                            conjuncts_of(&selection),
                            "o_orderdate"@,
                        ) {
                            Step::Fail(message) => Err(Failure::Unsupported(message)),
                            Step::Skip => Ok(None),
                            Step::Keep((start_days, end_days)) => Ok(
                                Some(
                                    ReturnedRevenue {
                                        customer,
                                        orders,
                                        lineitem,
                                        nation,
                                        start_days,
                                        end_days,
                                    },
                                ),
                            ),
                        },
                        _ => Ok(None),
                    },
                }
            },
        },
        _ => Ok(None),
    }
}

/// The revenue of returned orders that a query is.
pub fn plan_returned_customer_revenue(query: &QueryAst) -> (result: SqlResult<
    Option<ReturnedRevenuePlan>,
>)
    ensures
        match returned_revenue_of(*query) {
            Ok(Some(expected)) => result matches Ok(Some(plan)) && plan@ == expected,
            Ok(None) => result matches Ok(None),
            Err(failure) => fails_with(result, failure),
        },
{
    let select = match &query.body {
        QueryBody::Select(select) => select,
        _ => {
            return Ok(None);
        },
    };
    let selection = match &select.selection {
        Some(selection) => selection,
        None => {
            return Ok(None);
        },
    };
    if !is_returned_customer_revenue(select, query, selection) {
        return Ok(None);
    }
    let tables = match read_joined_tables(query, select, 4) {
        Ok(Some(tables)) => tables,
        Ok(None) => {
            return Ok(None);
        },
        Err(error) => {
            return Err(error);
        },
    };
    let customer = find_table(&tables, "customer");
    let orders = find_table(&tables, "orders");
    let lineitem = find_table(&tables, "lineitem");
    let nation = find_table(&tables, "nation");
    let (customer, orders, lineitem, nation) = match (customer, orders, lineitem, nation) {
        (Some(customer), Some(orders), Some(lineitem), Some(nation)) => (
            customer,
            orders,
            lineitem,
            nation,
        ),
        _ => {
            return Ok(None);
        },
    };
    let conjuncts = collect_sql_and_conjuncts(selection);
    let (start_days, end_days): (i32, i32) = match date_range_bounds(
        conjuncts.as_slice(),
        "o_orderdate",
    ) {
        Ok(Some(range)) => range,
        Ok(None) => {
            return Ok(None);
        },
        Err(error) => {
            return Err(error);
        },
    };
    Ok(
        Some(
            ReturnedRevenuePlan { customer, orders, lineitem, nation, start_days, end_days },
        ),
    )
}

/// What the revenue of local suppliers reads.
#[derive(Debug)]
pub struct RegionalRevenuePlan {
    pub customer: String,
    pub orders: String,
    pub lineitem: String,
    pub supplier: String,
    pub nation: String,
    pub region: String,
    pub region_name: String,
    pub start_days: i32,
    pub end_days: i32,
}

/// What the revenue of local suppliers reads, as a value.
pub struct RegionalRevenue {
    pub customer: Seq<char>,
    pub orders: Seq<char>,
    pub lineitem: Seq<char>,
    pub supplier: Seq<char>,
    pub nation: Seq<char>,
    pub region: Seq<char>,
    pub region_name: Seq<char>,
    pub start_days: i32,
    pub end_days: i32,
}

impl View for RegionalRevenuePlan {
    type V = RegionalRevenue;

    open spec fn view(&self) -> RegionalRevenue {
        RegionalRevenue {
            customer: self.customer@,
            orders: self.orders@,
            lineitem: self.lineitem@,
            supplier: self.supplier@,
            nation: self.nation@,
            region: self.region@,
            region_name: self.region_name@,
            start_days: self.start_days,
            end_days: self.end_days,
        }
    }
}

/// The revenue of local suppliers that a query is, `None` where it is none.
pub open spec fn regional_revenue_of(query: QueryAst) -> Result<Option<RegionalRevenue>, Failure> {
    match query.body {
        QueryBody::Select(select) => match select.selection {
            None => Ok(None),
            Some(selection) => if !regional_supplier_revenue_shape(*select, query, selection) {
                Ok(None)
            } else {
                match joined_tables(query, *select, 6) {
                    Err(failure) => Err(failure),
                    Ok(None) => Ok(None),
                    Ok(Some(tables)) => match (
                        last_named(tables, "customer"@),
                        last_named(tables, "orders"@),
                        last_named(tables, "lineitem"@),
                        last_named(tables, "supplier"@),
                        last_named(tables, "nation"@),
                        last_named(tables, "region"@),
                    ) {
                        (
                            Some(customer),
                            Some(orders),
                            Some(lineitem),
                            Some(supplier),
                            Some(nation),
                            Some(region),
                        ) => match region_and_days(selection) {
                            Step::Fail(message) => Err(Failure::Unsupported(message)),
                            Step::Skip => Ok(None),
                            Step::Keep((region_name, (start_days, end_days))) => Ok(
                                Some(
                                    RegionalRevenue {
                                        customer,
                                        orders,
                                        lineitem,
                                        supplier,
                                        nation,
                                        region,
                                        region_name,
                                        start_days,
                                        end_days,
                                    },
                                ),
                            ),
                        },
                        _ => Ok(None),
                    },
                }
            },
        },
        _ => Ok(None),
    }
}

/// The region and the range of days that a filter asks for.
pub open spec fn region_and_days(selection: SqlExpr) -> Step<(Seq<char>, (i32, i32))> {
    let conjuncts = conjuncts_of(&selection);
    match first_step(
        compared_texts(conjuncts, SqlBinaryOperator::Eq, "r_name"@),
        conjuncts.len() as int,
    ) {
        Step::Fail(message) => Step::Fail(message),
        Step::Skip => Step::Skip,
        Step::Keep(region) => match day_range(conjuncts, "o_orderdate"@) {
            Step::Fail(message) => Step::Fail(message),
            Step::Skip => Step::Skip,
            Step::Keep(days) => Step::Keep((region, days)),
        },
    }
}

/// The revenue of local suppliers that a query is.
pub fn plan_regional_supplier_revenue(query: &QueryAst) -> (result: SqlResult<
    Option<RegionalRevenuePlan>,
>)
    ensures
        match regional_revenue_of(*query) {
            Ok(Some(expected)) => result matches Ok(Some(plan)) && plan@ == expected,
            Ok(None) => result matches Ok(None),
            Err(failure) => fails_with(result, failure),
        },
{
    let select = match &query.body {
        QueryBody::Select(select) => select,
        _ => {
            return Ok(None);
        },
    };
    let selection = match &select.selection {
        Some(selection) => selection,
        None => {
            return Ok(None);
        },
    };
    if !is_regional_supplier_revenue(select, query, selection) {
        return Ok(None);
    }
    let tables = match read_joined_tables(query, select, 6) {
        Ok(Some(tables)) => tables,
        Ok(None) => {
            return Ok(None);
        },
        Err(error) => {
            return Err(error);
        },
    };
    let customer = find_table(&tables, "customer");
    let orders = find_table(&tables, "orders");
    let lineitem = find_table(&tables, "lineitem");
    let supplier = find_table(&tables, "supplier");
    let nation = find_table(&tables, "nation");
    let region = find_table(&tables, "region");
    let (
        customer,
        orders,
        lineitem,
        supplier,
        nation,
        region,
    ) = match (customer, orders, lineitem, supplier, nation, region) {
        (
            Some(customer),
            Some(orders),
            Some(lineitem),
            Some(supplier),
            Some(nation),
            Some(region),
        ) => (
            customer,
            orders,
            lineitem,
            supplier,
            nation,
            region,
        ),
        _ => {
            return Ok(None);
        },
    };
    let conjuncts = collect_sql_and_conjuncts(selection);
    let region_name = match string_equality_literal(conjuncts.as_slice(), "r_name") {
        Ok(Some(name)) => name,
        Ok(None) => {
            return Ok(None);
        },
        Err(error) => {
            return Err(error);
        },
    };
    let (start_days, end_days): (i32, i32) = match date_range_bounds(
        conjuncts.as_slice(),
        "o_orderdate",
    ) {
        Ok(Some(range)) => range,
        Ok(None) => {
            return Ok(None);
        },
        Err(error) => {
            return Err(error);
        },
    };
    Ok(
        Some(
            RegionalRevenuePlan {
                customer,
                orders,
                lineitem,
                supplier,
                nation,
                region,
                region_name,
                start_days,
                end_days,
            },
        ),
    )
}

/// What the suppliers with enough of some parts are read from.
#[derive(Debug)]
pub struct PrefixSupplierPlan {
    pub supplier: String,
    pub nation: String,
    pub partsupp: String,
    pub part: String,
    pub lineitem: String,
}

/// What the suppliers with enough of some parts are read from, as a value.
pub struct PrefixSupplier {
    pub supplier: Seq<char>,
    pub nation: Seq<char>,
    pub partsupp: Seq<char>,
    pub part: Seq<char>,
    pub lineitem: Seq<char>,
}

impl View for PrefixSupplierPlan {
    type V = PrefixSupplier;

    open spec fn view(&self) -> PrefixSupplier {
        PrefixSupplier {
            supplier: self.supplier@,
            nation: self.nation@,
            partsupp: self.partsupp@,
            part: self.part@,
            lineitem: self.lineitem@,
        }
    }
}

/// The suppliers with enough of some parts that a query asks for, `None` where it does
/// not.
pub open spec fn prefix_supplier_of(query: QueryAst) -> Result<Option<PrefixSupplier>, Failure> {
    match query.body {
        QueryBody::Select(select) => match select.selection {
            None => Ok(None),
            Some(selection) => if !prefix_part_supplier_threshold_shape(*select, selection) {
                Ok(None)
            } else {
                match joined_tables(query, *select, 2) {
                    Err(failure) => Err(failure),
                    Ok(None) => Ok(None),
                    Ok(Some(tables)) => match (
                        last_named(tables, "supplier"@),
                        last_named(tables, "nation"@),
                        path_in(selection, "partsupp"@),
                        path_in(selection, "part"@),
                        path_in(selection, "lineitem"@),
                    ) {
                        (
                            Some(supplier),
                            Some(nation),
                            Some(partsupp),
                            Some(part),
                            Some(lineitem),
                        ) => Ok(
                            Some(PrefixSupplier { supplier, nation, partsupp, part, lineitem }),
                        ),
                        _ => Ok(None),
                    },
                }
            },
        },
        _ => Ok(None),
    }
}

/// The suppliers with enough of some parts that a query asks for.
pub fn plan_prefix_part_supplier_threshold(query: &QueryAst) -> (result: SqlResult<
    Option<PrefixSupplierPlan>,
>)
    ensures
        match prefix_supplier_of(*query) {
            Ok(Some(expected)) => result matches Ok(Some(plan)) && plan@ == expected,
            Ok(None) => result matches Ok(None),
            Err(failure) => fails_with(result, failure),
        },
{
    let select = match &query.body {
        QueryBody::Select(select) => select,
        _ => {
            return Ok(None);
        },
    };
    let selection = match &select.selection {
        Some(selection) => selection,
        None => {
            return Ok(None);
        },
    };
    if !is_prefix_part_supplier_threshold(select, selection) {
        return Ok(None);
    }
    let tables = match read_joined_tables(query, select, 2) {
        Ok(Some(tables)) => tables,
        Ok(None) => {
            return Ok(None);
        },
        Err(error) => {
            return Err(error);
        },
    };
    let supplier = find_table(&tables, "supplier");
    let nation = find_table(&tables, "nation");
    let partsupp = first_table_path_in_subqueries(selection, "partsupp");
    let part = first_table_path_in_subqueries(selection, "part");
    let lineitem = first_table_path_in_subqueries(selection, "lineitem");
    match (supplier, nation, partsupp, part, lineitem) {
        (Some(supplier), Some(nation), Some(partsupp), Some(part), Some(lineitem)) => Ok(
            Some(PrefixSupplierPlan { supplier, nation, partsupp, part, lineitem }),
        ),
        _ => Ok(None),
    }
}

/// What the profit by nation and year is read from.
#[derive(Debug)]
pub struct ProfitPlan {
    pub part: String,
    pub supplier: String,
    pub lineitem: String,
    pub partsupp: String,
    pub orders: String,
    pub nation: String,
    pub name_substring: String,
}

/// What the profit by nation and year is read from, as a value.
pub struct Profit {
    pub part: Seq<char>,
    pub supplier: Seq<char>,
    pub lineitem: Seq<char>,
    pub partsupp: Seq<char>,
    pub orders: Seq<char>,
    pub nation: Seq<char>,
    pub name_substring: Seq<char>,
}

impl View for ProfitPlan {
    type V = Profit;

    open spec fn view(&self) -> Profit {
        Profit {
            part: self.part@,
            supplier: self.supplier@,
            lineitem: self.lineitem@,
            partsupp: self.partsupp@,
            orders: self.orders@,
            nation: self.nation@,
            name_substring: self.name_substring@,
        }
    }
}

/// The rows that profit is reported of, `None` where a subquery does not give them.
pub open spec fn profit_rows_of(query: QueryAst) -> Result<Option<Profit>, Failure> {
    match query.body {
        QueryBody::Select(select) => match select.selection {
            None => Ok(None),
            Some(selection) => if !q09_inner_shape(*select, selection) {
                Ok(None)
            } else {
                match joined_tables(query, *select, 6) {
                    Err(failure) => Err(failure),
                    Ok(None) => Ok(None),
                    Ok(Some(tables)) => match (
                        last_named(tables, "part"@),
                        last_named(tables, "supplier"@),
                        last_named(tables, "lineitem"@),
                        last_named(tables, "partsupp"@),
                        last_named(tables, "orders"@),
                        last_named(tables, "nation"@),
                    ) {
                        (
                            Some(part),
                            Some(supplier),
                            Some(lineitem),
                            Some(partsupp),
                            Some(orders),
                            Some(nation),
                        ) => match first_step(
                            pattern_steps(
                                conjuncts_of(&selection),
                                "p_name"@,
                                false,
                                PatternShape::Contains,
                            ),
                            conjuncts_of(&selection).len() as int,
                        ) {
                            Step::Fail(message) => Err(Failure::Unsupported(message)),
                            Step::Skip => Ok(None),
                            Step::Keep(name_substring) => Ok(
                                Some(
                                    Profit {
                                        part,
                                        supplier,
                                        lineitem,
                                        partsupp,
                                        orders,
                                        nation,
                                        name_substring,
                                    },
                                ),
                            ),
                        },
                        _ => Ok(None),
                    },
                }
            },
        },
        _ => Ok(None),
    }
}

/// The profit by nation and year that a query is, `None` where it is none.
pub open spec fn profit_of(query: QueryAst) -> Result<Option<Profit>, Failure> {
    match query.body {
        QueryBody::Select(select) => if !q09_outer_shape(*select, query) {
            Ok(None)
        } else if query_refused(query) {
            Err(query_refusal())
        } else if select_refused(*select) {
            Err(select_refusal())
        } else {
            match derived_query(*select) {
                Some(inner) => profit_rows_of(inner),
                None => Ok(None),
            }
        },
        _ => Ok(None),
    }
}

/// The rows that profit is reported of.
fn plan_profit_rows(query: &QueryAst) -> (result: SqlResult<Option<ProfitPlan>>)
    ensures
        match profit_rows_of(*query) {
            Ok(Some(expected)) => result matches Ok(Some(plan)) && plan@ == expected,
            Ok(None) => result matches Ok(None),
            Err(failure) => fails_with(result, failure),
        },
{
    let select = match &query.body {
        QueryBody::Select(select) => select,
        _ => {
            return Ok(None);
        },
    };
    let selection = match &select.selection {
        Some(selection) => selection,
        None => {
            return Ok(None);
        },
    };
    if !is_profit_rows(select, selection) {
        return Ok(None);
    }
    let tables = match read_joined_tables(query, select, 6) {
        Ok(Some(tables)) => tables,
        Ok(None) => {
            return Ok(None);
        },
        Err(error) => {
            return Err(error);
        },
    };
    let part = find_table(&tables, "part");
    let supplier = find_table(&tables, "supplier");
    let lineitem = find_table(&tables, "lineitem");
    let partsupp = find_table(&tables, "partsupp");
    let orders = find_table(&tables, "orders");
    let nation = find_table(&tables, "nation");
    let (
        part,
        supplier,
        lineitem,
        partsupp,
        orders,
        nation,
    ) = match (part, supplier, lineitem, partsupp, orders, nation) {
        (
            Some(part),
            Some(supplier),
            Some(lineitem),
            Some(partsupp),
            Some(orders),
            Some(nation),
        ) => (
            part,
            supplier,
            lineitem,
            partsupp,
            orders,
            nation,
        ),
        _ => {
            return Ok(None);
        },
    };
    let conjuncts = collect_sql_and_conjuncts(selection);
    match like_contains_literal(conjuncts.as_slice(), "p_name") {
        Ok(Some(name_substring)) => Ok(
            Some(
                ProfitPlan { part, supplier, lineitem, partsupp, orders, nation, name_substring },
            ),
        ),
        Ok(None) => Ok(None),
        Err(error) => Err(error),
    }
}

/// The profit by nation and year that a query is.
pub fn plan_profit_by_nation_year(query: &QueryAst) -> (result: SqlResult<Option<ProfitPlan>>)
    ensures
        match profit_of(*query) {
            Ok(Some(expected)) => result matches Ok(Some(plan)) && plan@ == expected,
            Ok(None) => result matches Ok(None),
            Err(failure) => fails_with(result, failure),
        },
{
    let select = match &query.body {
        QueryBody::Select(select) => select,
        _ => {
            return Ok(None);
        },
    };
    if !is_profit_report(select, query) {
        return Ok(None);
    }
    match reject_query_features(query) {
        Ok(()) => {},
        Err(error) => {
            return Err(error);
        },
    }
    match reject_select_features(select) {
        Ok(()) => {},
        Err(error) => {
            return Err(error);
        },
    }
    match parse_derived_from(select) {
        Some(inner) => plan_profit_rows(inner),
        None => Ok(None),
    }
}

} // verus!
