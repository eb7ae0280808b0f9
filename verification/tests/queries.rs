use dodam_sql::ast::{QueryAst, QueryBody, SelectAst, SqlExpr, StatementAst};
use dodam_sql::conjuncts::{
    collect_sql_and_conjuncts, date_between_bounds, date_range_bounds, like_contains_literal,
    like_suffix_literal, lower_numeric_bound, not_like_prefix_literal, numeric_between_bounds,
    numeric_i64_equality_literal, string_equality_literal, string_inequality_literal,
    upper_numeric_bound,
};
use dodam_sql::error::{SqlError, SqlResult};
use dodam_sql::filters::{
    combine_expr_filters, i64_range_pruning_predicates, reverse_binary_operator, FilterExpr,
};
use dodam_sql::joins::{
    combine_sql_and_conjuncts, comma_join_equality_keys, common_or_comma_join_equality_keys,
    into_conjuncts, split_subquery_residual,
};
use dodam_sql::literals::{literal_date_days, maybe_literal_date_days, LiteralValue};
use dodam_sql::names::{
    add_columns_once, infer_tpch_table_alias, sql_column_name, tpch_alias_prefix,
    unqualified_column_matches_table_alias, Scope,
};
use dodam_sql::paths::paths_equal;
use dodam_sql::plan::{Projection, SortExpr, SortKey};
use dodam_sql::predicate_pushdown::{
    safe_expression_pushdown_filter, split_expression_filters, ConjunctPlan,
};
use dodam_sql::predicates::{
    expr_contains_materializable_subquery, expr_contains_scalar_subquery,
    predicate_expression_columns, predicate_requires_expression_path,
};
use dodam_sql::product_expression::{product_expression_shape, ProductTermTransform};
use dodam_sql::projection_expression::{
    choose_route, choose_scan, monotonic_question, plan_computed_scan, read_computed_query,
    tries_late, ComputedRoute, FilterRoute, MonotonicQuestion, StreamLimitFlags,
};
use dodam_sql::query_modifiers::scan_limit_with_offset;
use dodam_sql::query_routing::{
    relaxed, sql_select_has_explicit_join, sql_uses_materialized_subquery,
    sql_uses_multi_comma_join, sql_uses_set_operation,
};
use dodam_sql::recognized::{
    plan_prefix_part_supplier_threshold, plan_pricing_summary, plan_profit_by_nation_year,
    plan_regional_supplier_revenue, plan_returned_customer_revenue,
};
use dodam_sql::scalar::{parse_scalar_sql_expression, scalar_expression_columns};
use dodam_sql::sql_reading::read_sql;
use dodam_sql::subquery_literals::{
    first_table_path_in_subqueries, like_substrings_literal, numeric_in_literals, split_parts,
};
use dodam_sql::tables_from::table_file_name;

fn query(sql: &str) -> QueryAst {
    let mut statements = match read_sql(sql) {
        Ok(statements) => statements,
        Err(error) => panic!("{}", error.message()),
    };
    match statements.remove(0) {
        StatementAst::Query(query) => *query,
        StatementAst::Other => panic!("a query"),
    }
}

fn select(query: &QueryAst) -> &SelectAst {
    match &query.body {
        QueryBody::Select(select) => select,
        _ => panic!("a select"),
    }
}

fn filter(condition: &str) -> SqlExpr {
    match query(&format!("SELECT a FROM t WHERE {condition}")).body {
        QueryBody::Select(select) => select.selection.expect("a filter"),
        _ => panic!("a select"),
    }
}

fn message<T>(result: SqlResult<T>) -> String {
    match result {
        Ok(_) => panic!("an error was expected"),
        Err(error) => error.message(),
    }
}

fn found<T>(result: SqlResult<T>) -> T {
    match result {
        Ok(value) => value,
        Err(error) => panic!("{}", error.message()),
    }
}

#[test]
fn conjuncts_are_taken_apart_and_put_together() {
    let whole = filter("a = 1 AND (b = 2 AND c = 3) AND d = 4");
    let texts: Vec<&str> =
        collect_sql_and_conjuncts(&whole).iter().map(|part| part.text.as_str()).collect();
    assert_eq!(texts, ["a = 1", "b = 2", "c = 3", "d = 4"]);
    let parts = into_conjuncts(whole);
    let again = combine_sql_and_conjuncts(parts).expect("a conjunction");
    assert_eq!(collect_sql_and_conjuncts(&again).len(), 4);
    assert!(combine_sql_and_conjuncts(Vec::new()).is_none());
}

#[test]
fn literals_are_found_beside_their_column() {
    let whole = filter(
        "brand = 'B' AND kind <> 'K' AND 7 = size AND name LIKE '%green%' AND tail LIKE '%END' \
         AND head NOT LIKE 'MED%' AND q BETWEEN 1 AND 2 AND low >= 3 AND high < 4.5 \
         AND d >= DATE '1994-01-01' AND d < DATE '1995-01-01' \
         AND e BETWEEN DATE '1995-01-01' AND DATE '1996-12-31'",
    );
    let parts = collect_sql_and_conjuncts(&whole);
    assert_eq!(found(string_equality_literal(&parts, "BRAND")), Some("B".to_string()));
    assert_eq!(found(string_equality_literal(&parts, "kind")), None);
    assert_eq!(found(string_inequality_literal(&parts, "kind")), Some("K".to_string()));
    assert_eq!(found(numeric_i64_equality_literal(&parts, "size")), Some(7));
    assert_eq!(found(like_contains_literal(&parts, "name")), Some("green".to_string()));
    assert_eq!(found(like_suffix_literal(&parts, "tail")), Some("END".to_string()));
    assert_eq!(found(not_like_prefix_literal(&parts, "head")), Some("MED".to_string()));
    assert!(matches!(
        found(numeric_between_bounds(&parts, "q")),
        Some((LiteralValue::Int64(1), LiteralValue::Int64(2)))
    ));
    assert!(matches!(found(lower_numeric_bound(&parts, "low")), Some(LiteralValue::Int64(3))));
    assert!(matches!(
        found(upper_numeric_bound(&parts, "high")),
        Some(LiteralValue::Float64(text)) if text == "4.5"
    ));
    assert_eq!(found(date_range_bounds(&parts, "d")), Some((8_766, 9_131)));
    assert_eq!(found(date_between_bounds(&parts, "e")), Some((9_131, 9_861)));
    assert_eq!(found(date_between_bounds(&parts, "d")), None);
    let wrong = filter("brand = other");
    let wrong = collect_sql_and_conjuncts(&wrong);
    assert_eq!(
        message(string_equality_literal(&wrong, "brand")),
        "expected literal value, got other"
    );
}

#[test]
fn lists_and_patterns_are_read() {
    let whole = filter("p_size IN (49, 14, 23) AND s_comment LIKE '%Customer%Complaints%'");
    let parts = collect_sql_and_conjuncts(&whole);
    let values = found(numeric_in_literals(&parts, "p_size")).expect("a list");
    assert_eq!(values.len(), 3);
    assert!(matches!(values[1], LiteralValue::Int64(14)));
    assert!(found(numeric_in_literals(&parts, "other")).is_none());
    assert_eq!(
        found(like_substrings_literal(&whole, "s_comment")),
        Some(vec!["Customer".to_string(), "Complaints".to_string()])
    );
    assert_eq!(split_parts("a%b", '%'), vec!["a".to_string(), "b".to_string()]);
    let wrong = filter("p_size IN (x)");
    let wrong = collect_sql_and_conjuncts(&wrong);
    assert_eq!(message(numeric_in_literals(&wrong, "p_size")), "expected literal value, got x");
}

#[test]
fn dates_are_literals() {
    let whole = filter("d = DATE '1970-01-02'");
    let side = match whole.kind {
        dodam_sql::ast::SqlExprKind::BinaryOp { right, .. } => right,
        _ => panic!("a comparison"),
    };
    assert_eq!(found(literal_date_days(&side)), 1);
    assert_eq!(found(maybe_literal_date_days(&side)), Some(1));
    let other = filter("a + 1 > 2");
    assert!(literal_date_days(&other).is_err());
    assert_eq!(found(maybe_literal_date_days(&other)), None);
}

#[test]
fn subqueries_are_noticed() {
    let scalar = filter("a > (SELECT max(b) FROM u x)");
    assert!(expr_contains_scalar_subquery(&scalar));
    assert!(expr_contains_materializable_subquery(&scalar));
    let exists = filter("EXISTS (SELECT 1 FROM u WHERE v IN (SELECT w FROM deep))");
    assert!(!expr_contains_scalar_subquery(&exists));
    assert!(expr_contains_materializable_subquery(&exists));
    assert_eq!(first_table_path_in_subqueries(&exists, "deep"), Some("deep".to_string()));
    assert_eq!(first_table_path_in_subqueries(&exists, "t"), None);
    assert!(!expr_contains_materializable_subquery(&filter("a = 1")));
    let (subquery, rest) = split_subquery_residual(Some(filter("a = 1 AND b > (SELECT 1)")));
    let texts: Vec<String> =
        [subquery, rest].into_iter().flatten().map(|part| part.text).collect();
    assert_eq!(texts.len(), 2);
    assert!(texts.contains(&"a = 1".to_string()));
}

#[test]
fn computed_filters_name_their_columns() {
    let computed = filter("lower(a) = 'x' AND b + c > 1");
    assert!(predicate_requires_expression_path(&computed));
    assert_eq!(found(predicate_expression_columns(&computed, None)), vec!["a", "b", "c"]);
    assert!(!predicate_requires_expression_path(&filter("a = 1 AND b IN (2, 3)")));
}

#[test]
fn filters_are_pushed_ahead_where_nothing_is_lost() {
    let plain = filter("a > 3");
    match found(safe_expression_pushdown_filter(&plain, Scope::Table(None))) {
        Some(FilterExpr::Comparison(comparison)) => assert_eq!(comparison.column, "a"),
        other => panic!("{other:?}"),
    }
    let computed = filter("a + b > 3");
    assert!(found(safe_expression_pushdown_filter(&computed, Scope::Table(None))).is_none());
    let ahead = |condition: &str| {
        found(safe_expression_pushdown_filter(&filter(condition), Scope::Table(None)))
    };
    assert!(ahead("NOT (a > 3)").is_none());
    assert!(ahead("a > 3 OR a + b > 3").is_none());
    assert!(ahead("a + b > 3 OR a > 3").is_none());
    assert!(matches!(ahead("a > 3 OR b < 2"), Some(FilterExpr::Or(_, _))));
    assert!(matches!(
        ahead("a > 3 AND a + b > 3"),
        Some(FilterExpr::Comparison(comparison)) if comparison.column == "a"
    ));
    assert!(matches!(
        ahead("a IN (1, NULL, 2)"),
        Some(FilterExpr::InList { values, has_null: true, negated: false, .. }) if values.len() == 2
    ));
    assert!(matches!(ahead("a BETWEEN 1 AND 2"), Some(FilterExpr::And(_, _))));
    assert!(matches!(ahead("a NOT BETWEEN 1 AND 2"), Some(FilterExpr::Or(_, _))));
    assert!(matches!(ahead("a IS NULL"), Some(FilterExpr::IsNull { negated: false, .. })));
    assert!(matches!(ahead("a LIKE 'x%'"), Some(FilterExpr::Like { .. })));
    // A null is compared as the literal in its place.
    assert!(matches!(ahead("coalesce(a, 5) > 3"), Some(FilterExpr::Or(_, _))));
    assert!(matches!(ahead("coalesce(a, 1) > 3"), Some(FilterExpr::Comparison(_))));
    let whole = filter("a > 3 AND lower(b) = 'x'");
    let plans = found(split_expression_filters(&whole, Scope::Table(None)));
    assert_eq!(plans.len(), 2);
    assert!(matches!(plans[0], ConjunctPlan::Scanned(_)));
    assert!(matches!(plans[1], ConjunctPlan::Computed { .. }));
    let filters = i64_range_pruning_predicates("k", 2, 5);
    assert_eq!(filters.len(), 2);
    assert!(matches!(combine_expr_filters(filters), Some(FilterExpr::And(_, _))));
    assert!(combine_expr_filters(Vec::new()).is_none());
    for op in [
        dodam_sql::ast::SqlBinaryOperator::Lt,
        dodam_sql::ast::SqlBinaryOperator::GtEq,
        dodam_sql::ast::SqlBinaryOperator::Eq,
    ] {
        assert_eq!(reverse_binary_operator(reverse_binary_operator(op)), op);
    }
}

#[test]
fn join_keys_are_found() {
    let equality = filter("o.custkey = c.custkey");
    assert_eq!(
        comma_join_equality_keys(&equality, "c", "o"),
        Some(("custkey".to_string(), "custkey".to_string()))
    );
    assert_eq!(comma_join_equality_keys(&filter("o.a > c.a"), "c", "o"), None);
    let either = filter("(o.k = c.k AND o.x = 1) OR (o.k = c.k AND o.x = 2)");
    assert_eq!(
        common_or_comma_join_equality_keys(&either, "o", "c"),
        vec![("k".to_string(), "k".to_string())]
    );
}

#[test]
fn names_belong_to_their_tables() {
    assert_eq!(tpch_alias_prefix("lineitem"), Some("l"));
    assert_eq!(tpch_alias_prefix("mystery"), None);
    assert_eq!(infer_tpch_table_alias("o", &["customer", "orders"]), Some("orders"));
    assert!(unqualified_column_matches_table_alias("l_orderkey", Some("lineitem")));
    assert!(!unqualified_column_matches_table_alias("l_orderkey", Some("orders")));
    let mut columns = vec!["a".to_string()];
    add_columns_once(&mut columns, vec!["b".to_string(), "a".to_string(), "b".to_string()]);
    assert_eq!(columns, vec!["a", "b"]);
    assert_eq!(table_file_name("lake/dir/lineitem.parquet"), "lineitem");
    assert_eq!(table_file_name("lineitem/."), "lineitem");
    assert_eq!(table_file_name("lake//lineitem.v2.parquet//"), "lineitem.v2");
    assert_eq!(table_file_name("lake/.hidden"), ".hidden");
    for nameless in ["", "/", ".", "..", "lake/.."] {
        assert_eq!(table_file_name(nameless), "");
    }
    for (left, right, same) in [
        ("a//x", "a/x", true),
        ("a/./x/", "a/x", true),
        ("/./a", "//a", true),
        ("./a", "a", false),
        ("/a", "a", false),
        ("a/../x", "x", false),
    ] {
        assert_eq!(paths_equal(left, right), same, "{left} {right}");
    }
    let sum = filter("a + 1 > 0");
    assert_eq!(
        message(sql_column_name(&sum, Scope::Table(None))),
        "expected column identifier, got a + 1 > 0"
    );
}

#[test]
fn products_are_recognised() {
    let statement = query("SELECT price * (1 - discount) * (1 + tax) FROM t");
    let expr = match &select(&statement).projection[0].kind {
        dodam_sql::ast::SelectEntryKind::UnnamedExpr(expr) => expr,
        _ => panic!("an expression"),
    };
    let scalar = found(parse_scalar_sql_expression(expr, Scope::Table(None)));
    assert_eq!(scalar_expression_columns(&scalar), vec!["price", "discount", "tax"]);
    let shape = product_expression_shape(&scalar).expect("a product");
    let terms: Vec<(&str, ProductTermTransform)> =
        shape.terms.iter().map(|term| (term.column.as_str(), term.transform)).collect();
    assert_eq!(
        terms,
        vec![
            ("price", ProductTermTransform::Identity),
            ("discount", ProductTermTransform::OneMinus),
            ("tax", ProductTermTransform::OnePlus)
        ]
    );
    assert_eq!(ProductTermTransform::OneMinus.apply_raw_i64(10, 100), 90);
    assert_eq!(ProductTermTransform::OnePlus.apply_raw_i64(10, 100), 110);
    // Ten per cent off a hundred, with a tenth of tax: the factors make the product.
    assert_eq!(
        100 * ProductTermTransform::OneMinus.apply_raw_i64(10, 100)
            * ProductTermTransform::OnePlus.apply_raw_i64(10, 100),
        990_000
    );
    for (number, one) in [
        ("1.0", true),
        ("1e0", true),
        ("1E+0", true),
        ("10e-1", true),
        ("0.01e2", true),
        ("001.00e-00", true),
        ("1e1", false),
        ("10e-2", false),
        ("11e-1", false),
        ("0.1", false),
        ("2e0", false),
    ] {
        let statement = query(&format!("SELECT price * ({number} - discount) FROM t"));
        let expr = match &select(&statement).projection[0].kind {
            dodam_sql::ast::SelectEntryKind::UnnamedExpr(expr) => expr,
            _ => panic!("an expression"),
        };
        let scalar = found(parse_scalar_sql_expression(expr, Scope::Table(None)));
        assert_eq!(product_expression_shape(&scalar).is_some(), one, "{number}");
    }
    let sum = query("SELECT a + b FROM t");
    let expr = match &select(&sum).projection[0].kind {
        dodam_sql::ast::SelectEntryKind::UnnamedExpr(expr) => expr,
        _ => panic!("an expression"),
    };
    let scalar = found(parse_scalar_sql_expression(expr, Scope::Table(None)));
    assert!(product_expression_shape(&scalar).is_none());
}

#[test]
fn statements_are_routed() {
    assert!(found(sql_uses_materialized_subquery("SELECT a FROM (SELECT a FROM t) d")));
    assert!(found(sql_uses_materialized_subquery("SELECT a FROM t WHERE a IN (SELECT b FROM u)")));
    assert!(!found(sql_uses_materialized_subquery("SELECT a FROM t")));
    assert!(found(sql_uses_multi_comma_join("SELECT a FROM t, u, v")));
    assert!(!found(sql_uses_multi_comma_join("SELECT a FROM t, u")));
    assert!(found(sql_select_has_explicit_join("SELECT a FROM t JOIN u ON t.k = u.k")));
    assert!(!found(sql_select_has_explicit_join("SELECT a FROM t, u")));
    assert!(found(sql_uses_set_operation("SELECT a FROM t UNION ALL SELECT a FROM u")));
    assert!(!found(sql_uses_set_operation("SELECT a FROM t")));
    assert!(message(sql_uses_set_operation("SELECT a FROM")).starts_with("sql parser error"));
    assert_eq!(found(relaxed(Ok(Some(3)))), Some(3));
    let mismatch: SqlResult<Option<i32>> =
        Err(SqlError::unsupported("only direct table scans are supported"));
    assert!(found(relaxed(mismatch)).is_none());
    let other: SqlResult<Option<i32>> = Err(SqlError::unsupported("disk on fire"));
    assert_eq!(message(relaxed(other)), "disk on fire");
}

#[test]
fn offsets_widen_the_scan() {
    assert_eq!(found(scan_limit_with_offset(Some(3), 4)), Some(7));
    assert_eq!(found(scan_limit_with_offset(None, 4)), None);
    assert!(scan_limit_with_offset(Some(usize::MAX), 1).is_err());
}

fn flags(stream_limit: bool, monotonic: bool, exact_monotonic: bool, auto_exact: bool) -> StreamLimitFlags {
    StreamLimitFlags { stream_limit, monotonic, exact_monotonic, auto_exact }
}

#[test]
fn limits_wait_for_filters() {
    let order = SortKey {
        expressions: vec![SortExpr {
            column: "a".to_string(),
            descending: false,
            nulls_first: false,
        }],
    };
    let none = choose_scan(false, Some(5), Some(&order), flags(true, true, true, true), true);
    assert_eq!((none.ordered, none.scan_limit, none.filter_after), (true, Some(5), false));
    let later = choose_scan(true, Some(5), Some(&order), flags(false, false, false, false), false);
    assert_eq!((later.scan_limit, later.stream_limited, later.filter_after), (None, false, true));
    let ordered = choose_scan(true, Some(5), Some(&order), flags(true, false, false, false), false);
    assert!(ordered.ordered && ordered.stream_limited && !ordered.filter_after);
    let ascending = choose_scan(true, Some(5), Some(&order), flags(false, false, false, true), true);
    assert!(!ascending.ordered && ascending.stream_limited);
    let unknown = choose_scan(true, Some(5), Some(&order), flags(false, false, false, true), false);
    assert!(!unknown.stream_limited && unknown.filter_after);
    assert!(matches!(
        monotonic_question(true, Some(5), Some(&order), flags(false, false, false, true)),
        MonotonicQuestion::RowGroupsAndRows(column) if column == "a"
    ));
    assert!(matches!(
        monotonic_question(true, Some(5), Some(&order), flags(true, true, false, false)),
        MonotonicQuestion::RowGroups(column) if column == "a"
    ));
    assert!(matches!(
        monotonic_question(true, None, Some(&order), flags(true, true, false, true)),
        MonotonicQuestion::Unasked
    ));
}

#[test]
fn computed_queries_are_planned() {
    assert_eq!(choose_route(false, false, true, true, true, true), ComputedRoute::NotComputed);
    assert_eq!(choose_route(true, false, true, false, false, false), ComputedRoute::DistinctRefused);
    assert_eq!(choose_route(false, true, false, true, false, true), ComputedRoute::Aggregate);
    assert_eq!(choose_route(true, false, false, false, false, false), ComputedRoute::Rows);
    let statement = query("SELECT a + 1 AS n FROM t WHERE b > 2 ORDER BY c LIMIT 4");
    let computed = found(read_computed_query(&statement)).expect("one table");
    assert!(matches!(computed.filter, FilterRoute::Scanned(_)));
    let scan = found(plan_computed_scan(&statement, select(&statement), &computed, &[]))
        .expect("a computed list");
    assert!(!scan.aggregated);
    assert_eq!(scan.limit, Some(4));
    assert!(matches!(scan.projection, Projection::Columns(columns) if columns == ["a", "c"]));
    let statement = query("SELECT count(*) FROM t WHERE a + b > 2");
    let computed = found(read_computed_query(&statement)).expect("one table");
    let filters = match &computed.filter {
        FilterRoute::Split(plans) => plans
            .iter()
            .map(|plan| match plan {
                ConjunctPlan::Computed { conjunct, .. } => *conjunct,
                ConjunctPlan::Scanned(conjunct) => *conjunct,
            })
            .collect::<Vec<&SqlExpr>>(),
        _ => panic!("a computed filter"),
    };
    let scan = found(plan_computed_scan(&statement, select(&statement), &computed, &filters))
        .expect("a computed filter");
    assert!(scan.aggregated);
    assert!(matches!(scan.projection, Projection::Columns(columns) if columns == ["a", "b"]));
    // Of aggregated rows the columns are told before the order, of others after it.
    let unreadable = "NOT (SUBSTRING(a FOR 2) = lower(b))";
    for (list, expected) in [
        ("count(*)", "unsupported scalar expression: SUBSTRING(a FOR 2)"),
        ("a", "ORDER BY ordinal must be greater than zero"),
    ] {
        let statement = query(&format!("SELECT {list} FROM t WHERE {unreadable} ORDER BY 0"));
        let computed = found(read_computed_query(&statement)).expect("one table");
        let selection = select(&statement).selection.as_ref().expect("a filter");
        assert_eq!(
            message(plan_computed_scan(&statement, select(&statement), &computed, &[selection])),
            expected
        );
    }
    let distinct = query("SELECT DISTINCT a + 1 FROM t");
    let computed = found(read_computed_query(&distinct)).expect("one table");
    assert_eq!(
        message(plan_computed_scan(&distinct, select(&distinct), &computed, &[])),
        "projection expressions currently support only non-aggregate SELECT queries"
    );
    let joined = query("SELECT a FROM t, u");
    assert!(found(read_computed_query(&joined)).is_none());
    assert!(tries_late(true, false, true));
    assert!(!tries_late(false, false, true));
    assert!(!tries_late(true, true, true));
    assert!(!tries_late(true, false, false));
}

#[test]
fn pricing_summary_is_recognised() {
    let statement = query(
        "SELECT l_returnflag, l_linestatus, sum(l_quantity) AS sum_qty, \
         sum(l_extendedprice) AS sum_base_price, \
         sum(l_extendedprice * (1 - l_discount)) AS sum_disc_price, \
         sum(l_extendedprice * (1 - l_discount) * (1 + l_tax)) AS sum_charge, \
         avg(l_quantity) AS avg_qty, avg(l_extendedprice) AS avg_price, \
         avg(l_discount) AS avg_disc, count(*) AS count_order \
         FROM lineitem WHERE l_shipdate <= DATE '1998-09-02' \
         GROUP BY l_returnflag, l_linestatus ORDER BY l_returnflag, l_linestatus",
    );
    let plan = found(plan_pricing_summary(&statement)).expect("a pricing summary");
    assert_eq!(plan.path, "lineitem");
    assert_eq!(plan.cutoff_days, 10_471);
    assert!(found(plan_pricing_summary(&query("SELECT a FROM lineitem"))).is_none());
}

#[test]
fn returned_revenue_is_recognised() {
    let statement = query(
        "SELECT c_custkey, c_name, sum(l_extendedprice * (1 - l_discount)) AS revenue, c_acctbal, \
         n_name, c_address, c_phone, c_comment FROM customer, orders, lineitem, nation \
         WHERE c_custkey = o_custkey AND l_orderkey = o_orderkey \
         AND o_orderdate >= DATE '1993-10-01' AND o_orderdate < DATE '1994-01-01' \
         AND l_returnflag = 'R' AND c_nationkey = n_nationkey \
         GROUP BY c_custkey, c_name, c_acctbal, c_phone, n_name, c_address, c_comment \
         ORDER BY revenue DESC LIMIT 20",
    );
    let plan = found(plan_returned_customer_revenue(&statement)).expect("returned revenue");
    assert_eq!((plan.customer.as_str(), plan.nation.as_str()), ("customer", "nation"));
    assert_eq!((plan.start_days, plan.end_days), (8_674, 8_766));
    assert!(found(plan_returned_customer_revenue(&query("SELECT a FROM t"))).is_none());
}

#[test]
fn regional_revenue_is_recognised() {
    let statement = query(
        "SELECT n_name, sum(l_extendedprice * (1 - l_discount)) AS revenue \
         FROM customer, orders, lineitem, supplier, nation, region \
         WHERE c_custkey = o_custkey AND l_orderkey = o_orderkey AND l_suppkey = s_suppkey \
         AND c_nationkey = s_nationkey AND s_nationkey = n_nationkey \
         AND n_regionkey = r_regionkey AND r_name = 'ASIA' \
         AND o_orderdate >= DATE '1994-01-01' AND o_orderdate < DATE '1995-01-01' \
         GROUP BY n_name ORDER BY revenue DESC",
    );
    let plan = found(plan_regional_supplier_revenue(&statement)).expect("regional revenue");
    assert_eq!(plan.region_name, "ASIA");
    assert_eq!(plan.supplier, "supplier");
    assert_eq!((plan.start_days, plan.end_days), (8_766, 9_131));
    assert!(found(plan_regional_supplier_revenue(&query("SELECT a FROM t"))).is_none());
}

#[test]
fn prefix_suppliers_are_recognised() {
    let statement = query(
        "SELECT s_name, s_address FROM supplier, nation WHERE s_suppkey IN (SELECT ps_suppkey \
         FROM partsupp WHERE ps_partkey IN (SELECT p_partkey FROM part WHERE p_name LIKE 'forest%') \
         AND ps_availqty > (SELECT 0.5 * sum(l_quantity) FROM lineitem WHERE l_partkey = ps_partkey \
         AND l_suppkey = ps_suppkey AND l_shipdate >= DATE '1994-01-01' \
         AND l_shipdate < DATE '1995-01-01')) AND s_nationkey = n_nationkey \
         AND n_name = 'CANADA' ORDER BY s_name",
    );
    let plan = found(plan_prefix_part_supplier_threshold(&statement)).expect("a threshold");
    assert_eq!((plan.supplier.as_str(), plan.partsupp.as_str()), ("supplier", "partsupp"));
    assert_eq!((plan.part.as_str(), plan.lineitem.as_str()), ("part", "lineitem"));
    assert!(found(plan_prefix_part_supplier_threshold(&query("SELECT a FROM t"))).is_none());
}

#[test]
fn profit_is_recognised() {
    let statement = query(
        "SELECT nation, o_year, sum(amount) AS sum_profit FROM (SELECT n_name AS nation, \
         EXTRACT(YEAR FROM o_orderdate) AS o_year, \
         l_extendedprice * (1 - l_discount) - ps_supplycost * l_quantity AS amount \
         FROM part, supplier, lineitem, partsupp, orders, nation \
         WHERE s_suppkey = l_suppkey AND ps_suppkey = l_suppkey AND ps_partkey = l_partkey \
         AND p_partkey = l_partkey AND o_orderkey = l_orderkey AND s_nationkey = n_nationkey \
         AND p_name LIKE '%green%') AS profit GROUP BY nation, o_year ORDER BY nation, o_year DESC",
    );
    let plan = found(plan_profit_by_nation_year(&statement)).expect("profit");
    assert_eq!(plan.name_substring, "green");
    assert_eq!((plan.part.as_str(), plan.orders.as_str()), ("part", "orders"));
    assert!(found(plan_profit_by_nation_year(&query("SELECT a FROM t"))).is_none());
}
