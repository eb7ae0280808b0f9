use dodam_sql::aggregates::{aggregate_to_string, AggregateFunction};
use dodam_sql::ast::{DistinctKind, QueryBody, SqlBinaryOperator, SqlExprKind, StatementAst};
use dodam_sql::filters::{ComparisonOp, FilterExpr};
use dodam_sql::joins::JoinType;
use dodam_sql::literals::LiteralValue;
use dodam_sql::plan::Projection;
use dodam_sql::query_parser::{parse_sql, SqlQuery};
use dodam_sql::scalar::ScalarSqlExpression;
use dodam_sql::sql_reading::read_sql;

fn planned(sql: &str) -> SqlQuery {
    match parse_sql(sql) {
        Ok(query) => query,
        Err(error) => panic!("{sql}: {}", error.message()),
    }
}

fn refused(sql: &str) -> String {
    match parse_sql(sql) {
        Ok(_) => panic!("{sql} should be refused"),
        Err(error) => error.message(),
    }
}

fn columns(projection: &Projection) -> Vec<String> {
    match projection {
        Projection::All => panic!("every column"),
        Projection::Columns(columns) => columns.clone(),
    }
}

#[test]
fn plain_select_is_planned() {
    let query = planned("SELECT a, b AS second FROM events WHERE a > 5 ORDER BY second DESC LIMIT 3 OFFSET 2");
    assert_eq!(query.path, "events");
    assert!(query.join.is_none());
    assert_eq!(columns(&query.projection), ["a", "b"]);
    assert_eq!(query.aliases, [("second".to_string(), "b".to_string())]);
    assert_eq!(query.limit, Some(3));
    assert_eq!(query.offset, 2);
    assert!(!query.distinct);
    let order = query.order_by.expect("an order");
    assert_eq!(order.expressions.len(), 1);
    assert_eq!(order.expressions[0].column, "b");
    assert!(order.expressions[0].descending);
    assert!(!order.expressions[0].nulls_first);
    match query.filter {
        Some(FilterExpr::Comparison(comparison)) => {
            assert_eq!(comparison.column, "a");
            assert_eq!(comparison.op, ComparisonOp::Gt);
            assert!(matches!(comparison.value, LiteralValue::Int64(5)));
        }
        other => panic!("{other:?}"),
    }
}

#[test]
fn literal_on_the_left_turns_the_comparison_round() {
    let query = planned("SELECT a FROM events WHERE 5 <= a");
    match query.filter {
        Some(FilterExpr::Comparison(comparison)) => {
            assert_eq!(comparison.op, ComparisonOp::GtEq);
            assert_eq!(comparison.column, "a");
        }
        other => panic!("{other:?}"),
    }
}

#[test]
fn wildcard_reads_every_column() {
    let query = planned("SELECT * FROM events");
    assert!(matches!(query.projection, Projection::All));
    assert!(query.expressions.is_empty());
    assert_eq!(refused("SELECT *, a FROM events"), "SELECT * cannot be mixed with other items");
}

#[test]
fn aggregates_are_grouped_by_their_keys() {
    let query = planned("SELECT city, count(*), sum(price) AS total FROM orders GROUP BY city HAVING sum(price) > 10");
    assert_eq!(query.group_by, ["city"]);
    assert_eq!(query.aggregates.len(), 2);
    assert_eq!(query.aggregates[0].function, AggregateFunction::Count);
    assert_eq!(aggregate_to_string(&query.aggregates[1]), "sum(price)");
    assert_eq!(columns(&query.projection), ["city", "price"]);
    assert!(query.having.is_some());
    assert_eq!(
        refused("SELECT city, count(*) FROM orders"),
        "non-aggregate SELECT column city must appear in GROUP BY"
    );
}

#[test]
fn computed_list_keeps_its_expressions() {
    let query = planned("SELECT a + 1 AS next FROM events");
    assert_eq!(query.expressions.len(), 1);
    assert_eq!(query.expressions[0].output_name, "next");
    match &query.expressions[0].expr {
        ScalarSqlExpression::Binary { op, .. } => assert_eq!(*op, SqlBinaryOperator::Plus),
        other => panic!("{other:?}"),
    }
    assert_eq!(columns(&query.projection), ["a"]);
}

#[test]
fn computed_filter_is_left_for_after_the_scan() {
    let query = planned("SELECT a FROM events WHERE a + b > 3");
    assert!(query.filter.is_none());
    assert_eq!(query.expression_filter.expect("a computed filter").text, "a + b > 3");
}

#[test]
fn comma_join_splits_its_filter() {
    let query = planned("SELECT o.o_orderkey FROM orders o, customer c WHERE o.o_custkey = c.c_custkey AND o.o_total > 7");
    assert_eq!(query.path, "orders");
    let join = query.join.expect("a join");
    assert_eq!(join.right.path, "customer");
    assert_eq!(join.left_alias, "o");
    assert_eq!(join.right_alias, "c");
    assert_eq!(join.left_keys, ["o_custkey"]);
    assert_eq!(join.right_keys, ["c_custkey"]);
    assert_eq!(join.join_type, JoinType::Inner);
    assert!(query.filter.is_none());
    assert_eq!(query.expression_filter.expect("what is left").text, "o.o_total > 7");
    assert_eq!(
        refused("SELECT o.x FROM orders o, customer c WHERE o.x > 1"),
        "comma join requires at least one equality predicate between the two tables"
    );
    assert_eq!(
        refused("SELECT o.x FROM orders o, customer c"),
        "comma join requires an equality predicate in WHERE"
    );
    assert_eq!(
        refused("SELECT a.x FROM a, b, c WHERE a.x = b.x"),
        "comma joins currently support exactly two FROM tables"
    );
}

#[test]
fn written_join_is_planned() {
    let query = planned("SELECT l.a FROM left_t l LEFT JOIN right_t r ON l.k = r.k");
    let join = query.join.expect("a join");
    assert_eq!(join.join_type, JoinType::Left);
    assert_eq!(join.left_keys, ["k"]);
    assert_eq!(join.right_keys, ["k"]);
    assert_eq!(
        refused("SELECT l.a FROM left_t l FULL OUTER JOIN right_t r ON l.k = r.k"),
        "unsupported JOIN type or condition"
    );
    assert_eq!(
        refused("SELECT l.a FROM t l JOIN u m ON l.k = m.k JOIN v n ON l.k = n.k"),
        "expected exactly one JOIN"
    );
}

#[test]
fn distinct_rows_are_asked_for() {
    assert!(planned("SELECT DISTINCT a FROM events").distinct);
    assert_eq!(refused("SELECT DISTINCT ON (a) a FROM events"), "DISTINCT ON is not supported");
    assert_eq!(
        refused("SELECT DISTINCT count(*) FROM events"),
        "DISTINCT with aggregate SELECT items is not supported"
    );
}

#[test]
fn positions_stand_for_listed_columns() {
    let query = planned("SELECT a, b FROM events ORDER BY 2");
    assert_eq!(query.order_by.expect("an order").expressions[0].column, "b");
    assert_eq!(
        refused("SELECT a FROM events ORDER BY 0"),
        "ORDER BY ordinal must be greater than zero"
    );
    assert_eq!(
        refused("SELECT a FROM events ORDER BY 99999999999999999999999"),
        "invalid ORDER BY ordinal: 99999999999999999999999"
    );
}

#[test]
fn limits_are_whole_numbers() {
    assert_eq!(planned("SELECT a FROM events LIMIT 0").limit, Some(0));
    assert_eq!(refused("SELECT a FROM events LIMIT 'x'"), "expected integer literal, got 'x'");
    assert_eq!(
        refused("SELECT a FROM events LIMIT 99999999999999999999999"),
        "invalid integer literal: 99999999999999999999999"
    );
}

#[test]
fn other_statements_are_refused() {
    assert_eq!(refused("SELECT a FROM t; SELECT b FROM t"), "expected exactly one statement");
    assert_eq!(refused("DELETE FROM t"), "only SELECT queries are supported");
    assert_eq!(
        refused("SELECT a FROM t UNION SELECT a FROM u"),
        "only simple SELECT queries are supported"
    );
    assert_eq!(
        refused("WITH w AS (SELECT 1) SELECT a FROM w"),
        "WITH/FETCH/locks/settings/format/pipe clauses are not supported"
    );
    assert_eq!(
        refused("SELECT TOP 3 a FROM t"),
        "TOP/window/qualify/select modifiers are not supported"
    );
    assert!(refused("SELECT a FROM").contains("sql parser error"));
}

#[test]
fn tables_are_read_as_they_stand() {
    assert_eq!(planned("SELECT a FROM lake.events").path, "lake.events");
    assert_eq!(
        refused("SELECT a FROM (SELECT a FROM t) d"),
        "only direct table paths or registered table names are supported"
    );
    assert_eq!(refused("SELECT a FROM numbers(3)"), "only direct table scans are supported");
    assert_eq!(refused("SELECT 1"), "expected exactly one FROM table");
}

#[test]
fn filters_know_lists_nulls_and_patterns() {
    match planned("SELECT a FROM t WHERE a IN (1, 2, NULL)").filter {
        Some(FilterExpr::InList { column, values, negated, has_null }) => {
            assert_eq!(column, "a");
            assert_eq!(values.len(), 2);
            assert!(!negated);
            assert!(has_null);
        }
        other => panic!("{other:?}"),
    }
    match planned("SELECT a FROM t WHERE a IS NOT NULL").filter {
        Some(FilterExpr::IsNull { negated, .. }) => assert!(negated),
        other => panic!("{other:?}"),
    }
    match planned("SELECT a FROM t WHERE a LIKE 'x!%%' ESCAPE '!'").filter {
        Some(FilterExpr::Like { pattern, escape, negated, case_insensitive, .. }) => {
            assert_eq!(pattern, "x!%%");
            assert_eq!(escape, Some('!'));
            assert!(!negated);
            assert!(!case_insensitive);
        }
        other => panic!("{other:?}"),
    }
    match planned("SELECT a FROM t WHERE a BETWEEN 1 AND 2 OR b = 'x'").filter {
        Some(FilterExpr::Or(left, _)) => assert!(matches!(*left, FilterExpr::And(_, _))),
        other => panic!("{other:?}"),
    }
}

#[test]
fn group_by_all_is_refused() {
    assert_eq!(
        refused("SELECT a FROM t GROUP BY ALL"),
        "GROUP BY ALL and GROUP BY modifiers are not supported"
    );
}

#[test]
fn reading_keeps_the_text_of_expressions() {
    let statements = read_sql("SELECT a, sum(b) FROM t WHERE a = 'x' AND b < 2").expect("read");
    assert_eq!(statements.len(), 1);
    let query = match &statements[0] {
        StatementAst::Query(query) => query,
        StatementAst::Other => panic!("a query"),
    };
    let select = match &query.body {
        QueryBody::Select(select) => select,
        _ => panic!("a select"),
    };
    assert_eq!(select.distinct, DistinctKind::Unset);
    assert_eq!(select.projection[1].text, "sum(b)");
    let selection = select.selection.as_ref().expect("a filter");
    assert_eq!(selection.text, "a = 'x' AND b < 2");
    match &selection.kind {
        SqlExprKind::BinaryOp { left, op, right } => {
            assert_eq!(*op, SqlBinaryOperator::And);
            assert_eq!(left.text, "a = 'x'");
            assert_eq!(right.text, "b < 2");
        }
        _ => panic!("a conjunction"),
    }
}

#[test]
fn reading_reports_what_the_parser_says() {
    match read_sql("SELECT (") {
        Ok(_) => panic!("not a statement"),
        Err(error) => assert!(error.message().starts_with("sql parser error")),
    }
}

#[test]
fn channels_are_not_flushed() {
    let expected = "sql parser error: FLUSH RELAY LOGS FOR CHANNEL without a name";
    for sql in [
        "FLUSH RELAY LOGS FOR CHANNEL",
        "FLUSH RELAY LOGS FOR CHANNEL 7",
        "FLUSH LOCAL RELAY LOGS FOR CHANNEL",
        "FLUSH NO_WRITE_TO_BINLOG RELAY LOGS FOR CHANNEL;",
        "FLUSH RELAY LOGS FOR CHANNEL x.",
        "select 1; flush /* all */ relay -- logs\n logs for channel",
        "EXPLAIN FLUSH RELAY LOGS FOR CHANNEL",
        "FLUSH /*!50110 RELAY LOGS */ FOR CHANNEL",
    ] {
        match read_sql(sql) {
            Ok(_) => panic!("{sql} should be refused"),
            Err(error) => assert_eq!(error.message(), expected),
        }
        assert_eq!(refused(sql), expected);
    }
    assert_eq!(read_sql("FLUSH RELAY LOGS").map(|read| read.len()).unwrap_or(0), 1);
    for named in [
        "FLUSH RELAY LOGS FOR CHANNEL x",
        "FLUSH LOCAL RELAY LOGS FOR CHANNEL 'x'.\"y\"",
        "flush relay logs for channel a . b ; ",
    ] {
        assert_eq!(read_sql(named).map(|read| read.len()).unwrap_or(0), 1, "{named}");
        assert_eq!(refused(named), refused("DROP TABLE t"));
    }
    // Words within a name, a text, a comment or quotes flush nothing.
    assert_eq!(planned("SELECT channel FROM logs WHERE flush = 1").path, "logs");
    assert_eq!(planned("select flushrelaylogsforchannel from t").path, "t");
    assert_eq!(planned("select a from t where b = 'flush relay logs for channel'").path, "t");
    assert_eq!(planned("select \"flush relay logs for channel\" from t").path, "t");
    assert_eq!(planned("-- flush relay logs for channel\nselect a from t").path, "t");
    assert!(refused("select flush relay logs for channel").contains("Expected"));
}

#[test]
fn joins_are_told_by_their_words() {
    for (words, expected) in [
        ("JOIN", JoinType::Inner),
        ("INNER JOIN", JoinType::Inner),
        ("LEFT JOIN", JoinType::Left),
        ("LEFT OUTER JOIN", JoinType::Left),
        ("SEMI JOIN", JoinType::Semi),
        ("LEFT SEMI JOIN", JoinType::Semi),
    ] {
        let query = planned(&format!("SELECT l.a FROM t l {words} u r ON l.k = r.k"));
        assert_eq!(query.join.expect("a join").join_type, expected, "{words}");
    }
}

#[test]
fn aggregates_keep_their_conditions() {
    let query = planned(
        "SELECT city, sum(price) FILTER (WHERE kind = 'x' AND day > 3) AS some, count(*), \
         count(*) FILTER (WHERE open), sum(a * b) FILTER (WHERE c < 1) FROM orders GROUP BY city",
    );
    assert_eq!(query.aggregates.len(), 4);
    assert_eq!(
        columns(&query.projection),
        ["city", "price", "kind", "day", "open", "a", "b", "c"]
    );
    let specs = &query.filtered_aggregates;
    assert_eq!(specs.len(), 3);
    assert_eq!(aggregate_to_string(&specs[0].aggregate), "sum(price)");
    assert!(matches!(&specs[0].input, ScalarSqlExpression::Column(column) if column == "price"));
    assert_eq!(specs[0].condition.text, "kind = 'x' AND day > 3");
    assert_eq!(aggregate_to_string(&specs[1].aggregate), "count(*)");
    assert!(matches!(&specs[1].input, ScalarSqlExpression::Literal(LiteralValue::Int64(1))));
    assert_eq!(specs[1].condition.text, "open");
    assert!(matches!(
        &specs[2].input,
        ScalarSqlExpression::Binary { op: SqlBinaryOperator::Multiply, .. }
    ));
    assert_eq!(query.aggregate_expressions.len(), 1);
    let plain = planned("SELECT sum(price) FROM orders");
    assert!(plain.filtered_aggregates.is_empty());
    let over = planned("SELECT sum(a) FILTER (WHERE b > 1) + 1 AS more FROM orders");
    assert_eq!(over.filtered_aggregates.len(), 1);
    assert_eq!(columns(&over.projection), ["a", "b"]);
    assert_eq!(
        refused("SELECT sum(a) FILTER (WHERE SUBSTRING(b FOR 2) = 'x') FROM orders"),
        "unsupported scalar expression: SUBSTRING(b FOR 2)"
    );
    assert!(refused("SELECT a FROM t GROUP BY a HAVING sum(b) FILTER (WHERE c > 1) > 2")
        .contains("FILTER"));
}

#[test]
fn fields_of_columns_are_put_out() {
    let query = planned("SELECT place.city, e.place.street AS road, e.id FROM events e");
    assert_eq!(columns(&query.projection), ["place", "id"]);
    let listed: Vec<&str> =
        query.expressions.iter().map(|expression| expression.output_name.as_str()).collect();
    assert_eq!(listed, ["city", "road", "id"]);
    assert!(matches!(
        &query.expressions[0].expr,
        ScalarSqlExpression::StructField { column, field } if column == "place" && field == "city"
    ));
    assert!(matches!(
        &query.expressions[1].expr,
        ScalarSqlExpression::StructField { column, field } if column == "place" && field == "street"
    ));
    assert!(matches!(&query.expressions[2].expr, ScalarSqlExpression::Column(column) if column == "id"));
    assert_eq!(query.aliases, [("road".to_string(), "road".to_string())]);
    let computed = planned("SELECT e.place.size + 1 AS y FROM events e WHERE lower(place.city) = 'a'");
    assert_eq!(columns(&computed.projection), ["place"]);
}

#[test]
fn reading_knows_every_form_of_expression() {
    let sql = "SELECT CAST(a AS INT), CASE WHEN a > 1 THEN 2 ELSE 3 END, substring(b, 1, 2), \
               EXISTS (SELECT 1 FROM u), a IN (SELECT x FROM u), (SELECT max(x) FROM u), \
               NOT a, -a, a BETWEEN 1 AND 2, a IS NULL, b LIKE 'q%', DATE '2020-01-02', (a) FROM t";
    let statements = read_sql(sql).expect("read");
    let select = match &statements[0] {
        StatementAst::Query(query) => match &query.body {
            QueryBody::Select(select) => select,
            _ => panic!("a select"),
        },
        StatementAst::Other => panic!("a query"),
    };
    let kinds: Vec<&str> = select
        .projection
        .iter()
        .map(|item| match &item.kind {
            dodam_sql::ast::SelectEntryKind::UnnamedExpr(expr) => match &expr.kind {
                SqlExprKind::Cast { .. } => "cast",
                SqlExprKind::Case { .. } => "case",
                SqlExprKind::Substring { .. } => "substring",
                SqlExprKind::Exists { .. } => "exists",
                SqlExprKind::InSubquery { .. } => "in",
                SqlExprKind::Subquery(_) => "subquery",
                SqlExprKind::UnaryOp { .. } => "unary",
                SqlExprKind::Between { .. } => "between",
                SqlExprKind::IsNull(_) => "null",
                SqlExprKind::Like { .. } => "like",
                SqlExprKind::TypedString { .. } => "typed",
                SqlExprKind::Nested(_) => "nested",
                _ => "other",
            },
            _ => "item",
        })
        .collect();
    assert_eq!(
        kinds,
        [
            "cast", "case", "substring", "exists", "in", "subquery", "unary", "unary", "between",
            "null", "like", "typed", "nested"
        ]
    );
}

fn read_select(sql: &str) -> dodam_sql::ast::QueryAst {
    match read_sql(sql) {
        Ok(mut statements) => match statements.remove(0) {
            StatementAst::Query(query) => *query,
            StatementAst::Other => panic!("a query"),
        },
        Err(error) => panic!("{}", error.message()),
    }
}

fn listed(query: &dodam_sql::ast::QueryAst, place: usize) -> &dodam_sql::ast::SqlExpr {
    match &query.body {
        QueryBody::Select(select) => match &select.projection[place].kind {
            dodam_sql::ast::SelectEntryKind::UnnamedExpr(expr) => expr,
            dodam_sql::ast::SelectEntryKind::ExprWithAlias { expr, .. } => expr,
            _ => panic!("an expression"),
        },
        _ => panic!("a select"),
    }
}

#[test]
fn rarer_clauses_are_noticed() {
    assert_eq!(
        refused("SELECT a FROM t FETCH FIRST 3 ROWS ONLY"),
        "WITH/FETCH/locks/settings/format/pipe clauses are not supported"
    );
    assert_eq!(
        refused("SELECT a FROM t FOR UPDATE"),
        "WITH/FETCH/locks/settings/format/pipe clauses are not supported"
    );
    assert_eq!(
        refused("SELECT a FROM t QUALIFY a > 1"),
        "TOP/window/qualify/select modifiers are not supported"
    );
    let query = read_select("SELECT a FROM t ORDER BY a DESC NULLS FIRST, b LIMIT 5 OFFSET 6");
    let order = query.order_by.expect("an order");
    assert_eq!(order.text, "ORDER BY a DESC NULLS FIRST, b");
    let keys = order.expressions.expect("keys");
    assert_eq!((keys[0].asc, keys[0].nulls_first), (Some(false), Some(true)));
    assert_eq!((keys[1].asc, keys[1].nulls_first, keys[1].with_fill), (None, None, false));
    match query.limit_clause {
        Some(dodam_sql::ast::LimitAst::LimitOffset { limit, offset, limit_by }) => {
            assert_eq!(limit.expect("a limit").text, "5");
            assert_eq!(offset.expect("an offset").text, "6");
            assert_eq!(limit_by, 0);
        }
        _ => panic!("a limit"),
    }
}

#[test]
fn calls_and_choices_are_read() {
    let query = read_select(
        "SELECT count(DISTINCT a), s.f(b, *), CASE x WHEN 1 THEN 'one' ELSE 'many' END, \
         sum(a) OVER (), -1.5, true, NULL FROM t GROUP BY a, b",
    );
    match &listed(&query, 0).kind {
        SqlExprKind::Function(function) => {
            assert_eq!(function.name.as_deref(), Some("count"));
            assert!(function.extras.distinct && !function.extras.over);
            assert_eq!(function.args.as_ref().map(|args| args.len()), Some(1));
        }
        _ => panic!("a call"),
    }
    match &listed(&query, 1).kind {
        SqlExprKind::Function(function) => {
            assert_eq!(function.name.as_deref(), Some("s.f"));
            let args = function.args.as_ref().expect("arguments");
            assert!(matches!(&args[0], dodam_sql::ast::SqlFunctionArg::Expr(expr) if expr.text == "b"));
            assert!(matches!(&args[1], dodam_sql::ast::SqlFunctionArg::Wildcard));
        }
        _ => panic!("a call"),
    }
    match &listed(&query, 2).kind {
        SqlExprKind::Case { operand, conditions, else_result } => {
            assert_eq!(operand.as_ref().expect("an operand").text, "x");
            assert_eq!(conditions[0].condition.text, "1");
            assert_eq!(conditions[0].result.text, "'one'");
            assert_eq!(else_result.as_ref().expect("an else").text, "'many'");
        }
        _ => panic!("a choice"),
    }
    assert!(matches!(&listed(&query, 3).kind, SqlExprKind::Function(call) if call.extras.over));
    match &listed(&query, 4).kind {
        SqlExprKind::UnaryOp { op, expr } => {
            assert_eq!(*op, dodam_sql::ast::SqlUnaryOperator::Minus);
            assert!(matches!(
                &expr.kind,
                SqlExprKind::Value(value)
                    if matches!(&value.kind, dodam_sql::ast::SqlValueKind::Number(text) if text == "1.5")
            ));
        }
        _ => panic!("a number"),
    }
    assert!(matches!(
        &listed(&query, 5).kind,
        SqlExprKind::Value(value) if matches!(value.kind, dodam_sql::ast::SqlValueKind::Boolean(true))
    ));
    assert!(matches!(
        &listed(&query, 6).kind,
        SqlExprKind::Value(value) if matches!(value.kind, dodam_sql::ast::SqlValueKind::Null)
    ));
    match &query.body {
        QueryBody::Select(select) => {
            assert_eq!(select.group_by.text, "GROUP BY a, b");
            assert_eq!(select.group_by.expressions.as_ref().map(|keys| keys.len()), Some(2));
            assert_eq!(select.group_by.modifiers, 0);
        }
        _ => panic!("a select"),
    }
}

#[test]
fn operators_keep_their_meaning() {
    let written = ["+", "-", "*", "/", "%", ">", "<", ">=", "<=", "=", "<>", "AND", "OR", "||"];
    let expected = [
        SqlBinaryOperator::Plus,
        SqlBinaryOperator::Minus,
        SqlBinaryOperator::Multiply,
        SqlBinaryOperator::Divide,
        SqlBinaryOperator::Modulo,
        SqlBinaryOperator::Gt,
        SqlBinaryOperator::Lt,
        SqlBinaryOperator::GtEq,
        SqlBinaryOperator::LtEq,
        SqlBinaryOperator::Eq,
        SqlBinaryOperator::NotEq,
        SqlBinaryOperator::And,
        SqlBinaryOperator::Or,
        SqlBinaryOperator::Other,
    ];
    for (written, expected) in written.iter().zip(expected) {
        let query = read_select(&format!("SELECT a {written} b FROM t"));
        match &listed(&query, 0).kind {
            SqlExprKind::BinaryOp { op, .. } => assert_eq!(*op, expected, "{written}"),
            _ => panic!("{written}"),
        }
    }
}

#[test]
fn tables_and_joins_are_read() {
    let query = read_select(
        "WITH w AS (SELECT 1) SELECT t.*, q.x AS y FROM a.b AS t \
         LEFT JOIN (SELECT x FROM u) q ON t.k = q.k CROSS JOIN v",
    );
    assert_eq!(query.ctes.as_ref().map(|ctes| ctes.len()), Some(1));
    let select = match &query.body {
        QueryBody::Select(select) => select,
        _ => panic!("a select"),
    };
    assert!(matches!(
        &select.projection[0].kind,
        dodam_sql::ast::SelectEntryKind::QualifiedWildcard(Some(name)) if name == "t"
    ));
    assert_eq!(select.projection[1].select_item_alias().map(|alias| alias.as_str()), Some("y"));
    match &select.from[0].relation {
        dodam_sql::ast::TableSource::Table { name, alias, extras } => {
            assert_eq!(name.as_ref().expect("a name"), &["a".to_string(), "b".to_string()]);
            assert_eq!(alias.as_deref(), Some("t"));
            assert!(!extras.args && !extras.sample);
        }
        _ => panic!("a table"),
    }
    assert_eq!(select.from[0].joins.len(), 2);
    assert!(matches!(
        &select.from[0].joins[0].relation,
        dodam_sql::ast::TableSource::Derived { alias: Some(alias), .. } if alias == "q"
    ));
    assert!(matches!(
        &select.from[0].joins[0].operator,
        dodam_sql::ast::JoinKind::Left(dodam_sql::ast::JoinOn::On(on)) if on.text == "t.k = q.k"
    ));
    assert!(matches!(&select.from[0].joins[1].operator, dodam_sql::ast::JoinKind::Other));
}
