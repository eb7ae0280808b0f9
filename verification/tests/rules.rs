use std::collections::HashSet;

use dodam_sql::rule_context::{
    candidate_rules, estimate_sql_rule_scan_bytes, order_candidates, required_columns_for_table,
    rule_trial, sql_rule_shape_mismatch_error, RuleTrial, SqlRuleContext,
};
use dodam_sql::error::SqlError;
use dodam_sql::rules::{sql_rule_registry, SqlRule};

#[test]
fn registered_rules_have_unique_names_and_stable_ranks() {
    let mut names = HashSet::new();
    for (rank, rule) in sql_rule_registry().iter().copied().enumerate() {
        assert!(
            names.insert(rule.name()),
            "duplicate SQL rule name: {}",
            rule.name()
        );
        assert_eq!(
            rule.cost_rank(),
            rank as u16,
            "cost rank should match registry order for {}",
            rule.name()
        );
    }
}

#[test]
fn specific_vector_rules_rank_before_generic_with_cte_fallback() {
    let context = SqlRuleContext::from_sql(
        r#"
WITH revenue AS (
    SELECT
        l_suppkey AS supplier_no,
        sum(l_extendedprice * (1 - l_discount)) AS total_revenue
    FROM lineitem
    WHERE l_shipdate >= DATE '1996-01-01'
      AND l_shipdate < DATE '1996-01-01' + INTERVAL '3' MONTH
    GROUP BY l_suppkey
)
SELECT
    s_suppkey,
    s_name,
    s_address,
    s_phone,
    total_revenue
FROM supplier, revenue
WHERE s_suppkey = supplier_no
  AND total_revenue = (SELECT max(total_revenue) FROM revenue)
ORDER BY s_suppkey
"#,
    )
    .expect("parse Q15-shaped SQL context");

    assert!(SqlRule::WithCte.is_candidate(&context));
    assert!(SqlRule::TopSupplierRevenue.is_candidate(&context));

    let with_cte_cost = SqlRule::WithCte.estimated_cost(&context, None);
    let vector_cost = SqlRule::TopSupplierRevenue.estimated_cost(&context, None);

    assert!(
        vector_cost < with_cte_cost,
        "top-supplier vector rule must be tried before generic WITH CTE fallback: vector={vector_cost}, cte={with_cte_cost}"
    );
}

#[test]
fn generic_expression_rules_rank_after_shape_specific_rules() {
    let context = SqlRuleContext::from_sql(
        r#"
SELECT
    sum(l_extendedprice * l_discount) AS revenue
FROM lineitem
WHERE l_shipdate >= DATE '1994-01-01'
  AND l_shipdate < DATE '1995-01-01'
"#,
    )
    .expect("parse expression aggregate SQL context");

    let projection_cost = SqlRule::ProjectionExpression.estimated_cost(&context, None);
    let pricing_cost = SqlRule::PricingSummary.estimated_cost(&context, None);

    assert!(
        pricing_cost < projection_cost,
        "shape-specific vector aggregate candidates should not be hidden by generic expression fallback: vector={pricing_cost}, projection={projection_cost}"
    );
}

#[test]
fn candidates_are_tried_cheapest_first() {
    let context = SqlRuleContext::from_sql(
        "SELECT s_suppkey FROM supplier WHERE s_suppkey IN (SELECT l_suppkey FROM lineitem)",
    )
    .expect("a statement");
    let rules = candidate_rules(&context);
    assert!(rules.contains(&SqlRule::InSubquery));
    assert!(!rules.contains(&SqlRule::WithCte));
    let bytes = vec![None; rules.len()];
    let candidates = order_candidates(&rules, &context, &bytes);
    assert_eq!(candidates.len(), rules.len());
    for pair in candidates.windows(2) {
        assert!(pair[0].estimated_cost <= pair[1].estimated_cost);
    }
    assert!(context.has_subquery && !context.has_with && !context.has_order_by);
    assert_eq!(context.from_table_count, 1);
    assert!(SqlRuleContext::from_sql("SELECT a FROM").is_err());
}

#[test]
fn rule_outcomes_decide_what_comes_next() {
    assert_eq!(rule_trial(&Ok(true)), RuleTrial::Answered);
    assert_eq!(rule_trial(&Ok(false)), RuleTrial::Next);
    let mismatch = "only direct table scans are supported";
    assert!(sql_rule_shape_mismatch_error(mismatch));
    assert_eq!(rule_trial(&Err(SqlError::unsupported(mismatch))), RuleTrial::Next);
    assert_eq!(rule_trial(&Err(SqlError::unsupported("disk on fire"))), RuleTrial::Failed);
    assert_eq!(rule_trial(&Err(SqlError::unknown_column("x"))), RuleTrial::Failed);
}

#[test]
fn scans_are_estimated_by_their_tables() {
    assert_eq!(estimate_sql_rule_scan_bytes(&[Some(3), Some(4)]), Some(7));
    let columns = ["l_orderkey", "o_orderkey", "l_discount"];
    let wanted = required_columns_for_table("lake/lineitem.parquet", &columns);
    assert_eq!(wanted, ["l_orderkey", "l_discount"]);
}
