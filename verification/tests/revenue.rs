use dodam_sql::columns::Vector;
use dodam_sql::discounted_revenue::{
    consume_filtered_discounted_revenue_decimal128_vectors_with_payload, DecimalUnits, RevenueTerm,
};

fn decimals(cells: Vec<Option<i128>>) -> Vector<i128> {
    let validity = cells.iter().map(|cell| cell.is_some()).collect();
    let values = cells.into_iter().map(|cell| cell.unwrap_or(0)).collect();
    Vector { values, validity: Some(validity) }
}

fn revenue(term: &RevenueTerm, price_scale: i32, discount_scale: i32) -> f64 {
    let price = term.price as f64 / 10_f64.powi(price_scale);
    let discount = term.discount as f64 / 10_f64.powi(discount_scale);
    price * (1.0 - discount)
}

#[test]
fn filtered_discounted_revenue_payload_skips_null_decimal_rows() {
    let extendedprices = decimals(vec![Some(10_000), None, Some(30_000)]);
    let discounts = decimals(vec![Some(10), Some(20), None]);

    let mut rows = Vec::new();

    consume_filtered_discounted_revenue_decimal128_vectors_with_payload(
        DecimalUnits::Wide(&extendedprices),
        DecimalUnits::Wide(&discounts),
        3,
        |row| Ok(Some(row)),
        &mut rows,
    )
    .expect("consume discounted revenue");

    assert_eq!(rows.len(), 1);
    assert_eq!(rows[0].0, 0);
    assert_eq!(rows[0].1, 0);
    assert!((revenue(&rows[0].2, 2, 2) - 90.0).abs() < 1e-9);
}

use std::collections::HashMap;

use dodam_sql::columns::{BatchView, ColumnArray, ColumnData, RecordBatch};
use dodam_sql::dense_revenue_query::dense_grouped_revenue;
use dodam_sql::dense_sums::RevenueScan;
use dodam_sql::dense_sums::{
    decimal_raw_scale_i64, dense_atomic_discounted_revenue_sum_fits, plan_dense_grouped_revenue,
    update_dense_atomic_i64_grouped_discounted_revenue_by_date_view, DenseAtomicI64GroupedSum,
    DenseRevenuePlan, PrimitiveRowGroupMinMax,
};
use dodam_sql::discounted_revenue::{
    consume_discounted_revenue_decimal128_vectors,
    consume_discounted_revenue_decimal128_vectors_at_offsets,
    consume_filtered_discounted_revenue_decimal128_vectors, discounted_revenue_by_i64_bool_lookup,
    late_consume_revenue_payload, regional_revenue_late_consume_payload_vector,
    returned_revenue_rows, revenue_by_nation_vector,
    update_i64_grouped_discounted_revenue_by_date_view,
};
use dodam_sql::error::SqlError;
use dodam_sql::late_selection::{
    regional_revenue_late_build_selection, returned_revenue_late_build_selection, LateSelection,
};
use dodam_sql::returned_customers::{
    all_found, returned_customer_candidates, returned_customer_rows_from_payload,
};
use dodam_sql::tables::AdaptiveI64Map;

fn message<T>(result: Result<T, SqlError>) -> String {
    match result {
        Ok(_) => panic!("an error was expected"),
        Err(error) => error.message(),
    }
}

fn term(price: i128, discount: i128) -> RevenueTerm {
    RevenueTerm { price, discount }
}

#[test]
fn every_row_with_both_amounts_has_revenue() {
    let prices = decimals(vec![Some(1), None, Some(3)]);
    let discounts = decimals(vec![Some(10), Some(20), Some(30)]);
    let (prices, discounts) = (DecimalUnits::Wide(&prices), DecimalUnits::Wide(&discounts));
    let terms = consume_discounted_revenue_decimal128_vectors(prices, discounts, 3);
    assert_eq!(terms, vec![Some(term(1, 10)), None, Some(term(3, 30))]);
    let mut kept = Vec::new();
    let keep = |row| Ok(row == 2);
    consume_filtered_discounted_revenue_decimal128_vectors(prices, discounts, 3, keep, &mut kept)
        .expect("rows");
    assert_eq!(kept, vec![(2, term(3, 30))]);
    let mut chosen = Vec::new();
    let at = consume_discounted_revenue_decimal128_vectors_at_offsets;
    at(prices, discounts, 3, 100, &[102, 101], &mut chosen).expect("rows");
    assert_eq!(chosen, vec![(2, Some(term(3, 30))), (1, None)]);
    // What came before an offset out of range has been handed on.
    assert_eq!(
        message(at(prices, discounts, 3, 100, &[100, 103, 101], &mut chosen)),
        "discounted revenue selected row out of range"
    );
    assert_eq!(chosen.len(), 3);
    assert_eq!(chosen[2], (0, Some(term(1, 10))));
    assert_eq!(
        message(at(prices, discounts, 4, 100, &[], &mut chosen)),
        "discounted revenue vector row count mismatch"
    );
    // So has what came before an error of the predicate.
    let refuse = |row| if row == 2 { Err(SqlError::unsupported("refused")) } else { Ok(true) };
    let refused = consume_filtered_discounted_revenue_decimal128_vectors(
        prices, discounts, 3, refuse, &mut kept,
    );
    assert_eq!(kept, vec![(2, term(3, 30)), (0, term(1, 10))]);
    assert_eq!(message(refused), "refused");
}

#[test]
fn late_revenue_is_direct_revenue() {
    let orderkeys = Vector::from_values(vec![1, 2, 3, 1]);
    let suppkeys = Vector::from_values(vec![7, 7, 7, 8]);
    let prices = Vector::from_values(vec![10_i64, 20, 30, 40]);
    let discounts = Vector::from_values(vec![1_i64, 2, 3, 4]);
    let (price_units, discount_units) =
        (DecimalUnits::Narrow(&prices), DecimalUnits::Narrow(&discounts));
    let nations = HashMap::from([(1, 5), (2, 6), (3, 5)]);
    let suppliers = AdaptiveI64Map::from_hash(HashMap::from([(7, 5), (8, 6)]));
    let direct = revenue_by_nation_vector(
        &orderkeys,
        &suppkeys,
        price_units,
        discount_units,
        &nations,
        &suppliers,
    );
    assert_eq!(direct, vec![(5, term(10, 1)), (5, term(30, 3))]);
    let mut selection = LateSelection::new();
    regional_revenue_late_build_selection(
        &orderkeys,
        &suppkeys,
        &nations,
        &suppliers,
        1,
        &mut selection,
    );
    assert_eq!(selection.mask, vec![true, true, true, false]);
    let kept_prices = Vector::from_values(vec![10_i64, 20, 30]);
    let kept_discounts = Vector::from_values(vec![1_i64, 2, 3]);
    let late = regional_revenue_late_consume_payload_vector(
        DecimalUnits::Narrow(&kept_prices),
        DecimalUnits::Narrow(&kept_discounts),
        3,
        &mut selection,
    )
    .expect("payload");
    assert_eq!(late, direct);
    assert_eq!(
        message(regional_revenue_late_consume_payload_vector(
            DecimalUnits::Narrow(&kept_prices),
            DecimalUnits::Narrow(&kept_discounts),
            3,
            &mut selection
        )),
        "regional revenue late payload row overflow"
    );
}

#[test]
fn returned_orders_have_revenue_by_customer() {
    let orderkeys = Vector::from_values(vec![1, 2, 1]);
    let flags =
        Vector::from_values(vec!["R".to_string(), "R".to_string(), "N".to_string()]);
    let prices = Vector::from_values(vec![10_i64, 20, 30]);
    let units = DecimalUnits::Narrow(&prices);
    let customers = HashMap::from([(1, 100)]);
    let direct = returned_revenue_rows(&orderkeys, &flags, units, units, &customers);
    assert_eq!(direct, vec![(100, term(10, 10))]);
    let mut selection = LateSelection::new();
    returned_revenue_late_build_selection(&orderkeys, &flags, &customers, &mut selection);
    assert_eq!(selection.mask, vec![true, false, false]);
    let kept = Vector::from_values(vec![10_i64]);
    let kept = DecimalUnits::Narrow(&kept);
    let late = late_consume_revenue_payload(kept, kept, 1, &mut selection, "overflow").expect("rows");
    assert_eq!(late, direct);
    assert_eq!(
        message(late_consume_revenue_payload(kept, kept, 1, &mut selection, "overflow")),
        "overflow"
    );
}

#[test]
fn revenue_is_grouped_by_flag_within_dates() {
    let keys = Vector::from_values(vec![1, 2, 3]);
    let dates = Vector::from_values(vec![10, 20, 30]);
    let prices = Vector::from_values(vec![5_i64, 6, 7]);
    let units = DecimalUnits::Narrow(&prices);
    let lookup = AdaptiveI64Map::from_hash(HashMap::from([(2, true), (3, false)]));
    let rows = discounted_revenue_by_i64_bool_lookup(&keys, &dates, units, units, 10, 30, &lookup);
    assert_eq!(rows, vec![(1, true, term(6, 6))]);
}

fn revenue_view(keys: Vec<i64>, dates: Vec<i32>, prices: Vec<i64>, discounts: Vec<i64>) -> BatchView {
    let num_rows = keys.len();
    let column = |data| ColumnArray { type_label: "column".to_string(), data };
    let columns = vec![
        column(ColumnData::Int64(Vector::from_values(keys))),
        column(ColumnData::Date32(Vector::from_values(dates))),
        column(ColumnData::DecimalInt64 { units: Vector::from_values(prices), scale: 2 }),
        column(ColumnData::DecimalInt64 { units: Vector::from_values(discounts), scale: 2 }),
    ];
    let names = columns.iter().map(|_| "column".to_string()).collect();
    BatchView { batch: RecordBatch { names, columns, num_rows }, record_backed: false }
}

#[test]
fn dense_sums_are_exact() {
    let view = revenue_view(vec![1, 2, 1], vec![10, 10, 11], vec![100, 200, 300], vec![10, 0, 50]);
    let mut sums = DenseAtomicI64GroupedSum::new(2);
    update_dense_atomic_i64_grouped_discounted_revenue_by_date_view(&view, &mut sums, 2, 100, 10, 12)
        .expect("sums");
    assert_eq!(sums.present_sums(), vec![(1, 100 * 90 + 300 * 50), (2, 200 * 100)]);
    let grouped =
        update_i64_grouped_discounted_revenue_by_date_view(&view, 0, 1, 2, 3, 10, 11).expect("rows");
    assert_eq!(grouped, vec![(1, term(100, 10)), (2, term(200, 0))]);
    assert!(update_i64_grouped_discounted_revenue_by_date_view(&view, 1, 1, 2, 3, 10, 11).is_none());
    let negative = revenue_view(vec![-1], vec![10], vec![1], vec![1]);
    assert_eq!(
        message(update_dense_atomic_i64_grouped_discounted_revenue_by_date_view(
            &negative, &mut sums, 2, 100, 10, 12
        )),
        "direct dense atomic grouped discounted-revenue key is negative"
    );
    let large = revenue_view(vec![3], vec![10], vec![1], vec![1]);
    assert_eq!(
        message(update_dense_atomic_i64_grouped_discounted_revenue_by_date_view(
            &large, &mut sums, 2, 100, 10, 12
        )),
        "direct dense atomic grouped discounted-revenue key exceeds metadata range"
    );
}

#[test]
fn dense_sums_are_planned_by_their_ranges() {
    let range = |min, max| PrimitiveRowGroupMinMax { min, max, null_count: Some(0), rows: 10 };
    assert_eq!(decimal_raw_scale_i64(2), Some(100));
    assert_eq!(decimal_raw_scale_i64(-1), None);
    assert_eq!(decimal_raw_scale_i64(19), None);
    assert_eq!(
        plan_dense_grouped_revenue(&[range(0, 9)], &[range(0, 1)], &[range(0, 50)], &[range(0, 10)], 2, 100),
        DenseRevenuePlan::Dense { max_key: 9, discount_factor: 100 }
    );
    assert_eq!(
        plan_dense_grouped_revenue(&[range(0, 101)], &[range(0, 1)], &[range(0, 50)], &[range(0, 10)], 2, 100),
        DenseRevenuePlan::Unavailable
    );
    assert_eq!(
        plan_dense_grouped_revenue(&[], &[range(0, 1)], &[range(0, 50)], &[range(0, 10)], 2, 100),
        DenseRevenuePlan::Empty
    );
    let unknown = PrimitiveRowGroupMinMax { min: 0, max: 1, null_count: None, rows: 10 };
    assert_eq!(
        plan_dense_grouped_revenue(&[range(0, 9)], &[unknown], &[range(0, 50)], &[range(0, 10)], 2, 100),
        DenseRevenuePlan::Unavailable
    );
    assert!(dense_atomic_discounted_revenue_sum_fits(&[range(0, 9)], &[range(0, 50)], &[range(0, 10)], 100));
    assert!(!dense_atomic_discounted_revenue_sum_fits(
        &[range(0, 9)],
        &[range(0, i64::MAX as i128)],
        &[range(0, 10)],
        100
    ));
}

#[test]
fn best_customers_are_among_the_candidates() {
    assert!(all_found(2, 2));
    assert!(!all_found(1, 2));
    let revenues: Vec<(i64, i64)> = (0..20).map(|key| (key, (key * 7) % 20)).collect();
    assert!(returned_customer_candidates(&revenues, 3).is_none());
    let candidates = returned_customer_candidates(&revenues, 1).expect("fewer than all");
    assert_eq!(candidates.len(), 8);
    assert_eq!(candidates[0].1, 19);
    let customer_nations: HashMap<i64, i64> = (0..20).map(|key| (key, 1)).collect();
    let names = HashMap::from([(1, "PERU".to_string())]);
    let from_all = returned_customer_rows_from_payload(&revenues, &customer_nations, &names, 1);
    let from_some = returned_customer_rows_from_payload(&candidates, &customer_nations, &names, 1);
    assert_eq!(from_all, from_some);
    assert_eq!(from_all[0].1, 19);
    let nobody = returned_customer_rows_from_payload(&revenues, &customer_nations, &HashMap::new(), 1);
    assert!(nobody.is_empty());
}

#[test]
fn dense_revenue_is_summed_over_views() {
    let plan = DenseRevenuePlan::Dense { max_key: 5, discount_factor: 100 };
    let views = [
        revenue_view(vec![1, 2], vec![10, 10], vec![100, 200], vec![10, 0]),
        revenue_view(vec![1, 5], vec![11, 99], vec![300, 400], vec![50, 0]),
    ];
    let sums = dense_grouped_revenue(plan, &views, RevenueScan::ByDate, 10, 12)
        .expect("sums")
        .expect("a dense plan");
    assert_eq!(sums, vec![(1, 100 * 90 + 300 * 50), (2, 200 * 100)]);
    let nothing = dense_grouped_revenue(DenseRevenuePlan::Empty, &views, RevenueScan::ByDate, 10, 12);
    assert_eq!(nothing.expect("sums"), Some(vec![]));
    let other =
        dense_grouped_revenue(DenseRevenuePlan::Unavailable, &views, RevenueScan::ByDate, 10, 12);
    assert_eq!(other.expect("no plan"), None);
    let large = [revenue_view(vec![6], vec![10], vec![1], vec![1])];
    assert_eq!(
        message(dense_grouped_revenue(plan, &large, RevenueScan::ByDate, 10, 12)),
        "direct dense atomic grouped discounted-revenue key exceeds metadata range"
    );
    assert_eq!(
        message(dense_grouped_revenue(plan, &large, RevenueScan::Selected, 10, 12)),
        "selected dictionary grouped discounted-revenue vector shape mismatch"
    );
}
