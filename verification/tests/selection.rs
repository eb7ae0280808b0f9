use std::collections::{HashMap, HashSet};

use dodam_sql::batch_collect::{
    collect_i64_adaptive_set_batch, collect_i64_by_i64_mapped_hash_map_batch,
    collect_i64_by_i64_set_adaptive_set_batch, collect_i64_by_i64_set_hash_map_batch,
    collect_i64_i64_adaptive_map_batch, collect_i64_two_utf8_eq_set_batch,
    collect_i64_utf8_contains_set_batch, collect_i64_utf8_eq_adaptive_set_batch,
    collect_i64_utf8_eq_set_batch, collect_i64_utf8_prefix_bool_lookup_batch,
    collect_i64_utf8_prefix_set_batch,
};
use dodam_sql::batch_rows::{
    collect_i64_i64_amount_rows_batch, collect_i64_i64_two_utf8_rows_batch,
    collect_i64_i64_utf8_rows_batch, collect_i64_three_utf8_rows_batch,
    collect_i64_two_utf8_amount_rows_batch, discounted_revenue_by_i64_bool_lookup_batch,
    lineitem_quantity_sums_batch, nation_names_by_keys_batch, nation_names_by_region_keys_batch,
    order_customer_keys_batch, pricing_summary_batch_rows, returned_customer_rows_batch,
    returned_revenue_batch, revenue_by_nation_batch, supplier_rows_by_nation_and_eligibility_batch,
};
use dodam_sql::columns::{BatchView, ColumnArray, ColumnData, RecordBatch, Vector};
use dodam_sql::discounted_revenue::DecimalUnits;
use dodam_sql::error::SqlError;
use dodam_sql::late_payload::{
    customer_late_consume_payload, prefix_lineitem_late_consume_payload, CustomerPayload,
};
use dodam_sql::late_selection::{
    i64_set_late_build_selection_into, prefix_forest_part_contains,
    prefix_lineitem_late_build_selection, LateSelection,
};
use dodam_sql::ordered_selection::{
    primitive_ordered_selected_batch, primitive_ordered_selected_batch_null_free_fast,
    primitive_topk_sequence_base, DirectPrimitiveBatchLocation,
};
use dodam_sql::pair_collect::{
    collect_i64_i64_date32_optional_i64_pairs_view,
    collect_i64_i64_date32_optional_i64_pairs_view_into, collect_i64_i64_date32_pairs_view,
    collect_i64_i64_pairs_view,
};
use dodam_sql::primitive_buffers::{
    direct_ordered_primitive_batch_to_primitive_batch, extend_i64_desc_positions,
    gather_null_free_primitive_column, overwrite_direct_selected_page_value,
    overwrite_null_free_primitive_value, overwrite_primitive_batch_value,
    overwrite_primitive_output_slot, primitive_empty_batch, primitive_output_batch_from_columns,
    primitive_output_data_type, push_direct_selected_page_value, push_null_free_primitive_row,
    push_null_free_primitive_value, push_primitive_batch_value, push_primitive_output_slot,
    DataType, DirectOrderedPrimitiveBatch, DirectOrderedPrimitiveColumnValues,
    DirectPrimitiveColumnType, DirectSelectedPrimitiveColumnPageView, PrimitiveColumnOutput,
    PrimitiveColumnValues,
};
use dodam_sql::primitive_selection::{
    primitive_filter_i64_positions_desc, primitive_topk_filter_i32_positions,
    primitive_topk_filter_positions_into, primitive_topk_filter_positions_with_min_key_into,
    push_i32_eq2_positions_desc, push_i32_eq2_positions_with_i64_min_key_blocked,
    NullFreePrimitiveColumn, PrimitiveFilterValues,
};
use dodam_sql::row_scan::Amount;
use dodam_sql::tables::{AdaptiveI64Map, AdaptiveI64Set};

fn integers(values: &[i64]) -> ColumnArray {
    ColumnArray {
        type_label: "Int64".to_string(),
        data: ColumnData::Int64(Vector::from_values(values.to_vec())),
    }
}

fn small(values: &[i32]) -> ColumnArray {
    ColumnArray {
        type_label: "Int32".to_string(),
        data: ColumnData::Int32(Vector::from_values(values.to_vec())),
    }
}

fn days(values: &[i32]) -> ColumnArray {
    ColumnArray {
        type_label: "Date32".to_string(),
        data: ColumnData::Date32(Vector::from_values(values.to_vec())),
    }
}

fn strings(values: &[&str]) -> Vector<String> {
    Vector::from_values(values.iter().map(|value| value.to_string()).collect())
}

fn texts(values: &[&str]) -> ColumnArray {
    ColumnArray { type_label: "Utf8".to_string(), data: ColumnData::Utf8(strings(values)) }
}

fn amounts(units: &[i128]) -> ColumnArray {
    ColumnArray {
        type_label: "Decimal128(12, 2)".to_string(),
        data: ColumnData::Decimal128 { values: Vector::from_values(units.to_vec()), scale: 2 },
    }
}

fn batch(columns: Vec<(&str, ColumnArray)>, num_rows: usize) -> RecordBatch {
    let mut names = Vec::new();
    let mut data = Vec::new();
    for (name, column) in columns {
        names.push(name.to_string());
        data.push(column);
    }
    RecordBatch { names, columns: data, num_rows }
}

fn view(columns: Vec<ColumnArray>, num_rows: usize, record_backed: bool) -> BatchView {
    let names = columns.iter().map(|_| "column".to_string()).collect();
    BatchView { batch: RecordBatch { names, columns, num_rows }, record_backed }
}

fn message<T>(result: Result<T, SqlError>) -> String {
    match result {
        Ok(_) => panic!("an error was expected"),
        Err(error) => error.message(),
    }
}

#[test]
fn positions_of_wanted_values_are_found() {
    let mut selected = vec![9];
    primitive_topk_filter_i32_positions(&[1, 2, 3, 2, 5], &[2, 5], &mut selected);
    assert_eq!(selected, vec![9, 1, 3, 4]);
    let mut selected = Vec::new();
    primitive_filter_i64_positions_desc(&[1, 2, 3, 2, 5], &[2, 5, 1], &mut selected);
    assert_eq!(selected, vec![4, 3, 1, 0]);
    let mut selected = Vec::new();
    push_i32_eq2_positions_desc(&[7, 8, 7], 7, 9, &mut selected);
    assert_eq!(selected, vec![2, 0]);
    let mut selected = vec![5];
    primitive_topk_filter_positions_into(
        NullFreePrimitiveColumn::I64(&[4, 5, 4]),
        &PrimitiveFilterValues::I64(vec![4]),
        &mut selected,
    );
    assert_eq!(selected, vec![0, 2]);
}

#[test]
fn positions_below_the_least_key_are_left_out() {
    for block_max_skip in [false, true] {
        let mut selected = vec![3];
        primitive_topk_filter_positions_with_min_key_into(
            NullFreePrimitiveColumn::I32(&[1, 2, 1, 2]),
            &PrimitiveFilterValues::I32(vec![1, 2]),
            NullFreePrimitiveColumn::I64(&[10, 20, 30, 5]),
            20,
            block_max_skip,
            &mut selected,
        );
        assert_eq!(selected, vec![1, 2]);
    }
    let filters = vec![3; 600];
    let keys: Vec<i64> = (0..600).collect();
    let mut selected = Vec::new();
    push_i32_eq2_positions_with_i64_min_key_blocked(&filters, 3, 4, &keys, 598, &mut selected);
    assert_eq!(selected, vec![598, 599]);
}

#[test]
fn sequence_bases_follow_row_groups_then_offsets() {
    let base = |row_group, row_offset| {
        primitive_topk_sequence_base(DirectPrimitiveBatchLocation { row_group, row_offset })
    };
    assert_eq!(base(1, 2), Some((1 << 32) | 2));
    assert!(base(0, 900) < base(1, 0));
    assert!(base(1, 0) < base(1, 1));
}

#[test]
fn selected_rows_come_last_row_first() {
    let names = ["k".to_string(), "v".to_string()];
    let types = [DirectPrimitiveColumnType::I32, DirectPrimitiveColumnType::I64];
    let wanted = PrimitiveFilterValues::I32(vec![1]);
    let whole = view(vec![small(&[1, 2, 1]), integers(&[10, 20, 30])], 3, true);
    let fast = primitive_ordered_selected_batch_null_free_fast(&whole, &names, &types, 0, &wanted)
        .expect("null-free columns");
    let slow = primitive_ordered_selected_batch(&whole, &names, &types, 0, &wanted, false)
        .expect("null-free columns");
    for batch in [fast, slow] {
        assert_eq!(batch.columns[1].name, "v");
        assert!(matches!(&batch.columns[1].values, PrimitiveColumnValues::I64(v) if *v == [30, 10]));
    }
    let mut nulls = view(vec![small(&[1, 2, 1]), integers(&[10, 20, 30])], 3, true);
    nulls.batch.columns[0].data =
        ColumnData::Int32(Vector { values: vec![1, 2, 1], validity: Some(vec![false, true, true]) });
    assert!(primitive_ordered_selected_batch(&nulls, &names, &types, 0, &wanted, false).is_none());
    let by_row = primitive_ordered_selected_batch(&nulls, &names, &types, 0, &wanted, true)
        .expect("rows one by one");
    assert!(matches!(&by_row.columns[1].values, PrimitiveColumnValues::I64(v) if *v == [30]));
}

#[test]
fn output_columns_take_values_of_their_type() {
    let source = PrimitiveColumnValues::I32(vec![5, 6]);
    let kind = DirectPrimitiveColumnType::I32;
    let mut target = PrimitiveColumnOutput::I32(vec![]);
    push_primitive_batch_value(&source, &kind, 1, &mut target).expect("a value");
    overwrite_primitive_batch_value(&source, &kind, 0, &mut target, 0).expect("a value");
    let page = DirectSelectedPrimitiveColumnPageView::I32Dictionary {
        dictionary: vec![70, 80],
        indices: vec![1, 0],
    };
    push_direct_selected_page_value(&page, &kind, 0, &mut target).expect("a value");
    overwrite_direct_selected_page_value(&page, &kind, 1, &mut target, 1).expect("a value");
    push_null_free_primitive_value(&NullFreePrimitiveColumn::I32(&[9]), 0, &mut target)
        .expect("a value");
    overwrite_null_free_primitive_value(&NullFreePrimitiveColumn::I32(&[8]), 0, &mut target, 2)
        .expect("a value");
    let copy = PrimitiveColumnOutput::I32(vec![1]);
    push_primitive_output_slot(&copy, 0, &mut target).expect("a value");
    overwrite_primitive_output_slot(&copy, 0, &mut target, 0).expect("a value");
    assert!(matches!(&target, PrimitiveColumnOutput::I32(v) if *v == [1, 70, 8, 1]));
    assert!(push_null_free_primitive_value(&NullFreePrimitiveColumn::I64(&[9]), 0, &mut target).is_err());
    gather_null_free_primitive_column(&NullFreePrimitiveColumn::I32(&[4, 5]), &[1], &mut target)
        .expect("a value");
    let mut rows = vec![target];
    push_null_free_primitive_row(&[NullFreePrimitiveColumn::I32(&[3])], &mut rows, 0).expect("a row");
    assert!(matches!(&rows[0], PrimitiveColumnOutput::I32(v) if *v == [1, 70, 8, 1, 5, 3]));
    let names = ["n".to_string()];
    let finished = primitive_output_batch_from_columns(rows, &names, &[kind]);
    assert_eq!(finished.columns[0].data_type, DataType::Int32);
    assert!(matches!(
        &primitive_empty_batch(&names, &[DirectPrimitiveColumnType::I64]).columns[0].values,
        PrimitiveColumnValues::I64(v) if v.is_empty()
    ));
    assert_eq!(
        primitive_output_data_type(&DirectPrimitiveColumnType::Decimal128Int64 { precision: 12, scale: 2 }),
        DataType::Decimal128(12, 2)
    );
    let mut output = Vec::new();
    extend_i64_desc_positions(&[7, 8, 9], &[2, 0], &mut output);
    assert_eq!(output, vec![9, 7]);
}

#[test]
fn direct_batches_need_a_matching_schema() {
    let columns = || DirectOrderedPrimitiveBatch {
        columns: vec![DirectOrderedPrimitiveColumnValues::I64(vec![1, 2])],
    };
    let names = ["a".to_string()];
    let batch = direct_ordered_primitive_batch_to_primitive_batch(
        columns(),
        &names,
        &[DirectPrimitiveColumnType::I64],
    )
    .expect("a batch");
    assert_eq!(batch.columns[0].name, "a");
    assert_eq!(
        message(direct_ordered_primitive_batch_to_primitive_batch(columns(), &names, &[])),
        "primitive batch schema mismatch"
    );
    assert_eq!(
        message(direct_ordered_primitive_batch_to_primitive_batch(
            columns(),
            &names,
            &[DirectPrimitiveColumnType::I32]
        )),
        "primitive batch value type mismatch"
    );
}

#[test]
fn late_selection_gives_back_what_was_remembered() {
    let keys = Vector { values: vec![4, 5, 6, 4], validity: Some(vec![true, true, true, false]) };
    let wanted = AdaptiveI64Set::from_hash(HashSet::from([4, 6]));
    let mut selection = LateSelection::new();
    let metrics = i64_set_late_build_selection_into(&keys, &wanted, &mut selection);
    assert_eq!((metrics.total_rows, metrics.selected_rows), (4, 2));
    assert_eq!(selection.mask, vec![true, false, true, false]);
    assert_eq!(selection.remembered, vec![4, 6]);
    assert_eq!(selection.next_payload("overflow").expect("a payload"), 4);
    assert!(!selection.payload_consumed());
    assert_eq!(selection.take_payload(1, "overflow").expect("payload"), vec![6]);
    assert!(selection.payload_consumed());
    assert_eq!(message(selection.next_payload("overflow")), "overflow");
    selection.push(Some(9));
    selection.push(None);
    assert_eq!(selection.mask.len(), 6);
    assert_eq!(selection.next_payload("overflow").expect("a payload"), 9);
}

#[test]
fn shipped_parts_are_selected_by_year() {
    let partkeys = Vector::from_values(vec![1, 1, 2, 1]);
    let shipdates = Vector::from_values(vec![8_766, 9_131, 8_800, 9_130]);
    let parts = AdaptiveI64Set::from_hash(HashSet::from([1]));
    let mut selection = LateSelection::new();
    prefix_lineitem_late_build_selection(&partkeys, &shipdates, &parts, &mut selection);
    assert_eq!(selection.mask, vec![true, false, false, true]);
    let suppkeys = Vector::from_values(vec![50, 60]);
    let quantities = Vector::from_values(vec![100_i64, 200]);
    let sums = prefix_lineitem_late_consume_payload(
        &suppkeys,
        DecimalUnits::Narrow(&quantities),
        &mut selection,
    )
    .expect("payload");
    assert_eq!(sums, vec![((1, 50), 100), ((1, 60), 200)]);
    assert_eq!(
        message(prefix_lineitem_late_consume_payload(
            &suppkeys,
            DecimalUnits::Narrow(&quantities),
            &mut selection
        )),
        "PrefixSupplierThreshold late payload row overflow"
    );
    assert!(prefix_forest_part_contains(&parts, None, None, 1));
    assert!(!prefix_forest_part_contains(&parts, None, None, 2));
}

#[test]
fn customers_are_read_from_their_payload() {
    let names = strings(&["Ann", "Bob"]);
    let other = Vector { values: vec!["x".to_string(), String::new()], validity: Some(vec![true, false]) };
    let balances = Vector::from_values(vec![1_i64, 2]);
    let nations = Vector::from_values(vec![3, 4]);
    let payload = CustomerPayload {
        names: &names,
        acctbals: DecimalUnits::Narrow(&balances),
        nationkeys: &nations,
        addresses: &other,
        phones: &names,
        comments: &names,
    };
    let wanted = AdaptiveI64Set::from_hash(HashSet::from([7, 8]));
    let mut selection = LateSelection::new();
    selection.push(Some(7));
    selection.push(Some(8));
    let rows = customer_late_consume_payload(&payload, &wanted, &mut selection).expect("payload");
    assert_eq!(rows, vec![(7, 0)]);
    assert_eq!(
        message(customer_late_consume_payload(&payload, &wanted, &mut selection)),
        "Q10 customer payload row overflow"
    );
}

#[test]
fn keys_are_collected_by_what_stands_beside_them() {
    let rows = batch(
        vec![
            ("k", integers(&[1, 2, 3])),
            ("v", integers(&[10, 20, 10])),
            ("s", texts(&["forest", "for", "a forest"])),
            ("t", texts(&["x", "x", "y"])),
        ],
        3,
    );
    let mut keys = HashSet::new();
    collect_i64_utf8_prefix_set_batch(&rows, "k", "s", "forest", &mut keys).expect("keys");
    assert_eq!(keys, HashSet::from([1]));
    let mut keys = HashSet::new();
    collect_i64_utf8_contains_set_batch(&rows, "k", "s", "forest", &mut keys).expect("keys");
    assert_eq!(keys, HashSet::from([1, 3]));
    let mut keys = HashSet::new();
    collect_i64_utf8_eq_set_batch(&rows, "k", "s", "for", &mut keys).expect("keys");
    assert_eq!(keys, HashSet::from([2]));
    let mut keys = HashSet::new();
    collect_i64_two_utf8_eq_set_batch(&rows, "k", "s", "for", "t", "x", &mut keys).expect("keys");
    assert_eq!(keys, HashSet::from([2]));
    let mut set = AdaptiveI64Set::new_dense(9);
    collect_i64_utf8_eq_adaptive_set_batch(&rows, "k", "t", "y", &mut set).expect("keys");
    assert!(set.contains(3) && !set.contains(1));
    let mut lookup = AdaptiveI64Map::new_dense(9);
    collect_i64_utf8_prefix_bool_lookup_batch(&rows, "k", "s", "for", &mut lookup).expect("keys");
    assert_eq!((lookup.get(1), lookup.get(3), lookup.get(4)), (Some(true), Some(false), None));
    let mut set = AdaptiveI64Set::new_dense(9);
    collect_i64_adaptive_set_batch(&rows, "k", &mut set).expect("keys");
    assert!(set.contains(2) && !set.contains(4));
    let mut set = AdaptiveI64Set::new_dense(9);
    collect_i64_by_i64_set_adaptive_set_batch(&rows, "k", "v", &HashSet::from([10]), &mut set)
        .expect("keys");
    assert!(set.contains(1) && set.contains(3) && !set.contains(2));
    let mut map = HashMap::new();
    let wanted = AdaptiveI64Set::from_hash(HashSet::from([20]));
    collect_i64_by_i64_set_hash_map_batch(&rows, "k", "v", &wanted, &mut map).expect("keys");
    assert_eq!(map, HashMap::from([(2, 20)]));
    let mut map = AdaptiveI64Map::new_dense(9);
    collect_i64_i64_adaptive_map_batch(&rows, "k", "v", &mut map).expect("keys");
    assert_eq!(map.get(3), Some(10));
    let mut map = HashMap::new();
    collect_i64_by_i64_mapped_hash_map_batch(
        &rows,
        "k",
        "v",
        |value: i64| if value == 10 { Some('t') } else { None },
        &mut map,
    )
    .expect("keys");
    assert_eq!(map, HashMap::from([(1, 't'), (3, 't')]));
    let mut keys = HashSet::new();
    assert_eq!(
        message(collect_i64_utf8_eq_set_batch(&rows, "k", "v", "x", &mut keys)),
        "v must be Utf8"
    );
    assert_eq!(
        message(collect_i64_utf8_eq_set_batch(&rows, "s", "t", "x", &mut keys)),
        "expected integer column, got Utf8"
    );
}

#[test]
fn pairs_are_collected_from_views() {
    let two = view(vec![integers(&[1, 2]), integers(&[10, 20])], 2, false);
    let pairs = collect_i64_i64_pairs_view(&two, "no", |first, second| {
        Ok(if second > 10 { Some(first + second) } else { None })
    })
    .expect("pairs");
    assert_eq!(pairs, vec![(2, 22)]);
    let dated = view(vec![integers(&[1, 2]), integers(&[10, 20]), days(&[5, 6])], 2, false);
    let pairs = collect_i64_i64_date32_pairs_view(&dated, "no", |_, second, date| {
        Ok(if date == 6 { Some(second) } else { None })
    })
    .expect("pairs");
    assert_eq!(pairs, vec![(2, 20)]);
    let valued = collect_i64_i64_date32_optional_i64_pairs_view(&dated, "no", Some(3), |_, _, _, value| {
        Ok(Some(value))
    })
    .expect("pairs");
    assert_eq!(valued, vec![(1, 3), (2, 3)]);
    let four = view(
        vec![integers(&[1]), integers(&[10]), days(&[5]), integers(&[77])],
        1,
        false,
    );
    let mut pairs = vec![(0, 0)];
    collect_i64_i64_date32_optional_i64_pairs_view_into(&four, "no", None, &mut pairs, |_, _, _, value| {
        Ok(Some(value))
    })
    .expect("pairs");
    assert_eq!(pairs, vec![(0, 0), (1, 77)]);
    let add = |_: i64, second: i64, _: i32, value: i64| Ok(Some(second + value));
    let alone = collect_i64_i64_date32_optional_i64_pairs_view(&dated, "no", Some(3), add);
    let mut behind = vec![(9, 9)];
    collect_i64_i64_date32_optional_i64_pairs_view_into(&dated, "no", Some(3), &mut behind, add)
        .expect("pairs");
    assert_eq!(behind[1..], alone.expect("pairs"));
    assert_eq!(behind[0], (9, 9));
    let lacking =
        collect_i64_i64_date32_optional_i64_pairs_view_into(&dated, "no", None, &mut behind, add);
    assert_eq!(message(lacking), "no");
    assert_eq!(behind, vec![(9, 9), (1, 13), (2, 23)]);
    let text = view(vec![texts(&["x"]), integers(&[1])], 1, false);
    let outcome = collect_i64_i64_pairs_view(&text, "no such columns", |first, _| Ok(Some(first)));
    assert_eq!(message(outcome), "no such columns");
    let failing = collect_i64_i64_pairs_view(&two, "no", |_, _| -> Result<Option<i64>, SqlError> {
        Err(SqlError::unsupported("refused"))
    });
    assert_eq!(message(failing), "refused");
}

#[test]
fn aggregates_read_the_rows_they_need() {
    let lines = batch(
        vec![
            ("l_orderkey", integers(&[1, 2, 1])),
            ("l_suppkey", integers(&[7, 7, 8])),
            ("l_partkey", integers(&[5, 5, 6])),
            ("l_returnflag", texts(&["R", "R", "A"])),
            ("l_linestatus", texts(&["F", "F", "O"])),
            ("l_quantity", amounts(&[100, 200, 300])),
            ("l_extendedprice", amounts(&[1_000, 2_000, 3_000])),
            ("l_discount", amounts(&[5, 6, 7])),
            ("l_tax", amounts(&[1, 2, 3])),
            ("l_shipdate", days(&[8_766, 9_000, 9_131])),
        ],
        3,
    );
    let decimal = |units| Amount::Decimal { units, scale: 2 };
    let customers = HashMap::from([(1, 40)]);
    assert_eq!(
        returned_revenue_batch(&lines, &customers).expect("rows"),
        vec![(40, (decimal(1_000), decimal(5)))]
    );
    let nations = HashMap::from([(1, 3), (2, 4)]);
    let suppliers = AdaptiveI64Map::from_hash(HashMap::from([(7, 3), (8, 3)]));
    assert_eq!(
        revenue_by_nation_batch(&lines, &nations, &suppliers).expect("rows"),
        vec![(3, (decimal(1_000), decimal(5))), (3, (decimal(3_000), decimal(7)))]
    );
    let parts = AdaptiveI64Set::from_hash(HashSet::from([5]));
    assert_eq!(
        lineitem_quantity_sums_batch(&lines, &parts).expect("rows"),
        vec![((5, 7), decimal(100)), ((5, 7), decimal(200))]
    );
    let flags = AdaptiveI64Map::from_hash(HashMap::from([(5, true), (6, false)]));
    let flagged = discounted_revenue_by_i64_bool_lookup_batch(
        &lines,
        "l_partkey",
        "l_shipdate",
        "l_extendedprice",
        "l_discount",
        9_000,
        9_200,
        &flags,
    )
    .expect("rows");
    assert_eq!(
        flagged,
        vec![(true, (decimal(2_000), decimal(6))), (false, (decimal(3_000), decimal(7)))]
    );
    let priced = pricing_summary_batch_rows(&lines, 9_000).expect("rows");
    assert_eq!(priced.len(), 2);
    assert_eq!((priced[1].linestatus.as_str(), priced[1].tax), ("F", decimal(2)));
    let mut text_dates = lines;
    text_dates.columns[9] = texts(&["a", "b", "c"]);
    assert_eq!(
        message(pricing_summary_batch_rows(&text_dates, 9_000)),
        "expected date column, got Utf8"
    );
}

#[test]
fn dimension_tables_are_read() {
    let nations = batch(
        vec![
            ("n_nationkey", integers(&[1, 2])),
            ("n_regionkey", integers(&[9, 8])),
            ("n_name", texts(&["FRANCE", "PERU"])),
        ],
        2,
    );
    let names = nation_names_by_keys_batch(&nations).expect("names");
    assert_eq!(names, vec![(1, &"FRANCE".to_string()), (2, &"PERU".to_string())]);
    let regional = nation_names_by_region_keys_batch(&nations, &HashSet::from([8])).expect("names");
    assert_eq!(regional, vec![(2, &"PERU".to_string())]);
    let orders = batch(
        vec![
            ("o_orderkey", integers(&[1, 2])),
            ("o_custkey", integers(&[10, 20])),
            ("o_orderdate", days(&[100, 200])),
        ],
        2,
    );
    assert_eq!(order_customer_keys_batch(&orders, 100, 200).expect("orders"), vec![(1, 10)]);
    let customers = batch(
        vec![
            ("c_custkey", integers(&[10, 11])),
            ("c_name", texts(&["Ann", "Bob"])),
            ("c_acctbal", amounts(&[5, 6])),
            ("c_nationkey", integers(&[1, 2])),
            ("c_address", texts(&["a", "b"])),
            ("c_phone", texts(&["1", "2"])),
            ("c_comment", texts(&["", ""])),
        ],
        2,
    );
    let wanted = AdaptiveI64Set::from_hash(HashSet::from([11]));
    let rows = returned_customer_rows_batch(&customers, &wanted).expect("customers");
    assert_eq!(rows.len(), 1);
    assert_eq!((rows[0].c_custkey, rows[0].c_name.as_str(), rows[0].c_nationkey), (11, "Bob", 2));
    let suppliers = batch(
        vec![
            ("s_suppkey", integers(&[7, 8])),
            ("s_nationkey", integers(&[1, 1])),
            ("s_name", texts(&["S7", "S8"])),
            ("s_address", texts(&["a7", "a8"])),
        ],
        2,
    );
    let eligible = supplier_rows_by_nation_and_eligibility_batch(
        &suppliers,
        &HashSet::from([1]),
        &HashSet::from([8]),
    )
    .expect("suppliers");
    assert_eq!(eligible, vec![(&"S8".to_string(), &"a8".to_string())]);
    let both =
        collect_i64_i64_two_utf8_rows_batch(&suppliers, "s_suppkey", "s_nationkey", "s_name", "s_address")
            .expect("rows");
    assert_eq!(both[0], ((7, 1), (&"S7".to_string(), &"a7".to_string())));
    let three =
        collect_i64_three_utf8_rows_batch(&suppliers, "s_suppkey", "s_name", "s_address", "s_name")
            .expect("rows");
    assert_eq!(three[1].0, 8);
    let one = collect_i64_i64_utf8_rows_batch(&suppliers, "s_suppkey", "s_nationkey", "s_name")
        .expect("rows");
    assert_eq!(one[1], ((8, 1), &"S8".to_string()));
    let numbers = collect_i64_i64_amount_rows_batch(&customers, "c_custkey", "c_nationkey", "c_acctbal")
        .expect("rows");
    assert_eq!(numbers[0], ((10, 1), Amount::Decimal { units: 5, scale: 2 }));
    let named =
        collect_i64_two_utf8_amount_rows_batch(&customers, "c_custkey", "c_name", "c_phone", "c_nationkey")
            .expect("rows");
    assert_eq!(named[1].2, Amount::Integer(2));
    match nation_names_by_keys_batch(&orders) {
        Err(SqlError::UnknownColumn(name)) => assert_eq!(name, "n_nationkey"),
        _ => panic!("an unknown column"),
    }
}
