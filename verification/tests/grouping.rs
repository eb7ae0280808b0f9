use std::collections::{HashMap, HashSet};

use dodam_sql::columns::{ColumnArray, ColumnData, RecordBatch, Vector};
use dodam_sql::decimal_batches::{
    pricing_summary_update_decimal_batch, profit_decimal_batch, profit_decimal_view,
    typed_profit_columns, PricingBatch, ProfitColumns,
};
use dodam_sql::discounted_revenue::DecimalUnits;
use dodam_sql::error::SqlError;
use dodam_sql::named_rows::{nations_by_revenue, suppliers_by_name, SupplierAddress};
use dodam_sql::order_years::{
    dense_year_get, order_extent, order_years_from_partials, order_years_partial_batch_into,
    OrderYearPartial, OrderYears,
};
use dodam_sql::part_groups::{
    dictionary_group_string_ids, dictionary_lookup_id, merge_part_group_partials, DictionaryColumn,
    Interner, PartDictionaryRows, PartFilter, PartGroupPartial, PartGroups,
};
use dodam_sql::part_supplier_query::{
    distinct_supplier_counts_by_part_group, excluded_suppliers_by_comment_like,
    part_groups_by_attributes,
};
use dodam_sql::pricing_summary::{
    bytes_string_parts, contiguous_single_byte_utf8_data, pricing_summary_sorted_rows,
    pricing_summary_update_decimal, single_ascii_byte, utf8_value_is_one_byte, PricingColumns,
    PricingSlot, PricingSummaryGroupSlots,
};
use dodam_sql::profit::{
    dense_profit_group_slot, pack_part_supp_key, pack_profit_group_key, profit_group,
    profit_packed_dense_rows, profit_rows, profit_slot, unpack_dense_profit_group_slot,
    unpack_part_supp_key, unpack_profit_group_key, DenseParts, DenseYears, ProfitKeys, ProfitSlot,
    SupplyCosts, SupplyInfo,
};
use dodam_sql::profit_batch::{profit_batch, supply_costs};
use dodam_sql::profit_rows::profit_rows_from_groups;
use dodam_sql::row_scan::Amount;
use dodam_sql::supplier_bitset::{supplier_bitset_layout, GroupSupplierBitset, SupplierBitsetLayout};
use dodam_sql::supplier_counts::{GroupSupplierSets, PackedU32PairDistinct};
use dodam_sql::supplier_rows::{
    like_substrings_match, supplier_count_method, SupplierCountMethod, SupplierCountSwitches,
};
use dodam_sql::tables::{AdaptiveI64Map, AdaptiveI64Set};

fn integers(values: &[i64]) -> ColumnArray {
    ColumnArray {
        type_label: "Int64".to_string(),
        data: ColumnData::Int64(Vector::from_values(values.to_vec())),
    }
}

fn strings(values: &[&str]) -> Vector<String> {
    Vector::from_values(values.iter().map(|value| value.to_string()).collect())
}

fn texts(values: &[&str]) -> ColumnArray {
    ColumnArray { type_label: "Utf8".to_string(), data: ColumnData::Utf8(strings(values)) }
}

fn batch(columns: Vec<(&str, ColumnArray)>, num_rows: usize) -> RecordBatch {
    let mut names = Vec::new();
    let mut data = Vec::new();
    for (name, column) in columns {
        names.push(name.to_string());
        data.push(column);
    }
    RecordBatch { names, columns: data, num_rows }
}

fn message<T>(result: Result<T, SqlError>) -> String {
    match result {
        Ok(_) => panic!("an error was expected"),
        Err(error) => error.message(),
    }
}

fn parts_batch() -> RecordBatch {
    batch(
        vec![
            ("p_partkey", integers(&[1, 2, 3, 4, 5])),
            ("p_brand", texts(&["Brand#1", "Brand#2", "Brand#1", "Brand#45", "Brand#2"])),
            ("p_type", texts(&["TIN", "STEEL", "TIN", "TIN", "MEDIUM POLISHED"])),
            ("p_size", integers(&[7, 9, 7, 7, 9])),
        ],
        5,
    )
}

fn sizes() -> AdaptiveI64Set {
    AdaptiveI64Set::from_hash(HashSet::from([7, 9]))
}

#[test]
fn interner_numbers_each_string_once() {
    let mut interner = Interner::new();
    assert_eq!(interner.intern_string("a"), 0);
    assert_eq!(interner.intern_string("b"), 1);
    assert_eq!(interner.intern_string("a"), 0);
    assert_eq!(interner.len(), 2);
    assert_eq!(interner.get(1), "b");
}

#[test]
fn parts_are_grouped_by_brand_type_and_size() {
    let sizes = sizes();
    let filter =
        PartFilter { excluded_brand: "Brand#45", excluded_type_prefix: "MEDIUM POLISHED", sizes: &sizes };
    let groups = part_groups_by_attributes(&[parts_batch()], &filter).expect("groups");
    assert_eq!(groups.group_count(), 2);
    assert_eq!(groups.group(0).brand, "Brand#1");
    assert_eq!(groups.group(1).part_type, "STEEL");
    assert_eq!(groups.group_of_part(1), Some(0));
    assert_eq!(groups.group_of_part(2), Some(1));
    assert_eq!(groups.group_of_part(3), Some(0));
    assert_eq!(groups.group_of_part(4), None);
    assert_eq!(groups.group_of_part(5), None);
    let lacking = batch(vec![("p_partkey", integers(&[1]))], 1);
    assert_eq!(message(part_groups_by_attributes(&[lacking], &filter)), "p_size");
}

#[test]
fn dictionary_parts_are_grouped_like_plain_ones() {
    let sizes = sizes();
    let filter =
        PartFilter { excluded_brand: "Brand#45", excluded_type_prefix: "MEDIUM POLISHED", sizes: &sizes };
    let rows = PartDictionaryRows {
        partkeys: vec![1, 2, 3, 4, 5],
        sizes: vec![7, 9, 7, 7, 9],
        brands: DictionaryColumn {
            keys: vec![0, 1, 0, 2, 1],
            strings: vec!["Brand#1".to_string(), "Brand#2".to_string(), "Brand#45".to_string()],
        },
        types: DictionaryColumn {
            keys: vec![0, 1, 0, 0, 2],
            strings: vec!["TIN".to_string(), "STEEL".to_string(), "MEDIUM POLISHED".to_string()],
        },
    };
    let mut direct = PartGroups::new();
    direct.part_groups_dictionary_typed_batch(&rows, &filter);
    let mut first = PartGroupPartial::new();
    first.part_groups_dictionary_partial_batch(&rows, &filter);
    let mut second = PartGroupPartial::new();
    second.part_groups_partial_batch(&parts_batch(), &filter).expect("parts");
    let merged = merge_part_group_partials(&[first, second]);
    for groups in [&direct, &merged] {
        assert_eq!(groups.group_count(), 2);
        assert_eq!(groups.group_of_part(3), Some(0));
        assert_eq!(groups.group_of_part(2), Some(1));
        assert_eq!(groups.group_of_part(5), None);
    }
    let mut interner = Interner::new();
    let strings = ["a".to_string(), "b".to_string(), "ax".to_string()];
    let lookup = dictionary_group_string_ids(&strings, Some("b"), Some("ax"), &mut interner);
    assert_eq!(lookup, vec![Some(0), None, None]);
    assert_eq!(dictionary_lookup_id(&lookup, 0), Some(0));
    assert_eq!(dictionary_lookup_id(&lookup, -1), None);
    assert_eq!(dictionary_lookup_id(&lookup, 3), None);
}

#[test]
fn comments_are_searched_for_parts_in_order() {
    let parts = ["Customer".to_string(), "Complaints".to_string()];
    assert!(like_substrings_match("a Customer had Complaints", &parts));
    assert!(!like_substrings_match("Complaints of a Customer", &parts));
    assert!(like_substrings_match("anything", &[]));
    let suppliers = batch(
        vec![
            ("s_suppkey", integers(&[1, 2, 9])),
            ("s_comment", texts(&["fine", "Customer Complaints", "fine"])),
        ],
        3,
    );
    let excluded = excluded_suppliers_by_comment_like(&[suppliers], &parts).expect("suppliers");
    assert_eq!(excluded.keys, HashSet::from([2]));
    assert_eq!(excluded.max_suppkey, Some(9));
}

#[test]
fn suppliers_are_counted_alike_in_every_way() {
    let sizes = sizes();
    let filter = PartFilter { excluded_brand: "", excluded_type_prefix: "#", sizes: &sizes };
    let groups = part_groups_by_attributes(&[parts_batch()], &filter).expect("groups");
    let supplied = batch(
        vec![
            ("ps_partkey", integers(&[1, 3, 1, 2, 2, 2, 99])),
            ("ps_suppkey", integers(&[10, 10, 11, 10, 12, 13, 10])),
        ],
        7,
    );
    let ways = [
        SupplierCountSwitches { packed_disabled: false, bitset_enabled: false, bitset_max_bytes: 0 },
        SupplierCountSwitches { packed_disabled: true, bitset_enabled: true, bitset_max_bytes: 1_000 },
        SupplierCountSwitches { packed_disabled: true, bitset_enabled: false, bitset_max_bytes: 0 },
    ];
    for switches in ways {
        let suppliers = batch(
            vec![("s_suppkey", integers(&[10, 13])), ("s_comment", texts(&["", "bad"]))],
            2,
        );
        let excluded = excluded_suppliers_by_comment_like(&[suppliers], &["bad".to_string()])
            .expect("suppliers");
        let rows = distinct_supplier_counts_by_part_group(
            std::slice::from_ref(&supplied),
            &groups,
            excluded,
            switches,
        )
        .expect("rows");
        let found: Vec<(&str, &str, i64, u64)> = rows
            .iter()
            .map(|row| (row.brand.as_str(), row.part_type.as_str(), row.size, row.supplier_count))
            .collect();
        assert_eq!(found, vec![("Brand#1", "TIN", 7, 2), ("Brand#2", "STEEL", 9, 2)]);
    }
    let mut sets = GroupSupplierSets::new(1);
    sets.insert(0, 4);
    sets.insert(0, 4);
    sets.insert(5, 4);
    assert_eq!(sets.counts(), vec![1]);
}

#[test]
fn a_supplier_that_cannot_be_packed_is_an_error() {
    let mut distinct = PackedU32PairDistinct::new();
    assert!(distinct.push(0, 1));
    assert!(!distinct.push(0, -1));
    assert!(!distinct.push(0, 1 << 32));
    let mut other = PackedU32PairDistinct::new();
    assert!(other.push(1, 7));
    distinct.append(other);
    assert_eq!(distinct.counts_by_first(2), vec![1, 1]);
    let sizes = sizes();
    let filter = PartFilter { excluded_brand: "", excluded_type_prefix: "#", sizes: &sizes };
    let groups = part_groups_by_attributes(&[parts_batch()], &filter).expect("groups");
    let supplied = batch(vec![("ps_partkey", integers(&[1])), ("ps_suppkey", integers(&[-10]))], 1);
    let excluded = dodam_sql::supplier_rows::ExcludedSuppliers {
        keys: HashSet::new(),
        max_suppkey: Some(3),
    };
    let switches =
        SupplierCountSwitches { packed_disabled: false, bitset_enabled: false, bitset_max_bytes: 0 };
    assert_eq!(
        message(distinct_supplier_counts_by_part_group(&[supplied], &groups, excluded, switches)),
        "packed distinct key is out of range"
    );
}

#[test]
fn supplier_bits_need_room() {
    let layout = SupplierBitsetLayout { group_count: 2, words_per_group: 1 };
    assert_eq!(supplier_bitset_layout(2, Some(63), true, 16), Some(layout));
    assert_eq!(supplier_bitset_layout(2, Some(64), true, 16), None);
    assert_eq!(supplier_bitset_layout(2, None, true, 16), None);
    assert_eq!(supplier_bitset_layout(2, Some(63), false, 16), None);
    let mut bits = GroupSupplierBitset::new(layout);
    bits.insert(1, 63);
    bits.insert(1, 63);
    bits.insert(1, 64);
    let mut more = GroupSupplierBitset::new(layout);
    more.insert(0, 0);
    bits.merge(more);
    assert_eq!(bits.counts(), vec![1, 1]);
    let switches =
        SupplierCountSwitches { packed_disabled: true, bitset_enabled: true, bitset_max_bytes: 16 };
    assert_eq!(supplier_count_method(2, Some(63), switches), SupplierCountMethod::Bitset(layout));
    assert_eq!(supplier_count_method(2, Some(-1), switches), SupplierCountMethod::Hash);
}

#[test]
fn order_years_come_from_their_dates() {
    let orders = batch(
        vec![
            ("o_orderkey", integers(&[5, 7, 5])),
            (
                "o_orderdate",
                ColumnArray {
                    type_label: "Date32".to_string(),
                    data: ColumnData::Date32(Vector::from_values(vec![0, 366, 9_131])),
                },
            ),
        ],
        3,
    );
    let mut partial = OrderYearPartial::new();
    order_years_partial_batch_into(&orders, &mut partial).expect("orders");
    let extent = order_extent(std::slice::from_ref(&partial));
    assert_eq!((extent.min_key, extent.max_key, extent.fallback_required), (5, 7, false));
    for (allowed, entries) in [(true, 3), (true, 2), (false, 3)] {
        let years =
            order_years_from_partials(std::slice::from_ref(&partial), allowed, entries, 100);
        assert_eq!(years.get(5), Some(1995));
        assert_eq!(years.get(7), Some(1971));
        assert_eq!(years.get(6), None);
        let dense = matches!(years, OrderYears::Dense { .. });
        assert_eq!(dense, allowed && entries == 3);
    }
    assert_eq!(dense_year_get(&[1990, 0], 5, 0, 5), Some(1990));
    assert_eq!(dense_year_get(&[1990, 0], 5, 0, 6), None);
    assert_eq!(dense_year_get(&[1990, 0], 5, 0, 4), None);
}

#[test]
fn packed_keys_come_apart_again() {
    let key = pack_part_supp_key(3, 4).expect("a key");
    assert_eq!(key, 3 << 32 | 4);
    assert_eq!(unpack_part_supp_key(key), (3, 4));
    assert_eq!(pack_part_supp_key(-1, 4), None);
    assert_eq!(pack_part_supp_key(3, 1 << 32), None);
    let slot = dense_profit_group_slot(2, 1995).expect("a slot");
    assert_eq!(unpack_dense_profit_group_slot(slot), (2, 1995));
    assert_eq!(dense_profit_group_slot(-1, 1995), None);
    let key = pack_profit_group_key(70, 2100).expect("a key");
    assert_eq!(unpack_profit_group_key(key), (70, 2100));
    for group in [(2, 1995), (70, 2100), (-1, 1995), (3, -5)] {
        assert_eq!(profit_group(profit_slot(group.0, group.1)), group);
    }
    assert!(matches!(profit_slot(2, 1995), ProfitSlot::Dense(_)));
    assert!(matches!(profit_slot(-1, 1995), ProfitSlot::Fallback(-1, 1995)));
}

#[test]
fn supply_costs_keep_the_latest_entry() {
    let mut costs = SupplyCosts::new();
    costs.insert(1, 2, SupplyInfo { supplycost: 10, nationkey: 5 });
    costs.insert(1, 2, SupplyInfo { supplycost: 11, nationkey: 5 });
    assert_eq!(costs.layout_name(), "packed_u64");
    assert!(costs.packed_costs().is_some());
    costs.insert(-1, 2, SupplyInfo { supplycost: 12, nationkey: 6 });
    assert_eq!(costs.layout_name(), "pair_hash");
    assert_eq!(costs.get(1, 2).map(|info| info.supplycost), Some(11));
    assert_eq!(costs.get(-1, 2).map(|info| info.nationkey), Some(6));
    assert!(costs.get(2, 1).is_none());
    assert_eq!(costs.len(), 2);
}

#[test]
fn changing_the_layout_of_supply_costs_loses_nothing() {
    let mut costs = SupplyCosts::new();
    assert_eq!(costs.len(), 0);
    costs.insert(1, 2, SupplyInfo { supplycost: 2, nationkey: 3 });
    costs.insert(-1, 5, SupplyInfo { supplycost: 4, nationkey: 6 });
    let entry = |part, supplier| costs.get(part, supplier).map(|info| (info.supplycost, info.nationkey));
    assert_eq!(entry(1, 2), Some((2, 3)));
    assert_eq!(entry(-1, 5), Some((4, 6)));
    assert_eq!(entry(5, -1), None);
    assert_eq!(costs.len(), 2);
    assert_eq!(costs.layout_name(), "pair_hash");
    assert!(costs.packed_costs().is_none());
    costs.insert(7, 8, SupplyInfo { supplycost: 9, nationkey: 1 });
    costs.insert(i64::MIN, i64::MAX, SupplyInfo { supplycost: 5, nationkey: 1 });
    costs.insert(1, 2, SupplyInfo { supplycost: 3, nationkey: 3 });
    assert_eq!(costs.len(), 4);
    assert_eq!(costs.get(1, 2).map(|info| info.supplycost), Some(3));
    let mut packed = SupplyCosts::new();
    packed.insert(1, 2, SupplyInfo { supplycost: 1, nationkey: 0 });
    packed.insert(3, 4, SupplyInfo { supplycost: 1, nationkey: 0 });
    let mut merged = SupplyCosts::new();
    merged.merge(&packed);
    assert_eq!((merged.len(), merged.layout_name()), (2, "packed_u64"));
    merged.merge(&costs);
    assert_eq!((merged.len(), merged.layout_name()), (5, "pair_hash"));
    assert_eq!(merged.get(1, 2).map(|info| info.supplycost), Some(3));
    assert_eq!(merged.get(i64::MIN, i64::MAX).map(|info| info.supplycost), Some(5));
    assert_eq!(merged.get(3, 4).map(|info| info.supplycost), Some(1));
}

fn profit_costs() -> SupplyCosts<i64> {
    let mut costs = SupplyCosts::new();
    costs.insert(1, 8, SupplyInfo { supplycost: 30, nationkey: 4 });
    costs.insert(2, 8, SupplyInfo { supplycost: 31, nationkey: 4 });
    costs
}

#[test]
fn profit_counts_the_rows_that_find_everything() {
    let orderkeys = Vector::from_values(vec![5, 5, 6, 5, 5]);
    let partkeys = Vector::from_values(vec![1, 3, 1, 2, 2]);
    let suppkeys = Vector::from_values(vec![8, 8, 8, 9, 8]);
    let keys = ProfitKeys { orderkeys: &orderkeys, partkeys: &partkeys, suppkeys: &suppkeys };
    let mut parts = AdaptiveI64Set::new_dense(10);
    parts.insert(1);
    parts.insert(2);
    let years = OrderYears::Dense { values: vec![1995, i32::MIN], base_key: 5, missing: i32::MIN };
    let costs = profit_costs();
    let found = profit_rows(&keys, &[true; 5], true, &parts, &years, &costs, true);
    let hits: Vec<(usize, i64, i32, i64)> =
        found.hits.iter().map(|hit| (hit.row, hit.nationkey, hit.year, hit.supplycost)).collect();
    assert_eq!(hits, vec![(0, 4, 1995, 30), (4, 4, 1995, 31)]);
    assert_eq!(found.profile.rows, 5);
    assert_eq!(found.profile.part_hits, 4);
    assert_eq!(found.profile.order_hits, 3);
    assert_eq!(found.profile.supply_hits, 2);
    let flags = [false, true, true];
    let dense = profit_packed_dense_rows(
        &[5, 5, 6, 5, 5],
        &[1, 3, 1, 2, 2],
        &[8, 8, 8, 9, 8],
        &DenseParts { flags: &flags, words: None },
        &DenseYears { values: &[1995, i32::MIN], base_key: 5, missing: i32::MIN },
        costs.packed_costs().expect("packed"),
        false,
    );
    let same: Vec<(usize, i64, i32, i64)> =
        dense.hits.iter().map(|hit| (hit.row, hit.nationkey, hit.year, hit.supplycost)).collect();
    assert_eq!(same, hits);
}

#[test]
fn batches_and_views_have_the_same_profit() {
    let some = |cells: &[Option<i64>]| Vector {
        values: cells.iter().map(|cell| cell.unwrap_or(0)).collect(),
        validity: Some(cells.iter().map(|cell| cell.is_some()).collect()),
    };
    let orderkeys = integers(&[5, 5, 6, 5, 5]);
    let partkeys = integers(&[1, 3, 1, 2, 2]);
    let suppkeys = integers(&[8, 8, 8, 9, 8]);
    let whole = amounts(&[1, 2, 3, 4, 5]);
    let lacking = ColumnArray {
        type_label: "Decimal64(12, 2)".to_string(),
        data: ColumnData::DecimalInt64 {
            units: some(&[None, Some(2), Some(3), Some(4), Some(5)]),
            scale: 2,
        },
    };
    let mut parts = AdaptiveI64Set::new_dense(10);
    parts.insert(1);
    parts.insert(2);
    let years = OrderYears::Dense { values: vec![1995, i32::MIN], base_key: 5, missing: i32::MIN };
    let costs = profit_costs();
    for (discounts, expected) in [(&whole, vec![(0, 4, 30), (4, 4, 31)]), (&lacking, vec![(4, 4, 31)])] {
        let columns = ProfitColumns {
            orderkeys: &orderkeys,
            partkeys: &partkeys,
            suppkeys: &suppkeys,
            quantities: &whole,
            extendedprices: &whole,
            discounts,
        };
        let batch = profit_decimal_batch(&columns, &parts, &years, &costs, true).expect("typed");
        let (keys, units) = typed_profit_columns(&columns).expect("typed");
        let view = profit_decimal_view(&keys, &units, &parts, &years, &costs, true);
        for rows in [&batch, &view] {
            let hits: Vec<(usize, i64, i64)> =
                rows.hits.iter().map(|hit| (hit.row, hit.nationkey, hit.supplycost)).collect();
            assert_eq!(hits, expected);
            assert_eq!(rows.profile.rows, 5);
            assert_eq!(rows.profile.amount_rows, expected.len());
        }
        let words = texts(&["5", "5", "6", "5", "5"]);
        let untyped = ProfitColumns { orderkeys: &words, ..columns };
        assert!(profit_decimal_batch(&untyped, &parts, &years, &costs, true).is_none());
    }
}

fn amounts(units: &[i128]) -> ColumnArray {
    ColumnArray {
        type_label: "Decimal128(12, 2)".to_string(),
        data: ColumnData::Decimal128 { values: Vector::from_values(units.to_vec()), scale: 2 },
    }
}

#[test]
fn profit_rows_are_read_from_batches() {
    let mut parts = AdaptiveI64Set::new_dense(10);
    parts.insert(1);
    let nations = AdaptiveI64Map::from_hash(HashMap::from([(8, 4)]));
    let supplied = batch(
        vec![
            ("ps_partkey", integers(&[1, 1, 2])),
            ("ps_suppkey", integers(&[8, 9, 8])),
            ("ps_supplycost", amounts(&[3_000, 1, 2])),
        ],
        3,
    );
    let costs = supply_costs(&[supplied], &parts, &nations).expect("costs");
    assert!(costs.get(1, 8).is_some() && costs.get(1, 9).is_none() && costs.get(2, 8).is_none());
    let years = OrderYears::Dense { values: vec![1995], base_key: 5, missing: i32::MIN };
    let lines = batch(
        vec![
            ("l_orderkey", integers(&[5, 6])),
            ("l_partkey", integers(&[1, 1])),
            ("l_suppkey", integers(&[8, 8])),
            ("l_quantity", amounts(&[200, 200])),
            ("l_extendedprice", amounts(&[10_000, 1])),
            ("l_discount", amounts(&[5, 5])),
        ],
        2,
    );
    let entries = profit_batch(&lines, &parts, &years, &costs).expect("entries");
    assert_eq!(entries.len(), 1);
    assert_eq!((entries[0].nationkey, entries[0].year), (4, 1995));
    assert_eq!(entries[0].supplycost, Amount::Decimal { units: 3_000, scale: 2 });
    assert_eq!(entries[0].extendedprice, Amount::Decimal { units: 10_000, scale: 2 });
    let lacking = batch(vec![("ps_partkey", integers(&[1]))], 1);
    assert_eq!(message(supply_costs(&[lacking], &parts, &nations)), "ps_suppkey");
    let wrong = batch(
        vec![
            ("ps_partkey", integers(&[1])),
            ("ps_suppkey", integers(&[8])),
            ("ps_supplycost", texts(&["x"])),
        ],
        1,
    );
    assert_eq!(
        message(supply_costs(&[wrong], &parts, &nations)),
        "expected numeric column, got Utf8"
    );
}

#[test]
fn profit_rows_are_ordered_by_nation_and_latest_year() {
    let names = HashMap::from([(1, "FRANCE".to_string()), (2, "BRAZIL".to_string())]);
    let groups = [((1, 1995), 10), ((2, 1995), 20), ((1, 1996), 30), ((3, 1996), 40)];
    let rows = profit_rows_from_groups(&groups, &names);
    let found: Vec<(&str, i32, i32)> =
        rows.iter().map(|row| (row.nation.as_str(), row.o_year, row.sum_profit)).collect();
    assert_eq!(found, vec![("BRAZIL", 1995, 20), ("FRANCE", 1996, 30), ("FRANCE", 1995, 10)]);
}

#[test]
fn bytes_of_rows_are_found_by_offset() {
    let offsets = [0, 1, 3];
    assert_eq!(bytes_string_parts(&offsets, b"Rab", 1), b"ab");
    assert!(utf8_value_is_one_byte(&offsets, b"Rab", 0, b'R'));
    assert!(!utf8_value_is_one_byte(&offsets, b"Rab", 1, b'a'));
    assert_eq!(single_ascii_byte("R"), Some(b'R'));
    assert_eq!(single_ascii_byte("RF"), None);
    assert_eq!(contiguous_single_byte_utf8_data(&[0, 1, 2], b"AB", 2, 0), Some(&b"AB"[..]));
    assert_eq!(contiguous_single_byte_utf8_data(&[0, 2, 2], b"AB", 2, 0), None);
    assert_eq!(contiguous_single_byte_utf8_data(&[0, 1, 2], b"AB", 2, 1), None);
}

#[test]
fn pricing_groups_are_numbered_and_sorted() {
    let flags = strings(&["R", "A", "R", "A"]);
    let statuses = strings(&["F", "F", "F", "O"]);
    let quantities = Vector::from_values(vec![1_i64, 2, 3, 4]);
    let prices = Vector::from_values(vec![10_i64, 20, 30, 40]);
    let shipdates = Vector::from_values(vec![100, 100, 101, 100]);
    let columns = PricingColumns {
        returnflags: &flags,
        linestatuses: &statuses,
        quantities: DecimalUnits::Narrow(&quantities),
        extendedprices: DecimalUnits::Narrow(&prices),
        discounts: DecimalUnits::Narrow(&prices),
        taxes: DecimalUnits::Narrow(&prices),
        shipdates: &shipdates,
    };
    let mut groups = PricingSummaryGroupSlots::new();
    let terms = pricing_summary_update_decimal(&columns, 100, &mut groups);
    assert_eq!(terms.len(), 3);
    assert_eq!(terms[0].slot, PricingSlot::Key(0));
    assert_eq!(terms[1].slot, PricingSlot::Key(1));
    assert_eq!(terms[2].slot, PricingSlot::Key(2));
    assert_eq!((terms[2].quantity, terms[2].extendedprice), (4, 40));
    assert_eq!(groups.update("long", "F"), PricingSlot::Overflow(0));
    let mut merged = PricingSummaryGroupSlots::new();
    assert_eq!(merged.state_for_key_mut(b'A', b'O'), PricingSlot::Key(0));
    let places = merged.merge_slots(&groups);
    assert_eq!(
        places,
        vec![
            PricingSlot::Key(1),
            PricingSlot::Key(2),
            PricingSlot::Key(0),
            PricingSlot::Overflow(0)
        ]
    );
    let rows = pricing_summary_sorted_rows(merged);
    let found: Vec<(&str, &str, u64)> = rows
        .iter()
        .map(|row| (row.returnflag.as_str(), row.linestatus.as_str(), row.count_order))
        .collect();
    // The late row opened no group, and the place asked for ahead counts no row of its own.
    assert_eq!(
        found,
        vec![("A", "F", 1), ("A", "O", 1), ("R", "F", 1), ("long", "F", 1)]
    );
}

#[test]
fn merged_pricing_groups_add_their_counts() {
    let names = ["a", "b", "c", "d", "e", "f", "g", "h"];
    let mut full = PricingSummaryGroupSlots::new();
    for name in names {
        full.update(name, "F");
        full.update(name, "F");
    }
    full.update_key(b'i', b'F');
    let mut other = PricingSummaryGroupSlots::new();
    for name in ["h", "i", "j"] {
        other.update(name, "F");
    }
    assert_eq!(
        full.merge_slots(&other),
        vec![PricingSlot::Key(7), PricingSlot::Overflow(0), PricingSlot::Overflow(1)]
    );
    let rows = pricing_summary_sorted_rows(full);
    let counts: Vec<(&str, u64)> =
        rows.iter().map(|row| (row.returnflag.as_str(), row.count_order)).collect();
    assert_eq!(
        counts,
        vec![
            ("a", 2),
            ("b", 2),
            ("c", 2),
            ("d", 2),
            ("e", 2),
            ("f", 2),
            ("g", 2),
            ("h", 3),
            ("i", 2),
            ("j", 1)
        ]
    );
}

#[test]
fn pricing_batches_are_counted_where_their_columns_fit() {
    let flags = strings(&["R", "A", "R"]);
    let statuses = strings(&["F", "F", "F"]);
    let units = amounts(&[1, 2, 3]);
    let days = ColumnArray {
        type_label: "Date32".to_string(),
        data: ColumnData::Date32(Vector::from_values(vec![100, 101, 99])),
    };
    let mut groups = PricingSummaryGroupSlots::new();
    let batch = PricingBatch {
        returnflags: &flags,
        linestatuses: &statuses,
        quantities: &units,
        extendedprices: &units,
        discounts: &units,
        taxes: &units,
        shipdates: &days,
    };
    let terms = pricing_summary_update_decimal_batch(&batch, 100, &mut groups).expect("typed");
    assert_eq!(terms.iter().map(|term| term.tax).collect::<Vec<i128>>(), vec![1, 3]);
    let numbers = integers(&[1, 2, 3]);
    for untyped in [
        PricingBatch { shipdates: &numbers, ..batch },
        PricingBatch { taxes: &numbers, ..batch },
    ] {
        assert!(pricing_summary_update_decimal_batch(&untyped, 100, &mut groups).is_none());
    }
    let rows = pricing_summary_sorted_rows(groups);
    assert_eq!(rows.len(), 1);
    assert_eq!((rows[0].returnflag.as_str(), rows[0].count_order), ("R", 2));
}

#[test]
fn suppliers_are_put_out_by_name() {
    let row = |name: &str, address: &str| SupplierAddress {
        s_name: name.to_string(),
        s_address: address.to_string(),
    };
    let sorted = suppliers_by_name(vec![row("b", "1"), row("a", "2"), row("b", "3"), row("a", "4")]);
    let found: Vec<(&str, &str)> =
        sorted.iter().map(|row| (row.s_name.as_str(), row.s_address.as_str())).collect();
    assert_eq!(found, vec![("a", "2"), ("a", "4"), ("b", "1"), ("b", "3")]);
}

#[test]
fn nations_are_put_out_by_revenue() {
    let names = HashMap::from([(1, "PERU".to_string()), (2, "CHINA".to_string())]);
    let rows = nations_by_revenue(&[(1, 5), (3, 99), (2, 7)], &names);
    let found: Vec<(&str, i64)> =
        rows.iter().map(|row| (row.n_name.as_str(), row.revenue)).collect();
    assert_eq!(found, vec![("CHINA", 7), ("PERU", 5)]);
}
