use std::collections::{HashMap, HashSet};

use dodam_sql::calendar::{
    civil_from_days, date32_to_ymd_string, date_days, days_from_civil, parse_ymd, year_of_day,
};
use dodam_sql::columns::{
    batch_column, batch_string_column, date32_value, numeric_i64_value, ColumnArray, ColumnData,
    RecordBatch, Vector,
};
use dodam_sql::error::SqlError;
use dodam_sql::key_ranges::{
    projection_column_count, raw_i64_key_range, selective_i64_key_range,
    selective_i64_range_from_parts, should_use_i64_set_row_filter_for_key_stats,
    should_use_i64_set_row_filter_for_keys_auto, RowFilterChoice, RowFilterLimits,
};
use dodam_sql::plan::Projection;
use dodam_sql::settings::{
    count_setting, dense_i64_probe_max_key, dense_value_max_entries, enabled_unless,
    env_flag_enabled, order_year_max_dense_entries, positive_setting, row_group_map_chunk_size,
    sort_switch_on, sql_rule_profile_enabled, topk_batch_prune_enabled,
};
use dodam_sql::tables::{fast_hash_map_from_pairs, AdaptiveI64Map, AdaptiveI64Set};
use dodam_sql::text::{
    contains, decimal_text, eq_ignore_ascii_case, join_with, parse_i64, parse_usize, starts_with,
    str_less, strip_prefix_char, strip_suffix_char, to_ascii_lowercase, truthy,
};
use dodam_sql::topk::{rank_less, TopK};

fn column(label: &str, data: ColumnData) -> ColumnArray {
    ColumnArray { type_label: label.to_string(), data }
}

fn strings(values: &[&str]) -> Vector<String> {
    Vector::from_values(values.iter().map(|value| value.to_string()).collect())
}

fn message<T>(result: Result<T, SqlError>) -> String {
    match result {
        Ok(_) => panic!("an error was expected"),
        Err(error) => error.message(),
    }
}

#[test]
fn dates_follow_the_calendar() {
    assert_eq!(date_days("1970-01-01").expect("a date"), 0);
    assert_eq!(date_days("1998-12-01").expect("a date"), 10_561);
    assert_eq!(date_days("2000-02-29").expect("a date"), 11_016);
    assert_eq!(days_from_civil(1969, 12, 31).expect("a date"), -1);
    assert_eq!(civil_from_days(-1), (1969, 12, 31));
    assert_eq!(civil_from_days(11_016), (2000, 2, 29));
    assert_eq!(year_of_day(364), 1970);
    assert_eq!(year_of_day(365), 1971);
    assert_eq!(message(date_days("1900-02-29")), "invalid DATE literal");
    assert_eq!(message(parse_ymd("1998-1-01")), "invalid DATE literal");
    assert_eq!(message(date_days("1998/12/01")), "invalid DATE literal");
}

#[test]
fn written_dates_are_read_back() {
    assert_eq!(date32_to_ymd_string(0), "1970-01-01");
    assert_eq!(date32_to_ymd_string(10_561), "1998-12-01");
    for days in [-719_162, -1, 0, 59, 11_016, 20_000] {
        assert_eq!(date_days(&date32_to_ymd_string(days)).expect("a date"), days);
    }
    // The first day of year zero, and the last day before it.
    assert_eq!(date32_to_ymd_string(-719_528), "0000-01-01");
    assert_eq!(date32_to_ymd_string(-719_529), "-001-12-31");
}

#[test]
fn numbers_are_read_and_written() {
    assert_eq!(parse_usize("+12"), Some(12));
    assert_eq!(parse_usize("-1"), None);
    assert_eq!(parse_usize(""), None);
    assert_eq!(parse_i64("9223372036854775807"), Some(i64::MAX));
    assert_eq!(parse_i64("-1"), None);
    assert_eq!(parse_i64("9223372036854775808"), None);
    assert_eq!(parse_i64("1.5"), None);
    for number in [0, 9, 10, 1_000_007] {
        assert_eq!(parse_usize(&decimal_text(number)), Some(number as usize));
    }
    assert_eq!(decimal_text(1_000_007), "1000007");
}

#[test]
fn text_is_compared_and_cut() {
    assert!(eq_ignore_ascii_case("L_OrderKey", "l_orderkey"));
    assert!(!eq_ignore_ascii_case("ab", "abc"));
    assert_eq!(to_ascii_lowercase("SELECT É"), "select É");
    assert!(starts_with("forest green", "forest"));
    assert!(!starts_with("for", "forest"));
    assert!(contains("dark green", "k g"));
    assert!(contains("x", ""));
    assert_eq!(strip_prefix_char("%abc", '%'), Some("abc".to_string()));
    assert_eq!(strip_suffix_char("abc", '%'), None);
    assert_eq!(join_with(&["a".to_string(), "b".to_string()], "."), "a.b");
    assert!(truthy("YES"));
    assert!(!truthy("off"));
}

#[test]
fn strings_are_ordered_by_their_characters() {
    assert!(str_less("ab", "b"));
    assert!(str_less("ab", "abc"));
    assert!(!str_less("abc", "abc"));
    // One of two different strings comes first, and the order carries over.
    assert!(str_less("a", "b") && str_less("b", "c") && str_less("a", "c"));
    assert!(str_less("Z", "a") && !str_less("a", "Z"));
}

#[test]
fn columns_are_found_by_name() {
    let batch = RecordBatch {
        names: vec!["Key".to_string(), "name".to_string(), "day".to_string()],
        columns: vec![
            column("Int32", ColumnData::Int32(Vector { values: vec![7, 0], validity: Some(vec![true, false]) })),
            column("Utf8", ColumnData::Utf8(strings(&["a", "b"]))),
            column("Date64", ColumnData::Date64(Vector::from_values(vec![86_400_000, -1]))),
        ],
        num_rows: 2,
    };
    let keys = batch_column(&batch, "KEY").expect("the keys");
    assert_eq!(numeric_i64_value(keys, 0).expect("a number"), Some(7));
    assert_eq!(numeric_i64_value(keys, 1).expect("a null"), None);
    assert_eq!(batch_string_column(&batch, "name").expect("the names").values[1], "b");
    let days = batch_column(&batch, "day").expect("the days");
    assert_eq!(date32_value(days, 0).expect("a day"), Some(1));
    assert_eq!(date32_value(days, 1).expect("a day"), Some(0));
    match batch_column(&batch, "other") {
        Err(SqlError::UnknownColumn(name)) => assert_eq!(name, "other"),
        _ => panic!("an unknown column"),
    }
    assert_eq!(message(batch_string_column(&batch, "key")), "key must be Utf8");
    let names = batch_column(&batch, "name").expect("the names");
    assert_eq!(message(numeric_i64_value(names, 0)), "expected integer column, got Utf8");
    assert_eq!(message(date32_value(names, 0)), "expected date column, got Utf8");
}

#[test]
fn adaptive_tables_keep_their_keys_when_they_change_layout() {
    let mut set = AdaptiveI64Set::new_dense(10);
    set.insert(3);
    assert!(set.dense_contains_slice().is_some());
    set.insert(1_000);
    assert!(set.dense_contains_slice().is_none());
    assert!(set.contains(3) && set.contains(1_000) && !set.contains(4) && !set.contains(-3));
    let mut map = AdaptiveI64Map::new_dense(10);
    map.insert(3, 30);
    map.insert(3, 31);
    map.insert(-5, 50);
    assert_eq!(map.get(3), Some(31));
    assert_eq!(map.get(-5), Some(50));
    assert_eq!(map.get(5), None);
    let hashed = AdaptiveI64Set::from_hash(HashSet::from([2, 4]));
    assert!(hashed.contains(4) && !hashed.contains(3));
    let hashed = AdaptiveI64Map::from_hash(HashMap::from([(2, 'b')]));
    assert_eq!(hashed.get(2), Some('b'));
    let map = fast_hash_map_from_pairs(&[(1, 'a'), (2, 'b'), (1, 'c')]);
    assert_eq!(map.get(&1), Some(&'c'));
    assert_eq!(map.len(), 2);
}

#[test]
fn ranges_are_selective_where_they_are_dense() {
    assert_eq!(raw_i64_key_range(&[5, -2, 9]), Some((-2, 9)));
    assert_eq!(raw_i64_key_range(&[]), None);
    assert_eq!(selective_i64_range_from_parts(0, 1_023, 1), Some((0, 1_023)));
    assert_eq!(selective_i64_range_from_parts(0, 1_024, 1), None);
    assert_eq!(selective_i64_range_from_parts(0, 1_599, 200), Some((0, 1_599)));
    assert_eq!(selective_i64_range_from_parts(-1, 5, 10), None);
    assert_eq!(selective_i64_key_range(&[4, 2]), Some((2, 4)));
    assert_eq!(selective_i64_key_range(&[4, -2]), None);
    assert_eq!(projection_column_count(&Projection::All), usize::MAX);
    assert_eq!(projection_column_count(&Projection::Columns(vec!["a".to_string()])), 1);
    let limits = RowFilterLimits { max_keys: 4, min_projected_columns: 2, always_allow_keys: 1 };
    let choose = |count, low, high, columns| {
        should_use_i64_set_row_filter_for_key_stats(true, count, low, high, columns, &limits)
    };
    assert_eq!(choose(1, 0, 9, 2), RowFilterChoice::Yes);
    assert_eq!(choose(2, 0, 9, 2), RowFilterChoice::ByDensity { width: 10 });
    assert_eq!(choose(5, 0, 9, 2), RowFilterChoice::No);
    assert_eq!(choose(1, 0, 9, 1), RowFilterChoice::No);
    assert_eq!(choose(1, i64::MIN, i64::MAX, 2), RowFilterChoice::No);
    assert_eq!(
        should_use_i64_set_row_filter_for_keys_auto(true, &[3, 8, 5], 2, &limits),
        RowFilterChoice::ByDensity { width: 6 }
    );
}

#[test]
fn settings_fall_back_to_their_defaults() {
    assert!(env_flag_enabled(Some("true")) && !env_flag_enabled(Some("on")) && !env_flag_enabled(None));
    assert!(enabled_unless(None) && enabled_unless(Some("0")) && !enabled_unless(Some("1")));
    assert!(sql_rule_profile_enabled(Some("ON")) && !sql_rule_profile_enabled(None));
    assert!(!sort_switch_on(None) && sort_switch_on(Some("TRUE")));
    assert!(topk_batch_prune_enabled(None) && !topk_batch_prune_enabled(Some("1")));
    assert_eq!(count_setting(Some("0"), 9), 0);
    assert_eq!(count_setting(Some("x"), 9), 9);
    assert_eq!(positive_setting(Some("0"), 9), 9);
    assert_eq!(positive_setting(Some("4"), 9), 4);
    assert_eq!(row_group_map_chunk_size(None, None, 4), 4);
    assert_eq!(dense_value_max_entries(Some("16"), 800, 8), 2);
    assert_eq!(dense_value_max_entries(Some("7"), 800, 8), 100);
    assert_eq!(dense_i64_probe_max_key(None, Some("2"), 1), 15);
    assert_eq!(dense_i64_probe_max_key(Some("3"), Some("2"), 1), 3);
    assert_eq!(order_year_max_dense_entries(100, Some(10), 40), 40);
    assert_eq!(order_year_max_dense_entries(100, None, 40), 100);
}

#[test]
fn top_k_keeps_the_smallest_ranks() {
    let mut top = TopK::new(2, 1);
    for value in [5, 1, 4, 3] {
        top.push(vec![value]);
    }
    assert_eq!(top.worst(), Some(&vec![3]));
    assert_eq!(top.into_ranks(), vec![vec![1], vec![3]]);
    assert!(rank_less(&vec![1, 9], &vec![2, 0]));
    assert!(!rank_less(&vec![1, 9], &vec![1, 9]));
}
