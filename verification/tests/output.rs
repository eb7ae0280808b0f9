use dodam_sql::columns::{ColumnArray, ColumnData, RecordBatch, Vector};
use dodam_sql::error::SqlError;
use dodam_sql::output_order::{
    aggregate_output_already_ordered, output_batch_satisfies_order, output_batches_satisfy_order,
    sort_key_available_in_batches, GroupValue,
};
use dodam_sql::output_plan::{
    apply_aggregate_output_order_limit, apply_output_order_limit, order_joined_batch, JoinedPlan,
    OrderSettings, OutputPlan,
};
use dodam_sql::output_sort::{
    dense_i32_array_range, primitive_integer_array_is_ascending,
    sort_nullable_i32_then_ordered_i64_batch, sort_output_batch, sort_primitive_output_batch,
    SortPlan, SortSettings,
};
use dodam_sql::output_utils::{limit_batches, BatchSlice};
use dodam_sql::plan::{SortExpr, SortKey};
use dodam_sql::topk::TopK;
use dodam_sql::streaming_topk::{
    try_streaming_primitive_desc_topk_batches, try_streaming_primitive_topk_batches, RowPosition,
};

fn integers(values: &[i64]) -> ColumnArray {
    ColumnArray {
        type_label: "Int64".to_string(),
        data: ColumnData::Int64(Vector::from_values(values.to_vec())),
    }
}

fn small(values: &[i32]) -> ColumnArray {
    ColumnArray {
        type_label: "Int32".to_string(),
        data: ColumnData::Int32(Vector::from_values(values.to_vec())),
    }
}

fn maybe_small(cells: &[Option<i32>]) -> ColumnArray {
    ColumnArray {
        type_label: "Int32".to_string(),
        data: ColumnData::Int32(Vector {
            values: cells.iter().map(|cell| cell.unwrap_or(0)).collect(),
            validity: Some(cells.iter().map(|cell| cell.is_some()).collect()),
        }),
    }
}

fn texts(values: &[&str]) -> ColumnArray {
    ColumnArray {
        type_label: "Utf8".to_string(),
        data: ColumnData::Utf8(Vector::from_values(
            values.iter().map(|value| value.to_string()).collect(),
        )),
    }
}

fn batch(columns: Vec<(&str, ColumnArray)>, num_rows: usize) -> RecordBatch {
    let mut names = Vec::new();
    let mut data = Vec::new();
    for (name, column) in columns {
        names.push(name.to_string());
        data.push(column);
    }
    RecordBatch { names, columns: data, num_rows }
}

fn key(columns: &[(&str, bool)]) -> SortKey {
    SortKey {
        expressions: columns
            .iter()
            .map(|(column, descending)| SortExpr {
                column: column.to_string(),
                descending: *descending,
                nulls_first: false,
            })
            .collect(),
    }
}

fn nulls_first(mut key: SortKey) -> SortKey {
    key.expressions[0].nulls_first = true;
    key
}

fn settings(on: bool) -> OrderSettings {
    OrderSettings {
        streaming_topk_sort: on,
        batch_prune: true,
        sort: SortSettings { fixed_primitive_partial_sort: on, primitive_partial_sort: on },
    }
}

fn message<T>(result: Result<T, SqlError>) -> String {
    match result {
        Ok(_) => panic!("an error was expected"),
        Err(error) => error.message(),
    }
}

#[test]
fn limits_cut_batches_into_slices() {
    let slice = |batch, start, rows| BatchSlice { batch, start, rows };
    assert_eq!(limit_batches(&[3, 0, 4], Some(3), 2), vec![slice(0, 2, 1), slice(2, 0, 2)]);
    assert_eq!(limit_batches(&[3, 4], None, 3), vec![slice(1, 0, 4)]);
    assert_eq!(limit_batches(&[3, 4], Some(0), 0), vec![]);
    assert_eq!(limit_batches(&[3, 4], Some(9), 7), vec![]);
    // Two offsets in a row skip as many rows as both together.
    let counts = [2, 3, 4];
    let skipped = limit_batches(&counts, None, 3);
    let kept: Vec<usize> = skipped.iter().map(|slice| slice.rows).collect();
    let again: Vec<BatchSlice> = limit_batches(&kept, Some(3), 1)
        .iter()
        .map(|part| {
            let whole = skipped[part.batch];
            slice(whole.batch, whole.start + part.start, part.rows)
        })
        .collect();
    assert_eq!(again, limit_batches(&counts, Some(3), 4));
    assert_eq!(again, vec![slice(1, 2, 1), slice(2, 0, 2)]);
    // A limit after an offset is the same as both at once.
    assert_eq!(limit_batches(&[2, 2], Some(2), 1), vec![slice(0, 1, 1), slice(1, 0, 1)]);
}

#[test]
fn order_is_noticed() {
    let ascending = batch(vec![("a", integers(&[1, 1, 2]))], 3);
    let other = batch(vec![("a", integers(&[2, 5]))], 2);
    let by_a = key(&[("a", false)]);
    assert!(output_batch_satisfies_order(&ascending, &by_a).expect("an answer"));
    assert!(!output_batch_satisfies_order(&ascending, &key(&[("a", true)])).expect("an answer"));
    assert!(output_batches_satisfy_order(&[ascending, other], &by_a).expect("an answer"));
    let words = batch(vec![("a", texts(&["b", "a"]))], 2);
    assert!(!output_batch_satisfies_order(&words, &by_a).expect("an answer"));
    match output_batch_satisfies_order(&words, &key(&[("z", false)])) {
        Err(SqlError::UnknownColumn(name)) => assert_eq!(name, "z"),
        _ => panic!("an unknown column"),
    }
    assert!(sort_key_available_in_batches(std::slice::from_ref(&words), Some(&by_a)));
    assert!(!sort_key_available_in_batches(std::slice::from_ref(&words), Some(&key(&[("z", false)]))));
    assert!(!sort_key_available_in_batches(&[words], None));
}

#[test]
fn groups_in_order_are_noticed() {
    let names = ["a".to_string()];
    let groups = |first, second| {
        vec![vec![GroupValue::Int64(Some(first))], vec![GroupValue::Int64(Some(second))]]
    };
    let by_a = key(&[("a", false)]);
    assert!(aggregate_output_already_ordered(&groups(1, 2), &names, Some(&by_a)));
    assert!(!aggregate_output_already_ordered(&groups(1, 2), &names, Some(&key(&[("a", true)]))));
    let with_null = [vec![GroupValue::Int64(None)], vec![GroupValue::Int64(Some(1))]];
    assert!(!aggregate_output_already_ordered(&with_null, &names, Some(&by_a)));
    assert!(aggregate_output_already_ordered(&with_null, &names, Some(&nulls_first(key(&[("a", false)])))));
    assert!(!aggregate_output_already_ordered(&groups(1, 2), &names, Some(&key(&[("b", false)]))));
    let rows = batch(vec![("a", integers(&[1, 2]))], 2);
    let plan = apply_aggregate_output_order_limit(
        &[rows],
        Some(&by_a),
        Some(1),
        0,
        &groups(1, 2),
        &names,
        settings(false),
    )
    .expect("a plan");
    assert!(matches!(plan, OutputPlan::Slices(slices) if slices.len() == 1 && slices[0].rows == 1));
}

#[test]
fn output_without_an_order_is_cut() {
    let rows = batch(vec![("a", integers(&[3, 1]))], 2);
    let plan = apply_output_order_limit(&[rows], None, Some(1), 1, settings(true)).expect("a plan");
    match plan {
        OutputPlan::Slices(slices) => {
            assert_eq!(slices, vec![BatchSlice { batch: 0, start: 1, rows: 1 }]);
        }
        _ => panic!("slices"),
    }
}

#[test]
fn largest_rows_are_taken_from_all_batches() {
    let first = batch(vec![("a", integers(&[5, 1, 9]))], 3);
    let second = batch(vec![("a", integers(&[9, 2]))], 2);
    let batches = [first, second];
    let rows = try_streaming_primitive_desc_topk_batches(&batches, &key(&[("a", true)]), 3)
        .expect("a shape that applies");
    let at = |batch, row| RowPosition { batch, row };
    assert_eq!(rows, vec![at(0, 2), at(1, 0), at(0, 0)]);
    assert!(try_streaming_primitive_desc_topk_batches(&batches, &key(&[("a", false)]), 3).is_none());
    match apply_output_order_limit(&batches, Some(&key(&[("a", true)])), Some(3), 0, settings(false)) {
        Ok(OutputPlan::Rows(chosen)) => assert_eq!(chosen, rows),
        _ => panic!("rows"),
    }
}

#[test]
fn smallest_rows_are_taken_from_all_batches() {
    let first = batch(
        vec![("a", small(&[2, 1])), ("b", integers(&[7, 7])), ("c", integers(&[0, 0]))],
        2,
    );
    let second = batch(
        vec![("a", small(&[1, 3])), ("b", integers(&[6, 6])), ("c", integers(&[0, 0]))],
        2,
    );
    let batches = [first, second];
    let order = key(&[("a", false), ("b", false), ("c", false)]);
    let rows = try_streaming_primitive_topk_batches(&batches, &order, 2, true)
        .expect("an answer")
        .expect("a shape that applies");
    let at = |batch, row| RowPosition { batch, row };
    assert_eq!(rows, vec![at(1, 0), at(0, 1)]);
    assert!(try_streaming_primitive_topk_batches(&batches, &order, 2, false).expect("off").is_none());
}

#[test]
fn long_batches_are_sorted_before_they_are_joined() {
    let first = batch(vec![("a", texts(&["b", "a"]))], 2);
    let second = batch(vec![("a", texts(&[]))], 0);
    let third = batch(vec![("a", texts(&["c"]))], 1);
    let order = key(&[("a", false)]);
    let batches = [first, second, third];
    match apply_output_order_limit(&batches, Some(&order), Some(1), 0, settings(true)) {
        Ok(OutputPlan::SortEachThenAll { sorts, limit }) => {
            assert_eq!(limit, 1);
            // A batch without rows is not sorted.
            assert_eq!(sorts.iter().map(|sort| sort.batch).collect::<Vec<usize>>(), [0, 2]);
        }
        _ => panic!("sorted batches"),
    }
    // The first batch that lacks the column is an error.
    assert!(matches!(
        apply_output_order_limit(&batches, Some(&key(&[("z", false)])), Some(1), 0, settings(true)),
        Err(SqlError::UnknownColumn(name)) if name == "z"
    ));
    assert!(matches!(
        apply_output_order_limit(&batches, Some(&order), None, 0, settings(true)),
        Ok(OutputPlan::Join)
    ));
}

#[test]
fn joined_rows_are_sorted_unless_they_are_in_order() {
    let order = key(&[("a", false)]);
    let ready = batch(vec![("a", texts(&["a", "b"]))], 2);
    assert!(matches!(
        order_joined_batch(&ready, &order, Some(1), 0, settings(true)),
        Ok(JoinedPlan::InOrder(slices)) if slices == [BatchSlice { batch: 0, start: 0, rows: 1 }]
    ));
    let mixed = batch(vec![("a", texts(&["b", "a", "c"]))], 3);
    match order_joined_batch(&mixed, &order, Some(1), 1, settings(true)) {
        Ok(JoinedPlan::Sorted { sort: SortPlan::General(columns), sorted_limit, slices }) => {
            assert_eq!(columns.len(), 1);
            assert_eq!((columns[0].column, columns[0].descending), (0, false));
            assert_eq!(sorted_limit, Some(2));
            assert_eq!(slices, vec![BatchSlice { batch: 0, start: 1, rows: 1 }]);
        }
        _ => panic!("a sort"),
    }
}

#[test]
fn primitive_rows_are_sorted_by_their_keys() {
    let rows = batch(vec![("a", integers(&[3, 1, 2])), ("b", integers(&[0, 0, 0]))], 3);
    let order = key(&[("a", true), ("b", false)]);
    let sorted = sort_primitive_output_batch(&rows, &order, Some(2), true)
        .expect("an answer")
        .expect("integers");
    assert_eq!(sorted, vec![0, 2]);
    assert!(sort_primitive_output_batch(&rows, &order, Some(2), false).expect("off").is_none());
    assert_eq!(
        message(sort_output_batch(&rows, &key(&[("z", false)]), None, settings(true).sort)),
        "z"
    );
    assert!(primitive_integer_array_is_ascending(&integers(&[1, 1, 2])));
    assert!(!primitive_integer_array_is_ascending(&integers(&[2, 1])));
}

#[test]
fn nulls_and_buckets_are_sorted_in_their_place() {
    let rows = batch(
        vec![("a", maybe_small(&[Some(2), None, Some(1), Some(2)])), ("b", integers(&[1, 2, 3, 4]))],
        4,
    );
    let order = nulls_first(key(&[("a", false), ("b", false)]));
    let sorted = sort_nullable_i32_then_ordered_i64_batch(&rows, &order, None).expect("an answer");
    if let Some(sorted) = sorted {
        assert_eq!(sorted, vec![1, 2, 0, 3]);
    }
    let column = Vector { values: vec![7, 0, 5], validity: Some(vec![true, false, true]) };
    assert_eq!(dense_i32_array_range(&column), Some((5, 3)));
}

#[test]
fn batches_cut_off_first_give_the_same_first_rows() {
    let first = [9_i128, 1, 5];
    let second = [4_i128, 8, 2];
    let top = |values: &[i128], limit: usize| {
        let mut top = TopK::new(limit, 1);
        for value in values {
            top.push(vec![*value]);
        }
        top.into_ranks()
    };
    let all: Vec<i128> = first.iter().chain(second.iter()).copied().collect();
    let cut: Vec<i128> =
        top(&first, 2).into_iter().chain(top(&second, 2)).map(|rank| rank[0]).collect();
    assert_eq!(cut, vec![1, 5, 2, 4]);
    assert_eq!(top(&cut, 2), top(&all, 2));
    assert_eq!(top(&all, 2), vec![vec![1], vec![2]]);
}
