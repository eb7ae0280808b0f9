//! What scans of a batch give out, said over the cells of its columns.
//!
//! Each law takes the outcome of a scan and says of which rows it speaks, in order, and what
//! stands in the columns of each of them. No other row counts.

use vstd::prelude::*;
use crate::batch_rows::{
    eligible_supplier_columns, eligible_supplier_steps, flagged_revenue_columns,
    flagged_revenue_steps, key_three_strings_columns, key_three_strings_steps,
    key_two_strings_amount_columns, key_two_strings_amount_steps, nation_name_columns,
    nation_name_steps, nation_revenue_columns, nation_revenue_steps, order_customer_columns,
    order_customer_steps, pricing_row_columns, pricing_row_steps, reads_eligible_suppliers,
    reads_flagged_revenue, reads_key_three_strings, reads_key_two_strings_amount,
    reads_nation_names, reads_nation_revenue, reads_order_customers, reads_priced_rows,
    reads_region_nations, reads_returned_customers, reads_returned_revenue,
    reads_shipped_quantities, reads_two_keys_amount, reads_two_keys_string,
    reads_two_keys_two_strings, region_nation_columns, region_nation_steps,
    returned_customer_columns, returned_customer_steps, returned_revenue_columns,
    returned_revenue_steps, shipped_quantity_columns, shipped_quantity_steps,
    two_keys_amount_columns, two_keys_amount_steps, two_keys_string_columns, two_keys_string_steps,
    two_keys_two_strings_columns, two_keys_two_strings_steps, PricedRow, ReturnedCustomer,
};
use crate::calendar::day_number;
use crate::columns::{truncated_days, ColumnData, RecordBatch};
use crate::error::SqlResult;
use crate::profit::{SupplyCosts, SupplyInfo};
use crate::profit_batch::{
    profit_entry_columns, profit_entry_steps, reads_profit_entries, reads_supply_costs,
    supply_cost_columns, supply_cost_steps, ProfitEntry, SupplyEntry,
};
use crate::row_scan::{gathered, Amount, Step};

verus! {

/// The integer that a row holds under a name, if it holds one.
pub open spec fn integer_in(batch: RecordBatch, name: Seq<char>, row: int) -> Option<i64> {
    match batch.column_named(name).data {
        ColumnData::Int32(vector) => if vector.valid_at(row) {
            Some(vector.values@[row] as i64)
        } else {
            None
        },
        ColumnData::Int64(vector) => if vector.valid_at(row) {
            Some(vector.values@[row])
        } else {
            None
        },
        _ => None,
    }
}

/// The text that a row holds under a name, if it holds one.
pub open spec fn text_in(batch: RecordBatch, name: Seq<char>, row: int) -> Option<Seq<char>> {
    match batch.column_named(name).data {
        ColumnData::Utf8(vector) => if vector.valid_at(row) {
            Some(vector.values@[row]@)
        } else {
            None
        },
        _ => None,
    }
}

/// The day that a row holds under a name, if it holds one.
pub open spec fn day_in(batch: RecordBatch, name: Seq<char>, row: int) -> Option<i32> {
    match batch.column_named(name).data {
        ColumnData::Date32(vector) => if vector.valid_at(row) {
            Some(vector.values@[row])
        } else {
            None
        },
        ColumnData::Int32(vector) => if vector.valid_at(row) {
            Some(vector.values@[row])
        } else {
            None
        },
        ColumnData::Date64(vector) => if vector.valid_at(row) {
            Some(truncated_days(vector.values@[row]))
        } else {
            None
        },
        _ => None,
    }
}

/// Whether a row holds a number under a name, and the number is the given one: its integer,
/// its place in the order of floating-point numbers, or its units at its scale.
pub open spec fn holds_amount(
    batch: RecordBatch,
    name: Seq<char>,
    row: int,
    amount: Amount,
) -> bool {
    match amount {
        Amount::Integer(value) => integer_in(batch, name, row) == Some(value),
        Amount::FloatOrder(order) => batch.column_named(name).data matches ColumnData::Float64Order(
            vector,
        ) && vector.valid_at(row) && vector.values@[row] == order,
        Amount::Decimal { units, scale } => match batch.column_named(name).data {
            ColumnData::Decimal128 { values, scale: own } => values.valid_at(row)
                && values.values@[row] == units && own == scale,
            ColumnData::DecimalInt64 { units: stored, scale: own } => stored.valid_at(row)
                && stored.values@[row] == units && own == scale,
            _ => false,
        },
    }
}

/// Whether a row holds some number under a name.
pub open spec fn has_amount(batch: RecordBatch, name: Seq<char>, row: int) -> bool {
    holds_numbers(batch, name) && !batch.column_named(name).null_at(row)
}

/// Whether the rows hold integers under a name.
pub open spec fn holds_integers(batch: RecordBatch, name: Seq<char>) -> bool {
    batch.has_column(name) && (batch.column_named(name).data is Int32 || batch.column_named(
        name,
    ).data is Int64)
}

/// Whether the rows hold days under a name.
pub open spec fn holds_days(batch: RecordBatch, name: Seq<char>) -> bool {
    batch.has_column(name) && (batch.column_named(name).data is Date32 || batch.column_named(
        name,
    ).data is Date64 || batch.column_named(name).data is Int32)
}

/// Whether the rows hold texts under a name.
pub open spec fn holds_texts(batch: RecordBatch, name: Seq<char>) -> bool {
    batch.has_column(name) && batch.column_named(name).data is Utf8
}

/// Whether the rows hold numbers under a name.
pub open spec fn holds_numbers(batch: RecordBatch, name: Seq<char>) -> bool {
    let data = batch.column_named(name).data;
    batch.has_column(name) && (data is Int32 || data is Int64 || data is Float64Order
        || data is Decimal128 || data is DecimalInt64)
}

/// Whether places are rows of a batch, first row first.
pub open spec fn rows_in_order(places: Seq<int>, rows: int) -> bool {
    &&& forall|index: int| 0 <= index < places.len() ==> 0 <= #[trigger] places[index] < rows
    &&& forall|left: int, right: int|
        0 <= left < right < places.len() ==> #[trigger] places[left] < #[trigger] places[right]
}

/// The rows that steps keep, where no step fails.
pub proof fn lemma_kept_rows<T>(steps: spec_fn(int) -> Step<T>, rows: int) -> (places: Seq<int>)
    requires
        gathered(steps, rows).1 is None,
    ensures
        rows_in_order(places, rows),
        places.len() == gathered(steps, rows).0.len(),
        forall|index: int|
            0 <= index < places.len() ==> steps(#[trigger] places[index]) == Step::Keep(
                gathered(steps, rows).0[index],
            ),
        forall|row: int|
            0 <= row < rows ==> (#[trigger] places.contains(row) <==> steps(row) is Keep) && !(
            steps(row) is Fail),
    decreases rows,
{
    if rows <= 0 {
        Seq::empty()
    } else {
        let earlier = lemma_kept_rows(steps, rows - 1);
        let (kept, failure) = gathered(steps, rows - 1);
        let places = match steps(rows - 1) {
            Step::Keep(_) => earlier.push(rows - 1),
            _ => earlier,
        };
        assert forall|row: int| 0 <= row < rows implies (#[trigger] places.contains(row)
            <==> steps(row) is Keep) && !(steps(row) is Fail) by {
            if earlier.contains(row) {
                let index = choose|index: int| 0 <= index < earlier.len() && earlier[index] == row;
                assert(places[index] == row);
            }
            if row == rows - 1 {
                if steps(row) is Keep {
                    assert(places[earlier.len() as int] == row);
                } else if places.contains(row) {
                    let index = choose|index: int|
                        0 <= index < earlier.len() && earlier[index] == row;
                    assert(earlier[index] < rows - 1);
                }
            } else if places.contains(row) {
                let index = choose|index: int| 0 <= index < places.len() && places[index] == row;
                assert(earlier[index] == row);
                assert(earlier.contains(row));
            }
        }
        places
    }
}

/// Steps of which none fails end in no failure.
pub proof fn lemma_nothing_fails<T>(steps: spec_fn(int) -> Step<T>, rows: int)
    requires
        forall|row: int| 0 <= row < rows ==> !(#[trigger] steps(row) is Fail),
    ensures
        gathered(steps, rows).1 is None,
    decreases rows,
{
    if rows > 0 {
        lemma_nothing_fails(steps, rows - 1);
        assert(!(steps(rows - 1) is Fail));
    }
}

/// Revenue of returned orders is that of the rows flagged `R` whose order has a customer and
/// which lack neither price nor discount: the customer of the order, the price and the
/// discount of the row.
pub proof fn law_returned_revenue_rows(
    batch: RecordBatch,
    order_customers: Map<i64, i64>,
    result: SqlResult<Vec<(i64, (Amount, Amount))>>,
) -> (rows: Seq<int>)
    requires
        reads_returned_revenue(batch, order_customers, result),
    ensures
        holds_integers(batch, "l_orderkey"@) && holds_texts(batch, "l_returnflag"@)
            && holds_numbers(batch, "l_extendedprice"@) && holds_numbers(batch, "l_discount"@)
            ==> result is Ok,
        result matches Ok(entries) ==> {
            &&& batch.has_column("l_orderkey"@) && batch.has_column("l_returnflag"@)
                && batch.has_column("l_extendedprice"@) && batch.has_column("l_discount"@)
            &&& rows_in_order(rows, batch.num_rows as int)
            &&& rows.len() == entries@.len()
            &&& forall|row: int|
                0 <= row < batch.num_rows ==> (#[trigger] rows.contains(row) <==> (text_in(
                    batch,
                    "l_returnflag"@,
                    row,
                ) == Some("R"@) && has_amount(batch, "l_extendedprice"@, row)
                    && has_amount(batch, "l_discount"@, row)
                    && (integer_in(batch, "l_orderkey"@, row) matches Some(order)
                    && order_customers.contains_key(order))))
            &&& forall|place: int|
                0 <= place < entries@.len() ==> {
                    let kept = #[trigger] entries@[place];
                    let row = rows[place];
                    &&& integer_in(
                        batch,
                        "l_orderkey"@,
                        row,
                    ) matches Some(order) && kept.0 == order_customers[order]
                    &&& holds_amount(batch, "l_extendedprice"@, row, kept.1.0)
                    &&& holds_amount(batch, "l_discount"@, row, kept.1.1)
                }
        },
{
    let wants = returned_revenue_columns();
    let steps = returned_revenue_steps(
        batch.column_named("l_orderkey"@),
        batch.column_named("l_returnflag"@),
        batch.column_named("l_extendedprice"@),
        batch.column_named("l_discount"@),
        order_customers,
    );
    let count = batch.num_rows as int;
    if holds_integers(batch, "l_orderkey"@) && holds_texts(batch, "l_returnflag"@)
        && holds_numbers(batch, "l_extendedprice"@) && holds_numbers(batch, "l_discount"@) {
        lemma_nothing_fails(steps, count);
    }
    match result {
        Ok(entries) => {
            assert(wants[0].met(batch));
            assert(wants[1].met(batch));
            assert(wants[2].met(batch));
            assert(wants[3].met(batch));
            let rows = lemma_kept_rows(steps, count);
            assert forall|row: int| 0 <= row < count implies (#[trigger] rows.contains(row)
                <==> (text_in(batch, "l_returnflag"@, row) == Some("R"@)
                && has_amount(batch, "l_extendedprice"@, row)
                && has_amount(batch, "l_discount"@, row) && (integer_in(batch, "l_orderkey"@, row)
                matches Some(order) && order_customers.contains_key(order)))) by {
                assert(rows.contains(row) <==> steps(row) is Keep);
            }
            assert forall|place: int| 0 <= place < entries@.len() implies {
                let kept = #[trigger] entries@[place];
                let row = rows[place];
                &&& integer_in(
                    batch,
                    "l_orderkey"@,
                    row,
                ) matches Some(order) && kept.0 == order_customers[order]
                &&& holds_amount(batch, "l_extendedprice"@, row, kept.1.0)
                &&& holds_amount(batch, "l_discount"@, row, kept.1.1)
            } by {
                assert(steps(rows[place]) == Step::Keep(entries@[place]));
            }
            rows
        },
        Err(_) => Seq::empty(),
    }
}

/// Revenue by nation is that of the rows whose supplier is of the same nation as the customer
/// of their order and which lack neither price nor discount.
pub proof fn law_nation_revenue_rows(
    batch: RecordBatch,
    order_customer_nations: Map<i64, i64>,
    supplier_nations: Map<i64, i64>,
    result: SqlResult<Vec<(i64, (Amount, Amount))>>,
) -> (rows: Seq<int>)
    requires
        reads_nation_revenue(batch, order_customer_nations, supplier_nations, result),
    ensures
        holds_integers(batch, "l_orderkey"@) && holds_integers(batch, "l_suppkey"@)
            && holds_numbers(batch, "l_extendedprice"@) && holds_numbers(batch, "l_discount"@)
            ==> result is Ok,
        result matches Ok(entries) ==> {
            &&& batch.has_column("l_orderkey"@) && batch.has_column("l_suppkey"@)
                && batch.has_column("l_extendedprice"@) && batch.has_column("l_discount"@)
            &&& rows_in_order(rows, batch.num_rows as int)
            &&& rows.len() == entries@.len()
            &&& forall|row: int|
                0 <= row < batch.num_rows ==> (#[trigger] rows.contains(row) <==> (has_amount(
                    batch,
                    "l_extendedprice"@,
                    row,
                ) && has_amount(batch, "l_discount"@, row) && match (integer_in(batch,
                    "l_orderkey"@, row), integer_in(batch, "l_suppkey"@, row)) { (Some(order),
                    Some(supplier)) => order_customer_nations.contains_key(order)
                    && supplier_nations.contains_key(supplier)
                    && order_customer_nations[order] == supplier_nations[supplier], _ => false }))
            &&& forall|place: int|
                0 <= place < entries@.len() ==> {
                    let kept = #[trigger] entries@[place];
                    let row = rows[place];
                    &&& integer_in(
                        batch,
                        "l_suppkey"@,
                        row,
                    ) matches Some(supplier) && kept.0 == supplier_nations[supplier]
                    &&& integer_in(
                        batch,
                        "l_orderkey"@,
                        row,
                    ) matches Some(order) && kept.0 == order_customer_nations[order]
                    &&& holds_amount(batch, "l_extendedprice"@, row, kept.1.0)
                    &&& holds_amount(batch, "l_discount"@, row, kept.1.1)
                }
        },
{
    let wants = nation_revenue_columns();
    let steps = nation_revenue_steps(
        batch.column_named("l_orderkey"@),
        batch.column_named("l_suppkey"@),
        batch.column_named("l_extendedprice"@),
        batch.column_named("l_discount"@),
        order_customer_nations,
        supplier_nations,
    );
    let count = batch.num_rows as int;
    if holds_integers(batch, "l_orderkey"@) && holds_integers(batch, "l_suppkey"@)
        && holds_numbers(batch, "l_extendedprice"@) && holds_numbers(batch, "l_discount"@) {
        lemma_nothing_fails(steps, count);
    }
    match result {
        Ok(entries) => {
            assert(wants[0].met(batch));
            assert(wants[1].met(batch));
            assert(wants[2].met(batch));
            assert(wants[3].met(batch));
            let rows = lemma_kept_rows(steps, count);
            assert forall|row: int| 0 <= row < count implies (#[trigger] rows.contains(row)
                <==> (has_amount(batch, "l_extendedprice"@, row)
                && has_amount(batch, "l_discount"@, row) && match (integer_in(batch, "l_orderkey"@,
                row), integer_in(batch, "l_suppkey"@, row)) { (Some(order),
                Some(supplier)) => order_customer_nations.contains_key(order)
                && supplier_nations.contains_key(supplier) && order_customer_nations[order]
                == supplier_nations[supplier], _ => false })) by {
                assert(rows.contains(row) <==> steps(row) is Keep);
            }
            assert forall|place: int| 0 <= place < entries@.len() implies {
                let kept = #[trigger] entries@[place];
                let row = rows[place];
                &&& integer_in(
                    batch,
                    "l_suppkey"@,
                    row,
                ) matches Some(supplier) && kept.0 == supplier_nations[supplier]
                &&& integer_in(
                    batch,
                    "l_orderkey"@,
                    row,
                ) matches Some(order) && kept.0 == order_customer_nations[order]
                &&& holds_amount(batch, "l_extendedprice"@, row, kept.1.0)
                &&& holds_amount(batch, "l_discount"@, row, kept.1.1)
            } by {
                assert(steps(rows[place]) == Step::Keep(entries@[place]));
            }
            rows
        },
        Err(_) => Seq::empty(),
    }
}

/// Quantities shipped are those of the rows with a wanted part that were shipped in 1994 and
/// lack neither supplier nor quantity.
pub proof fn law_shipped_quantity_rows(
    batch: RecordBatch,
    forest_parts: Set<i64>,
    result: SqlResult<Vec<((i64, i64), Amount)>>,
) -> (rows: Seq<int>)
    requires
        reads_shipped_quantities(batch, forest_parts, result),
    ensures
        holds_integers(batch, "l_partkey"@) && holds_integers(batch, "l_suppkey"@)
            && holds_numbers(batch, "l_quantity"@) && holds_days(batch, "l_shipdate"@)
            ==> result is Ok,
        result matches Ok(entries) ==> {
            &&& batch.has_column("l_partkey"@) && batch.has_column("l_suppkey"@)
                && batch.has_column("l_quantity"@) && batch.has_column("l_shipdate"@)
            &&& rows_in_order(rows, batch.num_rows as int)
            &&& rows.len() == entries@.len()
            &&& forall|row: int|
                0 <= row < batch.num_rows ==> (#[trigger] rows.contains(row) <==> ((day_in(
                    batch,
                    "l_shipdate"@,
                    row,
                ) matches Some(day) && day_number(1994, 1, 1) <= day
                    && day <= day_number(1994, 12, 31)) && (integer_in(batch, "l_partkey"@, row)
                    matches Some(part) && forest_parts.contains(part))
                    && integer_in(batch, "l_suppkey"@, row) is Some
                    && has_amount(batch, "l_quantity"@, row)))
            &&& forall|place: int|
                0 <= place < entries@.len() ==> {
                    let kept = #[trigger] entries@[place];
                    let row = rows[place];
                    &&& integer_in(batch, "l_partkey"@, row) == Some(kept.0.0)
                    &&& integer_in(batch, "l_suppkey"@, row) == Some(kept.0.1)
                    &&& holds_amount(batch, "l_quantity"@, row, kept.1)
                }
        },
{
    reveal_with_fuel(crate::calendar::days_before_month, 13);
    assert(day_number(1994, 1, 1) == 8_766);
    assert(day_number(1994, 12, 31) == 9_130);
    let wants = shipped_quantity_columns();
    let steps = shipped_quantity_steps(
        batch.column_named("l_partkey"@),
        batch.column_named("l_suppkey"@),
        batch.column_named("l_quantity"@),
        batch.column_named("l_shipdate"@),
        forest_parts,
    );
    let count = batch.num_rows as int;
    if holds_integers(batch, "l_partkey"@) && holds_integers(batch, "l_suppkey"@)
        && holds_numbers(batch, "l_quantity"@) && holds_days(batch, "l_shipdate"@) {
        lemma_nothing_fails(steps, count);
    }
    match result {
        Ok(entries) => {
            assert(wants[0].met(batch));
            assert(wants[1].met(batch));
            assert(wants[2].met(batch));
            assert(wants[3].met(batch));
            let rows = lemma_kept_rows(steps, count);
            assert forall|row: int| 0 <= row < count implies (#[trigger] rows.contains(row)
                <==> ((day_in(batch, "l_shipdate"@, row) matches Some(day)
                && day_number(1994, 1, 1) <= day && day <= day_number(1994, 12, 31))
                && (integer_in(batch, "l_partkey"@, row) matches Some(part)
                && forest_parts.contains(part)) && integer_in(batch, "l_suppkey"@, row) is Some
                && has_amount(batch, "l_quantity"@, row))) by {
                assert(rows.contains(row) <==> steps(row) is Keep);
            }
            assert forall|place: int| 0 <= place < entries@.len() implies {
                let kept = #[trigger] entries@[place];
                let row = rows[place];
                &&& integer_in(batch, "l_partkey"@, row) == Some(kept.0.0)
                &&& integer_in(batch, "l_suppkey"@, row) == Some(kept.0.1)
                &&& holds_amount(batch, "l_quantity"@, row, kept.1)
            } by {
                assert(steps(rows[place]) == Step::Keep(entries@[place]));
            }
            rows
        },
        Err(_) => Seq::empty(),
    }
}

/// Revenue by flag is that of the rows whose day is neither before the start nor at or after
/// the end, whose key has a flag, and which lack neither price nor discount.
pub proof fn law_flagged_revenue_rows(
    batch: RecordBatch,
    key_column: Seq<char>,
    date_column: Seq<char>,
    extendedprice_column: Seq<char>,
    discount_column: Seq<char>,
    start_days: i32,
    end_days: i32,
    lookup: Map<i64, bool>,
    result: SqlResult<Vec<(bool, (Amount, Amount))>>,
) -> (rows: Seq<int>)
    requires
        reads_flagged_revenue(
            batch,
            key_column,
            date_column,
            extendedprice_column,
            discount_column,
            start_days,
            end_days,
            lookup,
            result,
        ),
    ensures
        holds_integers(batch, key_column) && holds_days(batch, date_column) && holds_numbers(
            batch,
            extendedprice_column,
        ) && holds_numbers(batch, discount_column) ==> result is Ok,
        result matches Ok(entries) ==> {
            &&& batch.has_column(key_column) && batch.has_column(date_column)
                && batch.has_column(extendedprice_column) && batch.has_column(discount_column)
            &&& rows_in_order(rows, batch.num_rows as int)
            &&& rows.len() == entries@.len()
            &&& forall|row: int|
                0 <= row < batch.num_rows ==> (#[trigger] rows.contains(row) <==> ((day_in(
                    batch,
                    date_column,
                    row,
                ) matches Some(day) && start_days <= day && day < end_days)
                    && (integer_in(batch, key_column, row) matches Some(key)
                    && lookup.contains_key(key)) && has_amount(batch, extendedprice_column, row)
                    && has_amount(batch, discount_column, row)))
            &&& forall|place: int|
                0 <= place < entries@.len() ==> {
                    let kept = #[trigger] entries@[place];
                    let row = rows[place];
                    &&& integer_in(
                        batch,
                        key_column,
                        row,
                    ) matches Some(key) && kept.0 == lookup[key]
                    &&& holds_amount(batch, extendedprice_column, row, kept.1.0)
                    &&& holds_amount(batch, discount_column, row, kept.1.1)
                }
        },
{
    let wants = flagged_revenue_columns(
            key_column,
            date_column,
            extendedprice_column,
            discount_column,
        );
    let steps = flagged_revenue_steps(
        batch.column_named(key_column),
        batch.column_named(date_column),
        batch.column_named(extendedprice_column),
        batch.column_named(discount_column),
        start_days,
        end_days,
        lookup,
    );
    let count = batch.num_rows as int;
    if holds_integers(batch, key_column) && holds_days(batch, date_column) && holds_numbers(
        batch,
        extendedprice_column,
    ) && holds_numbers(batch, discount_column) {
        lemma_nothing_fails(steps, count);
    }
    match result {
        Ok(entries) => {
            assert(wants[0].met(batch));
            assert(wants[1].met(batch));
            assert(wants[2].met(batch));
            assert(wants[3].met(batch));
            let rows = lemma_kept_rows(steps, count);
            assert forall|row: int| 0 <= row < count implies (#[trigger] rows.contains(row)
                <==> ((day_in(batch, date_column, row) matches Some(day) && start_days <= day
                && day < end_days) && (integer_in(batch, key_column, row) matches Some(key)
                && lookup.contains_key(key)) && has_amount(batch, extendedprice_column, row)
                && has_amount(batch, discount_column, row))) by {
                assert(rows.contains(row) <==> steps(row) is Keep);
            }
            assert forall|place: int| 0 <= place < entries@.len() implies {
                let kept = #[trigger] entries@[place];
                let row = rows[place];
                &&& integer_in(batch, key_column, row) matches Some(key) && kept.0 == lookup[key]
                &&& holds_amount(batch, extendedprice_column, row, kept.1.0)
                &&& holds_amount(batch, discount_column, row, kept.1.1)
            } by {
                assert(steps(rows[place]) == Step::Keep(entries@[place]));
            }
            rows
        },
        Err(_) => Seq::empty(),
    }
}

/// Orders with their customers are those whose day is neither before the start nor at or
/// after the end.
pub proof fn law_order_customer_rows(
    batch: RecordBatch,
    start_days: i32,
    end_days: i32,
    result: SqlResult<Vec<(i64, i64)>>,
) -> (rows: Seq<int>)
    requires
        reads_order_customers(batch, start_days, end_days, result),
    ensures
        holds_integers(batch, "o_orderkey"@) && holds_integers(batch, "o_custkey"@)
            && holds_days(batch, "o_orderdate"@) ==> result is Ok,
        result matches Ok(entries) ==> {
            &&& batch.has_column("o_orderkey"@) && batch.has_column("o_custkey"@)
                && batch.has_column("o_orderdate"@)
            &&& rows_in_order(rows, batch.num_rows as int)
            &&& rows.len() == entries@.len()
            &&& forall|row: int|
                0 <= row < batch.num_rows ==> (#[trigger] rows.contains(row) <==> ((day_in(
                    batch,
                    "o_orderdate"@,
                    row,
                ) matches Some(day) && start_days <= day && day < end_days)
                    && integer_in(batch, "o_orderkey"@, row) is Some
                    && integer_in(batch, "o_custkey"@, row) is Some))
            &&& forall|place: int|
                0 <= place < entries@.len() ==> {
                    let kept = #[trigger] entries@[place];
                    let row = rows[place];
                    &&& integer_in(batch, "o_orderkey"@, row) == Some(kept.0)
                    &&& integer_in(batch, "o_custkey"@, row) == Some(kept.1)
                }
        },
{
    let wants = order_customer_columns();
    let steps = order_customer_steps(
        batch.column_named("o_orderkey"@),
        batch.column_named("o_custkey"@),
        batch.column_named("o_orderdate"@),
        start_days,
        end_days,
    );
    let count = batch.num_rows as int;
    if holds_integers(batch, "o_orderkey"@) && holds_integers(batch, "o_custkey"@)
        && holds_days(batch, "o_orderdate"@) {
        lemma_nothing_fails(steps, count);
    }
    match result {
        Ok(entries) => {
            assert(wants[0].met(batch));
            assert(wants[1].met(batch));
            assert(wants[2].met(batch));
            let rows = lemma_kept_rows(steps, count);
            assert forall|row: int| 0 <= row < count implies (#[trigger] rows.contains(row)
                <==> ((day_in(batch, "o_orderdate"@, row) matches Some(day) && start_days <= day
                && day < end_days) && integer_in(batch, "o_orderkey"@, row) is Some
                && integer_in(batch, "o_custkey"@, row) is Some)) by {
                assert(rows.contains(row) <==> steps(row) is Keep);
            }
            assert forall|place: int| 0 <= place < entries@.len() implies {
                let kept = #[trigger] entries@[place];
                let row = rows[place];
                &&& integer_in(batch, "o_orderkey"@, row) == Some(kept.0)
                &&& integer_in(batch, "o_custkey"@, row) == Some(kept.1)
            } by {
                assert(steps(rows[place]) == Step::Keep(entries@[place]));
            }
            rows
        },
        Err(_) => Seq::empty(),
    }
}

/// The nations are the rows that lack neither key nor name, each with its own.
pub proof fn law_nation_name_rows<'a>(
    batch: RecordBatch,
    result: SqlResult<Vec<(i64, &'a String)>>,
) -> (rows: Seq<int>)
    requires
        reads_nation_names(batch, result),
    ensures
        holds_integers(batch, "n_nationkey"@) && holds_texts(batch, "n_name"@) ==> result is Ok,
        result matches Ok(entries) ==> {
            &&& batch.has_column("n_nationkey"@) && batch.has_column("n_name"@)
            &&& rows_in_order(rows, batch.num_rows as int)
            &&& rows.len() == entries@.len()
            &&& forall|row: int|
                0 <= row < batch.num_rows ==> (#[trigger] rows.contains(row) <==> (integer_in(
                    batch,
                    "n_nationkey"@,
                    row,
                ) is Some && text_in(batch, "n_name"@, row) is Some))
            &&& forall|place: int|
                0 <= place < entries@.len() ==> {
                    let kept = #[trigger] entries@[place];
                    let row = rows[place];
                    &&& integer_in(batch, "n_nationkey"@, row) == Some(kept.0)
                    &&& text_in(batch, "n_name"@, row) == Some(kept.1@)
                }
        },
{
    let wants = nation_name_columns();
    let steps = nation_name_steps(
        batch.column_named("n_nationkey"@),
        batch.column_named("n_name"@),
    );
    let count = batch.num_rows as int;
    if holds_integers(batch, "n_nationkey"@) && holds_texts(batch, "n_name"@) {
        lemma_nothing_fails(steps, count);
    }
    match result {
        Ok(entries) => {
            assert(wants[0].met(batch));
            assert(wants[1].met(batch));
            let rows = lemma_kept_rows(steps, count);
            assert forall|row: int| 0 <= row < count implies (#[trigger] rows.contains(row)
                <==> (integer_in(batch, "n_nationkey"@, row) is Some
                && text_in(batch, "n_name"@, row) is Some)) by {
                assert(rows.contains(row) <==> steps(row) is Keep);
            }
            assert forall|place: int| 0 <= place < entries@.len() implies {
                let kept = #[trigger] entries@[place];
                let row = rows[place];
                &&& integer_in(batch, "n_nationkey"@, row) == Some(kept.0)
                &&& text_in(batch, "n_name"@, row) == Some(kept.1@)
            } by {
                assert(steps(rows[place]) == Step::Keep(entries@[place]));
            }
            rows
        },
        Err(_) => Seq::empty(),
    }
}

/// The nations of regions are the rows whose region is one of them, each with its key and its
/// name.
pub proof fn law_region_nation_rows<'a>(
    batch: RecordBatch,
    region_keys: Set<i64>,
    result: SqlResult<Vec<(i64, &'a String)>>,
) -> (rows: Seq<int>)
    requires
        reads_region_nations(batch, region_keys, result),
    ensures
        holds_integers(batch, "n_nationkey"@) && holds_integers(batch, "n_regionkey"@)
            && holds_texts(batch, "n_name"@)
            ==> result is Ok,
        result matches Ok(entries) ==> {
            &&& batch.has_column("n_nationkey"@) && batch.has_column("n_regionkey"@)
                && batch.has_column("n_name"@)
            &&& rows_in_order(rows, batch.num_rows as int)
            &&& rows.len() == entries@.len()
            &&& forall|row: int|
                0 <= row < batch.num_rows ==> (#[trigger] rows.contains(row) <==> (integer_in(
                    batch,
                    "n_nationkey"@,
                    row,
                ) is Some && text_in(batch, "n_name"@, row) is Some
                    && (integer_in(batch, "n_regionkey"@, row) matches Some(region)
                    && region_keys.contains(region))))
            &&& forall|place: int|
                0 <= place < entries@.len() ==> {
                    let kept = #[trigger] entries@[place];
                    let row = rows[place];
                    &&& integer_in(batch, "n_nationkey"@, row) == Some(kept.0)
                    &&& text_in(batch, "n_name"@, row) == Some(kept.1@)
                }
        },
{
    let wants = region_nation_columns();
    let steps = region_nation_steps(
        batch.column_named("n_nationkey"@),
        batch.column_named("n_regionkey"@),
        batch.column_named("n_name"@),
        region_keys,
    );
    let count = batch.num_rows as int;
    if holds_integers(batch, "n_nationkey"@) && holds_integers(batch, "n_regionkey"@)
        && holds_texts(batch, "n_name"@) {
        lemma_nothing_fails(steps, count);
    }
    match result {
        Ok(entries) => {
            assert(wants[0].met(batch));
            assert(wants[1].met(batch));
            assert(wants[2].met(batch));
            let rows = lemma_kept_rows(steps, count);
            assert forall|row: int| 0 <= row < count implies (#[trigger] rows.contains(row)
                <==> (integer_in(batch, "n_nationkey"@, row) is Some
                && text_in(batch, "n_name"@, row) is Some && (integer_in(batch, "n_regionkey"@,
                row) matches Some(region) && region_keys.contains(region)))) by {
                assert(rows.contains(row) <==> steps(row) is Keep);
            }
            assert forall|place: int| 0 <= place < entries@.len() implies {
                let kept = #[trigger] entries@[place];
                let row = rows[place];
                &&& integer_in(batch, "n_nationkey"@, row) == Some(kept.0)
                &&& text_in(batch, "n_name"@, row) == Some(kept.1@)
            } by {
                assert(steps(rows[place]) == Step::Keep(entries@[place]));
            }
            rows
        },
        Err(_) => Seq::empty(),
    }
}

/// The customers are the rows whose key is wanted and that lack nothing; each field is what
/// stands in the column of its name.
pub proof fn law_returned_customer_rows<'a>(
    batch: RecordBatch,
    customer_keys: Set<i64>,
    result: SqlResult<Vec<ReturnedCustomer<'a>>>,
) -> (rows: Seq<int>)
    requires
        reads_returned_customers(batch, customer_keys, result),
    ensures
        holds_integers(batch, "c_custkey"@) && holds_texts(batch, "c_name"@)
            && holds_numbers(batch, "c_acctbal"@) && holds_integers(batch, "c_nationkey"@)
            && holds_texts(batch, "c_address"@) && holds_texts(batch, "c_phone"@)
            && holds_texts(batch, "c_comment"@) ==> result is Ok,
        result matches Ok(entries) ==> {
            &&& batch.has_column("c_custkey"@) && batch.has_column("c_name"@)
                && batch.has_column("c_acctbal"@) && batch.has_column("c_nationkey"@)
                && batch.has_column("c_address"@) && batch.has_column("c_phone"@)
                && batch.has_column("c_comment"@)
            &&& rows_in_order(rows, batch.num_rows as int)
            &&& rows.len() == entries@.len()
            &&& forall|row: int|
                0 <= row < batch.num_rows ==> (#[trigger] rows.contains(row) <==> ((integer_in(
                    batch,
                    "c_custkey"@,
                    row,
                ) matches Some(customer) && customer_keys.contains(customer))
                    && text_in(batch, "c_name"@, row) is Some
                    && has_amount(batch, "c_acctbal"@, row) && integer_in(batch, "c_nationkey"@,
                    row) is Some && text_in(batch, "c_address"@, row) is Some
                    && text_in(batch, "c_phone"@, row) is Some
                    && text_in(batch, "c_comment"@, row) is Some))
            &&& forall|place: int|
                0 <= place < entries@.len() ==> {
                    let kept = #[trigger] entries@[place];
                    let row = rows[place];
                    &&& integer_in(batch, "c_custkey"@, row) == Some(kept.c_custkey)
                    &&& text_in(batch, "c_name"@, row) == Some(kept.c_name@)
                    &&& holds_amount(batch, "c_acctbal"@, row, kept.c_acctbal)
                    &&& integer_in(batch, "c_nationkey"@, row) == Some(kept.c_nationkey)
                    &&& text_in(batch, "c_address"@, row) == Some(kept.c_address@)
                    &&& text_in(batch, "c_phone"@, row) == Some(kept.c_phone@)
                    &&& text_in(batch, "c_comment"@, row) == Some(kept.c_comment@)
                }
        },
{
    let wants = returned_customer_columns();
    let steps = returned_customer_steps(
        batch.column_named("c_custkey"@),
        batch.column_named("c_name"@),
        batch.column_named("c_acctbal"@),
        batch.column_named("c_nationkey"@),
        batch.column_named("c_address"@),
        batch.column_named("c_phone"@),
        batch.column_named("c_comment"@),
        customer_keys,
    );
    let count = batch.num_rows as int;
    if holds_integers(batch, "c_custkey"@) && holds_texts(batch, "c_name"@)
        && holds_numbers(batch, "c_acctbal"@) && holds_integers(batch, "c_nationkey"@)
        && holds_texts(batch, "c_address"@) && holds_texts(batch, "c_phone"@)
        && holds_texts(batch, "c_comment"@) {
        lemma_nothing_fails(steps, count);
    }
    match result {
        Ok(entries) => {
            assert(wants[0].met(batch));
            assert(wants[1].met(batch));
            assert(wants[2].met(batch));
            assert(wants[3].met(batch));
            assert(wants[4].met(batch));
            assert(wants[5].met(batch));
            assert(wants[6].met(batch));
            let rows = lemma_kept_rows(steps, count);
            assert forall|row: int| 0 <= row < count implies (#[trigger] rows.contains(row)
                <==> ((integer_in(batch, "c_custkey"@, row) matches Some(customer)
                && customer_keys.contains(customer)) && text_in(batch, "c_name"@, row) is Some
                && has_amount(batch, "c_acctbal"@, row) && integer_in(batch, "c_nationkey"@,
                row) is Some && text_in(batch, "c_address"@, row) is Some
                && text_in(batch, "c_phone"@, row) is Some && text_in(batch, "c_comment"@,
                row) is Some)) by {
                assert(rows.contains(row) <==> steps(row) is Keep);
            }
            assert forall|place: int| 0 <= place < entries@.len() implies {
                let kept = #[trigger] entries@[place];
                let row = rows[place];
                &&& integer_in(batch, "c_custkey"@, row) == Some(kept.c_custkey)
                &&& text_in(batch, "c_name"@, row) == Some(kept.c_name@)
                &&& holds_amount(batch, "c_acctbal"@, row, kept.c_acctbal)
                &&& integer_in(batch, "c_nationkey"@, row) == Some(kept.c_nationkey)
                &&& text_in(batch, "c_address"@, row) == Some(kept.c_address@)
                &&& text_in(batch, "c_phone"@, row) == Some(kept.c_phone@)
                &&& text_in(batch, "c_comment"@, row) == Some(kept.c_comment@)
            } by {
                assert(steps(rows[place]) == Step::Keep(entries@[place]));
            }
            rows
        },
        Err(_) => Seq::empty(),
    }
}

/// The rows of the pricing summary are those shipped no later than the cutoff that lack
/// nothing; each field is what stands in the column of its name.
pub proof fn law_priced_rows<'a>(
    batch: RecordBatch,
    cutoff_days: i32,
    result: SqlResult<Vec<PricedRow<'a>>>,
) -> (rows: Seq<int>)
    requires
        reads_priced_rows(batch, cutoff_days, result),
    ensures
        holds_texts(batch, "l_returnflag"@) && holds_texts(batch, "l_linestatus"@)
            && holds_numbers(batch, "l_quantity"@)
            && holds_numbers(batch, "l_extendedprice"@) && holds_numbers(batch, "l_discount"@)
            && holds_numbers(batch, "l_tax"@) && holds_days(batch, "l_shipdate"@) ==> result is Ok,
        result matches Ok(entries) ==> {
            &&& batch.has_column("l_returnflag"@) && batch.has_column("l_linestatus"@)
                && batch.has_column("l_quantity"@) && batch.has_column("l_extendedprice"@)
                && batch.has_column("l_discount"@) && batch.has_column("l_tax"@)
                && batch.has_column("l_shipdate"@)
            &&& rows_in_order(rows, batch.num_rows as int)
            &&& rows.len() == entries@.len()
            &&& forall|row: int|
                0 <= row < batch.num_rows ==> (#[trigger] rows.contains(row) <==> ((day_in(
                    batch,
                    "l_shipdate"@,
                    row,
                ) matches Some(day) && day <= cutoff_days) && text_in(batch, "l_returnflag"@,
                    row) is Some && text_in(batch, "l_linestatus"@, row) is Some
                    && has_amount(batch, "l_quantity"@, row)
                    && has_amount(batch, "l_extendedprice"@, row)
                    && has_amount(batch, "l_discount"@, row) && has_amount(batch, "l_tax"@, row)))
            &&& forall|place: int|
                0 <= place < entries@.len() ==> {
                    let kept = #[trigger] entries@[place];
                    let row = rows[place];
                    &&& text_in(batch, "l_returnflag"@, row) == Some(kept.returnflag@)
                    &&& text_in(batch, "l_linestatus"@, row) == Some(kept.linestatus@)
                    &&& holds_amount(batch, "l_quantity"@, row, kept.quantity)
                    &&& holds_amount(batch, "l_extendedprice"@, row, kept.extendedprice)
                    &&& holds_amount(batch, "l_discount"@, row, kept.discount)
                    &&& holds_amount(batch, "l_tax"@, row, kept.tax)
                }
        },
{
    let wants = pricing_row_columns();
    let steps = pricing_row_steps(
        batch.column_named("l_returnflag"@),
        batch.column_named("l_linestatus"@),
        batch.column_named("l_quantity"@),
        batch.column_named("l_extendedprice"@),
        batch.column_named("l_discount"@),
        batch.column_named("l_tax"@),
        batch.column_named("l_shipdate"@),
        cutoff_days,
    );
    let count = batch.num_rows as int;
    if holds_texts(batch, "l_returnflag"@) && holds_texts(batch, "l_linestatus"@)
        && holds_numbers(batch, "l_quantity"@)
        && holds_numbers(batch, "l_extendedprice"@) && holds_numbers(batch, "l_discount"@)
        && holds_numbers(batch, "l_tax"@) && holds_days(batch, "l_shipdate"@) {
        lemma_nothing_fails(steps, count);
    }
    match result {
        Ok(entries) => {
            assert(wants[0].met(batch));
            assert(wants[1].met(batch));
            assert(wants[2].met(batch));
            assert(wants[3].met(batch));
            assert(wants[4].met(batch));
            assert(wants[5].met(batch));
            assert(wants[6].met(batch));
            let rows = lemma_kept_rows(steps, count);
            assert forall|row: int| 0 <= row < count implies (#[trigger] rows.contains(row)
                <==> ((day_in(batch, "l_shipdate"@, row) matches Some(day) && day <= cutoff_days)
                && text_in(batch, "l_returnflag"@, row) is Some
                && text_in(batch, "l_linestatus"@, row) is Some
                && has_amount(batch, "l_quantity"@, row) && has_amount(batch, "l_extendedprice"@,
                row) && has_amount(batch, "l_discount"@, row)
                && has_amount(batch, "l_tax"@, row))) by {
                assert(rows.contains(row) <==> steps(row) is Keep);
            }
            assert forall|place: int| 0 <= place < entries@.len() implies {
                let kept = #[trigger] entries@[place];
                let row = rows[place];
                &&& text_in(batch, "l_returnflag"@, row) == Some(kept.returnflag@)
                &&& text_in(batch, "l_linestatus"@, row) == Some(kept.linestatus@)
                &&& holds_amount(batch, "l_quantity"@, row, kept.quantity)
                &&& holds_amount(batch, "l_extendedprice"@, row, kept.extendedprice)
                &&& holds_amount(batch, "l_discount"@, row, kept.discount)
                &&& holds_amount(batch, "l_tax"@, row, kept.tax)
            } by {
                assert(steps(rows[place]) == Step::Keep(entries@[place]));
            }
            rows
        },
        Err(_) => Seq::empty(),
    }
}

/// The suppliers are the rows whose supplier is eligible and whose nation is one of the
/// nations, each with its name and its address; without nations or without eligible
/// suppliers there is none.
pub proof fn law_eligible_supplier_rows<'a>(
    batch: RecordBatch,
    nation_keys: Set<i64>,
    eligible_suppliers: Set<i64>,
    result: SqlResult<Vec<(&'a String, &'a String)>>,
) -> (rows: Seq<int>)
    requires
        reads_eligible_suppliers(batch, nation_keys, eligible_suppliers, result),
    ensures
        holds_integers(batch, "s_suppkey"@) && holds_integers(batch, "s_nationkey"@)
            && holds_texts(batch, "s_name"@) && holds_texts(batch, "s_address"@) ==> result is Ok,
        result matches Ok(entries) ==> {
            &&& batch.has_column("s_suppkey"@) && batch.has_column("s_nationkey"@)
                && batch.has_column("s_name"@) && batch.has_column("s_address"@)
            &&& rows_in_order(rows, batch.num_rows as int)
            &&& rows.len() == entries@.len()
            &&& forall|row: int|
                0 <= row < batch.num_rows ==> (#[trigger] rows.contains(row) <==> ((integer_in(
                    batch,
                    "s_suppkey"@,
                    row,
                ) matches Some(supplier) && eligible_suppliers.contains(supplier))
                    && (integer_in(batch, "s_nationkey"@, row) matches Some(nation)
                    && nation_keys.contains(nation)) && text_in(batch, "s_name"@, row) is Some
                    && text_in(batch, "s_address"@, row) is Some))
            &&& forall|place: int|
                0 <= place < entries@.len() ==> {
                    let kept = #[trigger] entries@[place];
                    let row = rows[place];
                    &&& text_in(batch, "s_name"@, row) == Some(kept.0@)
                    &&& text_in(batch, "s_address"@, row) == Some(kept.1@)
                }
        },
{
    let wants = eligible_supplier_columns();
    let steps = eligible_supplier_steps(
        batch.column_named("s_suppkey"@),
        batch.column_named("s_nationkey"@),
        batch.column_named("s_name"@),
        batch.column_named("s_address"@),
        nation_keys,
        eligible_suppliers,
    );
    let count = batch.num_rows as int;
    if holds_integers(batch, "s_suppkey"@) && holds_integers(batch, "s_nationkey"@)
        && holds_texts(batch, "s_name"@) && holds_texts(batch, "s_address"@) {
        lemma_nothing_fails(steps, count);
    }
    match result {
        Ok(entries) => {
            assert(wants[0].met(batch));
            assert(wants[1].met(batch));
            assert(wants[2].met(batch));
            assert(wants[3].met(batch));
            let rows = lemma_kept_rows(steps, count);
            assert forall|row: int| 0 <= row < count implies (#[trigger] rows.contains(row)
                <==> ((integer_in(batch, "s_suppkey"@, row) matches Some(supplier)
                && eligible_suppliers.contains(supplier)) && (integer_in(batch, "s_nationkey"@,
                row) matches Some(nation) && nation_keys.contains(nation))
                && text_in(batch, "s_name"@, row) is Some && text_in(batch, "s_address"@,
                row) is Some)) by {
                assert(rows.contains(row) <==> steps(row) is Keep);
            }
            assert forall|place: int| 0 <= place < entries@.len() implies {
                let kept = #[trigger] entries@[place];
                let row = rows[place];
                &&& text_in(batch, "s_name"@, row) == Some(kept.0@)
                &&& text_in(batch, "s_address"@, row) == Some(kept.1@)
            } by {
                assert(steps(rows[place]) == Step::Keep(entries@[place]));
            }
            rows
        },
        Err(_) => Seq::empty(),
    }
}

/// Two keys and two texts are those of the rows that lack none of them, each from its own
/// column.
pub proof fn law_two_keys_two_strings_rows<'a>(
    batch: RecordBatch,
    first_key_column: Seq<char>,
    second_key_column: Seq<char>,
    first_string_column: Seq<char>,
    second_string_column: Seq<char>,
    result: SqlResult<Vec<((i64, i64), (&'a String, &'a String))>>,
) -> (rows: Seq<int>)
    requires
        reads_two_keys_two_strings(
            batch,
            first_key_column,
            second_key_column,
            first_string_column,
            second_string_column,
            result,
        ),
    ensures
        holds_integers(batch, first_key_column) && holds_integers(
            batch,
            second_key_column,
        ) && holds_texts(batch, first_string_column) && holds_texts(batch, second_string_column)
            ==> result is Ok,
        result matches Ok(entries) ==> {
            &&& batch.has_column(first_key_column) && batch.has_column(second_key_column)
                && batch.has_column(first_string_column) && batch.has_column(second_string_column)
            &&& rows_in_order(rows, batch.num_rows as int)
            &&& rows.len() == entries@.len()
            &&& forall|row: int|
                0 <= row < batch.num_rows ==> (#[trigger] rows.contains(row) <==> (integer_in(
                    batch,
                    first_key_column,
                    row,
                ) is Some && integer_in(batch, second_key_column, row) is Some
                    && text_in(batch, first_string_column, row) is Some
                    && text_in(batch, second_string_column, row) is Some))
            &&& forall|place: int|
                0 <= place < entries@.len() ==> {
                    let kept = #[trigger] entries@[place];
                    let row = rows[place];
                    &&& integer_in(batch, first_key_column, row) == Some(kept.0.0)
                    &&& integer_in(batch, second_key_column, row) == Some(kept.0.1)
                    &&& text_in(batch, first_string_column, row) == Some(kept.1.0@)
                    &&& text_in(batch, second_string_column, row) == Some(kept.1.1@)
                }
        },
{
    let wants = two_keys_two_strings_columns(
            first_key_column,
            second_key_column,
            first_string_column,
            second_string_column,
        );
    let steps = two_keys_two_strings_steps(
        batch.column_named(first_key_column),
        batch.column_named(second_key_column),
        batch.column_named(first_string_column),
        batch.column_named(second_string_column),
    );
    let count = batch.num_rows as int;
    if holds_integers(batch, first_key_column) && holds_integers(
        batch,
        second_key_column,
    ) && holds_texts(batch, first_string_column) && holds_texts(batch, second_string_column) {
        lemma_nothing_fails(steps, count);
    }
    match result {
        Ok(entries) => {
            assert(wants[0].met(batch));
            assert(wants[1].met(batch));
            assert(wants[2].met(batch));
            assert(wants[3].met(batch));
            let rows = lemma_kept_rows(steps, count);
            assert forall|row: int| 0 <= row < count implies (#[trigger] rows.contains(row)
                <==> (integer_in(batch, first_key_column, row) is Some
                && integer_in(batch, second_key_column, row) is Some
                && text_in(batch, first_string_column, row) is Some
                && text_in(batch, second_string_column, row) is Some)) by {
                assert(rows.contains(row) <==> steps(row) is Keep);
            }
            assert forall|place: int| 0 <= place < entries@.len() implies {
                let kept = #[trigger] entries@[place];
                let row = rows[place];
                &&& integer_in(batch, first_key_column, row) == Some(kept.0.0)
                &&& integer_in(batch, second_key_column, row) == Some(kept.0.1)
                &&& text_in(batch, first_string_column, row) == Some(kept.1.0@)
                &&& text_in(batch, second_string_column, row) == Some(kept.1.1@)
            } by {
                assert(steps(rows[place]) == Step::Keep(entries@[place]));
            }
            rows
        },
        Err(_) => Seq::empty(),
    }
}

/// A key and three texts are those of the rows that lack none of them, each from its own
/// column.
pub proof fn law_key_three_strings_rows<'a>(
    batch: RecordBatch,
    key_column: Seq<char>,
    first_string_column: Seq<char>,
    second_string_column: Seq<char>,
    third_string_column: Seq<char>,
    result: SqlResult<Vec<(i64, (&'a String, &'a String, &'a String))>>,
) -> (rows: Seq<int>)
    requires
        reads_key_three_strings(
            batch,
            key_column,
            first_string_column,
            second_string_column,
            third_string_column,
            result,
        ),
    ensures
        holds_integers(batch, key_column) && holds_texts(batch, first_string_column) && holds_texts(
            batch,
            second_string_column,
        ) && holds_texts(batch, third_string_column) ==> result is Ok,
        result matches Ok(entries) ==> {
            &&& batch.has_column(key_column) && batch.has_column(first_string_column)
                && batch.has_column(second_string_column) && batch.has_column(third_string_column)
            &&& rows_in_order(rows, batch.num_rows as int)
            &&& rows.len() == entries@.len()
            &&& forall|row: int|
                0 <= row < batch.num_rows ==> (#[trigger] rows.contains(row) <==> (integer_in(
                    batch,
                    key_column,
                    row,
                ) is Some && text_in(batch, first_string_column, row) is Some
                    && text_in(batch, second_string_column, row) is Some
                    && text_in(batch, third_string_column, row) is Some))
            &&& forall|place: int|
                0 <= place < entries@.len() ==> {
                    let kept = #[trigger] entries@[place];
                    let row = rows[place];
                    &&& integer_in(batch, key_column, row) == Some(kept.0)
                    &&& text_in(batch, first_string_column, row) == Some(kept.1.0@)
                    &&& text_in(batch, second_string_column, row) == Some(kept.1.1@)
                    &&& text_in(batch, third_string_column, row) == Some(kept.1.2@)
                }
        },
{
    let wants = key_three_strings_columns(
            key_column,
            first_string_column,
            second_string_column,
            third_string_column,
        );
    let steps = key_three_strings_steps(
        batch.column_named(key_column),
        batch.column_named(first_string_column),
        batch.column_named(second_string_column),
        batch.column_named(third_string_column),
    );
    let count = batch.num_rows as int;
    if holds_integers(batch, key_column) && holds_texts(batch, first_string_column) && holds_texts(
        batch,
        second_string_column,
    ) && holds_texts(batch, third_string_column) {
        lemma_nothing_fails(steps, count);
    }
    match result {
        Ok(entries) => {
            assert(wants[0].met(batch));
            assert(wants[1].met(batch));
            assert(wants[2].met(batch));
            assert(wants[3].met(batch));
            let rows = lemma_kept_rows(steps, count);
            assert forall|row: int| 0 <= row < count implies (#[trigger] rows.contains(row)
                <==> (integer_in(batch, key_column, row) is Some
                && text_in(batch, first_string_column, row) is Some
                && text_in(batch, second_string_column, row) is Some
                && text_in(batch, third_string_column, row) is Some)) by {
                assert(rows.contains(row) <==> steps(row) is Keep);
            }
            assert forall|place: int| 0 <= place < entries@.len() implies {
                let kept = #[trigger] entries@[place];
                let row = rows[place];
                &&& integer_in(batch, key_column, row) == Some(kept.0)
                &&& text_in(batch, first_string_column, row) == Some(kept.1.0@)
                &&& text_in(batch, second_string_column, row) == Some(kept.1.1@)
                &&& text_in(batch, third_string_column, row) == Some(kept.1.2@)
            } by {
                assert(steps(rows[place]) == Step::Keep(entries@[place]));
            }
            rows
        },
        Err(_) => Seq::empty(),
    }
}

/// Two keys and a text are those of the rows that lack none of them, each from its own column.
pub proof fn law_two_keys_string_rows<'a>(
    batch: RecordBatch,
    output_key_column: Seq<char>,
    filter_key_column: Seq<char>,
    string_column_name: Seq<char>,
    result: SqlResult<Vec<((i64, i64), &'a String)>>,
) -> (rows: Seq<int>)
    requires
        reads_two_keys_string(
            batch,
            output_key_column,
            filter_key_column,
            string_column_name,
            result,
        ),
    ensures
        holds_integers(
            batch,
            output_key_column,
        ) && holds_integers(batch, filter_key_column) && holds_texts(batch, string_column_name)
            ==> result is Ok,
        result matches Ok(entries) ==> {
            &&& batch.has_column(output_key_column) && batch.has_column(filter_key_column)
                && batch.has_column(string_column_name)
            &&& rows_in_order(rows, batch.num_rows as int)
            &&& rows.len() == entries@.len()
            &&& forall|row: int|
                0 <= row < batch.num_rows ==> (#[trigger] rows.contains(row) <==> (integer_in(
                    batch,
                    output_key_column,
                    row,
                ) is Some && integer_in(batch, filter_key_column, row) is Some
                    && text_in(batch, string_column_name, row) is Some))
            &&& forall|place: int|
                0 <= place < entries@.len() ==> {
                    let kept = #[trigger] entries@[place];
                    let row = rows[place];
                    &&& integer_in(batch, output_key_column, row) == Some(kept.0.0)
                    &&& integer_in(batch, filter_key_column, row) == Some(kept.0.1)
                    &&& text_in(batch, string_column_name, row) == Some(kept.1@)
                }
        },
{
    let wants = two_keys_string_columns(output_key_column, filter_key_column, string_column_name);
    let steps = two_keys_string_steps(
        batch.column_named(output_key_column),
        batch.column_named(filter_key_column),
        batch.column_named(string_column_name),
    );
    let count = batch.num_rows as int;
    if holds_integers(
        batch,
        output_key_column,
    ) && holds_integers(batch, filter_key_column) && holds_texts(batch, string_column_name) {
        lemma_nothing_fails(steps, count);
    }
    match result {
        Ok(entries) => {
            assert(wants[0].met(batch));
            assert(wants[1].met(batch));
            assert(wants[2].met(batch));
            let rows = lemma_kept_rows(steps, count);
            assert forall|row: int| 0 <= row < count implies (#[trigger] rows.contains(row)
                <==> (integer_in(batch, output_key_column, row) is Some
                && integer_in(batch, filter_key_column, row) is Some
                && text_in(batch, string_column_name, row) is Some)) by {
                assert(rows.contains(row) <==> steps(row) is Keep);
            }
            assert forall|place: int| 0 <= place < entries@.len() implies {
                let kept = #[trigger] entries@[place];
                let row = rows[place];
                &&& integer_in(batch, output_key_column, row) == Some(kept.0.0)
                &&& integer_in(batch, filter_key_column, row) == Some(kept.0.1)
                &&& text_in(batch, string_column_name, row) == Some(kept.1@)
            } by {
                assert(steps(rows[place]) == Step::Keep(entries@[place]));
            }
            rows
        },
        Err(_) => Seq::empty(),
    }
}

/// Two keys and a number are those of the rows that lack none of them, each from its own
/// column.
pub proof fn law_two_keys_amount_rows(
    batch: RecordBatch,
    first_column: Seq<char>,
    second_column: Seq<char>,
    third_column: Seq<char>,
    result: SqlResult<Vec<((i64, i64), Amount)>>,
) -> (rows: Seq<int>)
    requires
        reads_two_keys_amount(batch, first_column, second_column, third_column, result),
    ensures
        holds_integers(batch, first_column) && holds_integers(batch, second_column)
            && holds_numbers(batch, third_column) ==> result is Ok,
        result matches Ok(entries) ==> {
            &&& batch.has_column(first_column) && batch.has_column(second_column)
                && batch.has_column(third_column)
            &&& rows_in_order(rows, batch.num_rows as int)
            &&& rows.len() == entries@.len()
            &&& forall|row: int|
                0 <= row < batch.num_rows ==> (#[trigger] rows.contains(row) <==> (integer_in(
                    batch,
                    first_column,
                    row,
                ) is Some && integer_in(batch, second_column, row) is Some
                    && has_amount(batch, third_column, row)))
            &&& forall|place: int|
                0 <= place < entries@.len() ==> {
                    let kept = #[trigger] entries@[place];
                    let row = rows[place];
                    &&& integer_in(batch, first_column, row) == Some(kept.0.0)
                    &&& integer_in(batch, second_column, row) == Some(kept.0.1)
                    &&& holds_amount(batch, third_column, row, kept.1)
                }
        },
{
    let wants = two_keys_amount_columns(first_column, second_column, third_column);
    let steps = two_keys_amount_steps(
        batch.column_named(first_column),
        batch.column_named(second_column),
        batch.column_named(third_column),
    );
    let count = batch.num_rows as int;
    if holds_integers(batch, first_column) && holds_integers(batch, second_column)
        && holds_numbers(batch, third_column) {
        lemma_nothing_fails(steps, count);
    }
    match result {
        Ok(entries) => {
            assert(wants[0].met(batch));
            assert(wants[1].met(batch));
            assert(wants[2].met(batch));
            let rows = lemma_kept_rows(steps, count);
            assert forall|row: int| 0 <= row < count implies (#[trigger] rows.contains(row)
                <==> (integer_in(batch, first_column, row) is Some
                && integer_in(batch, second_column, row) is Some
                && has_amount(batch, third_column, row))) by {
                assert(rows.contains(row) <==> steps(row) is Keep);
            }
            assert forall|place: int| 0 <= place < entries@.len() implies {
                let kept = #[trigger] entries@[place];
                let row = rows[place];
                &&& integer_in(batch, first_column, row) == Some(kept.0.0)
                &&& integer_in(batch, second_column, row) == Some(kept.0.1)
                &&& holds_amount(batch, third_column, row, kept.1)
            } by {
                assert(steps(rows[place]) == Step::Keep(entries@[place]));
            }
            rows
        },
        Err(_) => Seq::empty(),
    }
}

/// A key, two texts and a number are those of the rows that lack none of them, each from its
/// own column.
pub proof fn law_key_two_strings_amount_rows<'a>(
    batch: RecordBatch,
    key_column: Seq<char>,
    first_string_column: Seq<char>,
    second_string_column: Seq<char>,
    number_column: Seq<char>,
    result: SqlResult<Vec<(i64, (&'a String, &'a String), Amount)>>,
) -> (rows: Seq<int>)
    requires
        reads_key_two_strings_amount(
            batch,
            key_column,
            first_string_column,
            second_string_column,
            number_column,
            result,
        ),
    ensures
        holds_integers(batch, key_column) && holds_texts(batch, first_string_column) && holds_texts(
            batch,
            second_string_column,
        ) && holds_numbers(batch, number_column) ==> result is Ok,
        result matches Ok(entries) ==> {
            &&& batch.has_column(key_column) && batch.has_column(first_string_column)
                && batch.has_column(second_string_column) && batch.has_column(number_column)
            &&& rows_in_order(rows, batch.num_rows as int)
            &&& rows.len() == entries@.len()
            &&& forall|row: int|
                0 <= row < batch.num_rows ==> (#[trigger] rows.contains(row) <==> (integer_in(
                    batch,
                    key_column,
                    row,
                ) is Some && text_in(batch, first_string_column, row) is Some
                    && text_in(batch, second_string_column, row) is Some
                    && has_amount(batch, number_column, row)))
            &&& forall|place: int|
                0 <= place < entries@.len() ==> {
                    let kept = #[trigger] entries@[place];
                    let row = rows[place];
                    &&& integer_in(batch, key_column, row) == Some(kept.0)
                    &&& text_in(batch, first_string_column, row) == Some(kept.1.0@)
                    &&& text_in(batch, second_string_column, row) == Some(kept.1.1@)
                    &&& holds_amount(batch, number_column, row, kept.2)
                }
        },
{
    let wants = key_two_strings_amount_columns(
            key_column,
            first_string_column,
            second_string_column,
            number_column,
        );
    let steps = key_two_strings_amount_steps(
        batch.column_named(key_column),
        batch.column_named(first_string_column),
        batch.column_named(second_string_column),
        batch.column_named(number_column),
    );
    let count = batch.num_rows as int;
    if holds_integers(batch, key_column) && holds_texts(batch, first_string_column) && holds_texts(
        batch,
        second_string_column,
    ) && holds_numbers(batch, number_column) {
        lemma_nothing_fails(steps, count);
    }
    match result {
        Ok(entries) => {
            assert(wants[0].met(batch));
            assert(wants[1].met(batch));
            assert(wants[2].met(batch));
            assert(wants[3].met(batch));
            let rows = lemma_kept_rows(steps, count);
            assert forall|row: int| 0 <= row < count implies (#[trigger] rows.contains(row)
                <==> (integer_in(batch, key_column, row) is Some
                && text_in(batch, first_string_column, row) is Some
                && text_in(batch, second_string_column, row) is Some
                && has_amount(batch, number_column, row))) by {
                assert(rows.contains(row) <==> steps(row) is Keep);
            }
            assert forall|place: int| 0 <= place < entries@.len() implies {
                let kept = #[trigger] entries@[place];
                let row = rows[place];
                &&& integer_in(batch, key_column, row) == Some(kept.0)
                &&& text_in(batch, first_string_column, row) == Some(kept.1.0@)
                &&& text_in(batch, second_string_column, row) == Some(kept.1.1@)
                &&& holds_amount(batch, number_column, row, kept.2)
            } by {
                assert(steps(rows[place]) == Step::Keep(entries@[place]));
            }
            rows
        },
        Err(_) => Seq::empty(),
    }
}

/// The costs of parts are those of the rows with a wanted part and a supplier whose nation is
/// known: under the part and the supplier, the cost of the row and the nation of the
/// supplier.
pub proof fn law_supply_cost_rows(
    batch: RecordBatch,
    part_keys: Set<i64>,
    supplier_nations: Map<i64, i64>,
    result: SqlResult<Vec<SupplyEntry>>,
) -> (rows: Seq<int>)
    requires
        reads_supply_costs(batch, part_keys, supplier_nations, result),
    ensures
        holds_integers(batch, "ps_partkey"@) && holds_integers(batch, "ps_suppkey"@)
            && holds_numbers(batch, "ps_supplycost"@) ==> result is Ok,
        result matches Ok(entries) ==> {
            &&& batch.has_column("ps_partkey"@) && batch.has_column("ps_suppkey"@)
                && batch.has_column("ps_supplycost"@)
            &&& rows_in_order(rows, batch.num_rows as int)
            &&& rows.len() == entries@.len()
            &&& forall|row: int|
                0 <= row < batch.num_rows ==> (#[trigger] rows.contains(row) <==> ((integer_in(
                    batch,
                    "ps_partkey"@,
                    row,
                ) matches Some(part) && part_keys.contains(part))
                    && (integer_in(batch, "ps_suppkey"@, row) matches Some(supplier)
                    && supplier_nations.contains_key(supplier))
                    && has_amount(batch, "ps_supplycost"@, row)))
            &&& forall|place: int|
                0 <= place < entries@.len() ==> {
                    let kept = #[trigger] entries@[place];
                    let row = rows[place];
                    &&& integer_in(batch, "ps_partkey"@, row) == Some(kept.0.0)
                    &&& integer_in(batch, "ps_suppkey"@, row) == Some(kept.0.1)
                    &&& holds_amount(batch, "ps_supplycost"@, row, kept.1.supplycost)
                    &&& kept.1.nationkey == supplier_nations[kept.0.1]
                }
        },
{
    let wants = supply_cost_columns();
    let steps = supply_cost_steps(
        batch.column_named("ps_partkey"@),
        batch.column_named("ps_suppkey"@),
        batch.column_named("ps_supplycost"@),
        part_keys,
        supplier_nations,
    );
    let count = batch.num_rows as int;
    if holds_integers(batch, "ps_partkey"@) && holds_integers(batch, "ps_suppkey"@)
        && holds_numbers(batch, "ps_supplycost"@) {
        lemma_nothing_fails(steps, count);
    }
    match result {
        Ok(entries) => {
            assert(wants[0].met(batch));
            assert(wants[1].met(batch));
            assert(wants[2].met(batch));
            let rows = lemma_kept_rows(steps, count);
            assert forall|row: int| 0 <= row < count implies (#[trigger] rows.contains(row)
                <==> ((integer_in(batch, "ps_partkey"@, row) matches Some(part)
                && part_keys.contains(part)) && (integer_in(batch, "ps_suppkey"@, row)
                matches Some(supplier) && supplier_nations.contains_key(supplier))
                && has_amount(batch, "ps_supplycost"@, row))) by {
                assert(rows.contains(row) <==> steps(row) is Keep);
            }
            assert forall|place: int| 0 <= place < entries@.len() implies {
                let kept = #[trigger] entries@[place];
                let row = rows[place];
                &&& integer_in(batch, "ps_partkey"@, row) == Some(kept.0.0)
                &&& integer_in(batch, "ps_suppkey"@, row) == Some(kept.0.1)
                &&& holds_amount(batch, "ps_supplycost"@, row, kept.1.supplycost)
                &&& kept.1.nationkey == supplier_nations[kept.0.1]
            } by {
                assert(steps(rows[place]) == Step::Keep(entries@[place]));
            }
            rows
        },
        Err(_) => Seq::empty(),
    }
}

/// The rows that count towards profit are those with a wanted part, an order that has a year
/// and a supplier that sells the part, which lack no amount. Of each, the quantity, the price
/// and the discount are those of its own columns, the cost and the nation those stored for
/// the part and the supplier, and the year that of the order.
pub proof fn law_profit_entry_rows(
    batch: RecordBatch,
    part_keys: Set<i64>,
    order_years: Map<i64, i32>,
    supply_costs: SupplyCosts<Amount>,
    result: SqlResult<Vec<ProfitEntry>>,
) -> (rows: Seq<int>)
    requires
        reads_profit_entries(batch, part_keys, order_years, supply_costs, result),
    ensures
        holds_integers(batch, "l_orderkey"@) && holds_integers(batch, "l_partkey"@)
            && holds_integers(batch, "l_suppkey"@) && holds_numbers(batch, "l_quantity"@)
            && holds_numbers(batch, "l_extendedprice"@) && holds_numbers(batch, "l_discount"@)
            ==> result is Ok,
        result matches Ok(entries) ==> {
            &&& batch.has_column("l_orderkey"@) && batch.has_column("l_partkey"@)
                && batch.has_column("l_suppkey"@) && batch.has_column("l_quantity"@)
                && batch.has_column("l_extendedprice"@) && batch.has_column("l_discount"@)
            &&& rows_in_order(rows, batch.num_rows as int)
            &&& rows.len() == entries@.len()
            &&& forall|row: int|
                0 <= row < batch.num_rows ==> (#[trigger] rows.contains(row) <==> (has_amount(
                    batch,
                    "l_quantity"@,
                    row,
                ) && has_amount(batch, "l_extendedprice"@, row)
                    && has_amount(batch, "l_discount"@, row)
                    && match (integer_in(batch, "l_orderkey"@, row), integer_in(batch, "l_partkey"@,
                    row), integer_in(batch, "l_suppkey"@, row)) { (Some(order), Some(part),
                    Some(supplier)) => part_keys.contains(part) && order_years.contains_key(order)
                    && supply_costs.stored().contains((part, supplier)), _ => false }))
            &&& forall|place: int|
                0 <= place < entries@.len() ==> {
                    let kept = #[trigger] entries@[place];
                    let row = rows[place];
                    &&& holds_amount(batch, "l_quantity"@, row, kept.quantity)
                    &&& holds_amount(batch, "l_extendedprice"@, row, kept.extendedprice)
                    &&& holds_amount(batch, "l_discount"@, row, kept.discount)
                    &&& integer_in(
                        batch,
                        "l_orderkey"@,
                        row,
                    ) matches Some(order) && kept.year == order_years[order]
                    &&& match (
                        integer_in(batch, "l_partkey"@, row),
                        integer_in(batch, "l_suppkey"@, row),
                    ) { (Some(part), Some(supplier)) => supply_costs.entry(part, supplier)
                        == Some(SupplyInfo { supplycost: kept.supplycost,
                        nationkey: kept.nationkey }), _ => false }
                }
        },
{
    let wants = profit_entry_columns();
    let steps = profit_entry_steps(
        batch.column_named("l_orderkey"@),
        batch.column_named("l_partkey"@),
        batch.column_named("l_suppkey"@),
        batch.column_named("l_quantity"@),
        batch.column_named("l_extendedprice"@),
        batch.column_named("l_discount"@),
        part_keys,
        order_years,
        supply_costs,
    );
    let count = batch.num_rows as int;
    if holds_integers(batch, "l_orderkey"@) && holds_integers(batch, "l_partkey"@)
        && holds_integers(batch, "l_suppkey"@) && holds_numbers(batch, "l_quantity"@)
        && holds_numbers(batch, "l_extendedprice"@) && holds_numbers(batch, "l_discount"@) {
        lemma_nothing_fails(steps, count);
    }
    match result {
        Ok(entries) => {
            assert(wants[0].met(batch));
            assert(wants[1].met(batch));
            assert(wants[2].met(batch));
            assert(wants[3].met(batch));
            assert(wants[4].met(batch));
            assert(wants[5].met(batch));
            let rows = lemma_kept_rows(steps, count);
            assert forall|row: int| 0 <= row < count implies (#[trigger] rows.contains(row)
                <==> (has_amount(batch, "l_quantity"@, row) && has_amount(batch, "l_extendedprice"@,
                row) && has_amount(batch, "l_discount"@, row)
                && match (integer_in(batch, "l_orderkey"@, row), integer_in(batch, "l_partkey"@,
                row), integer_in(batch, "l_suppkey"@, row)) { (Some(order), Some(part),
                Some(supplier)) => part_keys.contains(part) && order_years.contains_key(order)
                && supply_costs.stored().contains((part, supplier)), _ => false })) by {
                assert(rows.contains(row) <==> steps(row) is Keep);
            }
            assert forall|place: int| 0 <= place < entries@.len() implies {
                let kept = #[trigger] entries@[place];
                let row = rows[place];
                &&& holds_amount(batch, "l_quantity"@, row, kept.quantity)
                &&& holds_amount(batch, "l_extendedprice"@, row, kept.extendedprice)
                &&& holds_amount(batch, "l_discount"@, row, kept.discount)
                &&& integer_in(
                    batch,
                    "l_orderkey"@,
                    row,
                ) matches Some(order) && kept.year == order_years[order]
                &&& match (
                    integer_in(batch, "l_partkey"@, row),
                    integer_in(batch, "l_suppkey"@, row),
                ) { (Some(part), Some(supplier)) => supply_costs.entry(part, supplier)
                    == Some(SupplyInfo { supplycost: kept.supplycost, nationkey: kept.nationkey }),
                    _ => false }
            } by {
                assert(steps(rows[place]) == Step::Keep(entries@[place]));
            }
            rows
        },
        Err(_) => Seq::empty(),
    }
}

} // verus!
