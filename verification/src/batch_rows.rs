//! What the aggregates read of a batch, row by row.

use std::collections::{HashMap, HashSet};
use vstd::prelude::*;
use crate::columns::{ColumnArray, RecordBatch};
use crate::error::SqlResult;
use crate::late_selection::{regional_revenue_late_selected_nation, shared_nation};
use crate::row_scan::{
    all_met, amount_step, any_column, both, day_step, follows, gathered, integer_step,
    lemma_failure_stays, read_amount, read_both, read_day, read_integer, read_string,
    resolve_columns, scanned, string_column, string_is, strings_in, wanted, Amount, ColumnWant,
    Step, WantedColumn,
};
use crate::tables::{entry_of, hash_get, AdaptiveI64Map, AdaptiveI64Set};
use crate::text::str_eq;

verus! {

broadcast use vstd::std_specs::hash::group_hash_axioms;

/// A customer whose orders were returned.
#[derive(Clone, Copy)]
pub struct ReturnedCustomer<'a> {
    pub c_custkey: i64,
    pub c_name: &'a String,
    pub c_acctbal: Amount,
    pub c_nationkey: i64,
    pub c_address: &'a String,
    pub c_phone: &'a String,
    pub c_comment: &'a String,
}

/// A row of the pricing summary.
#[derive(Clone, Copy)]
pub struct PricedRow<'a> {
    pub returnflag: &'a String,
    pub linestatus: &'a String,
    pub quantity: Amount,
    pub extendedprice: Amount,
    pub discount: Amount,
    pub tax: Amount,
}

/// A key with what a step keeps.
pub open spec fn keyed_step<T>(key: i64, step: Step<T>) -> Step<(i64, T)> {
    match step {
        Step::Fail(message) => Step::Fail(message),
        Step::Skip => Step::Skip,
        Step::Keep(value) => Step::Keep((key, value)),
    }
}

/// A key with what a step keeps.
fn read_keyed<T>(key: i64, result: SqlResult<Option<T>>) -> (keyed: SqlResult<Option<(i64, T)>>)
    ensures
        forall|step: Step<T>| #[trigger] follows(result, step) ==> follows(
            keyed,
            keyed_step(key, step),
        ),
{
    match result {
        Err(error) => Err(error),
        Ok(None) => Ok(None),
        Ok(Some(value)) => Ok(Some((key, value))),
    }
}

/// What a step keeps, with a name.
pub open spec fn named_step<'a>(step: Step<i64>, name: &'a String) -> Step<(i64, &'a String)> {
    match step {
        Step::Fail(message) => Step::Fail(message),
        Step::Skip => Step::Skip,
        Step::Keep(key) => Step::Keep((key, name)),
    }
}

/// Reading a row for the revenue of returned orders.
pub open spec fn returned_revenue_step(
    orderkeys: ColumnArray,
    returnflags: ColumnArray,
    extendedprices: ColumnArray,
    discounts: ColumnArray,
    order_customers: Map<i64, i64>,
    row: int,
) -> Step<(i64, (Amount, Amount))> {
    if !string_is(returnflags, row, "R"@) {
        Step::Skip
    } else {
        match integer_step(orderkeys, row) {
            Step::Fail(message) => Step::Fail(message),
            Step::Skip => Step::Skip,
            Step::Keep(orderkey) => match entry_of(order_customers, orderkey) {
                None => Step::Skip,
                Some(custkey) => keyed_step(
                    custkey,
                    both(amount_step(extendedprices, row), amount_step(discounts, row)),
                ),
            },
        }
    }
}

/// The steps over the rows of a batch.
pub open spec fn returned_revenue_steps(
    orderkeys: ColumnArray,
    returnflags: ColumnArray,
    extendedprices: ColumnArray,
    discounts: ColumnArray,
    order_customers: Map<i64, i64>,
) -> spec_fn(int) -> Step<(i64, (Amount, Amount))> {
    |row: int| returned_revenue_step(
        orderkeys,
        returnflags,
        extendedprices,
        discounts,
        order_customers,
        row,
    )
}

/// Reading a row for the revenue of returned orders.
fn read_returned_revenue(
    orderkeys: &ColumnArray,
    returnflags: &ColumnArray,
    extendedprices: &ColumnArray,
    discounts: &ColumnArray,
    order_customers: &HashMap<i64, i64>,
    row: usize,
) -> (result: SqlResult<Option<(i64, (Amount, Amount))>>)
    requires
        orderkeys.well_formed(),
        row < orderkeys.rows(),
        returnflags.well_formed(),
        row < returnflags.rows(),
        returnflags.data is Utf8,
        extendedprices.well_formed(),
        row < extendedprices.rows(),
        discounts.well_formed(),
        row < discounts.rows(),
    ensures
        follows(
            result,
            returned_revenue_step(
                *orderkeys,
                *returnflags,
                *extendedprices,
                *discounts,
                order_customers@,
                row as int,
            ),
        ),
{
    let returned = match read_string(returnflags, row) {
        Some(flag) => str_eq(flag.as_str(), "R"),
        None => false,
    };
    if !returned {
        return Ok(None);
    }
    match read_integer(orderkeys, row) {
        Err(error) => Err(error),
        Ok(None) => Ok(None),
        Ok(Some(orderkey)) => match hash_get(order_customers, orderkey) {
            None => Ok(None),
            Some(custkey) => read_keyed(
                custkey,
                read_both(read_amount(extendedprices, row), read_amount(discounts, row)),
            ),
        },
    }
}

/// The columns that reading a row for the revenue of returned orders takes.
pub open spec fn returned_revenue_columns() -> Seq<WantedColumn> {
    seq![
        any_column("l_orderkey"@),
        string_column("l_returnflag"@),
        any_column("l_extendedprice"@),
        any_column("l_discount"@),
    ]
}

/// What `returned_revenue_batch` makes of a batch.
pub open spec fn reads_returned_revenue(
    batch: RecordBatch,
    order_customers: Map<i64, i64>,
    result: SqlResult<Vec<(i64, (Amount, Amount))>>,
) -> bool {
    scanned(
        batch,
        returned_revenue_columns(),
        returned_revenue_steps(
            batch.column_named("l_orderkey"@),
            batch.column_named("l_returnflag"@),
            batch.column_named("l_extendedprice"@),
            batch.column_named("l_discount"@),
            order_customers,
        ),
        result,
    )
}

/// The customer, the price and the discount of each returned row whose order is known.
pub fn returned_revenue_batch(
    batch: &RecordBatch,
    order_customers: &HashMap<i64, i64>,
) -> (result: SqlResult<Vec<(i64, (Amount, Amount))>>)
    requires
        batch.well_formed(),
    ensures
        scanned(
            *batch,
            returned_revenue_columns(),
            returned_revenue_steps(
                batch.column_named("l_orderkey"@),
                batch.column_named("l_returnflag"@),
                batch.column_named("l_extendedprice"@),
                batch.column_named("l_discount"@),
                order_customers@,
            ),
            result,
        ),
        reads_returned_revenue(*batch, order_customers@, result),
{
    let wants = [
        ColumnWant::Any("l_orderkey"),
        ColumnWant::Strings("l_returnflag"),
        ColumnWant::Any("l_extendedprice"),
        ColumnWant::Any("l_discount"),
    ];
    let ghost expected = returned_revenue_columns();
    assert(wanted(wants@) =~= expected);
    let columns = match resolve_columns(batch, wants.as_slice()) {
        Ok(columns) => columns,
        Err(error) => {
            return Err(error);
        },
    };
    let orderkeys = columns[0];
    let returnflags = columns[1];
    let extendedprices = columns[2];
    let discounts = columns[3];
    proof {
        assert(resolved_at(*batch, expected, 0, *orderkeys));
        assert(resolved_at(*batch, expected, 1, *returnflags));
        assert(resolved_at(*batch, expected, 2, *extendedprices));
        assert(resolved_at(*batch, expected, 3, *discounts));
    }
    let ghost steps = returned_revenue_steps(
        *orderkeys,
        *returnflags,
        *extendedprices,
        *discounts,
        order_customers@,
    );
    let rows: usize = batch.num_rows;
    let mut kept: Vec<(i64, (Amount, Amount))> = Vec::new();
    let mut row: usize = 0;
    while row < rows
        invariant
            row <= rows,
            rows == batch.num_rows,
            all_met(*batch, returned_revenue_columns()),
            *orderkeys == batch.column_named("l_orderkey"@),
            orderkeys.well_formed(),
            rows == orderkeys.rows(),
            *returnflags == batch.column_named("l_returnflag"@),
            returnflags.well_formed(),
            rows == returnflags.rows(),
            returnflags.data is Utf8,
            *extendedprices == batch.column_named("l_extendedprice"@),
            extendedprices.well_formed(),
            rows == extendedprices.rows(),
            *discounts == batch.column_named("l_discount"@),
            discounts.well_formed(),
            rows == discounts.rows(),
            steps == returned_revenue_steps(
                *orderkeys,
                *returnflags,
                *extendedprices,
                *discounts,
                order_customers@,
            ),
            gathered(steps, row as int) == (kept@, None::<Seq<char>>),
        decreases rows - row,
    {
        match read_returned_revenue(
            orderkeys,
            returnflags,
            extendedprices,
            discounts,
            order_customers,
            row,
        ) {
            Ok(Some(value)) => {
                kept.push(value);
            },
            Ok(None) => {},
            Err(error) => {
                proof {
                    lemma_failure_stays(steps, row + 1, rows as int);
                }
                return Err(error);
            },
        }
        row += 1;
    }
    Ok(kept)
}

/// Reading a row for the revenue by nation.
pub open spec fn nation_revenue_step(
    orderkeys: ColumnArray,
    suppkeys: ColumnArray,
    extendedprices: ColumnArray,
    discounts: ColumnArray,
    order_customer_nations: Map<i64, i64>,
    supplier_nations: Map<i64, i64>,
    row: int,
) -> Step<(i64, (Amount, Amount))> {
    match both(integer_step(orderkeys, row), integer_step(suppkeys, row)) {
        Step::Fail(message) => Step::Fail(message),
        Step::Skip => Step::Skip,
        Step::Keep((orderkey, suppkey)) => match shared_nation(
            orderkey,
            suppkey,
            order_customer_nations,
            supplier_nations,
        ) {
            None => Step::Skip,
            Some(nation) => keyed_step(
                nation,
                both(amount_step(extendedprices, row), amount_step(discounts, row)),
            ),
        },
    }
}

/// The steps over the rows of a batch.
pub open spec fn nation_revenue_steps(
    orderkeys: ColumnArray,
    suppkeys: ColumnArray,
    extendedprices: ColumnArray,
    discounts: ColumnArray,
    order_customer_nations: Map<i64, i64>,
    supplier_nations: Map<i64, i64>,
) -> spec_fn(int) -> Step<(i64, (Amount, Amount))> {
    |row: int| nation_revenue_step(
        orderkeys,
        suppkeys,
        extendedprices,
        discounts,
        order_customer_nations,
        supplier_nations,
        row,
    )
}

/// Reading a row for the revenue by nation.
fn read_nation_revenue(
    orderkeys: &ColumnArray,
    suppkeys: &ColumnArray,
    extendedprices: &ColumnArray,
    discounts: &ColumnArray,
    order_customer_nations: &HashMap<i64, i64>,
    supplier_nations: &AdaptiveI64Map<i64>,
    row: usize,
) -> (result: SqlResult<Option<(i64, (Amount, Amount))>>)
    requires
        orderkeys.well_formed(),
        row < orderkeys.rows(),
        suppkeys.well_formed(),
        row < suppkeys.rows(),
        extendedprices.well_formed(),
        row < extendedprices.rows(),
        discounts.well_formed(),
        row < discounts.rows(),
    ensures
        follows(
            result,
            nation_revenue_step(
                *orderkeys,
                *suppkeys,
                *extendedprices,
                *discounts,
                order_customer_nations@,
                supplier_nations@,
                row as int,
            ),
        ),
{
    match read_both(read_integer(orderkeys, row), read_integer(suppkeys, row)) {
        Err(error) => Err(error),
        Ok(None) => Ok(None),
        Ok(Some((orderkey, suppkey))) => match regional_revenue_late_selected_nation(
            orderkey,
            suppkey,
            order_customer_nations,
            supplier_nations,
        ) {
            None => Ok(None),
            Some(nation) => read_keyed(
                nation,
                read_both(read_amount(extendedprices, row), read_amount(discounts, row)),
            ),
        },
    }
}

/// The columns that reading a row for the revenue by nation takes.
pub open spec fn nation_revenue_columns() -> Seq<WantedColumn> {
    seq![
        any_column("l_orderkey"@),
        any_column("l_suppkey"@),
        any_column("l_extendedprice"@),
        any_column("l_discount"@),
    ]
}

/// What `revenue_by_nation_batch` makes of a batch.
pub open spec fn reads_nation_revenue(
    batch: RecordBatch,
    order_customer_nations: Map<i64, i64>,
    supplier_nations: Map<i64, i64>,
    result: SqlResult<Vec<(i64, (Amount, Amount))>>,
) -> bool {
    scanned(
        batch,
        nation_revenue_columns(),
        nation_revenue_steps(
            batch.column_named("l_orderkey"@),
            batch.column_named("l_suppkey"@),
            batch.column_named("l_extendedprice"@),
            batch.column_named("l_discount"@),
            order_customer_nations,
            supplier_nations,
        ),
        result,
    )
}

/// The nation, the price and the discount of each row whose supplier and customer share
/// a nation.
pub fn revenue_by_nation_batch(
    batch: &RecordBatch,
    order_customer_nations: &HashMap<i64, i64>,
    supplier_nations: &AdaptiveI64Map<i64>,
) -> (result: SqlResult<Vec<(i64, (Amount, Amount))>>)
    requires
        batch.well_formed(),
    ensures
        scanned(
            *batch,
            nation_revenue_columns(),
            nation_revenue_steps(
                batch.column_named("l_orderkey"@),
                batch.column_named("l_suppkey"@),
                batch.column_named("l_extendedprice"@),
                batch.column_named("l_discount"@),
                order_customer_nations@,
                supplier_nations@,
            ),
            result,
        ),
        reads_nation_revenue(*batch, order_customer_nations@, supplier_nations@, result),
{
    let wants = [
        ColumnWant::Any("l_orderkey"),
        ColumnWant::Any("l_suppkey"),
        ColumnWant::Any("l_extendedprice"),
        ColumnWant::Any("l_discount"),
    ];
    let ghost expected = nation_revenue_columns();
    assert(wanted(wants@) =~= expected);
    let columns = match resolve_columns(batch, wants.as_slice()) {
        Ok(columns) => columns,
        Err(error) => {
            return Err(error);
        },
    };
    let orderkeys = columns[0];
    let suppkeys = columns[1];
    let extendedprices = columns[2];
    let discounts = columns[3];
    proof {
        assert(resolved_at(*batch, expected, 0, *orderkeys));
        assert(resolved_at(*batch, expected, 1, *suppkeys));
        assert(resolved_at(*batch, expected, 2, *extendedprices));
        assert(resolved_at(*batch, expected, 3, *discounts));
    }
    let ghost steps = nation_revenue_steps(
        *orderkeys,
        *suppkeys,
        *extendedprices,
        *discounts,
        order_customer_nations@,
        supplier_nations@,
    );
    let rows: usize = batch.num_rows;
    let mut kept: Vec<(i64, (Amount, Amount))> = Vec::new();
    let mut row: usize = 0;
    while row < rows
        invariant
            row <= rows,
            rows == batch.num_rows,
            all_met(*batch, nation_revenue_columns()),
            *orderkeys == batch.column_named("l_orderkey"@),
            orderkeys.well_formed(),
            rows == orderkeys.rows(),
            *suppkeys == batch.column_named("l_suppkey"@),
            suppkeys.well_formed(),
            rows == suppkeys.rows(),
            *extendedprices == batch.column_named("l_extendedprice"@),
            extendedprices.well_formed(),
            rows == extendedprices.rows(),
            *discounts == batch.column_named("l_discount"@),
            discounts.well_formed(),
            rows == discounts.rows(),
            steps == nation_revenue_steps(
                *orderkeys,
                *suppkeys,
                *extendedprices,
                *discounts,
                order_customer_nations@,
                supplier_nations@,
            ),
            gathered(steps, row as int) == (kept@, None::<Seq<char>>),
        decreases rows - row,
    {
        match read_nation_revenue(
            orderkeys,
            suppkeys,
            extendedprices,
            discounts,
            order_customer_nations,
            supplier_nations,
            row,
        ) {
            Ok(Some(value)) => {
                kept.push(value);
            },
            Ok(None) => {},
            Err(error) => {
                proof {
                    lemma_failure_stays(steps, row + 1, rows as int);
                }
                return Err(error);
            },
        }
        row += 1;
    }
    Ok(kept)
}

/// Reading a row for the quantities shipped.
pub open spec fn shipped_quantity_step(
    partkeys: ColumnArray,
    suppkeys: ColumnArray,
    quantities: ColumnArray,
    shipdates: ColumnArray,
    forest_parts: Set<i64>,
    row: int,
) -> Step<((i64, i64), Amount)> {
    match day_step(shipdates, row) {
        Step::Fail(message) => Step::Fail(message),
        Step::Skip => Step::Skip,
        Step::Keep(shipdate) => if !(8_766 <= shipdate < 9_131) {
            Step::Skip
        } else {
            match both(
                both(integer_step(partkeys, row), integer_step(suppkeys, row)),
                amount_step(quantities, row),
            ) {
                Step::Fail(message) => Step::Fail(message),
                Step::Skip => Step::Skip,
                Step::Keep(kept) => if forest_parts.contains(kept.0.0) {
                    Step::Keep(kept)
                } else {
                    Step::Skip
                },
            }
        },
    }
}

/// The steps over the rows of a batch.
pub open spec fn shipped_quantity_steps(
    partkeys: ColumnArray,
    suppkeys: ColumnArray,
    quantities: ColumnArray,
    shipdates: ColumnArray,
    forest_parts: Set<i64>,
) -> spec_fn(int) -> Step<((i64, i64), Amount)> {
    |row: int| shipped_quantity_step(partkeys, suppkeys, quantities, shipdates, forest_parts, row)
}

/// Reading a row for the quantities shipped.
fn read_shipped_quantity(
    partkeys: &ColumnArray,
    suppkeys: &ColumnArray,
    quantities: &ColumnArray,
    shipdates: &ColumnArray,
    forest_parts: &AdaptiveI64Set,
    row: usize,
) -> (result: SqlResult<Option<((i64, i64), Amount)>>)
    requires
        partkeys.well_formed(),
        row < partkeys.rows(),
        suppkeys.well_formed(),
        row < suppkeys.rows(),
        quantities.well_formed(),
        row < quantities.rows(),
        shipdates.well_formed(),
        row < shipdates.rows(),
    ensures
        follows(
            result,
            shipped_quantity_step(
                *partkeys,
                *suppkeys,
                *quantities,
                *shipdates,
                forest_parts@,
                row as int,
            ),
        ),
{
    match read_day(shipdates, row) {
        Err(error) => Err(error),
        Ok(None) => Ok(None),
        Ok(Some(shipdate)) => {
            if !(8_766 <= shipdate && shipdate < 9_131) {
                return Ok(None);
            }
            match read_both(
                read_both(read_integer(partkeys, row), read_integer(suppkeys, row)),
                read_amount(quantities, row),
            ) {
                Err(error) => Err(error),
                Ok(None) => Ok(None),
                Ok(Some(((partkey, suppkey), quantity))) => {
                    if forest_parts.contains(partkey) {
                        Ok(Some(((partkey, suppkey), quantity)))
                    } else {
                        Ok(None)
                    }
                },
            }
        },
    }
}

/// The columns that reading a row for the quantities shipped takes.
pub open spec fn shipped_quantity_columns() -> Seq<WantedColumn> {
    seq![
        any_column("l_partkey"@),
        any_column("l_suppkey"@),
        any_column("l_quantity"@),
        any_column("l_shipdate"@),
    ]
}

/// What `lineitem_quantity_sums_batch` makes of a batch.
pub open spec fn reads_shipped_quantities(
    batch: RecordBatch,
    forest_parts: Set<i64>,
    result: SqlResult<Vec<((i64, i64), Amount)>>,
) -> bool {
    scanned(
        batch,
        shipped_quantity_columns(),
        shipped_quantity_steps(
            batch.column_named("l_partkey"@),
            batch.column_named("l_suppkey"@),
            batch.column_named("l_quantity"@),
            batch.column_named("l_shipdate"@),
            forest_parts,
        ),
        result,
    )
}

/// The part, the supplier and the quantity of each row that was shipped in the year that
/// counts and whose part is wanted.
pub fn lineitem_quantity_sums_batch(
    batch: &RecordBatch,
    forest_parts: &AdaptiveI64Set,
) -> (result: SqlResult<Vec<((i64, i64), Amount)>>)
    requires
        batch.well_formed(),
    ensures
        scanned(
            *batch,
            shipped_quantity_columns(),
            shipped_quantity_steps(
                batch.column_named("l_partkey"@),
                batch.column_named("l_suppkey"@),
                batch.column_named("l_quantity"@),
                batch.column_named("l_shipdate"@),
                forest_parts@,
            ),
            result,
        ),
        reads_shipped_quantities(*batch, forest_parts@, result),
{
    let wants = [
        ColumnWant::Any("l_partkey"),
        ColumnWant::Any("l_suppkey"),
        ColumnWant::Any("l_quantity"),
        ColumnWant::Any("l_shipdate"),
    ];
    let ghost expected = shipped_quantity_columns();
    assert(wanted(wants@) =~= expected);
    let columns = match resolve_columns(batch, wants.as_slice()) {
        Ok(columns) => columns,
        Err(error) => {
            return Err(error);
        },
    };
    let partkeys = columns[0];
    let suppkeys = columns[1];
    let quantities = columns[2];
    let shipdates = columns[3];
    proof {
        assert(resolved_at(*batch, expected, 0, *partkeys));
        assert(resolved_at(*batch, expected, 1, *suppkeys));
        assert(resolved_at(*batch, expected, 2, *quantities));
        assert(resolved_at(*batch, expected, 3, *shipdates));
    }
    let ghost steps = shipped_quantity_steps(
        *partkeys,
        *suppkeys,
        *quantities,
        *shipdates,
        forest_parts@,
    );
    let rows: usize = batch.num_rows;
    let mut kept: Vec<((i64, i64), Amount)> = Vec::new();
    let mut row: usize = 0;
    while row < rows
        invariant
            row <= rows,
            rows == batch.num_rows,
            all_met(*batch, shipped_quantity_columns()),
            *partkeys == batch.column_named("l_partkey"@),
            partkeys.well_formed(),
            rows == partkeys.rows(),
            *suppkeys == batch.column_named("l_suppkey"@),
            suppkeys.well_formed(),
            rows == suppkeys.rows(),
            *quantities == batch.column_named("l_quantity"@),
            quantities.well_formed(),
            rows == quantities.rows(),
            *shipdates == batch.column_named("l_shipdate"@),
            shipdates.well_formed(),
            rows == shipdates.rows(),
            steps == shipped_quantity_steps(
                *partkeys,
                *suppkeys,
                *quantities,
                *shipdates,
                forest_parts@,
            ),
            gathered(steps, row as int) == (kept@, None::<Seq<char>>),
        decreases rows - row,
    {
        match read_shipped_quantity(partkeys, suppkeys, quantities, shipdates, forest_parts, row) {
            Ok(Some(value)) => {
                kept.push(value);
            },
            Ok(None) => {},
            Err(error) => {
                proof {
                    lemma_failure_stays(steps, row + 1, rows as int);
                }
                return Err(error);
            },
        }
        row += 1;
    }
    Ok(kept)
}

/// Reading a row for the revenue by flag.
pub open spec fn flagged_revenue_step(
    keys: ColumnArray,
    dates: ColumnArray,
    extendedprices: ColumnArray,
    discounts: ColumnArray,
    start_days: i32,
    end_days: i32,
    lookup: Map<i64, bool>,
    row: int,
) -> Step<(bool, (Amount, Amount))> {
    match day_step(dates, row) {
        Step::Fail(message) => Step::Fail(message),
        Step::Skip => Step::Skip,
        Step::Keep(date) => if !(start_days <= date < end_days) {
            Step::Skip
        } else {
            match both(
                integer_step(keys, row),
                both(amount_step(extendedprices, row), amount_step(discounts, row)),
            ) {
                Step::Fail(message) => Step::Fail(message),
                Step::Skip => Step::Skip,
                Step::Keep((key, amounts)) => match entry_of(lookup, key) {
                    None => Step::Skip,
                    Some(flag) => Step::Keep((flag, amounts)),
                },
            }
        },
    }
}

/// The steps over the rows of a batch.
pub open spec fn flagged_revenue_steps(
    keys: ColumnArray,
    dates: ColumnArray,
    extendedprices: ColumnArray,
    discounts: ColumnArray,
    start_days: i32,
    end_days: i32,
    lookup: Map<i64, bool>,
) -> spec_fn(int) -> Step<(bool, (Amount, Amount))> {
    |row: int| flagged_revenue_step(
        keys,
        dates,
        extendedprices,
        discounts,
        start_days,
        end_days,
        lookup,
        row,
    )
}

/// Reading a row for the revenue by flag.
fn read_flagged_revenue(
    keys: &ColumnArray,
    dates: &ColumnArray,
    extendedprices: &ColumnArray,
    discounts: &ColumnArray,
    start_days: i32,
    end_days: i32,
    lookup: &AdaptiveI64Map<bool>,
    row: usize,
) -> (result: SqlResult<Option<(bool, (Amount, Amount))>>)
    requires
        keys.well_formed(),
        row < keys.rows(),
        dates.well_formed(),
        row < dates.rows(),
        extendedprices.well_formed(),
        row < extendedprices.rows(),
        discounts.well_formed(),
        row < discounts.rows(),
    ensures
        follows(
            result,
            flagged_revenue_step(
                *keys,
                *dates,
                *extendedprices,
                *discounts,
                start_days,
                end_days,
                lookup@,
                row as int,
            ),
        ),
{
    match read_day(dates, row) {
        Err(error) => Err(error),
        Ok(None) => Ok(None),
        Ok(Some(date)) => {
            if date < start_days || date >= end_days {
                return Ok(None);
            }
            let amounts = read_both(read_amount(extendedprices, row), read_amount(discounts, row));
            match read_both(read_integer(keys, row), amounts) {
                Err(error) => Err(error),
                Ok(None) => Ok(None),
                Ok(Some((key, amounts))) => match lookup.get(key) {
                    None => Ok(None),
                    Some(flag) => Ok(Some((flag, amounts))),
                },
            }
        },
    }
}

/// The columns that reading a row for the revenue by flag takes.
pub open spec fn flagged_revenue_columns(
    key_column: Seq<char>,
    date_column: Seq<char>,
    extendedprice_column: Seq<char>,
    discount_column: Seq<char>,
) -> Seq<WantedColumn> {
    seq![
        any_column(key_column),
        any_column(date_column),
        any_column(extendedprice_column),
        any_column(discount_column),
    ]
}

/// What `discounted_revenue_by_i64_bool_lookup_batch` makes of a batch.
pub open spec fn reads_flagged_revenue(
    batch: RecordBatch,
    key_column: Seq<char>,
    date_column: Seq<char>,
    extendedprice_column: Seq<char>,
    discount_column: Seq<char>,
    start_days: i32,
    end_days: i32,
    lookup: Map<i64, bool>,
    result: SqlResult<Vec<(bool, (Amount, Amount))>>,
) -> bool {
    scanned(
        batch,
        flagged_revenue_columns(
            key_column,
            date_column,
            extendedprice_column,
            discount_column,
        ),
        flagged_revenue_steps(
            batch.column_named(key_column),
            batch.column_named(date_column),
            batch.column_named(extendedprice_column),
            batch.column_named(discount_column),
            start_days,
            end_days,
            lookup,
        ),
        result,
    )
}

/// The flag, the price and the discount of each row whose key has a flag and whose date
/// lies in a range.
pub fn discounted_revenue_by_i64_bool_lookup_batch(
    batch: &RecordBatch,
    key_column: &str,
    date_column: &str,
    extendedprice_column: &str,
    discount_column: &str,
    start_days: i32,
    end_days: i32,
    lookup: &AdaptiveI64Map<bool>,
) -> (result: SqlResult<Vec<(bool, (Amount, Amount))>>)
    requires
        batch.well_formed(),
    ensures
        scanned(
            *batch,
            flagged_revenue_columns(
                key_column@,
                date_column@,
                extendedprice_column@,
                discount_column@,
            ),
            flagged_revenue_steps(
                batch.column_named(key_column@),
                batch.column_named(date_column@),
                batch.column_named(extendedprice_column@),
                batch.column_named(discount_column@),
                start_days,
                end_days,
                lookup@,
            ),
            result,
        ),
        reads_flagged_revenue(
            *batch,
            key_column@,
            date_column@,
            extendedprice_column@,
            discount_column@,
            start_days,
            end_days,
            lookup@,
            result,
        ),
{
    let wants = [
        ColumnWant::Any(key_column),
        ColumnWant::Any(date_column),
        ColumnWant::Any(extendedprice_column),
        ColumnWant::Any(discount_column),
    ];
    let ghost expected = flagged_revenue_columns(
        key_column@,
        date_column@,
        extendedprice_column@,
        discount_column@,
    );
    assert(wanted(wants@) =~= expected);
    let columns = match resolve_columns(batch, wants.as_slice()) {
        Ok(columns) => columns,
        Err(error) => {
            return Err(error);
        },
    };
    let keys = columns[0];
    let dates = columns[1];
    let extendedprices = columns[2];
    let discounts = columns[3];
    proof {
        assert(resolved_at(*batch, expected, 0, *keys));
        assert(resolved_at(*batch, expected, 1, *dates));
        assert(resolved_at(*batch, expected, 2, *extendedprices));
        assert(resolved_at(*batch, expected, 3, *discounts));
    }
    let ghost steps = flagged_revenue_steps(
        *keys,
        *dates,
        *extendedprices,
        *discounts,
        start_days,
        end_days,
        lookup@,
    );
    let rows: usize = batch.num_rows;
    let mut kept: Vec<(bool, (Amount, Amount))> = Vec::new();
    let mut row: usize = 0;
    while row < rows
        invariant
            row <= rows,
            rows == batch.num_rows,
            all_met(
                *batch,
                flagged_revenue_columns(
                    key_column@,
                    date_column@,
                    extendedprice_column@,
                    discount_column@,
                ),
            ),
            *keys == batch.column_named(key_column@),
            keys.well_formed(),
            rows == keys.rows(),
            *dates == batch.column_named(date_column@),
            dates.well_formed(),
            rows == dates.rows(),
            *extendedprices == batch.column_named(extendedprice_column@),
            extendedprices.well_formed(),
            rows == extendedprices.rows(),
            *discounts == batch.column_named(discount_column@),
            discounts.well_formed(),
            rows == discounts.rows(),
            steps == flagged_revenue_steps(
                *keys,
                *dates,
                *extendedprices,
                *discounts,
                start_days,
                end_days,
                lookup@,
            ),
            gathered(steps, row as int) == (kept@, None::<Seq<char>>),
        decreases rows - row,
    {
        match read_flagged_revenue(
            keys,
            dates,
            extendedprices,
            discounts,
            start_days,
            end_days,
            lookup,
            row,
        ) {
            Ok(Some(value)) => {
                kept.push(value);
            },
            Ok(None) => {},
            Err(error) => {
                proof {
                    lemma_failure_stays(steps, row + 1, rows as int);
                }
                return Err(error);
            },
        }
        row += 1;
    }
    Ok(kept)
}

/// Reading a row for the customers of orders.
pub open spec fn order_customer_step(
    orderkeys: ColumnArray,
    custkeys: ColumnArray,
    orderdates: ColumnArray,
    start_days: i32,
    end_days: i32,
    row: int,
) -> Step<(i64, i64)> {
    match day_step(orderdates, row) {
        Step::Fail(message) => Step::Fail(message),
        Step::Skip => Step::Skip,
        Step::Keep(orderdate) => if start_days <= orderdate < end_days {
            both(integer_step(orderkeys, row), integer_step(custkeys, row))
        } else {
            Step::Skip
        },
    }
}

/// The steps over the rows of a batch.
pub open spec fn order_customer_steps(
    orderkeys: ColumnArray,
    custkeys: ColumnArray,
    orderdates: ColumnArray,
    start_days: i32,
    end_days: i32,
) -> spec_fn(int) -> Step<(i64, i64)> {
    |row: int| order_customer_step(orderkeys, custkeys, orderdates, start_days, end_days, row)
}

/// Reading a row for the customers of orders.
fn read_order_customer(
    orderkeys: &ColumnArray,
    custkeys: &ColumnArray,
    orderdates: &ColumnArray,
    start_days: i32,
    end_days: i32,
    row: usize,
) -> (result: SqlResult<Option<(i64, i64)>>)
    requires
        orderkeys.well_formed(),
        row < orderkeys.rows(),
        custkeys.well_formed(),
        row < custkeys.rows(),
        orderdates.well_formed(),
        row < orderdates.rows(),
    ensures
        follows(
            result,
            order_customer_step(
                *orderkeys,
                *custkeys,
                *orderdates,
                start_days,
                end_days,
                row as int,
            ),
        ),
{
    match read_day(orderdates, row) {
        Err(error) => Err(error),
        Ok(None) => Ok(None),
        Ok(Some(orderdate)) => {
            if orderdate < start_days || orderdate >= end_days {
                return Ok(None);
            }
            read_both(read_integer(orderkeys, row), read_integer(custkeys, row))
        },
    }
}

/// The columns that reading a row for the customers of orders takes.
pub open spec fn order_customer_columns() -> Seq<WantedColumn> {
    seq![any_column("o_orderkey"@), any_column("o_custkey"@), any_column("o_orderdate"@)]
}

/// What `order_customer_keys_batch` makes of a batch.
pub open spec fn reads_order_customers(
    batch: RecordBatch,
    start_days: i32,
    end_days: i32,
    result: SqlResult<Vec<(i64, i64)>>,
) -> bool {
    scanned(
        batch,
        order_customer_columns(),
        order_customer_steps(
            batch.column_named("o_orderkey"@),
            batch.column_named("o_custkey"@),
            batch.column_named("o_orderdate"@),
            start_days,
            end_days,
        ),
        result,
    )
}

/// The order and the customer of each row whose date lies in a range.
pub fn order_customer_keys_batch(
    batch: &RecordBatch,
    start_days: i32,
    end_days: i32,
) -> (result: SqlResult<Vec<(i64, i64)>>)
    requires
        batch.well_formed(),
    ensures
        scanned(
            *batch,
            order_customer_columns(),
            order_customer_steps(
                batch.column_named("o_orderkey"@),
                batch.column_named("o_custkey"@),
                batch.column_named("o_orderdate"@),
                start_days,
                end_days,
            ),
            result,
        ),
        reads_order_customers(*batch, start_days, end_days, result),
{
    let wants = [
        ColumnWant::Any("o_orderkey"),
        ColumnWant::Any("o_custkey"),
        ColumnWant::Any("o_orderdate"),
    ];
    let ghost expected = order_customer_columns();
    assert(wanted(wants@) =~= expected);
    let columns = match resolve_columns(batch, wants.as_slice()) {
        Ok(columns) => columns,
        Err(error) => {
            return Err(error);
        },
    };
    let orderkeys = columns[0];
    let custkeys = columns[1];
    let orderdates = columns[2];
    proof {
        assert(resolved_at(*batch, expected, 0, *orderkeys));
        assert(resolved_at(*batch, expected, 1, *custkeys));
        assert(resolved_at(*batch, expected, 2, *orderdates));
    }
    let ghost steps = order_customer_steps(
        *orderkeys,
        *custkeys,
        *orderdates,
        start_days,
        end_days,
    );
    let rows: usize = batch.num_rows;
    let mut kept: Vec<(i64, i64)> = Vec::new();
    let mut row: usize = 0;
    while row < rows
        invariant
            row <= rows,
            rows == batch.num_rows,
            all_met(*batch, order_customer_columns()),
            *orderkeys == batch.column_named("o_orderkey"@),
            orderkeys.well_formed(),
            rows == orderkeys.rows(),
            *custkeys == batch.column_named("o_custkey"@),
            custkeys.well_formed(),
            rows == custkeys.rows(),
            *orderdates == batch.column_named("o_orderdate"@),
            orderdates.well_formed(),
            rows == orderdates.rows(),
            steps == order_customer_steps(*orderkeys, *custkeys, *orderdates, start_days, end_days),
            gathered(steps, row as int) == (kept@, None::<Seq<char>>),
        decreases rows - row,
    {
        match read_order_customer(orderkeys, custkeys, orderdates, start_days, end_days, row) {
            Ok(Some(value)) => {
                kept.push(value);
            },
            Ok(None) => {},
            Err(error) => {
                proof {
                    lemma_failure_stays(steps, row + 1, rows as int);
                }
                return Err(error);
            },
        }
        row += 1;
    }
    Ok(kept)
}

/// Reading a row for the names of nations.
pub open spec fn nation_name_step<'a>(
    nationkeys: ColumnArray,
    names: ColumnArray,
    row: int,
) -> Step<(i64, &'a String)> {
    if strings_in(names).valid_at(row) {
        named_step(integer_step(nationkeys, row), &strings_in(names).values@[row])
    } else {
        Step::Skip
    }
}

/// The steps over the rows of a batch.
pub open spec fn nation_name_steps<'a>(
    nationkeys: ColumnArray,
    names: ColumnArray,
) -> spec_fn(int) -> Step<(i64, &'a String)> {
    |row: int| nation_name_step(nationkeys, names, row)
}

/// Reading a row for the names of nations.
fn read_nation_name<'a>(
    nationkeys: &'a ColumnArray,
    names: &'a ColumnArray,
    row: usize,
) -> (result: SqlResult<Option<(i64, &'a String)>>)
    requires
        nationkeys.well_formed(),
        row < nationkeys.rows(),
        names.well_formed(),
        row < names.rows(),
        names.data is Utf8,
    ensures
        follows(result, nation_name_step(*nationkeys, *names, row as int)),
{
    match read_string(names, row) {
        None => Ok(None),
        Some(name) => match read_integer(nationkeys, row) {
            Err(error) => Err(error),
            Ok(None) => Ok(None),
            Ok(Some(nationkey)) => Ok(Some((nationkey, name))),
        },
    }
}

/// The columns that reading a row for the names of nations takes.
pub open spec fn nation_name_columns() -> Seq<WantedColumn> {
    seq![any_column("n_nationkey"@), string_column("n_name"@)]
}

/// What `nation_names_by_keys_batch` makes of a batch.
pub open spec fn reads_nation_names<'a>(
    batch: RecordBatch,
    result: SqlResult<Vec<(i64, &'a String)>>,
) -> bool {
    scanned(
        batch,
        nation_name_columns(),
        nation_name_steps(batch.column_named("n_nationkey"@), batch.column_named("n_name"@)),
        result,
    )
}

/// The key and the name of each nation.
pub fn nation_names_by_keys_batch<'a>(
    batch: &'a RecordBatch,
) -> (result: SqlResult<Vec<(i64, &'a String)>>)
    requires
        batch.well_formed(),
    ensures
        scanned(
            *batch,
            nation_name_columns(),
            nation_name_steps(batch.column_named("n_nationkey"@), batch.column_named("n_name"@)),
            result,
        ),
        reads_nation_names(*batch, result),
{
    let wants = [ColumnWant::Any("n_nationkey"), ColumnWant::Strings("n_name")];
    let ghost expected = nation_name_columns();
    assert(wanted(wants@) =~= expected);
    let columns = match resolve_columns(batch, wants.as_slice()) {
        Ok(columns) => columns,
        Err(error) => {
            return Err(error);
        },
    };
    let nationkeys = columns[0];
    let names = columns[1];
    proof {
        assert(resolved_at(*batch, expected, 0, *nationkeys));
        assert(resolved_at(*batch, expected, 1, *names));
    }
    let ghost steps = nation_name_steps(*nationkeys, *names);
    let rows: usize = batch.num_rows;
    let mut kept: Vec<(i64, &'a String)> = Vec::new();
    let mut row: usize = 0;
    while row < rows
        invariant
            row <= rows,
            rows == batch.num_rows,
            all_met(*batch, nation_name_columns()),
            *nationkeys == batch.column_named("n_nationkey"@),
            nationkeys.well_formed(),
            rows == nationkeys.rows(),
            *names == batch.column_named("n_name"@),
            names.well_formed(),
            rows == names.rows(),
            names.data is Utf8,
            steps == nation_name_steps(*nationkeys, *names),
            gathered(steps, row as int) == (kept@, None::<Seq<char>>),
        decreases rows - row,
    {
        match read_nation_name(nationkeys, names, row) {
            Ok(Some(value)) => {
                kept.push(value);
            },
            Ok(None) => {},
            Err(error) => {
                proof {
                    lemma_failure_stays(steps, row + 1, rows as int);
                }
                return Err(error);
            },
        }
        row += 1;
    }
    Ok(kept)
}

/// Reading a row for the nations of a region.
pub open spec fn region_nation_step<'a>(
    nationkeys: ColumnArray,
    regionkeys: ColumnArray,
    names: ColumnArray,
    region_keys: Set<i64>,
    row: int,
) -> Step<(i64, &'a String)> {
    match both(integer_step(nationkeys, row), integer_step(regionkeys, row)) {
        Step::Fail(message) => Step::Fail(message),
        Step::Skip => Step::Skip,
        Step::Keep((nationkey, regionkey)) => if region_keys.contains(regionkey) && strings_in(
            names,
        ).valid_at(row) {
            Step::Keep((nationkey, &strings_in(names).values@[row]))
        } else {
            Step::Skip
        },
    }
}

/// The steps over the rows of a batch.
pub open spec fn region_nation_steps<'a>(
    nationkeys: ColumnArray,
    regionkeys: ColumnArray,
    names: ColumnArray,
    region_keys: Set<i64>,
) -> spec_fn(int) -> Step<(i64, &'a String)> {
    |row: int| region_nation_step(nationkeys, regionkeys, names, region_keys, row)
}

/// Reading a row for the nations of a region.
fn read_region_nation<'a>(
    nationkeys: &'a ColumnArray,
    regionkeys: &'a ColumnArray,
    names: &'a ColumnArray,
    region_keys: &HashSet<i64>,
    row: usize,
) -> (result: SqlResult<Option<(i64, &'a String)>>)
    requires
        nationkeys.well_formed(),
        row < nationkeys.rows(),
        regionkeys.well_formed(),
        row < regionkeys.rows(),
        names.well_formed(),
        row < names.rows(),
        names.data is Utf8,
    ensures
        follows(
            result,
            region_nation_step(*nationkeys, *regionkeys, *names, region_keys@, row as int),
        ),
{
    match read_both(read_integer(nationkeys, row), read_integer(regionkeys, row)) {
        Err(error) => Err(error),
        Ok(None) => Ok(None),
        Ok(Some((nationkey, regionkey))) => {
            if !region_keys.contains(&regionkey) {
                return Ok(None);
            }
            match read_string(names, row) {
                Some(name) => Ok(Some((nationkey, name))),
                None => Ok(None),
            }
        },
    }
}

/// The columns that reading a row for the nations of a region takes.
pub open spec fn region_nation_columns() -> Seq<WantedColumn> {
    seq![any_column("n_nationkey"@), any_column("n_regionkey"@), string_column("n_name"@)]
}

/// What `nation_names_by_region_keys_batch` makes of a batch.
pub open spec fn reads_region_nations<'a>(
    batch: RecordBatch,
    region_keys: Set<i64>,
    result: SqlResult<Vec<(i64, &'a String)>>,
) -> bool {
    scanned(
        batch,
        region_nation_columns(),
        region_nation_steps(
            batch.column_named("n_nationkey"@),
            batch.column_named("n_regionkey"@),
            batch.column_named("n_name"@),
            region_keys,
        ),
        result,
    )
}

/// The key and the name of each nation of the given regions.
pub fn nation_names_by_region_keys_batch<'a>(
    batch: &'a RecordBatch,
    region_keys: &HashSet<i64>,
) -> (result: SqlResult<Vec<(i64, &'a String)>>)
    requires
        batch.well_formed(),
    ensures
        scanned(
            *batch,
            region_nation_columns(),
            region_nation_steps(
                batch.column_named("n_nationkey"@),
                batch.column_named("n_regionkey"@),
                batch.column_named("n_name"@),
                region_keys@,
            ),
            result,
        ),
        reads_region_nations(*batch, region_keys@, result),
{
    let wants = [
        ColumnWant::Any("n_nationkey"),
        ColumnWant::Any("n_regionkey"),
        ColumnWant::Strings("n_name"),
    ];
    let ghost expected = region_nation_columns();
    assert(wanted(wants@) =~= expected);
    let columns = match resolve_columns(batch, wants.as_slice()) {
        Ok(columns) => columns,
        Err(error) => {
            return Err(error);
        },
    };
    let nationkeys = columns[0];
    let regionkeys = columns[1];
    let names = columns[2];
    proof {
        assert(resolved_at(*batch, expected, 0, *nationkeys));
        assert(resolved_at(*batch, expected, 1, *regionkeys));
        assert(resolved_at(*batch, expected, 2, *names));
    }
    let ghost steps = region_nation_steps(*nationkeys, *regionkeys, *names, region_keys@);
    let rows: usize = batch.num_rows;
    let mut kept: Vec<(i64, &'a String)> = Vec::new();
    let mut row: usize = 0;
    while row < rows
        invariant
            row <= rows,
            rows == batch.num_rows,
            all_met(*batch, region_nation_columns()),
            *nationkeys == batch.column_named("n_nationkey"@),
            nationkeys.well_formed(),
            rows == nationkeys.rows(),
            *regionkeys == batch.column_named("n_regionkey"@),
            regionkeys.well_formed(),
            rows == regionkeys.rows(),
            *names == batch.column_named("n_name"@),
            names.well_formed(),
            rows == names.rows(),
            names.data is Utf8,
            steps == region_nation_steps(*nationkeys, *regionkeys, *names, region_keys@),
            gathered(steps, row as int) == (kept@, None::<Seq<char>>),
        decreases rows - row,
    {
        match read_region_nation(nationkeys, regionkeys, names, region_keys, row) {
            Ok(Some(value)) => {
                kept.push(value);
            },
            Ok(None) => {},
            Err(error) => {
                proof {
                    lemma_failure_stays(steps, row + 1, rows as int);
                }
                return Err(error);
            },
        }
        row += 1;
    }
    Ok(kept)
}

/// Reading a row for a customer.
pub open spec fn returned_customer_step<'a>(
    custkeys: ColumnArray,
    names: ColumnArray,
    acctbals: ColumnArray,
    nationkeys: ColumnArray,
    addresses: ColumnArray,
    phones: ColumnArray,
    comments: ColumnArray,
    customer_keys: Set<i64>,
    row: int,
) -> Step<ReturnedCustomer<'a>> {
    match integer_step(custkeys, row) {
        Step::Fail(message) => Step::Fail(message),
        Step::Skip => Step::Skip,
        Step::Keep(c_custkey) => if !customer_keys.contains(c_custkey) {
            Step::Skip
        } else {
            match both(amount_step(acctbals, row), integer_step(nationkeys, row)) {
                Step::Fail(message) => Step::Fail(message),
                Step::Skip => Step::Skip,
                Step::Keep((c_acctbal, c_nationkey)) => if strings_in(names).valid_at(row)
                    && strings_in(addresses).valid_at(row) && strings_in(phones).valid_at(row)
                    && strings_in(comments).valid_at(row) {
                    Step::Keep(
                        ReturnedCustomer {
                            c_custkey,
                            c_name: &strings_in(names).values@[row],
                            c_acctbal,
                            c_nationkey,
                            c_address: &strings_in(addresses).values@[row],
                            c_phone: &strings_in(phones).values@[row],
                            c_comment: &strings_in(comments).values@[row],
                        },
                    )
                } else {
                    Step::Skip
                },
            }
        },
    }
}

/// The steps over the rows of a batch.
pub open spec fn returned_customer_steps<'a>(
    custkeys: ColumnArray,
    names: ColumnArray,
    acctbals: ColumnArray,
    nationkeys: ColumnArray,
    addresses: ColumnArray,
    phones: ColumnArray,
    comments: ColumnArray,
    customer_keys: Set<i64>,
) -> spec_fn(int) -> Step<ReturnedCustomer<'a>> {
    |row: int| returned_customer_step(
        custkeys,
        names,
        acctbals,
        nationkeys,
        addresses,
        phones,
        comments,
        customer_keys,
        row,
    )
}

/// Reading a row for a customer.
fn read_returned_customer<'a>(
    custkeys: &'a ColumnArray,
    names: &'a ColumnArray,
    acctbals: &'a ColumnArray,
    nationkeys: &'a ColumnArray,
    addresses: &'a ColumnArray,
    phones: &'a ColumnArray,
    comments: &'a ColumnArray,
    customer_keys: &AdaptiveI64Set,
    row: usize,
) -> (result: SqlResult<Option<ReturnedCustomer<'a>>>)
    requires
        custkeys.well_formed(),
        row < custkeys.rows(),
        names.well_formed(),
        row < names.rows(),
        names.data is Utf8,
        acctbals.well_formed(),
        row < acctbals.rows(),
        nationkeys.well_formed(),
        row < nationkeys.rows(),
        addresses.well_formed(),
        row < addresses.rows(),
        addresses.data is Utf8,
        phones.well_formed(),
        row < phones.rows(),
        phones.data is Utf8,
        comments.well_formed(),
        row < comments.rows(),
        comments.data is Utf8,
    ensures
        follows(
            result,
            returned_customer_step(
                *custkeys,
                *names,
                *acctbals,
                *nationkeys,
                *addresses,
                *phones,
                *comments,
                customer_keys@,
                row as int,
            ),
        ),
{
    match read_integer(custkeys, row) {
        Err(error) => Err(error),
        Ok(None) => Ok(None),
        Ok(Some(c_custkey)) => {
            if !customer_keys.contains(c_custkey) {
                return Ok(None);
            }
            match read_both(read_amount(acctbals, row), read_integer(nationkeys, row)) {
                Err(error) => Err(error),
                Ok(None) => Ok(None),
                Ok(Some((c_acctbal, c_nationkey))) => match (
                    read_string(names, row),
                    read_string(addresses, row),
                    read_string(phones, row),
                    read_string(comments, row),
                ) {
                    (Some(c_name), Some(c_address), Some(c_phone), Some(c_comment)) => Ok(
                        Some(
                            ReturnedCustomer {
                                c_custkey,
                                c_name,
                                c_acctbal,
                                c_nationkey,
                                c_address,
                                c_phone,
                                c_comment,
                            },
                        ),
                    ),
                    _ => Ok(None),
                },
            }
        },
    }
}

/// The columns that reading a row for a customer takes.
pub open spec fn returned_customer_columns() -> Seq<WantedColumn> {
    seq![
        any_column("c_custkey"@),
        string_column("c_name"@),
        any_column("c_acctbal"@),
        any_column("c_nationkey"@),
        string_column("c_address"@),
        string_column("c_phone"@),
        string_column("c_comment"@),
    ]
}

/// What `returned_customer_rows_batch` makes of a batch.
pub open spec fn reads_returned_customers<'a>(
    batch: RecordBatch,
    customer_keys: Set<i64>,
    result: SqlResult<Vec<ReturnedCustomer<'a>>>,
) -> bool {
    scanned(
        batch,
        returned_customer_columns(),
        returned_customer_steps(
            batch.column_named("c_custkey"@),
            batch.column_named("c_name"@),
            batch.column_named("c_acctbal"@),
            batch.column_named("c_nationkey"@),
            batch.column_named("c_address"@),
            batch.column_named("c_phone"@),
            batch.column_named("c_comment"@),
            customer_keys,
        ),
        result,
    )
}

/// The customers that are wanted, as far as nothing of them is null.
pub fn returned_customer_rows_batch<'a>(
    batch: &'a RecordBatch,
    customer_keys: &AdaptiveI64Set,
) -> (result: SqlResult<Vec<ReturnedCustomer<'a>>>)
    requires
        batch.well_formed(),
    ensures
        scanned(
            *batch,
            returned_customer_columns(),
            returned_customer_steps(
                batch.column_named("c_custkey"@),
                batch.column_named("c_name"@),
                batch.column_named("c_acctbal"@),
                batch.column_named("c_nationkey"@),
                batch.column_named("c_address"@),
                batch.column_named("c_phone"@),
                batch.column_named("c_comment"@),
                customer_keys@,
            ),
            result,
        ),
        reads_returned_customers(*batch, customer_keys@, result),
{
    let wants = [
        ColumnWant::Any("c_custkey"),
        ColumnWant::Strings("c_name"),
        ColumnWant::Any("c_acctbal"),
        ColumnWant::Any("c_nationkey"),
        ColumnWant::Strings("c_address"),
        ColumnWant::Strings("c_phone"),
        ColumnWant::Strings("c_comment"),
    ];
    let ghost expected = returned_customer_columns();
    assert(wanted(wants@) =~= expected);
    let columns = match resolve_columns(batch, wants.as_slice()) {
        Ok(columns) => columns,
        Err(error) => {
            return Err(error);
        },
    };
    let custkeys = columns[0];
    let names = columns[1];
    let acctbals = columns[2];
    let nationkeys = columns[3];
    let addresses = columns[4];
    let phones = columns[5];
    let comments = columns[6];
    proof {
        assert(resolved_at(*batch, expected, 0, *custkeys));
        assert(resolved_at(*batch, expected, 1, *names));
        assert(resolved_at(*batch, expected, 2, *acctbals));
        assert(resolved_at(*batch, expected, 3, *nationkeys));
        assert(resolved_at(*batch, expected, 4, *addresses));
        assert(resolved_at(*batch, expected, 5, *phones));
        assert(resolved_at(*batch, expected, 6, *comments));
    }
    let ghost steps = returned_customer_steps(
        *custkeys,
        *names,
        *acctbals,
        *nationkeys,
        *addresses,
        *phones,
        *comments,
        customer_keys@,
    );
    let rows: usize = batch.num_rows;
    let mut kept: Vec<ReturnedCustomer<'a>> = Vec::new();
    let mut row: usize = 0;
    while row < rows
        invariant
            row <= rows,
            rows == batch.num_rows,
            all_met(*batch, returned_customer_columns()),
            *custkeys == batch.column_named("c_custkey"@),
            custkeys.well_formed(),
            rows == custkeys.rows(),
            *names == batch.column_named("c_name"@),
            names.well_formed(),
            rows == names.rows(),
            names.data is Utf8,
            *acctbals == batch.column_named("c_acctbal"@),
            acctbals.well_formed(),
            rows == acctbals.rows(),
            *nationkeys == batch.column_named("c_nationkey"@),
            nationkeys.well_formed(),
            rows == nationkeys.rows(),
            *addresses == batch.column_named("c_address"@),
            addresses.well_formed(),
            rows == addresses.rows(),
            addresses.data is Utf8,
            *phones == batch.column_named("c_phone"@),
            phones.well_formed(),
            rows == phones.rows(),
            phones.data is Utf8,
            *comments == batch.column_named("c_comment"@),
            comments.well_formed(),
            rows == comments.rows(),
            comments.data is Utf8,
            steps == returned_customer_steps(
                *custkeys,
                *names,
                *acctbals,
                *nationkeys,
                *addresses,
                *phones,
                *comments,
                customer_keys@,
            ),
            gathered(steps, row as int) == (kept@, None::<Seq<char>>),
        decreases rows - row,
    {
        match read_returned_customer(
            custkeys,
            names,
            acctbals,
            nationkeys,
            addresses,
            phones,
            comments,
            customer_keys,
            row,
        ) {
            Ok(Some(value)) => {
                kept.push(value);
            },
            Ok(None) => {},
            Err(error) => {
                proof {
                    lemma_failure_stays(steps, row + 1, rows as int);
                }
                return Err(error);
            },
        }
        row += 1;
    }
    Ok(kept)
}

/// Reading a row for the pricing summary.
pub open spec fn pricing_row_step<'a>(
    returnflags: ColumnArray,
    linestatuses: ColumnArray,
    quantities: ColumnArray,
    extendedprices: ColumnArray,
    discounts: ColumnArray,
    taxes: ColumnArray,
    shipdates: ColumnArray,
    cutoff_days: i32,
    row: int,
) -> Step<PricedRow<'a>> {
    match day_step(shipdates, row) {
        Step::Fail(message) => Step::Fail(message),
        Step::Skip => Step::Skip,
        Step::Keep(shipdate) => if shipdate > cutoff_days || !strings_in(returnflags).valid_at(row)
            || !strings_in(linestatuses).valid_at(row) {
            Step::Skip
        } else {
            match both(
                both(amount_step(quantities, row), amount_step(extendedprices, row)),
                both(amount_step(discounts, row), amount_step(taxes, row)),
            ) {
                Step::Fail(message) => Step::Fail(message),
                Step::Skip => Step::Skip,
                Step::Keep(((quantity, extendedprice), (discount, tax))) => Step::Keep(
                    PricedRow {
                        returnflag: &strings_in(returnflags).values@[row],
                        linestatus: &strings_in(linestatuses).values@[row],
                        quantity,
                        extendedprice,
                        discount,
                        tax,
                    },
                ),
            }
        },
    }
}

/// The steps over the rows of a batch.
pub open spec fn pricing_row_steps<'a>(
    returnflags: ColumnArray,
    linestatuses: ColumnArray,
    quantities: ColumnArray,
    extendedprices: ColumnArray,
    discounts: ColumnArray,
    taxes: ColumnArray,
    shipdates: ColumnArray,
    cutoff_days: i32,
) -> spec_fn(int) -> Step<PricedRow<'a>> {
    |row: int| pricing_row_step(
        returnflags,
        linestatuses,
        quantities,
        extendedprices,
        discounts,
        taxes,
        shipdates,
        cutoff_days,
        row,
    )
}

/// Reading a row for the pricing summary.
fn read_pricing_row<'a>(
    returnflags: &'a ColumnArray,
    linestatuses: &'a ColumnArray,
    quantities: &'a ColumnArray,
    extendedprices: &'a ColumnArray,
    discounts: &'a ColumnArray,
    taxes: &'a ColumnArray,
    shipdates: &'a ColumnArray,
    cutoff_days: i32,
    row: usize,
) -> (result: SqlResult<Option<PricedRow<'a>>>)
    requires
        returnflags.well_formed(),
        row < returnflags.rows(),
        returnflags.data is Utf8,
        linestatuses.well_formed(),
        row < linestatuses.rows(),
        linestatuses.data is Utf8,
        quantities.well_formed(),
        row < quantities.rows(),
        extendedprices.well_formed(),
        row < extendedprices.rows(),
        discounts.well_formed(),
        row < discounts.rows(),
        taxes.well_formed(),
        row < taxes.rows(),
        shipdates.well_formed(),
        row < shipdates.rows(),
    ensures
        follows(
            result,
            pricing_row_step(
                *returnflags,
                *linestatuses,
                *quantities,
                *extendedprices,
                *discounts,
                *taxes,
                *shipdates,
                cutoff_days,
                row as int,
            ),
        ),
{
    match read_day(shipdates, row) {
        Err(error) => Err(error),
        Ok(None) => Ok(None),
        Ok(Some(shipdate)) => {
            if shipdate > cutoff_days {
                return Ok(None);
            }
            match (read_string(returnflags, row), read_string(linestatuses, row)) {
                (Some(returnflag), Some(linestatus)) => {
                    let prices = read_both(
                        read_amount(quantities, row),
                        read_amount(extendedprices, row),
                    );
                    let rates = read_both(read_amount(discounts, row), read_amount(taxes, row));
                    match read_both(prices, rates) {
                        Err(error) => Err(error),
                        Ok(None) => Ok(None),
                        Ok(Some(((quantity, extendedprice), (discount, tax)))) => Ok(
                            Some(
                                PricedRow {
                                    returnflag,
                                    linestatus,
                                    quantity,
                                    extendedprice,
                                    discount,
                                    tax,
                                },
                            ),
                        ),
                    }
                },
                _ => Ok(None),
            }
        },
    }
}

/// The columns that reading a row for the pricing summary takes.
pub open spec fn pricing_row_columns() -> Seq<WantedColumn> {
    seq![
        string_column("l_returnflag"@),
        string_column("l_linestatus"@),
        any_column("l_quantity"@),
        any_column("l_extendedprice"@),
        any_column("l_discount"@),
        any_column("l_tax"@),
        any_column("l_shipdate"@),
    ]
}

/// What `pricing_summary_batch_rows` makes of a batch.
pub open spec fn reads_priced_rows<'a>(
    batch: RecordBatch,
    cutoff_days: i32,
    result: SqlResult<Vec<PricedRow<'a>>>,
) -> bool {
    scanned(
        batch,
        pricing_row_columns(),
        pricing_row_steps(
            batch.column_named("l_returnflag"@),
            batch.column_named("l_linestatus"@),
            batch.column_named("l_quantity"@),
            batch.column_named("l_extendedprice"@),
            batch.column_named("l_discount"@),
            batch.column_named("l_tax"@),
            batch.column_named("l_shipdate"@),
            cutoff_days,
        ),
        result,
    )
}

/// The rows shipped by the cutoff, as far as nothing of them is null.
pub fn pricing_summary_batch_rows<'a>(
    batch: &'a RecordBatch,
    cutoff_days: i32,
) -> (result: SqlResult<Vec<PricedRow<'a>>>)
    requires
        batch.well_formed(),
    ensures
        scanned(
            *batch,
            pricing_row_columns(),
            pricing_row_steps(
                batch.column_named("l_returnflag"@),
                batch.column_named("l_linestatus"@),
                batch.column_named("l_quantity"@),
                batch.column_named("l_extendedprice"@),
                batch.column_named("l_discount"@),
                batch.column_named("l_tax"@),
                batch.column_named("l_shipdate"@),
                cutoff_days,
            ),
            result,
        ),
        reads_priced_rows(*batch, cutoff_days, result),
{
    let wants = [
        ColumnWant::Strings("l_returnflag"),
        ColumnWant::Strings("l_linestatus"),
        ColumnWant::Any("l_quantity"),
        ColumnWant::Any("l_extendedprice"),
        ColumnWant::Any("l_discount"),
        ColumnWant::Any("l_tax"),
        ColumnWant::Any("l_shipdate"),
    ];
    let ghost expected = pricing_row_columns();
    assert(wanted(wants@) =~= expected);
    let columns = match resolve_columns(batch, wants.as_slice()) {
        Ok(columns) => columns,
        Err(error) => {
            return Err(error);
        },
    };
    let returnflags = columns[0];
    let linestatuses = columns[1];
    let quantities = columns[2];
    let extendedprices = columns[3];
    let discounts = columns[4];
    let taxes = columns[5];
    let shipdates = columns[6];
    proof {
        assert(resolved_at(*batch, expected, 0, *returnflags));
        assert(resolved_at(*batch, expected, 1, *linestatuses));
        assert(resolved_at(*batch, expected, 2, *quantities));
        assert(resolved_at(*batch, expected, 3, *extendedprices));
        assert(resolved_at(*batch, expected, 4, *discounts));
        assert(resolved_at(*batch, expected, 5, *taxes));
        assert(resolved_at(*batch, expected, 6, *shipdates));
    }
    let ghost steps = pricing_row_steps(
        *returnflags,
        *linestatuses,
        *quantities,
        *extendedprices,
        *discounts,
        *taxes,
        *shipdates,
        cutoff_days,
    );
    let rows: usize = batch.num_rows;
    let mut kept: Vec<PricedRow<'a>> = Vec::new();
    let mut row: usize = 0;
    while row < rows
        invariant
            row <= rows,
            rows == batch.num_rows,
            all_met(*batch, pricing_row_columns()),
            *returnflags == batch.column_named("l_returnflag"@),
            returnflags.well_formed(),
            rows == returnflags.rows(),
            returnflags.data is Utf8,
            *linestatuses == batch.column_named("l_linestatus"@),
            linestatuses.well_formed(),
            rows == linestatuses.rows(),
            linestatuses.data is Utf8,
            *quantities == batch.column_named("l_quantity"@),
            quantities.well_formed(),
            rows == quantities.rows(),
            *extendedprices == batch.column_named("l_extendedprice"@),
            extendedprices.well_formed(),
            rows == extendedprices.rows(),
            *discounts == batch.column_named("l_discount"@),
            discounts.well_formed(),
            rows == discounts.rows(),
            *taxes == batch.column_named("l_tax"@),
            taxes.well_formed(),
            rows == taxes.rows(),
            *shipdates == batch.column_named("l_shipdate"@),
            shipdates.well_formed(),
            rows == shipdates.rows(),
            steps == pricing_row_steps(
                *returnflags,
                *linestatuses,
                *quantities,
                *extendedprices,
                *discounts,
                *taxes,
                *shipdates,
                cutoff_days,
            ),
            gathered(steps, row as int) == (kept@, None::<Seq<char>>),
        decreases rows - row,
    {
        match read_pricing_row(
            returnflags,
            linestatuses,
            quantities,
            extendedprices,
            discounts,
            taxes,
            shipdates,
            cutoff_days,
            row,
        ) {
            Ok(Some(value)) => {
                kept.push(value);
            },
            Ok(None) => {},
            Err(error) => {
                proof {
                    lemma_failure_stays(steps, row + 1, rows as int);
                }
                return Err(error);
            },
        }
        row += 1;
    }
    Ok(kept)
}

/// Reading a row for an eligible supplier.
pub open spec fn eligible_supplier_step<'a>(
    suppkeys: ColumnArray,
    nationkeys: ColumnArray,
    names: ColumnArray,
    addresses: ColumnArray,
    nation_keys: Set<i64>,
    eligible_suppliers: Set<i64>,
    row: int,
) -> Step<(&'a String, &'a String)> {
    match two_keys_two_strings_step(suppkeys, nationkeys, names, addresses, row) {
        Step::Fail(message) => Step::Fail(message),
        Step::Skip => Step::Skip,
        Step::Keep(kept) => if eligible_suppliers.contains(kept.0.0) && nation_keys.contains(
            kept.0.1,
        ) {
            Step::Keep(kept.1)
        } else {
            Step::Skip
        },
    }
}

/// The steps over the rows of a batch.
pub open spec fn eligible_supplier_steps<'a>(
    suppkeys: ColumnArray,
    nationkeys: ColumnArray,
    names: ColumnArray,
    addresses: ColumnArray,
    nation_keys: Set<i64>,
    eligible_suppliers: Set<i64>,
) -> spec_fn(int) -> Step<(&'a String, &'a String)> {
    |row: int| eligible_supplier_step(
        suppkeys,
        nationkeys,
        names,
        addresses,
        nation_keys,
        eligible_suppliers,
        row,
    )
}

/// Reading a row for an eligible supplier.
fn read_eligible_supplier<'a>(
    suppkeys: &'a ColumnArray,
    nationkeys: &'a ColumnArray,
    names: &'a ColumnArray,
    addresses: &'a ColumnArray,
    nation_keys: &HashSet<i64>,
    eligible_suppliers: &HashSet<i64>,
    row: usize,
) -> (result: SqlResult<Option<(&'a String, &'a String)>>)
    requires
        suppkeys.well_formed(),
        row < suppkeys.rows(),
        nationkeys.well_formed(),
        row < nationkeys.rows(),
        names.well_formed(),
        row < names.rows(),
        names.data is Utf8,
        addresses.well_formed(),
        row < addresses.rows(),
        addresses.data is Utf8,
    ensures
        follows(
            result,
            eligible_supplier_step(
                *suppkeys,
                *nationkeys,
                *names,
                *addresses,
                nation_keys@,
                eligible_suppliers@,
                row as int,
            ),
        ),
{
    match read_two_keys_two_strings(suppkeys, nationkeys, names, addresses, row) {
        Err(error) => Err(error),
        Ok(None) => Ok(None),
        Ok(Some(((suppkey, nationkey), (name, address)))) => {
            if eligible_suppliers.contains(&suppkey) && nation_keys.contains(&nationkey) {
                Ok(Some((name, address)))
            } else {
                Ok(None)
            }
        },
    }
}

/// The columns that reading a row for an eligible supplier takes.
pub open spec fn eligible_supplier_columns() -> Seq<WantedColumn> {
    seq![
        any_column("s_suppkey"@),
        any_column("s_nationkey"@),
        string_column("s_name"@),
        string_column("s_address"@),
    ]
}

/// What `supplier_rows_by_nation_and_eligibility_batch` makes of a batch.
pub open spec fn reads_eligible_suppliers<'a>(
    batch: RecordBatch,
    nation_keys: Set<i64>,
    eligible_suppliers: Set<i64>,
    result: SqlResult<Vec<(&'a String, &'a String)>>,
) -> bool {
    scanned(
        batch,
        eligible_supplier_columns(),
        eligible_supplier_steps(
            batch.column_named("s_suppkey"@),
            batch.column_named("s_nationkey"@),
            batch.column_named("s_name"@),
            batch.column_named("s_address"@),
            nation_keys,
            eligible_suppliers,
        ),
        result,
    )
}

/// The name and the address of each supplier that is eligible and of one of the nations.
pub fn supplier_rows_by_nation_and_eligibility_batch<'a>(
    batch: &'a RecordBatch,
    nation_keys: &HashSet<i64>,
    eligible_suppliers: &HashSet<i64>,
) -> (result: SqlResult<Vec<(&'a String, &'a String)>>)
    requires
        batch.well_formed(),
    ensures
        scanned(
            *batch,
            eligible_supplier_columns(),
            eligible_supplier_steps(
                batch.column_named("s_suppkey"@),
                batch.column_named("s_nationkey"@),
                batch.column_named("s_name"@),
                batch.column_named("s_address"@),
                nation_keys@,
                eligible_suppliers@,
            ),
            result,
        ),
        reads_eligible_suppliers(*batch, nation_keys@, eligible_suppliers@, result),
{
    let wants = [
        ColumnWant::Any("s_suppkey"),
        ColumnWant::Any("s_nationkey"),
        ColumnWant::Strings("s_name"),
        ColumnWant::Strings("s_address"),
    ];
    let ghost expected = eligible_supplier_columns();
    assert(wanted(wants@) =~= expected);
    let columns = match resolve_columns(batch, wants.as_slice()) {
        Ok(columns) => columns,
        Err(error) => {
            return Err(error);
        },
    };
    let suppkeys = columns[0];
    let nationkeys = columns[1];
    let names = columns[2];
    let addresses = columns[3];
    proof {
        assert(resolved_at(*batch, expected, 0, *suppkeys));
        assert(resolved_at(*batch, expected, 1, *nationkeys));
        assert(resolved_at(*batch, expected, 2, *names));
        assert(resolved_at(*batch, expected, 3, *addresses));
    }
    let ghost steps = eligible_supplier_steps(
        *suppkeys,
        *nationkeys,
        *names,
        *addresses,
        nation_keys@,
        eligible_suppliers@,
    );
    let rows: usize = batch.num_rows;
    let mut kept: Vec<(&'a String, &'a String)> = Vec::new();
    let mut row: usize = 0;
    while row < rows
        invariant
            row <= rows,
            rows == batch.num_rows,
            all_met(*batch, eligible_supplier_columns()),
            *suppkeys == batch.column_named("s_suppkey"@),
            suppkeys.well_formed(),
            rows == suppkeys.rows(),
            *nationkeys == batch.column_named("s_nationkey"@),
            nationkeys.well_formed(),
            rows == nationkeys.rows(),
            *names == batch.column_named("s_name"@),
            names.well_formed(),
            rows == names.rows(),
            names.data is Utf8,
            *addresses == batch.column_named("s_address"@),
            addresses.well_formed(),
            rows == addresses.rows(),
            addresses.data is Utf8,
            steps == eligible_supplier_steps(
                *suppkeys,
                *nationkeys,
                *names,
                *addresses,
                nation_keys@,
                eligible_suppliers@,
            ),
            gathered(steps, row as int) == (kept@, None::<Seq<char>>),
        decreases rows - row,
    {
        match read_eligible_supplier(
            suppkeys,
            nationkeys,
            names,
            addresses,
            nation_keys,
            eligible_suppliers,
            row,
        ) {
            Ok(Some(value)) => {
                kept.push(value);
            },
            Ok(None) => {},
            Err(error) => {
                proof {
                    lemma_failure_stays(steps, row + 1, rows as int);
                }
                return Err(error);
            },
        }
        row += 1;
    }
    Ok(kept)
}

/// Reading two keys and two strings of a row.
pub open spec fn two_keys_two_strings_step<'a>(
    first_keys: ColumnArray,
    second_keys: ColumnArray,
    first_strings: ColumnArray,
    second_strings: ColumnArray,
    row: int,
) -> Step<((i64, i64), (&'a String, &'a String))> {
    if strings_in(first_strings).valid_at(row) && strings_in(second_strings).valid_at(row) {
        match both(integer_step(first_keys, row), integer_step(second_keys, row)) {
            Step::Fail(message) => Step::Fail(message),
            Step::Skip => Step::Skip,
            Step::Keep(keys) => Step::Keep(
                (
                    keys,
                    (
                        &strings_in(first_strings).values@[row],
                        &strings_in(second_strings).values@[row],
                    ),
                ),
            ),
        }
    } else {
        Step::Skip
    }
}

/// The steps over the rows of a batch.
pub open spec fn two_keys_two_strings_steps<'a>(
    first_keys: ColumnArray,
    second_keys: ColumnArray,
    first_strings: ColumnArray,
    second_strings: ColumnArray,
) -> spec_fn(int) -> Step<((i64, i64), (&'a String, &'a String))> {
    |row: int| two_keys_two_strings_step(
        first_keys,
        second_keys,
        first_strings,
        second_strings,
        row,
    )
}

/// Reading two keys and two strings of a row.
fn read_two_keys_two_strings<'a>(
    first_keys: &'a ColumnArray,
    second_keys: &'a ColumnArray,
    first_strings: &'a ColumnArray,
    second_strings: &'a ColumnArray,
    row: usize,
) -> (result: SqlResult<Option<((i64, i64), (&'a String, &'a String))>>)
    requires
        first_keys.well_formed(),
        row < first_keys.rows(),
        second_keys.well_formed(),
        row < second_keys.rows(),
        first_strings.well_formed(),
        row < first_strings.rows(),
        first_strings.data is Utf8,
        second_strings.well_formed(),
        row < second_strings.rows(),
        second_strings.data is Utf8,
    ensures
        follows(
            result,
            two_keys_two_strings_step(
                *first_keys,
                *second_keys,
                *first_strings,
                *second_strings,
                row as int,
            ),
        ),
{
    match (read_string(first_strings, row), read_string(second_strings, row)) {
        (Some(first), Some(second)) => match read_both(
            read_integer(first_keys, row),
            read_integer(second_keys, row),
        ) {
            Err(error) => Err(error),
            Ok(None) => Ok(None),
            Ok(Some(keys)) => Ok(Some((keys, (first, second)))),
        },
        _ => Ok(None),
    }
}

/// The columns that reading two keys and two strings of a row takes.
pub open spec fn two_keys_two_strings_columns(
    first_key_column: Seq<char>,
    second_key_column: Seq<char>,
    first_string_column: Seq<char>,
    second_string_column: Seq<char>,
) -> Seq<WantedColumn> {
    seq![
        any_column(first_key_column),
        any_column(second_key_column),
        string_column(first_string_column),
        string_column(second_string_column),
    ]
}

/// What `collect_i64_i64_two_utf8_rows_batch` makes of a batch.
pub open spec fn reads_two_keys_two_strings<'a>(
    batch: RecordBatch,
    first_key_column: Seq<char>,
    second_key_column: Seq<char>,
    first_string_column: Seq<char>,
    second_string_column: Seq<char>,
    result: SqlResult<Vec<((i64, i64), (&'a String, &'a String))>>,
) -> bool {
    scanned(
        batch,
        two_keys_two_strings_columns(
            first_key_column,
            second_key_column,
            first_string_column,
            second_string_column,
        ),
        two_keys_two_strings_steps(
            batch.column_named(first_key_column),
            batch.column_named(second_key_column),
            batch.column_named(first_string_column),
            batch.column_named(second_string_column),
        ),
        result,
    )
}

/// Both keys and both strings of each row that lacks none of them.
pub fn collect_i64_i64_two_utf8_rows_batch<'a>(
    batch: &'a RecordBatch,
    first_key_column: &str,
    second_key_column: &str,
    first_string_column: &str,
    second_string_column: &str,
) -> (result: SqlResult<Vec<((i64, i64), (&'a String, &'a String))>>)
    requires
        batch.well_formed(),
    ensures
        scanned(
            *batch,
            two_keys_two_strings_columns(
                first_key_column@,
                second_key_column@,
                first_string_column@,
                second_string_column@,
            ),
            two_keys_two_strings_steps(
                batch.column_named(first_key_column@),
                batch.column_named(second_key_column@),
                batch.column_named(first_string_column@),
                batch.column_named(second_string_column@),
            ),
            result,
        ),
        reads_two_keys_two_strings(
            *batch,
            first_key_column@,
            second_key_column@,
            first_string_column@,
            second_string_column@,
            result,
        ),
{
    let wants = [
        ColumnWant::Any(first_key_column),
        ColumnWant::Any(second_key_column),
        ColumnWant::Strings(first_string_column),
        ColumnWant::Strings(second_string_column),
    ];
    let ghost expected = two_keys_two_strings_columns(
        first_key_column@,
        second_key_column@,
        first_string_column@,
        second_string_column@,
    );
    assert(wanted(wants@) =~= expected);
    let columns = match resolve_columns(batch, wants.as_slice()) {
        Ok(columns) => columns,
        Err(error) => {
            return Err(error);
        },
    };
    let first_keys = columns[0];
    let second_keys = columns[1];
    let first_strings = columns[2];
    let second_strings = columns[3];
    proof {
        assert(resolved_at(*batch, expected, 0, *first_keys));
        assert(resolved_at(*batch, expected, 1, *second_keys));
        assert(resolved_at(*batch, expected, 2, *first_strings));
        assert(resolved_at(*batch, expected, 3, *second_strings));
    }
    let ghost steps = two_keys_two_strings_steps(
        *first_keys,
        *second_keys,
        *first_strings,
        *second_strings,
    );
    let rows: usize = batch.num_rows;
    let mut kept: Vec<((i64, i64), (&'a String, &'a String))> = Vec::new();
    let mut row: usize = 0;
    while row < rows
        invariant
            row <= rows,
            rows == batch.num_rows,
            all_met(
                *batch,
                two_keys_two_strings_columns(
                    first_key_column@,
                    second_key_column@,
                    first_string_column@,
                    second_string_column@,
                ),
            ),
            *first_keys == batch.column_named(first_key_column@),
            first_keys.well_formed(),
            rows == first_keys.rows(),
            *second_keys == batch.column_named(second_key_column@),
            second_keys.well_formed(),
            rows == second_keys.rows(),
            *first_strings == batch.column_named(first_string_column@),
            first_strings.well_formed(),
            rows == first_strings.rows(),
            first_strings.data is Utf8,
            *second_strings == batch.column_named(second_string_column@),
            second_strings.well_formed(),
            rows == second_strings.rows(),
            second_strings.data is Utf8,
            steps == two_keys_two_strings_steps(
                *first_keys,
                *second_keys,
                *first_strings,
                *second_strings,
            ),
            gathered(steps, row as int) == (kept@, None::<Seq<char>>),
        decreases rows - row,
    {
        match read_two_keys_two_strings(
            first_keys,
            second_keys,
            first_strings,
            second_strings,
            row,
        ) {
            Ok(Some(value)) => {
                kept.push(value);
            },
            Ok(None) => {},
            Err(error) => {
                proof {
                    lemma_failure_stays(steps, row + 1, rows as int);
                }
                return Err(error);
            },
        }
        row += 1;
    }
    Ok(kept)
}

/// Reading a key and three strings of a row.
pub open spec fn key_three_strings_step<'a>(
    keys: ColumnArray,
    first_strings: ColumnArray,
    second_strings: ColumnArray,
    third_strings: ColumnArray,
    row: int,
) -> Step<(i64, (&'a String, &'a String, &'a String))> {
    if strings_in(first_strings).valid_at(row) && strings_in(second_strings).valid_at(row)
        && strings_in(third_strings).valid_at(row) {
        match integer_step(keys, row) {
            Step::Fail(message) => Step::Fail(message),
            Step::Skip => Step::Skip,
            Step::Keep(key) => Step::Keep(
                (
                    key,
                    (
                        &strings_in(first_strings).values@[row],
                        &strings_in(second_strings).values@[row],
                        &strings_in(third_strings).values@[row],
                    ),
                ),
            ),
        }
    } else {
        Step::Skip
    }
}

/// The steps over the rows of a batch.
pub open spec fn key_three_strings_steps<'a>(
    keys: ColumnArray,
    first_strings: ColumnArray,
    second_strings: ColumnArray,
    third_strings: ColumnArray,
) -> spec_fn(int) -> Step<(i64, (&'a String, &'a String, &'a String))> {
    |row: int| key_three_strings_step(keys, first_strings, second_strings, third_strings, row)
}

/// Reading a key and three strings of a row.
fn read_key_three_strings<'a>(
    keys: &'a ColumnArray,
    first_strings: &'a ColumnArray,
    second_strings: &'a ColumnArray,
    third_strings: &'a ColumnArray,
    row: usize,
) -> (result: SqlResult<Option<(i64, (&'a String, &'a String, &'a String))>>)
    requires
        keys.well_formed(),
        row < keys.rows(),
        first_strings.well_formed(),
        row < first_strings.rows(),
        first_strings.data is Utf8,
        second_strings.well_formed(),
        row < second_strings.rows(),
        second_strings.data is Utf8,
        third_strings.well_formed(),
        row < third_strings.rows(),
        third_strings.data is Utf8,
    ensures
        follows(
            result,
            key_three_strings_step(
                *keys,
                *first_strings,
                *second_strings,
                *third_strings,
                row as int,
            ),
        ),
{
    match (
        read_string(first_strings, row),
        read_string(second_strings, row),
        read_string(third_strings, row),
    ) {
        (Some(first), Some(second), Some(third)) => match read_integer(keys, row) {
            Err(error) => Err(error),
            Ok(None) => Ok(None),
            Ok(Some(key)) => Ok(Some((key, (first, second, third)))),
        },
        _ => Ok(None),
    }
}

/// The columns that reading a key and three strings of a row takes.
pub open spec fn key_three_strings_columns(
    key_column: Seq<char>,
    first_string_column: Seq<char>,
    second_string_column: Seq<char>,
    third_string_column: Seq<char>,
) -> Seq<WantedColumn> {
    seq![
        any_column(key_column),
        string_column(first_string_column),
        string_column(second_string_column),
        string_column(third_string_column),
    ]
}

/// What `collect_i64_three_utf8_rows_batch` makes of a batch.
pub open spec fn reads_key_three_strings<'a>(
    batch: RecordBatch,
    key_column: Seq<char>,
    first_string_column: Seq<char>,
    second_string_column: Seq<char>,
    third_string_column: Seq<char>,
    result: SqlResult<Vec<(i64, (&'a String, &'a String, &'a String))>>,
) -> bool {
    scanned(
        batch,
        key_three_strings_columns(
            key_column,
            first_string_column,
            second_string_column,
            third_string_column,
        ),
        key_three_strings_steps(
            batch.column_named(key_column),
            batch.column_named(first_string_column),
            batch.column_named(second_string_column),
            batch.column_named(third_string_column),
        ),
        result,
    )
}

/// The key and the three strings of each row that lacks none of them.
pub fn collect_i64_three_utf8_rows_batch<'a>(
    batch: &'a RecordBatch,
    key_column: &str,
    first_string_column: &str,
    second_string_column: &str,
    third_string_column: &str,
) -> (result: SqlResult<Vec<(i64, (&'a String, &'a String, &'a String))>>)
    requires
        batch.well_formed(),
    ensures
        scanned(
            *batch,
            key_three_strings_columns(
                key_column@,
                first_string_column@,
                second_string_column@,
                third_string_column@,
            ),
            key_three_strings_steps(
                batch.column_named(key_column@),
                batch.column_named(first_string_column@),
                batch.column_named(second_string_column@),
                batch.column_named(third_string_column@),
            ),
            result,
        ),
        reads_key_three_strings(
            *batch,
            key_column@,
            first_string_column@,
            second_string_column@,
            third_string_column@,
            result,
        ),
{
    let wants = [
        ColumnWant::Any(key_column),
        ColumnWant::Strings(first_string_column),
        ColumnWant::Strings(second_string_column),
        ColumnWant::Strings(third_string_column),
    ];
    let ghost expected = key_three_strings_columns(
        key_column@,
        first_string_column@,
        second_string_column@,
        third_string_column@,
    );
    assert(wanted(wants@) =~= expected);
    let columns = match resolve_columns(batch, wants.as_slice()) {
        Ok(columns) => columns,
        Err(error) => {
            return Err(error);
        },
    };
    let keys = columns[0];
    let first_strings = columns[1];
    let second_strings = columns[2];
    let third_strings = columns[3];
    proof {
        assert(resolved_at(*batch, expected, 0, *keys));
        assert(resolved_at(*batch, expected, 1, *first_strings));
        assert(resolved_at(*batch, expected, 2, *second_strings));
        assert(resolved_at(*batch, expected, 3, *third_strings));
    }
    let ghost steps = key_three_strings_steps(
        *keys,
        *first_strings,
        *second_strings,
        *third_strings,
    );
    let rows: usize = batch.num_rows;
    let mut kept: Vec<(i64, (&'a String, &'a String, &'a String))> = Vec::new();
    let mut row: usize = 0;
    while row < rows
        invariant
            row <= rows,
            rows == batch.num_rows,
            all_met(
                *batch,
                key_three_strings_columns(
                    key_column@,
                    first_string_column@,
                    second_string_column@,
                    third_string_column@,
                ),
            ),
            *keys == batch.column_named(key_column@),
            keys.well_formed(),
            rows == keys.rows(),
            *first_strings == batch.column_named(first_string_column@),
            first_strings.well_formed(),
            rows == first_strings.rows(),
            first_strings.data is Utf8,
            *second_strings == batch.column_named(second_string_column@),
            second_strings.well_formed(),
            rows == second_strings.rows(),
            second_strings.data is Utf8,
            *third_strings == batch.column_named(third_string_column@),
            third_strings.well_formed(),
            rows == third_strings.rows(),
            third_strings.data is Utf8,
            steps == key_three_strings_steps(
                *keys,
                *first_strings,
                *second_strings,
                *third_strings,
            ),
            gathered(steps, row as int) == (kept@, None::<Seq<char>>),
        decreases rows - row,
    {
        match read_key_three_strings(keys, first_strings, second_strings, third_strings, row) {
            Ok(Some(value)) => {
                kept.push(value);
            },
            Ok(None) => {},
            Err(error) => {
                proof {
                    lemma_failure_stays(steps, row + 1, rows as int);
                }
                return Err(error);
            },
        }
        row += 1;
    }
    Ok(kept)
}

/// Reading two keys and a string of a row.
pub open spec fn two_keys_string_step<'a>(
    output_keys: ColumnArray,
    filter_keys: ColumnArray,
    strings: ColumnArray,
    row: int,
) -> Step<((i64, i64), &'a String)> {
    if strings_in(strings).valid_at(row) {
        match both(integer_step(output_keys, row), integer_step(filter_keys, row)) {
            Step::Fail(message) => Step::Fail(message),
            Step::Skip => Step::Skip,
            Step::Keep(keys) => Step::Keep((keys, &strings_in(strings).values@[row])),
        }
    } else {
        Step::Skip
    }
}

/// The steps over the rows of a batch.
pub open spec fn two_keys_string_steps<'a>(
    output_keys: ColumnArray,
    filter_keys: ColumnArray,
    strings: ColumnArray,
) -> spec_fn(int) -> Step<((i64, i64), &'a String)> {
    |row: int| two_keys_string_step(output_keys, filter_keys, strings, row)
}

/// Reading two keys and a string of a row.
fn read_two_keys_string<'a>(
    output_keys: &'a ColumnArray,
    filter_keys: &'a ColumnArray,
    strings: &'a ColumnArray,
    row: usize,
) -> (result: SqlResult<Option<((i64, i64), &'a String)>>)
    requires
        output_keys.well_formed(),
        row < output_keys.rows(),
        filter_keys.well_formed(),
        row < filter_keys.rows(),
        strings.well_formed(),
        row < strings.rows(),
        strings.data is Utf8,
    ensures
        follows(result, two_keys_string_step(*output_keys, *filter_keys, *strings, row as int)),
{
    match read_string(strings, row) {
        Some(string) => match read_both(
            read_integer(output_keys, row),
            read_integer(filter_keys, row),
        ) {
            Err(error) => Err(error),
            Ok(None) => Ok(None),
            Ok(Some(keys)) => Ok(Some((keys, string))),
        },
        None => Ok(None),
    }
}

/// The columns that reading two keys and a string of a row takes.
pub open spec fn two_keys_string_columns(
    output_key_column: Seq<char>,
    filter_key_column: Seq<char>,
    string_column_name: Seq<char>,
) -> Seq<WantedColumn> {
    seq![
        any_column(output_key_column),
        any_column(filter_key_column),
        string_column(string_column_name),
    ]
}

/// What `collect_i64_i64_utf8_rows_batch` makes of a batch.
pub open spec fn reads_two_keys_string<'a>(
    batch: RecordBatch,
    output_key_column: Seq<char>,
    filter_key_column: Seq<char>,
    string_column_name: Seq<char>,
    result: SqlResult<Vec<((i64, i64), &'a String)>>,
) -> bool {
    scanned(
        batch,
        two_keys_string_columns(output_key_column, filter_key_column, string_column_name),
        two_keys_string_steps(
            batch.column_named(output_key_column),
            batch.column_named(filter_key_column),
            batch.column_named(string_column_name),
        ),
        result,
    )
}

/// Both keys and the string of each row that lacks none of them.
pub fn collect_i64_i64_utf8_rows_batch<'a>(
    batch: &'a RecordBatch,
    output_key_column: &str,
    filter_key_column: &str,
    string_column_name: &str,
) -> (result: SqlResult<Vec<((i64, i64), &'a String)>>)
    requires
        batch.well_formed(),
    ensures
        scanned(
            *batch,
            two_keys_string_columns(output_key_column@, filter_key_column@, string_column_name@),
            two_keys_string_steps(
                batch.column_named(output_key_column@),
                batch.column_named(filter_key_column@),
                batch.column_named(string_column_name@),
            ),
            result,
        ),
        reads_two_keys_string(
            *batch,
            output_key_column@,
            filter_key_column@,
            string_column_name@,
            result,
        ),
{
    let wants = [
        ColumnWant::Any(output_key_column),
        ColumnWant::Any(filter_key_column),
        ColumnWant::Strings(string_column_name),
    ];
    let ghost expected = two_keys_string_columns(
        output_key_column@,
        filter_key_column@,
        string_column_name@,
    );
    assert(wanted(wants@) =~= expected);
    let columns = match resolve_columns(batch, wants.as_slice()) {
        Ok(columns) => columns,
        Err(error) => {
            return Err(error);
        },
    };
    let output_keys = columns[0];
    let filter_keys = columns[1];
    let strings = columns[2];
    proof {
        assert(resolved_at(*batch, expected, 0, *output_keys));
        assert(resolved_at(*batch, expected, 1, *filter_keys));
        assert(resolved_at(*batch, expected, 2, *strings));
    }
    let ghost steps = two_keys_string_steps(*output_keys, *filter_keys, *strings);
    let rows: usize = batch.num_rows;
    let mut kept: Vec<((i64, i64), &'a String)> = Vec::new();
    let mut row: usize = 0;
    while row < rows
        invariant
            row <= rows,
            rows == batch.num_rows,
            all_met(
                *batch,
                two_keys_string_columns(
                    output_key_column@,
                    filter_key_column@,
                    string_column_name@,
                ),
            ),
            *output_keys == batch.column_named(output_key_column@),
            output_keys.well_formed(),
            rows == output_keys.rows(),
            *filter_keys == batch.column_named(filter_key_column@),
            filter_keys.well_formed(),
            rows == filter_keys.rows(),
            *strings == batch.column_named(string_column_name@),
            strings.well_formed(),
            rows == strings.rows(),
            strings.data is Utf8,
            steps == two_keys_string_steps(*output_keys, *filter_keys, *strings),
            gathered(steps, row as int) == (kept@, None::<Seq<char>>),
        decreases rows - row,
    {
        match read_two_keys_string(output_keys, filter_keys, strings, row) {
            Ok(Some(value)) => {
                kept.push(value);
            },
            Ok(None) => {},
            Err(error) => {
                proof {
                    lemma_failure_stays(steps, row + 1, rows as int);
                }
                return Err(error);
            },
        }
        row += 1;
    }
    Ok(kept)
}

/// Reading two keys and a number of a row.
pub open spec fn two_keys_amount_step(
    first_keys: ColumnArray,
    second_keys: ColumnArray,
    numbers: ColumnArray,
    row: int,
) -> Step<((i64, i64), Amount)> {
    both(
        both(integer_step(first_keys, row), integer_step(second_keys, row)),
        amount_step(numbers, row),
    )
}

/// The steps over the rows of a batch.
pub open spec fn two_keys_amount_steps(
    first_keys: ColumnArray,
    second_keys: ColumnArray,
    numbers: ColumnArray,
) -> spec_fn(int) -> Step<((i64, i64), Amount)> {
    |row: int| two_keys_amount_step(first_keys, second_keys, numbers, row)
}

/// Reading two keys and a number of a row.
fn read_two_keys_amount(
    first_keys: &ColumnArray,
    second_keys: &ColumnArray,
    numbers: &ColumnArray,
    row: usize,
) -> (result: SqlResult<Option<((i64, i64), Amount)>>)
    requires
        first_keys.well_formed(),
        row < first_keys.rows(),
        second_keys.well_formed(),
        row < second_keys.rows(),
        numbers.well_formed(),
        row < numbers.rows(),
    ensures
        follows(result, two_keys_amount_step(*first_keys, *second_keys, *numbers, row as int)),
{
    read_both(
        read_both(read_integer(first_keys, row), read_integer(second_keys, row)),
        read_amount(numbers, row),
    )
}

/// The columns that reading two keys and a number of a row takes.
pub open spec fn two_keys_amount_columns(
    first_column: Seq<char>,
    second_column: Seq<char>,
    third_column: Seq<char>,
) -> Seq<WantedColumn> {
    seq![any_column(first_column), any_column(second_column), any_column(third_column)]
}

/// What `collect_i64_i64_amount_rows_batch` makes of a batch.
pub open spec fn reads_two_keys_amount(
    batch: RecordBatch,
    first_column: Seq<char>,
    second_column: Seq<char>,
    third_column: Seq<char>,
    result: SqlResult<Vec<((i64, i64), Amount)>>,
) -> bool {
    scanned(
        batch,
        two_keys_amount_columns(first_column, second_column, third_column),
        two_keys_amount_steps(
            batch.column_named(first_column),
            batch.column_named(second_column),
            batch.column_named(third_column),
        ),
        result,
    )
}

/// Both keys and the number of each row that lacks none of them.
pub fn collect_i64_i64_amount_rows_batch(
    batch: &RecordBatch,
    first_column: &str,
    second_column: &str,
    third_column: &str,
) -> (result: SqlResult<Vec<((i64, i64), Amount)>>)
    requires
        batch.well_formed(),
    ensures
        scanned(
            *batch,
            two_keys_amount_columns(first_column@, second_column@, third_column@),
            two_keys_amount_steps(
                batch.column_named(first_column@),
                batch.column_named(second_column@),
                batch.column_named(third_column@),
            ),
            result,
        ),
        reads_two_keys_amount(*batch, first_column@, second_column@, third_column@, result),
{
    let wants = [
        ColumnWant::Any(first_column),
        ColumnWant::Any(second_column),
        ColumnWant::Any(third_column),
    ];
    let ghost expected = two_keys_amount_columns(first_column@, second_column@, third_column@);
    assert(wanted(wants@) =~= expected);
    let columns = match resolve_columns(batch, wants.as_slice()) {
        Ok(columns) => columns,
        Err(error) => {
            return Err(error);
        },
    };
    let first_keys = columns[0];
    let second_keys = columns[1];
    let numbers = columns[2];
    proof {
        assert(resolved_at(*batch, expected, 0, *first_keys));
        assert(resolved_at(*batch, expected, 1, *second_keys));
        assert(resolved_at(*batch, expected, 2, *numbers));
    }
    let ghost steps = two_keys_amount_steps(*first_keys, *second_keys, *numbers);
    let rows: usize = batch.num_rows;
    let mut kept: Vec<((i64, i64), Amount)> = Vec::new();
    let mut row: usize = 0;
    while row < rows
        invariant
            row <= rows,
            rows == batch.num_rows,
            all_met(*batch, two_keys_amount_columns(first_column@, second_column@, third_column@)),
            *first_keys == batch.column_named(first_column@),
            first_keys.well_formed(),
            rows == first_keys.rows(),
            *second_keys == batch.column_named(second_column@),
            second_keys.well_formed(),
            rows == second_keys.rows(),
            *numbers == batch.column_named(third_column@),
            numbers.well_formed(),
            rows == numbers.rows(),
            steps == two_keys_amount_steps(*first_keys, *second_keys, *numbers),
            gathered(steps, row as int) == (kept@, None::<Seq<char>>),
        decreases rows - row,
    {
        match read_two_keys_amount(first_keys, second_keys, numbers, row) {
            Ok(Some(value)) => {
                kept.push(value);
            },
            Ok(None) => {},
            Err(error) => {
                proof {
                    lemma_failure_stays(steps, row + 1, rows as int);
                }
                return Err(error);
            },
        }
        row += 1;
    }
    Ok(kept)
}

/// Reading a key, two strings and a number of a row.
pub open spec fn key_two_strings_amount_step<'a>(
    keys: ColumnArray,
    first_strings: ColumnArray,
    second_strings: ColumnArray,
    numbers: ColumnArray,
    row: int,
) -> Step<(i64, (&'a String, &'a String), Amount)> {
    if strings_in(first_strings).valid_at(row) && strings_in(second_strings).valid_at(row) {
        match both(integer_step(keys, row), amount_step(numbers, row)) {
            Step::Fail(message) => Step::Fail(message),
            Step::Skip => Step::Skip,
            Step::Keep((key, number)) => Step::Keep(
                (
                    key,
                    (
                        &strings_in(first_strings).values@[row],
                        &strings_in(second_strings).values@[row],
                    ),
                    number,
                ),
            ),
        }
    } else {
        Step::Skip
    }
}

/// The steps over the rows of a batch.
pub open spec fn key_two_strings_amount_steps<'a>(
    keys: ColumnArray,
    first_strings: ColumnArray,
    second_strings: ColumnArray,
    numbers: ColumnArray,
) -> spec_fn(int) -> Step<(i64, (&'a String, &'a String), Amount)> {
    |row: int| key_two_strings_amount_step(keys, first_strings, second_strings, numbers, row)
}

/// Reading a key, two strings and a number of a row.
fn read_key_two_strings_amount<'a>(
    keys: &'a ColumnArray,
    first_strings: &'a ColumnArray,
    second_strings: &'a ColumnArray,
    numbers: &'a ColumnArray,
    row: usize,
) -> (result: SqlResult<Option<(i64, (&'a String, &'a String), Amount)>>)
    requires
        keys.well_formed(),
        row < keys.rows(),
        first_strings.well_formed(),
        row < first_strings.rows(),
        first_strings.data is Utf8,
        second_strings.well_formed(),
        row < second_strings.rows(),
        second_strings.data is Utf8,
        numbers.well_formed(),
        row < numbers.rows(),
    ensures
        follows(
            result,
            key_two_strings_amount_step(
                *keys,
                *first_strings,
                *second_strings,
                *numbers,
                row as int,
            ),
        ),
{
    match (read_string(first_strings, row), read_string(second_strings, row)) {
        (Some(first), Some(second)) => match read_both(
            read_integer(keys, row),
            read_amount(numbers, row),
        ) {
            Err(error) => Err(error),
            Ok(None) => Ok(None),
            Ok(Some((key, number))) => Ok(Some((key, (first, second), number))),
        },
        _ => Ok(None),
    }
}

/// The columns that reading a key, two strings and a number of a row takes.
pub open spec fn key_two_strings_amount_columns(
    key_column: Seq<char>,
    first_string_column: Seq<char>,
    second_string_column: Seq<char>,
    number_column: Seq<char>,
) -> Seq<WantedColumn> {
    seq![
        any_column(key_column),
        string_column(first_string_column),
        string_column(second_string_column),
        any_column(number_column),
    ]
}

/// What `collect_i64_two_utf8_amount_rows_batch` makes of a batch.
pub open spec fn reads_key_two_strings_amount<'a>(
    batch: RecordBatch,
    key_column: Seq<char>,
    first_string_column: Seq<char>,
    second_string_column: Seq<char>,
    number_column: Seq<char>,
    result: SqlResult<Vec<(i64, (&'a String, &'a String), Amount)>>,
) -> bool {
    scanned(
        batch,
        key_two_strings_amount_columns(
            key_column,
            first_string_column,
            second_string_column,
            number_column,
        ),
        key_two_strings_amount_steps(
            batch.column_named(key_column),
            batch.column_named(first_string_column),
            batch.column_named(second_string_column),
            batch.column_named(number_column),
        ),
        result,
    )
}

/// The key, both strings and the number of each row that lacks none of them.
pub fn collect_i64_two_utf8_amount_rows_batch<'a>(
    batch: &'a RecordBatch,
    key_column: &str,
    first_string_column: &str,
    second_string_column: &str,
    number_column: &str,
) -> (result: SqlResult<Vec<(i64, (&'a String, &'a String), Amount)>>)
    requires
        batch.well_formed(),
    ensures
        scanned(
            *batch,
            key_two_strings_amount_columns(
                key_column@,
                first_string_column@,
                second_string_column@,
                number_column@,
            ),
            key_two_strings_amount_steps(
                batch.column_named(key_column@),
                batch.column_named(first_string_column@),
                batch.column_named(second_string_column@),
                batch.column_named(number_column@),
            ),
            result,
        ),
        reads_key_two_strings_amount(
            *batch,
            key_column@,
            first_string_column@,
            second_string_column@,
            number_column@,
            result,
        ),
{
    let wants = [
        ColumnWant::Any(key_column),
        ColumnWant::Strings(first_string_column),
        ColumnWant::Strings(second_string_column),
        ColumnWant::Any(number_column),
    ];
    let ghost expected = key_two_strings_amount_columns(
        key_column@,
        first_string_column@,
        second_string_column@,
        number_column@,
    );
    assert(wanted(wants@) =~= expected);
    let columns = match resolve_columns(batch, wants.as_slice()) {
        Ok(columns) => columns,
        Err(error) => {
            return Err(error);
        },
    };
    let keys = columns[0];
    let first_strings = columns[1];
    let second_strings = columns[2];
    let numbers = columns[3];
    proof {
        assert(resolved_at(*batch, expected, 0, *keys));
        assert(resolved_at(*batch, expected, 1, *first_strings));
        assert(resolved_at(*batch, expected, 2, *second_strings));
        assert(resolved_at(*batch, expected, 3, *numbers));
    }
    let ghost steps = key_two_strings_amount_steps(
        *keys,
        *first_strings,
        *second_strings,
        *numbers,
    );
    let rows: usize = batch.num_rows;
    let mut kept: Vec<(i64, (&'a String, &'a String), Amount)> = Vec::new();
    let mut row: usize = 0;
    while row < rows
        invariant
            row <= rows,
            rows == batch.num_rows,
            all_met(
                *batch,
                key_two_strings_amount_columns(
                    key_column@,
                    first_string_column@,
                    second_string_column@,
                    number_column@,
                ),
            ),
            *keys == batch.column_named(key_column@),
            keys.well_formed(),
            rows == keys.rows(),
            *first_strings == batch.column_named(first_string_column@),
            first_strings.well_formed(),
            rows == first_strings.rows(),
            first_strings.data is Utf8,
            *second_strings == batch.column_named(second_string_column@),
            second_strings.well_formed(),
            rows == second_strings.rows(),
            second_strings.data is Utf8,
            *numbers == batch.column_named(number_column@),
            numbers.well_formed(),
            rows == numbers.rows(),
            steps == key_two_strings_amount_steps(*keys, *first_strings, *second_strings, *numbers),
            gathered(steps, row as int) == (kept@, None::<Seq<char>>),
        decreases rows - row,
    {
        match read_key_two_strings_amount(keys, first_strings, second_strings, numbers, row) {
            Ok(Some(value)) => {
                kept.push(value);
            },
            Ok(None) => {},
            Err(error) => {
                proof {
                    lemma_failure_stays(steps, row + 1, rows as int);
                }
                return Err(error);
            },
        }
        row += 1;
    }
    Ok(kept)
}

/// Whether the column at `index` of those asked for is `column`.
spec fn resolved_at(
    batch: RecordBatch,
    wants: Seq<WantedColumn>,
    index: int,
    column: ColumnArray,
) -> bool {
    &&& column == batch.column_named(wants[index].name)
    &&& column.well_formed()
    &&& column.rows() == batch.num_rows
    &&& wants[index].strings ==> column.data is Utf8
}

} // verus!
