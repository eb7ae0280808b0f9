//! What the profit by nation and year reads of a batch, row by row.

use vstd::prelude::*;
use crate::columns::{ColumnArray, RecordBatch};
use crate::error::{SqlError, SqlResult};
use crate::order_years::OrderYears;
use crate::profit::{SupplyCosts, SupplyInfo};
use crate::row_scan::{
    all_met, amount_step, any_column, both, follows, gathered, integer_step, lemma_failure_stays,
    read_amount, read_both, read_integer, resolve_columns, scanned, wanted, Amount, ColumnWant,
    Step, WantedColumn,
};
use crate::tables::{entry_of, AdaptiveI64Map, AdaptiveI64Set};

verus! {

/// A row that counts towards the profit of a nation in a year.
#[derive(Clone, Copy)]
pub struct ProfitEntry {
    pub nationkey: i64,
    pub year: i32,
    pub supplycost: Amount,
    pub quantity: Amount,
    pub extendedprice: Amount,
    pub discount: Amount,
}

/// What a supplier asks for a part, with both keys.
pub type SupplyEntry = ((i64, i64), SupplyInfo<Amount>);

/// Reading a row for the cost of a part.
pub open spec fn supply_cost_step(
    partkeys: ColumnArray,
    suppkeys: ColumnArray,
    supplycosts: ColumnArray,
    part_keys: Set<i64>,
    supplier_nations: Map<i64, i64>,
    row: int,
) -> Step<SupplyEntry> {
    match both(
        both(integer_step(partkeys, row), integer_step(suppkeys, row)),
        amount_step(supplycosts, row),
    ) {
        Step::Fail(message) => Step::Fail(message),
        Step::Skip => Step::Skip,
        Step::Keep(((partkey, suppkey), supplycost)) => if !part_keys.contains(partkey) {
            Step::Skip
        } else {
            match entry_of(supplier_nations, suppkey) {
                None => Step::Skip,
                Some(nationkey) => Step::Keep(
                    ((partkey, suppkey), SupplyInfo { supplycost, nationkey }),
                ),
            }
        },
    }
}

/// The steps over the rows of a batch.
pub open spec fn supply_cost_steps(
    partkeys: ColumnArray,
    suppkeys: ColumnArray,
    supplycosts: ColumnArray,
    part_keys: Set<i64>,
    supplier_nations: Map<i64, i64>,
) -> spec_fn(int) -> Step<SupplyEntry> {
    |row: int| supply_cost_step(partkeys, suppkeys, supplycosts, part_keys, supplier_nations, row)
}

/// Reading a row for the cost of a part.
fn read_supply_cost(
    partkeys: &ColumnArray,
    suppkeys: &ColumnArray,
    supplycosts: &ColumnArray,
    part_keys: &AdaptiveI64Set,
    supplier_nations: &AdaptiveI64Map<i64>,
    row: usize,
) -> (result: SqlResult<Option<SupplyEntry>>)
    requires
        partkeys.well_formed(),
        row < partkeys.rows(),
        suppkeys.well_formed(),
        row < suppkeys.rows(),
        supplycosts.well_formed(),
        row < supplycosts.rows(),
    ensures
        follows(
            result,
            supply_cost_step(
                *partkeys,
                *suppkeys,
                *supplycosts,
                part_keys@,
                supplier_nations@,
                row as int,
            ),
        ),
{
    let keys = read_both(read_integer(partkeys, row), read_integer(suppkeys, row));
    match read_both(keys, read_amount(supplycosts, row)) {
        Err(error) => Err(error),
        Ok(None) => Ok(None),
        Ok(Some(((partkey, suppkey), supplycost))) => {
            if !part_keys.contains(partkey) {
                return Ok(None);
            }
            match supplier_nations.get(suppkey) {
                None => Ok(None),
                Some(nationkey) => Ok(
                    Some(((partkey, suppkey), SupplyInfo { supplycost, nationkey })),
                ),
            }
        },
    }
}

/// The columns that reading a row for the cost of a part takes.
pub open spec fn supply_cost_columns() -> Seq<WantedColumn> {
    seq![any_column("ps_partkey"@), any_column("ps_suppkey"@), any_column("ps_supplycost"@)]
}

/// What `supply_cost_rows_batch` makes of a batch.
pub open spec fn reads_supply_costs(
    batch: RecordBatch,
    part_keys: Set<i64>,
    supplier_nations: Map<i64, i64>,
    result: SqlResult<Vec<SupplyEntry>>,
) -> bool {
    scanned(
        batch,
        supply_cost_columns(),
        supply_cost_steps(
            batch.column_named("ps_partkey"@),
            batch.column_named("ps_suppkey"@),
            batch.column_named("ps_supplycost"@),
            part_keys,
            supplier_nations,
        ),
        result,
    )
}

/// What each supplier asks for each part, as far as the part is wanted and the nation of the
/// supplier is known.
pub fn supply_cost_rows_batch(
    batch: &RecordBatch,
    part_keys: &AdaptiveI64Set,
    supplier_nations: &AdaptiveI64Map<i64>,
) -> (result: SqlResult<Vec<SupplyEntry>>)
    requires
        batch.well_formed(),
    ensures
        scanned(
            *batch,
            supply_cost_columns(),
            supply_cost_steps(
                batch.column_named("ps_partkey"@),
                batch.column_named("ps_suppkey"@),
                batch.column_named("ps_supplycost"@),
                part_keys@,
                supplier_nations@,
            ),
            result,
        ),
        reads_supply_costs(*batch, part_keys@, supplier_nations@, result),
{
    let wants = [
        ColumnWant::Any("ps_partkey"),
        ColumnWant::Any("ps_suppkey"),
        ColumnWant::Any("ps_supplycost"),
    ];
    let ghost expected = supply_cost_columns();
    assert(wanted(wants@) =~= expected);
    let columns = match resolve_columns(batch, wants.as_slice()) {
        Ok(columns) => columns,
        Err(error) => {
            return Err(error);
        },
    };
    let partkeys = columns[0];
    let suppkeys = columns[1];
    let supplycosts = columns[2];
    proof {
        assert(resolved_at(*batch, expected, 0, *partkeys));
        assert(resolved_at(*batch, expected, 1, *suppkeys));
        assert(resolved_at(*batch, expected, 2, *supplycosts));
    }
    let ghost steps = supply_cost_steps(
        *partkeys,
        *suppkeys,
        *supplycosts,
        part_keys@,
        supplier_nations@,
    );
    let rows: usize = batch.num_rows;
    let mut kept: Vec<SupplyEntry> = Vec::new();
    let mut row: usize = 0;
    while row < rows
        invariant
            row <= rows,
            rows == batch.num_rows,
            all_met(*batch, supply_cost_columns()),
            *partkeys == batch.column_named("ps_partkey"@),
            partkeys.well_formed(),
            rows == partkeys.rows(),
            *suppkeys == batch.column_named("ps_suppkey"@),
            suppkeys.well_formed(),
            rows == suppkeys.rows(),
            *supplycosts == batch.column_named("ps_supplycost"@),
            supplycosts.well_formed(),
            rows == supplycosts.rows(),
            steps == supply_cost_steps(
                *partkeys,
                *suppkeys,
                *supplycosts,
                part_keys@,
                supplier_nations@,
            ),
            gathered(steps, row as int) == (kept@, None::<Seq<char>>),
        decreases rows - row,
    {
        match read_supply_cost(partkeys, suppkeys, supplycosts, part_keys, supplier_nations, row) {
            Ok(Some(value)) => {
                kept.push(value);
            },
            Ok(None) => {},
            Err(error) => {
                proof {
                    lemma_failure_stays(steps, row + 1, rows as int);
                }
                return Err(error);
            },
        }
        row += 1;
    }
    Ok(kept)
}

/// Reading a row for the profit of a nation in a year.
pub open spec fn profit_entry_step(
    orderkeys: ColumnArray,
    partkeys: ColumnArray,
    suppkeys: ColumnArray,
    quantities: ColumnArray,
    extendedprices: ColumnArray,
    discounts: ColumnArray,
    part_keys: Set<i64>,
    order_years: Map<i64, i32>,
    supply_costs: SupplyCosts<Amount>,
    row: int,
) -> Step<ProfitEntry> {
    match both(
        both(integer_step(orderkeys, row), integer_step(partkeys, row)),
        integer_step(suppkeys, row),
    ) {
        Step::Fail(message) => Step::Fail(message),
        Step::Skip => Step::Skip,
        Step::Keep(((orderkey, partkey), suppkey)) => if !part_keys.contains(partkey) {
            Step::Skip
        } else {
            match (entry_of(order_years, orderkey), supply_costs.entry(partkey, suppkey)) {
                (Some(year), Some(info)) => match both(
                    both(amount_step(quantities, row), amount_step(extendedprices, row)),
                    amount_step(discounts, row),
                ) {
                    Step::Fail(message) => Step::Fail(message),
                    Step::Skip => Step::Skip,
                    Step::Keep(((quantity, extendedprice), discount)) => Step::Keep(
                        ProfitEntry {
                            nationkey: info.nationkey,
                            year,
                            supplycost: info.supplycost,
                            quantity,
                            extendedprice,
                            discount,
                        },
                    ),
                },
                _ => Step::Skip,
            }
        },
    }
}

/// The steps over the rows of a batch.
pub open spec fn profit_entry_steps(
    orderkeys: ColumnArray,
    partkeys: ColumnArray,
    suppkeys: ColumnArray,
    quantities: ColumnArray,
    extendedprices: ColumnArray,
    discounts: ColumnArray,
    part_keys: Set<i64>,
    order_years: Map<i64, i32>,
    supply_costs: SupplyCosts<Amount>,
) -> spec_fn(int) -> Step<ProfitEntry> {
    |row: int| profit_entry_step(
        orderkeys,
        partkeys,
        suppkeys,
        quantities,
        extendedprices,
        discounts,
        part_keys,
        order_years,
        supply_costs,
        row,
    )
}

/// Reading a row for the profit of a nation in a year.
fn read_profit_entry(
    orderkeys: &ColumnArray,
    partkeys: &ColumnArray,
    suppkeys: &ColumnArray,
    quantities: &ColumnArray,
    extendedprices: &ColumnArray,
    discounts: &ColumnArray,
    part_keys: &AdaptiveI64Set,
    order_years: &OrderYears,
    supply_costs: &SupplyCosts<Amount>,
    row: usize,
) -> (result: SqlResult<Option<ProfitEntry>>)
    requires
        orderkeys.well_formed(),
        row < orderkeys.rows(),
        partkeys.well_formed(),
        row < partkeys.rows(),
        suppkeys.well_formed(),
        row < suppkeys.rows(),
        quantities.well_formed(),
        row < quantities.rows(),
        extendedprices.well_formed(),
        row < extendedprices.rows(),
        discounts.well_formed(),
        row < discounts.rows(),
    ensures
        follows(
            result,
            profit_entry_step(
                *orderkeys,
                *partkeys,
                *suppkeys,
                *quantities,
                *extendedprices,
                *discounts,
                part_keys@,
                order_years@,
                *supply_costs,
                row as int,
            ),
        ),
{
    let keys = read_both(read_integer(orderkeys, row), read_integer(partkeys, row));
    match read_both(keys, read_integer(suppkeys, row)) {
        Err(error) => Err(error),
        Ok(None) => Ok(None),
        Ok(Some(((orderkey, partkey), suppkey))) => {
            if !part_keys.contains(partkey) {
                return Ok(None);
            }
            let year = match order_years.get(orderkey) {
                Some(year) => year,
                None => {
                    return Ok(None);
                },
            };
            let info = match supply_costs.get(partkey, suppkey) {
                Some(info) => info,
                None => {
                    return Ok(None);
                },
            };
            let prices = read_both(read_amount(quantities, row), read_amount(extendedprices, row));
            match read_both(prices, read_amount(discounts, row)) {
                Err(error) => Err(error),
                Ok(None) => Ok(None),
                Ok(Some(((quantity, extendedprice), discount))) => Ok(
                    Some(
                        ProfitEntry {
                            nationkey: info.nationkey,
                            year,
                            supplycost: info.supplycost,
                            quantity,
                            extendedprice,
                            discount,
                        },
                    ),
                ),
            }
        },
    }
}

/// The columns that reading a row for the profit of a nation in a year takes.
pub open spec fn profit_entry_columns() -> Seq<WantedColumn> {
    seq![
        any_column("l_orderkey"@),
        any_column("l_partkey"@),
        any_column("l_suppkey"@),
        any_column("l_quantity"@),
        any_column("l_extendedprice"@),
        any_column("l_discount"@),
    ]
}

/// What `profit_batch` makes of a batch.
pub open spec fn reads_profit_entries(
    batch: RecordBatch,
    part_keys: Set<i64>,
    order_years: Map<i64, i32>,
    supply_costs: SupplyCosts<Amount>,
    result: SqlResult<Vec<ProfitEntry>>,
) -> bool {
    scanned(
        batch,
        profit_entry_columns(),
        profit_entry_steps(
            batch.column_named("l_orderkey"@),
            batch.column_named("l_partkey"@),
            batch.column_named("l_suppkey"@),
            batch.column_named("l_quantity"@),
            batch.column_named("l_extendedprice"@),
            batch.column_named("l_discount"@),
            part_keys,
            order_years,
            supply_costs,
        ),
        result,
    )
}

/// The rows whose part is wanted, whose order has a year and whose supplier sells the part,
/// as far as no amount is null.
pub fn profit_batch(
    batch: &RecordBatch,
    part_keys: &AdaptiveI64Set,
    order_years: &OrderYears,
    supply_costs: &SupplyCosts<Amount>,
) -> (result: SqlResult<Vec<ProfitEntry>>)
    requires
        batch.well_formed(),
    ensures
        scanned(
            *batch,
            profit_entry_columns(),
            profit_entry_steps(
                batch.column_named("l_orderkey"@),
                batch.column_named("l_partkey"@),
                batch.column_named("l_suppkey"@),
                batch.column_named("l_quantity"@),
                batch.column_named("l_extendedprice"@),
                batch.column_named("l_discount"@),
                part_keys@,
                order_years@,
                *supply_costs,
            ),
            result,
        ),
        reads_profit_entries(*batch, part_keys@, order_years@, *supply_costs, result),
{
    let wants = [
        ColumnWant::Any("l_orderkey"),
        ColumnWant::Any("l_partkey"),
        ColumnWant::Any("l_suppkey"),
        ColumnWant::Any("l_quantity"),
        ColumnWant::Any("l_extendedprice"),
        ColumnWant::Any("l_discount"),
    ];
    let ghost expected = profit_entry_columns();
    assert(wanted(wants@) =~= expected);
    let columns = match resolve_columns(batch, wants.as_slice()) {
        Ok(columns) => columns,
        Err(error) => {
            return Err(error);
        },
    };
    let orderkeys = columns[0];
    let partkeys = columns[1];
    let suppkeys = columns[2];
    let quantities = columns[3];
    let extendedprices = columns[4];
    let discounts = columns[5];
    proof {
        assert(resolved_at(*batch, expected, 0, *orderkeys));
        assert(resolved_at(*batch, expected, 1, *partkeys));
        assert(resolved_at(*batch, expected, 2, *suppkeys));
        assert(resolved_at(*batch, expected, 3, *quantities));
        assert(resolved_at(*batch, expected, 4, *extendedprices));
        assert(resolved_at(*batch, expected, 5, *discounts));
    }
    let ghost steps = profit_entry_steps(
        *orderkeys,
        *partkeys,
        *suppkeys,
        *quantities,
        *extendedprices,
        *discounts,
        part_keys@,
        order_years@,
        *supply_costs,
    );
    let rows: usize = batch.num_rows;
    let mut kept: Vec<ProfitEntry> = Vec::new();
    let mut row: usize = 0;
    while row < rows
        invariant
            row <= rows,
            rows == batch.num_rows,
            all_met(*batch, profit_entry_columns()),
            *orderkeys == batch.column_named("l_orderkey"@),
            orderkeys.well_formed(),
            rows == orderkeys.rows(),
            *partkeys == batch.column_named("l_partkey"@),
            partkeys.well_formed(),
            rows == partkeys.rows(),
            *suppkeys == batch.column_named("l_suppkey"@),
            suppkeys.well_formed(),
            rows == suppkeys.rows(),
            *quantities == batch.column_named("l_quantity"@),
            quantities.well_formed(),
            rows == quantities.rows(),
            *extendedprices == batch.column_named("l_extendedprice"@),
            extendedprices.well_formed(),
            rows == extendedprices.rows(),
            *discounts == batch.column_named("l_discount"@),
            discounts.well_formed(),
            rows == discounts.rows(),
            steps == profit_entry_steps(
                *orderkeys,
                *partkeys,
                *suppkeys,
                *quantities,
                *extendedprices,
                *discounts,
                part_keys@,
                order_years@,
                *supply_costs,
            ),
            gathered(steps, row as int) == (kept@, None::<Seq<char>>),
        decreases rows - row,
    {
        match read_profit_entry(
            orderkeys,
            partkeys,
            suppkeys,
            quantities,
            extendedprices,
            discounts,
            part_keys,
            order_years,
            supply_costs,
            row,
        ) {
            Ok(Some(value)) => {
                kept.push(value);
            },
            Ok(None) => {},
            Err(error) => {
                proof {
                    lemma_failure_stays(steps, row + 1, rows as int);
                }
                return Err(error);
            },
        }
        row += 1;
    }
    Ok(kept)
}

/// Whether the column at `index` of those asked for is `column`.
spec fn resolved_at(
    batch: RecordBatch,
    wants: Seq<WantedColumn>,
    index: int,
    column: ColumnArray,
) -> bool {
    &&& column == batch.column_named(wants[index].name)
    &&& column.well_formed()
    &&& column.rows() == batch.num_rows
    &&& wants[index].strings ==> column.data is Utf8
}

/// The last that is said of a part and a supplier.
pub open spec fn latest_cost(rows: Seq<SupplyEntry>, partkey: i64, suppkey: i64) -> Option<
    SupplyInfo<Amount>,
>
    decreases rows.len(),
{
    if rows.len() == 0 {
        None
    } else if rows.last().0 == (partkey, suppkey) {
        Some(rows.last().1)
    } else {
        latest_cost(rows.drop_last(), partkey, suppkey)
    }
}

/// Whether costs hold, for each part and supplier, the last that rows say.
pub open spec fn holds_latest(costs: SupplyCosts<Amount>, rows: Seq<SupplyEntry>) -> bool {
    forall|partkey: i64, suppkey: i64| #[trigger]
        costs.entry(partkey, suppkey) == latest_cost(rows, partkey, suppkey)
}

/// What the rows of a batch say of the costs of parts.
pub open spec fn batch_costs(
    batch: RecordBatch,
    part_keys: Set<i64>,
    supplier_nations: Map<i64, i64>,
) -> spec_fn(int) -> Step<SupplyEntry> {
    supply_cost_steps(
        batch.column_named("ps_partkey"@),
        batch.column_named("ps_suppkey"@),
        batch.column_named("ps_supplycost"@),
        part_keys,
        supplier_nations,
    )
}

/// What the rows of batches say of the costs of parts, in order.
pub open spec fn all_costs(
    batches: Seq<RecordBatch>,
    part_keys: Set<i64>,
    supplier_nations: Map<i64, i64>,
) -> Seq<SupplyEntry>
    decreases batches.len(),
{
    if batches.len() == 0 {
        Seq::empty()
    } else {
        all_costs(batches.drop_last(), part_keys, supplier_nations) + gathered(
            batch_costs(batches.last(), part_keys, supplier_nations),
            batches.last().num_rows as int,
        ).0
    }
}

/// Whether the costs of a batch can be read.
pub open spec fn costs_readable(
    batch: RecordBatch,
    part_keys: Set<i64>,
    supplier_nations: Map<i64, i64>,
) -> bool {
    &&& all_met(batch, supply_cost_columns())
    &&& gathered(
        batch_costs(batch, part_keys, supplier_nations),
        batch.num_rows as int,
    ).1 is None
}

/// Whether a batch is the first whose costs cannot be read, for the reason given.
pub open spec fn costs_fail_at(
    batches: Seq<RecordBatch>,
    part_keys: Set<i64>,
    supplier_nations: Map<i64, i64>,
    index: int,
    error: SqlError,
) -> bool {
    &&& 0 <= index < batches.len()
    &&& !costs_readable(batches[index], part_keys, supplier_nations)
    &&& scanned(
        batches[index],
        supply_cost_columns(),
        batch_costs(batches[index], part_keys, supplier_nations),
        Err::<Vec<SupplyEntry>, SqlError>(error),
    )
    &&& forall|earlier: int|
        0 <= earlier < index ==> costs_readable(
            #[trigger] batches[earlier],
            part_keys,
            supplier_nations,
        )
}

/// Stores what rows say of the costs of parts.
fn store_costs(
    rows: &[SupplyEntry],
    costs: &mut SupplyCosts<Amount>,
    Ghost(said): Ghost<Seq<SupplyEntry>>,
)
    requires
        old(costs).well_formed(),
        holds_latest(*old(costs), said),
    ensures
        final(costs).well_formed(),
        holds_latest(*final(costs), said + rows@),
{
    let mut index: usize = 0;
    assert(said + rows@.take(0) =~= said);
    while index < rows.len()
        invariant
            index <= rows@.len(),
            costs.well_formed(),
            holds_latest(*costs, said + rows@.take(index as int)),
        decreases rows@.len() - index,
    {
        let ((partkey, suppkey), info): SupplyEntry = rows[index];
        let ghost before = *costs;
        costs.insert(partkey, suppkey, info);
        proof {
            let longer = said + rows@.take(index + 1);
            assert(longer.drop_last() =~= said + rows@.take(index as int));
            assert(longer.last() == rows@[index as int]);
            assert forall|part: i64, supplier: i64| #[trigger]
                costs.entry(part, supplier) == latest_cost(longer, part, supplier) by {
                assert(before.entry(part, supplier) == latest_cost(
                    said + rows@.take(index as int),
                    part,
                    supplier,
                ));
            }
        }
        index += 1;
    }
    assert(rows@.take(index as int) =~= rows@);
}

/// What each supplier asks for each part that is wanted. What is said later counts.
pub fn supply_costs(
    batches: &[RecordBatch],
    part_keys: &AdaptiveI64Set,
    supplier_nations: &AdaptiveI64Map<i64>,
) -> (result: SqlResult<SupplyCosts<Amount>>)
    requires
        forall|index: int| 0 <= index < batches@.len() ==> (#[trigger] batches@[index]).well_formed(),
    ensures
        match result {
            Ok(costs) => {
                &&& costs.well_formed()
                &&& forall|index: int|
                    0 <= index < batches@.len() ==> costs_readable(
                        #[trigger] batches@[index],
                        part_keys@,
                        supplier_nations@,
                    )
                &&& holds_latest(costs, all_costs(batches@, part_keys@, supplier_nations@))
            },
            Err(error) => exists|index: int| #[trigger]
                costs_fail_at(batches@, part_keys@, supplier_nations@, index, error),
        },
{
    let mut costs: SupplyCosts<Amount> = SupplyCosts::new();
    let mut index: usize = 0;
    assert(batches@.take(0) =~= Seq::empty());
    while index < batches.len()
        invariant
            forall|index: int|
                0 <= index < batches@.len() ==> (#[trigger] batches@[index]).well_formed(),
            index <= batches@.len(),
            costs.well_formed(),
            forall|earlier: int|
                0 <= earlier < index ==> costs_readable(
                    #[trigger] batches@[earlier],
                    part_keys@,
                    supplier_nations@,
                ),
            holds_latest(
                costs,
                all_costs(batches@.take(index as int), part_keys@, supplier_nations@),
            ),
        decreases batches@.len() - index,
    {
        match supply_cost_rows_batch(&batches[index], part_keys, supplier_nations) {
            Ok(rows) => {
                store_costs(
                    rows.as_slice(),
                    &mut costs,
                    Ghost(all_costs(batches@.take(index as int), part_keys@, supplier_nations@)),
                );
                assert(batches@.take(index + 1).drop_last() =~= batches@.take(index as int));
            },
            Err(error) => {
                assert(costs_fail_at(
                    batches@,
                    part_keys@,
                    supplier_nations@,
                    index as int,
                    error,
                ));
                return Err(error);
            },
        }
        index += 1;
    }
    assert(batches@.take(index as int) =~= batches@);
    Ok(costs)
}

} // verus!
