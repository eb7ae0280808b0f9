//! Columns of one type read as a whole give what reading rows one by one gives.

use vstd::prelude::*;
use crate::batch_rows::{nation_revenue_steps, pricing_row_steps, returned_revenue_steps, PricedRow};
use crate::columns::{ColumnArray, ColumnData, Vector};
use crate::discounted_revenue::{answered_terms, keyed, term_at, DecimalUnits, KeyedTerm};
use crate::late_selection::{returned_customers, shared_nations};
use crate::pricing_summary::PricingColumns;
use crate::profit::{batch_stages, counting_rows, ProfitHit, ProfitKeys, ProfitStage, SupplyCosts};
use crate::profit_batch::{profit_entry_steps, ProfitEntry};
use crate::row_scan::{gathered, Amount, Step};

verus! {

/// Whether a column holds the given integers.
pub open spec fn holds_integers(column: ColumnArray, values: Vector<i64>) -> bool {
    column.data == ColumnData::Int64(values)
}

/// Whether a column holds the given decimals, in units of a scale.
pub open spec fn holds_units(column: ColumnArray, units: DecimalUnits, scale: i8) -> bool {
    match column.data {
        ColumnData::Decimal128 { values, scale: own } => units == DecimalUnits::Wide(&values) && own
            == scale,
        ColumnData::DecimalInt64 { units: narrow, scale: own } => units == DecimalUnits::Narrow(
            &narrow,
        ) && own == scale,
        _ => false,
    }
}

/// A decimal by its units.
pub open spec fn decimal(units: i128, scale: i8) -> Amount {
    Amount::Decimal { units, scale }
}

/// Revenue by key, as amounts.
pub open spec fn as_amounts(terms: Seq<KeyedTerm>, price_scale: i8, discount_scale: i8) -> Seq<
    (i64, (Amount, Amount)),
> {
    terms.map_values(
        |term: KeyedTerm|
            (
                term.0,
                (decimal(term.1.price, price_scale), decimal(term.1.discount, discount_scale)),
            ),
    )
}

/// What reading a row comes to that has the given answer and revenue.
pub open spec fn answered_step(
    answer: Option<i64>,
    prices: DecimalUnits,
    discounts: DecimalUnits,
    price_scale: i8,
    discount_scale: i8,
    row: int,
) -> Step<(i64, (Amount, Amount))> {
    match (answer, term_at(prices, discounts, row)) {
        (Some(key), Some(term)) => Step::Keep(
            (key, (decimal(term.price, price_scale), decimal(term.discount, discount_scale))),
        ),
        _ => Step::Skip,
    }
}

proof fn lemma_answers_gathered(
    steps: spec_fn(int) -> Step<(i64, (Amount, Amount))>,
    answers: Seq<Option<i64>>,
    prices: DecimalUnits,
    discounts: DecimalUnits,
    price_scale: i8,
    discount_scale: i8,
)
    requires
        forall|row: int|
            0 <= row < answers.len() ==> #[trigger] steps(row) == answered_step(
                answers[row],
                prices,
                discounts,
                price_scale,
                discount_scale,
                row,
            ),
    ensures
        gathered(steps, answers.len() as int) == (
            as_amounts(
                keyed(answered_terms(answers, prices, discounts)),
                price_scale,
                discount_scale,
            ),
            None::<Seq<char>>,
        ),
    decreases answers.len(),
{
    let terms = keyed(answered_terms(answers, prices, discounts));
    if answers.len() > 0 {
        let shorter = answers.drop_last();
        let row = answers.len() - 1;
        assert forall|earlier: int| 0 <= earlier < shorter.len() implies #[trigger] steps(earlier)
            == answered_step(
            shorter[earlier],
            prices,
            discounts,
            price_scale,
            discount_scale,
            earlier,
        ) by {
            assert(shorter[earlier] == answers[earlier]);
        }
        lemma_answers_gathered(steps, shorter, prices, discounts, price_scale, discount_scale);
        let earlier = keyed(answered_terms(shorter, prices, discounts));
        assert(steps(row) == answered_step(
            answers[row],
            prices,
            discounts,
            price_scale,
            discount_scale,
            row,
        ));
        match (answers.last(), term_at(prices, discounts, row)) {
            (Some(key), Some(term)) => {
                assert(terms =~= earlier.push((key, term)));
                assert(as_amounts(terms, price_scale, discount_scale) =~= as_amounts(
                    earlier,
                    price_scale,
                    discount_scale,
                ).push(
                    (
                        key,
                        (
                            decimal(term.price, price_scale),
                            decimal(term.discount, discount_scale),
                        ),
                    ),
                ));
            },
            _ => {
                assert(terms =~= earlier);
            },
        }
    } else {
        assert(as_amounts(terms, price_scale, discount_scale) =~= Seq::empty());
    }
}

/// The revenue by nation of columns read as a whole is that of their rows.
pub proof fn law_nation_revenue_by_column(
    orderkeys: ColumnArray,
    suppkeys: ColumnArray,
    extendedprices: ColumnArray,
    discounts: ColumnArray,
    orders: Vector<i64>,
    suppliers: Vector<i64>,
    prices: DecimalUnits,
    shares: DecimalUnits,
    price_scale: i8,
    discount_scale: i8,
    order_customer_nations: Map<i64, i64>,
    supplier_nations: Map<i64, i64>,
)
    requires
        holds_integers(orderkeys, orders),
        holds_integers(suppkeys, suppliers),
        holds_units(extendedprices, prices, price_scale),
        holds_units(discounts, shares, discount_scale),
        orders@.len() == suppliers@.len(),
        prices.rows() == orders@.len(),
        shares.rows() == orders@.len(),
    ensures
        gathered(
            nation_revenue_steps(
                orderkeys,
                suppkeys,
                extendedprices,
                discounts,
                order_customer_nations,
                supplier_nations,
            ),
            orders@.len() as int,
        ) == (
            as_amounts(
                keyed(
                    answered_terms(
                        shared_nations(
                            orders,
                            suppliers,
                            order_customer_nations,
                            supplier_nations,
                        ),
                        prices,
                        shares,
                    ),
                ),
                price_scale,
                discount_scale,
            ),
            None::<Seq<char>>,
        ),
{
    let steps = nation_revenue_steps(
        orderkeys,
        suppkeys,
        extendedprices,
        discounts,
        order_customer_nations,
        supplier_nations,
    );
    let answers = shared_nations(orders, suppliers, order_customer_nations, supplier_nations);
    assert forall|row: int| 0 <= row < answers.len() implies #[trigger] steps(row) == answered_step(
        answers[row],
        prices,
        shares,
        price_scale,
        discount_scale,
        row,
    ) by {
        assert(orders@[row] == orders.cell(row));
        assert(suppliers@[row] == suppliers.cell(row));
    }
    lemma_answers_gathered(steps, answers, prices, shares, price_scale, discount_scale);
}

/// The revenue of returned orders of columns read as a whole is that of their rows.
pub proof fn law_returned_revenue_by_column(
    orderkeys: ColumnArray,
    returnflags: ColumnArray,
    extendedprices: ColumnArray,
    discounts: ColumnArray,
    orders: Vector<i64>,
    flags: Vector<String>,
    prices: DecimalUnits,
    shares: DecimalUnits,
    price_scale: i8,
    discount_scale: i8,
    order_customers: Map<i64, i64>,
)
    requires
        holds_integers(orderkeys, orders),
        returnflags.data == ColumnData::Utf8(flags),
        holds_units(extendedprices, prices, price_scale),
        holds_units(discounts, shares, discount_scale),
        orders@.len() == flags@.len(),
        prices.rows() == orders@.len(),
        shares.rows() == orders@.len(),
    ensures
        gathered(
            returned_revenue_steps(
                orderkeys,
                returnflags,
                extendedprices,
                discounts,
                order_customers,
            ),
            orders@.len() as int,
        ) == (
            as_amounts(
                keyed(
                    answered_terms(
                        returned_customers(orders, flags, order_customers),
                        prices,
                        shares,
                    ),
                ),
                price_scale,
                discount_scale,
            ),
            None::<Seq<char>>,
        ),
{
    let steps = returned_revenue_steps(
        orderkeys,
        returnflags,
        extendedprices,
        discounts,
        order_customers,
    );
    let answers = returned_customers(orders, flags, order_customers);
    assert forall|row: int| 0 <= row < answers.len() implies #[trigger] steps(row) == answered_step(
        answers[row],
        prices,
        shares,
        price_scale,
        discount_scale,
        row,
    ) by {
        assert(orders@[row] == orders.cell(row));
    }
    lemma_answers_gathered(steps, answers, prices, shares, price_scale, discount_scale);
}

/// The amounts that the profit of a row is computed from.
#[derive(Clone, Copy)]
pub struct ProfitAmounts<'a> {
    pub quantities: DecimalUnits<'a>,
    pub extendedprices: DecimalUnits<'a>,
    pub discounts: DecimalUnits<'a>,
    pub scales: (i8, i8, i8),
}

impl<'a> ProfitAmounts<'a> {
    /// Whether the amounts are in order and as many as the rows.
    pub open spec fn well_formed(self, rows: int) -> bool {
        &&& self.quantities.well_formed() && self.quantities.rows() == rows
        &&& self.extendedprices.well_formed() && self.extendedprices.rows() == rows
        &&& self.discounts.well_formed() && self.discounts.rows() == rows
    }

    /// Whether a row has every amount.
    pub open spec fn there(self, row: int) -> bool {
        self.quantities.at(row) is Some && self.extendedprices.at(row) is Some
            && self.discounts.at(row) is Some
    }

    /// A row that counts, with its amounts.
    pub open spec fn entry(self, hit: ProfitHit<Amount>) -> ProfitEntry {
        let row = hit.row as int;
        ProfitEntry {
            nationkey: hit.nationkey,
            year: hit.year,
            supplycost: hit.supplycost,
            quantity: decimal(self.quantities.at(row)->0 as i128, self.scales.0),
            extendedprice: decimal(self.extendedprices.at(row)->0 as i128, self.scales.1),
            discount: decimal(self.discounts.at(row)->0 as i128, self.scales.2),
        }
    }

    /// Rows that count, with their amounts.
    pub open spec fn entries(self, hits: Seq<ProfitHit<Amount>>) -> Seq<ProfitEntry> {
        hits.map_values(|hit: ProfitHit<Amount>| self.entry(hit))
    }
}

/// What reading a row for the profit comes to that gets as far as the given stage.
pub open spec fn staged_step(
    stage: ProfitStage<Amount>,
    amounts: ProfitAmounts,
    row: int,
) -> Step<ProfitEntry> {
    match stage {
        ProfitStage::Counts { nationkey, year, supplycost } => Step::Keep(
            amounts.entry(ProfitHit { row: row as usize, nationkey, year, supplycost }),
        ),
        _ => Step::Skip,
    }
}

proof fn lemma_stages_gathered(
    steps: spec_fn(int) -> Step<ProfitEntry>,
    stages: spec_fn(int) -> ProfitStage<Amount>,
    amounts: ProfitAmounts,
    rows: int,
)
    requires
        0 <= rows <= usize::MAX,
        forall|row: int|
            0 <= row < rows ==> #[trigger] steps(row) == staged_step(stages(row), amounts, row),
    ensures
        gathered(steps, rows) == (
            amounts.entries(counting_rows(stages, rows)),
            None::<Seq<char>>,
        ),
    decreases rows,
{
    let hits = counting_rows(stages, rows);
    if rows > 0 {
        lemma_stages_gathered(steps, stages, amounts, rows - 1);
        let earlier = counting_rows(stages, rows - 1);
        assert(steps(rows - 1) == staged_step(stages(rows - 1), amounts, rows - 1));
        match stages(rows - 1) {
            ProfitStage::Counts { nationkey, year, supplycost } => {
                let hit = ProfitHit { row: (rows - 1) as usize, nationkey, year, supplycost };
                assert(amounts.entries(hits) =~= amounts.entries(earlier).push(amounts.entry(hit)));
            },
            _ => {},
        }
    } else {
        assert(amounts.entries(hits) =~= Seq::empty());
    }
}

/// The rows that count towards profit in columns read as a whole are those that reading
/// rows one by one finds, whether amounts are looked at first or last.
pub proof fn law_profit_by_column(
    columns: (ColumnArray, ColumnArray, ColumnArray, ColumnArray, ColumnArray, ColumnArray),
    keys: ProfitKeys,
    amounts: ProfitAmounts,
    amounts_first: bool,
    part_keys: Set<i64>,
    order_years: Map<i64, i32>,
    supply_costs: SupplyCosts<Amount>,
)
    requires
        keys.aligned(),
        keys.rows() <= usize::MAX,
        holds_integers(columns.0, *keys.orderkeys),
        holds_integers(columns.1, *keys.partkeys),
        holds_integers(columns.2, *keys.suppkeys),
        holds_units(columns.3, amounts.quantities, amounts.scales.0),
        holds_units(columns.4, amounts.extendedprices, amounts.scales.1),
        holds_units(columns.5, amounts.discounts, amounts.scales.2),
        amounts.quantities.rows() == keys.rows(),
        amounts.extendedprices.rows() == keys.rows(),
        amounts.discounts.rows() == keys.rows(),
    ensures
        gathered(
            profit_entry_steps(
                columns.0,
                columns.1,
                columns.2,
                columns.3,
                columns.4,
                columns.5,
                part_keys,
                order_years,
                supply_costs,
            ),
            keys.rows(),
        ) == (
            amounts.entries(
                counting_rows(
                    batch_stages(
                        keys,
                        Seq::new(keys.rows() as nat, |row: int| amounts.there(row)),
                        amounts_first,
                        part_keys,
                        order_years,
                        supply_costs,
                    ),
                    keys.rows(),
                ),
            ),
            None::<Seq<char>>,
        ),
{
    let steps = profit_entry_steps(
        columns.0,
        columns.1,
        columns.2,
        columns.3,
        columns.4,
        columns.5,
        part_keys,
        order_years,
        supply_costs,
    );
    let there = Seq::new(keys.rows() as nat, |row: int| amounts.there(row));
    let stages = batch_stages(keys, there, amounts_first, part_keys, order_years, supply_costs);
    assert forall|row: int| 0 <= row < keys.rows() implies #[trigger] steps(row) == staged_step(
        stages(row),
        amounts,
        row,
    ) by {
        assert(keys.orderkeys@[row] == keys.orderkeys.cell(row));
        assert(keys.partkeys@[row] == keys.partkeys.cell(row));
        assert(keys.suppkeys@[row] == keys.suppkeys.cell(row));
        assert(there[row] == amounts.there(row));
    }
    lemma_stages_gathered(steps, stages, amounts, keys.rows());
}

/// The scales of the amounts of the pricing summary.
#[derive(Clone, Copy)]
pub struct PricingScales {
    pub quantity: i8,
    pub extendedprice: i8,
    pub discount: i8,
    pub tax: i8,
}

/// A row of the pricing summary in columns.
pub open spec fn priced<'a>(
    columns: PricingColumns<'a>,
    scales: PricingScales,
    row: int,
) -> PricedRow<
    'a,
> {
    PricedRow {
        returnflag: &columns.returnflags.values@[row],
        linestatus: &columns.linestatuses.values@[row],
        quantity: decimal(columns.quantities.at(row)->0 as i128, scales.quantity),
        extendedprice: decimal(columns.extendedprices.at(row)->0 as i128, scales.extendedprice),
        discount: decimal(columns.discounts.at(row)->0 as i128, scales.discount),
        tax: decimal(columns.taxes.at(row)->0 as i128, scales.tax),
    }
}

proof fn lemma_priced_gathered<'a>(
    steps: spec_fn(int) -> Step<PricedRow<'a>>,
    columns: PricingColumns<'a>,
    scales: PricingScales,
    cutoff_days: i32,
    rows: int,
)
    requires
        0 <= rows,
        forall|row: int|
            0 <= row < rows ==> #[trigger] steps(row) == (if columns.counts(row, cutoff_days) {
                Step::Keep(priced(columns, scales, row))
            } else {
                Step::Skip
            }),
    ensures
        gathered(steps, rows) == (
            columns.counted(rows, cutoff_days).map_values(|row: int| priced(columns, scales, row)),
            None::<Seq<char>>,
        ),
    decreases rows,
{
    let found = |row: int| priced(columns, scales, row);
    let counted = columns.counted(rows, cutoff_days);
    if rows > 0 {
        lemma_priced_gathered(steps, columns, scales, cutoff_days, rows - 1);
        let earlier = columns.counted(rows - 1, cutoff_days);
        assert(steps(rows - 1) == (if columns.counts(rows - 1, cutoff_days) {
            Step::Keep(priced(columns, scales, rows - 1))
        } else {
            Step::Skip
        }));
        if columns.counts(rows - 1, cutoff_days) {
            assert(counted.map_values(found) =~= earlier.map_values(found).push(found(rows - 1)));
        }
    } else {
        assert(counted.map_values(found) =~= Seq::empty());
    }
}

/// The rows of the pricing summary in columns read as a whole are those that reading rows
/// one by one finds.
pub proof fn law_pricing_rows_by_column<'a>(
    read: (
        ColumnArray,
        ColumnArray,
        ColumnArray,
        ColumnArray,
        ColumnArray,
        ColumnArray,
        ColumnArray,
    ),
    columns: PricingColumns<'a>,
    scales: PricingScales,
    cutoff_days: i32,
)
    requires
        columns.well_formed(),
        read.0.data == ColumnData::Utf8(*columns.returnflags),
        read.1.data == ColumnData::Utf8(*columns.linestatuses),
        holds_units(read.2, columns.quantities, scales.quantity),
        holds_units(read.3, columns.extendedprices, scales.extendedprice),
        holds_units(read.4, columns.discounts, scales.discount),
        holds_units(read.5, columns.taxes, scales.tax),
        read.6.data == ColumnData::Date32(*columns.shipdates),
    ensures
        gathered(
            pricing_row_steps(
                read.0,
                read.1,
                read.2,
                read.3,
                read.4,
                read.5,
                read.6,
                cutoff_days,
            ),
            columns.rows(),
        ) == (
            columns.counted(columns.rows(), cutoff_days).map_values(
                |row: int| priced(columns, scales, row),
            ),
            None::<Seq<char>>,
        ),
{
    let steps = pricing_row_steps(
        read.0,
        read.1,
        read.2,
        read.3,
        read.4,
        read.5,
        read.6,
        cutoff_days,
    );
    assert forall|row: int| 0 <= row < columns.rows() implies #[trigger] steps(row) == (
    if columns.counts(row, cutoff_days) {
        Step::Keep(priced(columns, scales, row))
    } else {
        Step::Skip
    }) by {
        assert(columns.shipdates@[row] == columns.shipdates.cell(row));
    }
    lemma_priced_gathered(steps, columns, scales, cutoff_days, columns.rows());
}

} // verus!
