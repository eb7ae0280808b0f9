//! The profit and the pricing summary of batches whose amounts are decimals.
//!
//! A batch takes part where its columns have the types that are read as a whole; any
//! other batch is left to be read row by row.

use vstd::prelude::*;
use crate::columns::{ColumnArray, ColumnData, Vector};
use crate::discounted_revenue::DecimalUnits;
use crate::order_years::{dense_year, OrderYears};
use crate::pricing_summary::{
    is_term_of, pricing_summary_update_decimal, PricingColumns, PricingGroup,
    PricingSummaryGroupSlots, PricingTerm,
};
use crate::profit::{
    batch_stages, counting_rows, law_amounts_first_or_last, law_packed_dense_finds_the_same,
    lemma_profiles_agree, packed_dense_stages, profiles, profit_packed_dense_rows, profit_rows,
    DenseParts, DenseYears, ProfitKeys, ProfitRows, ProfitStage, SupplyCosts,
};
use crate::tables::{entry_of, AdaptiveI64Set};
use crate::typed_reading::{holds_units, ProfitAmounts};

verus! {

/// Whether a column holds decimals.
pub open spec fn is_decimal(column: ColumnArray) -> bool {
    column.data is Decimal128 || column.data is DecimalInt64
}

/// The units of a column of decimals, with their scale.
pub fn decimal_input(column: &ColumnArray) -> (input: Option<(DecimalUnits<'_>, i8)>)
    ensures
        match input {
            Some((units, scale)) => holds_units(*column, units, scale),
            None => !is_decimal(*column),
        },
        column.well_formed() ==> (input matches Some((units, _)) ==> units.well_formed()
            && units.rows() == column.rows()),
{
    match &column.data {
        ColumnData::Decimal128 { values, scale } => Some((DecimalUnits::Wide(values), *scale)),
        ColumnData::DecimalInt64 { units, scale } => Some((DecimalUnits::Narrow(units), *scale)),
        _ => None,
    }
}

/// Which rows have every amount.
pub open spec fn amounts_there(amounts: ProfitAmounts, rows: int) -> Seq<bool> {
    Seq::new(rows as nat, |row: int| amounts.there(row))
}

/// Which rows have every amount, and whether all have.
fn find_amounts(amounts: &ProfitAmounts<'_>, rows: usize) -> (found: (Vec<bool>, bool))
    requires
        amounts.well_formed(rows as int),
    ensures
        found.0@ == amounts_there(*amounts, rows as int),
        found.1 == forall|row: int| 0 <= row < rows ==> #[trigger] amounts.there(row),
{
    let mut flags: Vec<bool> = Vec::new();
    let mut all = true;
    let mut row: usize = 0;
    while row < rows
        invariant
            amounts.well_formed(rows as int),
            row <= rows,
            flags@ =~= amounts_there(*amounts, row as int),
            all == forall|earlier: int| 0 <= earlier < row ==> #[trigger] amounts.there(earlier),
        decreases rows - row,
    {
        let there = amounts.quantities.get(row).is_some() && amounts.extendedprices.get(
            row,
        ).is_some() && amounts.discounts.get(row).is_some();
        assert(there == amounts.there(row as int));
        if !there {
            all = false;
        }
        flags.push(there);
        row += 1;
    }
    (flags, all)
}

/// Whether rows are those that count, with the counts taken on the way where they are asked
/// for.
pub open spec fn finds_rows<V>(
    found: ProfitRows<V>,
    stages: spec_fn(int) -> ProfitStage<V>,
    rows: int,
    collect_profile: bool,
) -> bool {
    &&& found.hits@ == counting_rows(stages, rows)
    &&& collect_profile ==> profiles(found.profile, stages, rows) && found.profile.rows == rows
}

/// The rows that count, without looking keys up one by one where nothing is missing and
/// parts, years and costs are at hand in flat form.
fn rows_of_columns<V: Copy>(
    keys: &ProfitKeys<'_>,
    amounts: &ProfitAmounts<'_>,
    amounts_first: bool,
    part_keys: &AdaptiveI64Set,
    order_years: &OrderYears,
    supply_costs: &SupplyCosts<V>,
    collect_profile: bool,
) -> (found: ProfitRows<V>)
    requires
        keys.aligned(),
        amounts.well_formed(keys.rows()),
        supply_costs.well_formed(),
    ensures
        finds_rows(
            found,
            batch_stages(
                *keys,
                amounts_there(*amounts, keys.rows()),
                amounts_first,
                part_keys@,
                order_years@,
                *supply_costs,
            ),
            keys.rows(),
            collect_profile,
        ),
{
    let (flags, all) = find_amounts(amounts, keys.orderkeys.len());
    if all {
        match (
            keys.orderkeys.values_if_null_free(),
            keys.partkeys.values_if_null_free(),
            keys.suppkeys.values_if_null_free(),
            part_keys.dense_contains_slice(),
            order_years,
            supply_costs.packed_costs(),
        ) {
            (
                Some(orders),
                Some(parts),
                Some(suppliers),
                Some(present),
                OrderYears::Dense { values, base_key, missing },
                Some(costs),
            ) => {
                let flat_parts = DenseParts { flags: present, words: None };
                let flat_years = DenseYears {
                    values: values.as_slice(),
                    base_key: *base_key,
                    missing: *missing,
                };
                let found = profit_packed_dense_rows(
                    orders.as_slice(),
                    parts.as_slice(),
                    suppliers.as_slice(),
                    &flat_parts,
                    &flat_years,
                    costs,
                    collect_profile,
                );
                proof {
                    let whole = Seq::new(keys.rows() as nat, |row: int| true);
                    assert forall|key: i64| #[trigger]
                        dense_year(
                            flat_years.values@,
                            flat_years.base_key,
                            flat_years.missing,
                            key,
                        ) == entry_of(order_years@, key) by {}
                    law_packed_dense_finds_the_same(
                        *keys,
                        whole,
                        flat_parts,
                        flat_years,
                        part_keys@,
                        order_years@,
                        *supply_costs,
                        costs@,
                    );
                    assert(flags@ =~= whole);
                    let flat = packed_dense_stages(
                        orders@,
                        parts@,
                        suppliers@,
                        flat_parts,
                        flat_years,
                        costs@,
                    );
                    let stages = batch_stages(
                        *keys,
                        flags@,
                        amounts_first,
                        part_keys@,
                        order_years@,
                        *supply_costs,
                    );
                    let first = batch_stages(
                        *keys,
                        flags@,
                        true,
                        part_keys@,
                        order_years@,
                        *supply_costs,
                    );
                    assert forall|row: int| 0 <= row < keys.rows() implies #[trigger] flat(row)
                        == stages(row) by {
                        assert(first(row) == stages(row));
                    }
                    lemma_profiles_agree(found.profile, flat, stages, keys.rows());
                    law_amounts_first_or_last(
                        *keys,
                        flags@,
                        part_keys@,
                        order_years@,
                        *supply_costs,
                        keys.rows(),
                    );
                }
                return found;
            },
            _ => {},
        }
    }
    profit_rows(
        keys,
        flags.as_slice(),
        amounts_first,
        part_keys,
        order_years,
        supply_costs,
        collect_profile,
    )
}

/// The rows of a view that count towards profit. Amounts are looked at last.
pub fn profit_decimal_view<V: Copy>(
    keys: &ProfitKeys<'_>,
    amounts: &ProfitAmounts<'_>,
    part_keys: &AdaptiveI64Set,
    order_years: &OrderYears,
    supply_costs: &SupplyCosts<V>,
    collect_profile: bool,
) -> (found: ProfitRows<V>)
    requires
        keys.aligned(),
        amounts.well_formed(keys.rows()),
        supply_costs.well_formed(),
    ensures
        finds_rows(
            found,
            batch_stages(
                *keys,
                amounts_there(*amounts, keys.rows()),
                false,
                part_keys@,
                order_years@,
                *supply_costs,
            ),
            keys.rows(),
            collect_profile,
        ),
{
    rows_of_columns(keys, amounts, false, part_keys, order_years, supply_costs, collect_profile)
}

/// The columns that the profit of a batch is computed from.
#[derive(Clone, Copy)]
pub struct ProfitColumns<'a> {
    pub orderkeys: &'a ColumnArray,
    pub partkeys: &'a ColumnArray,
    pub suppkeys: &'a ColumnArray,
    pub quantities: &'a ColumnArray,
    pub extendedprices: &'a ColumnArray,
    pub discounts: &'a ColumnArray,
}

impl<'a> ProfitColumns<'a> {
    /// Whether the columns are in order and of one length.
    pub open spec fn well_formed(self) -> bool {
        let rows = self.orderkeys.rows();
        &&& self.orderkeys.well_formed()
        &&& self.partkeys.well_formed() && self.partkeys.rows() == rows
        &&& self.suppkeys.well_formed() && self.suppkeys.rows() == rows
        &&& self.quantities.well_formed() && self.quantities.rows() == rows
        &&& self.extendedprices.well_formed() && self.extendedprices.rows() == rows
        &&& self.discounts.well_formed() && self.discounts.rows() == rows
    }

    /// Whether the columns are read as a whole: keys are integers and amounts decimals.
    pub open spec fn typed(self) -> bool {
        &&& self.orderkeys.data is Int64
        &&& self.partkeys.data is Int64
        &&& self.suppkeys.data is Int64
        &&& is_decimal(*self.quantities)
        &&& is_decimal(*self.extendedprices)
        &&& is_decimal(*self.discounts)
    }

    /// Whether keys and amounts are what the columns hold.
    pub open spec fn hold(self, keys: ProfitKeys, amounts: ProfitAmounts) -> bool {
        &&& self.orderkeys.data == ColumnData::Int64(*keys.orderkeys)
        &&& self.partkeys.data == ColumnData::Int64(*keys.partkeys)
        &&& self.suppkeys.data == ColumnData::Int64(*keys.suppkeys)
        &&& holds_units(*self.quantities, amounts.quantities, amounts.scales.0)
        &&& holds_units(*self.extendedprices, amounts.extendedprices, amounts.scales.1)
        &&& holds_units(*self.discounts, amounts.discounts, amounts.scales.2)
    }
}

/// The keys and amounts that columns hold, where they are read as a whole.
pub fn typed_profit_columns<'a>(columns: &ProfitColumns<'a>) -> (typed: Option<
    (ProfitKeys<'a>, ProfitAmounts<'a>),
>)
    requires
        columns.well_formed(),
    ensures
        typed.is_some() == columns.typed(),
        typed matches Some((keys, amounts)) ==> columns.hold(keys, amounts) && keys.aligned()
            && amounts.well_formed(keys.rows()) && keys.rows() == columns.orderkeys.rows(),
{
    match (
        &columns.orderkeys.data,
        &columns.partkeys.data,
        &columns.suppkeys.data,
        decimal_input(columns.quantities),
        decimal_input(columns.extendedprices),
        decimal_input(columns.discounts),
    ) {
        (
            ColumnData::Int64(orderkeys),
            ColumnData::Int64(partkeys),
            ColumnData::Int64(suppkeys),
            Some((quantities, quantity_scale)),
            Some((extendedprices, price_scale)),
            Some((discounts, discount_scale)),
        ) => Some(
            (
                ProfitKeys { orderkeys, partkeys, suppkeys },
                ProfitAmounts {
                    quantities,
                    extendedprices,
                    discounts,
                    scales: (quantity_scale, price_scale, discount_scale),
                },
            ),
        ),
        _ => None,
    }
}

/// The rows of a batch that count towards profit, `None` where its columns are not read as
/// a whole. Amounts are looked at first.
pub fn profit_decimal_batch<V: Copy>(
    columns: &ProfitColumns<'_>,
    part_keys: &AdaptiveI64Set,
    order_years: &OrderYears,
    supply_costs: &SupplyCosts<V>,
    collect_profile: bool,
) -> (found: Option<ProfitRows<V>>)
    requires
        columns.well_formed(),
        supply_costs.well_formed(),
    ensures
        found.is_some() == columns.typed(),
        found matches Some(found) ==> forall|keys: ProfitKeys, amounts: ProfitAmounts| #[trigger]
            columns.hold(keys, amounts) ==> finds_rows(
                found,
                batch_stages(
                    keys,
                    amounts_there(amounts, keys.rows()),
                    true,
                    part_keys@,
                    order_years@,
                    *supply_costs,
                ),
                keys.rows(),
                collect_profile,
            ),
{
    match typed_profit_columns(columns) {
        None => None,
        Some((keys, amounts)) => Some(
            rows_of_columns(
                &keys,
                &amounts,
                true,
                part_keys,
                order_years,
                supply_costs,
                collect_profile,
            ),
        ),
    }
}

/// A batch and a view of the same columns give the same rows, and so the same groups. A
/// batch gives rows only where its keys are integers.
pub proof fn law_batch_and_view_profit_agree<V>(
    columns: ProfitColumns,
    keys: ProfitKeys,
    amounts: ProfitAmounts,
    part_keys: Set<i64>,
    order_years: Map<i64, i32>,
    supply_costs: SupplyCosts<V>,
    batch: ProfitRows<V>,
    view: ProfitRows<V>,
)
    requires
        columns.hold(keys, amounts),
        finds_rows(
            batch,
            batch_stages(
                keys,
                amounts_there(amounts, keys.rows()),
                true,
                part_keys,
                order_years,
                supply_costs,
            ),
            keys.rows(),
            false,
        ),
        finds_rows(
            view,
            batch_stages(
                keys,
                amounts_there(amounts, keys.rows()),
                false,
                part_keys,
                order_years,
                supply_costs,
            ),
            keys.rows(),
            false,
        ),
    ensures
        batch.hits@ == view.hits@,
        columns.typed(),
{
    law_amounts_first_or_last(
        keys,
        amounts_there(amounts, keys.rows()),
        part_keys,
        order_years,
        supply_costs,
        keys.rows(),
    );
}

/// The columns that the pricing summary of a batch is computed from.
#[derive(Clone, Copy)]
pub struct PricingBatch<'a> {
    pub returnflags: &'a Vector<String>,
    pub linestatuses: &'a Vector<String>,
    pub quantities: &'a ColumnArray,
    pub extendedprices: &'a ColumnArray,
    pub discounts: &'a ColumnArray,
    pub taxes: &'a ColumnArray,
    pub shipdates: &'a ColumnArray,
}

impl<'a> PricingBatch<'a> {
    /// Whether the columns are in order and of one length.
    pub open spec fn well_formed(self) -> bool {
        let rows = self.shipdates.rows();
        &&& self.shipdates.well_formed()
        &&& self.returnflags.well_formed() && self.returnflags@.len() == rows
        &&& self.linestatuses.well_formed() && self.linestatuses@.len() == rows
        &&& self.quantities.well_formed() && self.quantities.rows() == rows
        &&& self.extendedprices.well_formed() && self.extendedprices.rows() == rows
        &&& self.discounts.well_formed() && self.discounts.rows() == rows
        &&& self.taxes.well_formed() && self.taxes.rows() == rows
    }

    /// Whether the columns are read as a whole: amounts are decimals and dates days.
    pub open spec fn typed(self) -> bool {
        &&& is_decimal(*self.quantities)
        &&& is_decimal(*self.extendedprices)
        &&& is_decimal(*self.discounts)
        &&& is_decimal(*self.taxes)
        &&& self.shipdates.data is Date32
    }

    /// The columns as they are read as a whole.
    pub open spec fn columns(self) -> PricingColumns<'a> {
        PricingColumns {
            returnflags: self.returnflags,
            linestatuses: self.linestatuses,
            quantities: units_in(self.quantities),
            extendedprices: units_in(self.extendedprices),
            discounts: units_in(self.discounts),
            taxes: units_in(self.taxes),
            shipdates: match &self.shipdates.data {
                ColumnData::Date32(days) => days,
                _ => arbitrary(),
            },
        }
    }
}

/// The units of a column of decimals.
pub open spec fn units_in<'a>(column: &'a ColumnArray) -> DecimalUnits<'a> {
    match &column.data {
        ColumnData::Decimal128 { values, .. } => DecimalUnits::Wide(values),
        ColumnData::DecimalInt64 { units, .. } => DecimalUnits::Narrow(units),
        _ => arbitrary(),
    }
}

/// Counts the rows of a batch in their groups and gives the rows that count, `None` where
/// its columns are not read as a whole; the groups then stay as they are.
pub fn pricing_summary_update_decimal_batch(
    batch: &PricingBatch<'_>,
    cutoff_days: i32,
    groups: &mut PricingSummaryGroupSlots,
) -> (terms: Option<Vec<PricingTerm>>)
    requires
        batch.well_formed(),
        old(groups).well_formed(),
        batch.typed() ==> forall|group: PricingGroup| #[trigger]
            old(groups).count_of(group) + batch.columns().group_count(
                batch.columns().rows(),
                cutoff_days,
                group,
            ) <= u64::MAX,
    ensures
        terms.is_some() == batch.typed(),
        terms is None ==> *final(groups) == *old(groups),
        final(groups).well_formed(),
        old(groups).settled() ==> final(groups).settled(),
        terms matches Some(terms) ==> {
            let columns = batch.columns();
            let counted = columns.counted(columns.rows(), cutoff_days);
            &&& final(groups).extends(*old(groups))
            &&& forall|group: PricingGroup| #[trigger]
                final(groups).count_of(group) == old(groups).count_of(group) + columns.group_count(
                    columns.rows(),
                    cutoff_days,
                    group,
                )
            &&& forall|group: PricingGroup| #[trigger]
                final(groups).held().contains(group) <==> old(groups).held().contains(group)
                    || columns.counts_group(cutoff_days, group)
            &&& terms@.len() == counted.len()
            &&& forall|index: int|
                0 <= index < terms@.len() ==> is_term_of(
                    #[trigger] terms@[index],
                    columns,
                    counted[index],
                    *final(groups),
                )
        },
{
    match (
        decimal_input(batch.quantities),
        decimal_input(batch.extendedprices),
        decimal_input(batch.discounts),
        decimal_input(batch.taxes),
        &batch.shipdates.data,
    ) {
        (
            Some((quantities, _)),
            Some((extendedprices, _)),
            Some((discounts, _)),
            Some((taxes, _)),
            ColumnData::Date32(shipdates),
        ) => {
            let columns = PricingColumns {
                returnflags: batch.returnflags,
                linestatuses: batch.linestatuses,
                quantities,
                extendedprices,
                discounts,
                taxes,
                shipdates,
            };
            assert(columns == batch.columns());
            Some(pricing_summary_update_decimal(&columns, cutoff_days, groups))
        },
        _ => None,
    }
}

} // verus!
