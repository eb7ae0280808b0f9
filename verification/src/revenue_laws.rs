//! Which rows revenue and quantities are read from, said over the values of the rows.

use vstd::prelude::*;
use crate::calendar::{day_number, days_before_month};
use crate::columns::Vector;
use crate::dense_sums::{raw_revenue, RevenueRows};
use crate::discounted_revenue::{
    answered_terms, flags_in_dates, keys_in_dates, term_at, terms_at_offsets, DecimalUnits,
    RevenueTerm,
};
use crate::late_payload::{quantity_payload, CustomerPayload};
use crate::late_selection::{keys_in_set, returned_customers, shared_nations, shipped_parts};
use crate::row_laws::{lemma_listed_rows, listed};
use crate::scan_laws::rows_in_order;

verus! {

/// The units that a row of decimals holds, if it is not null.
pub open spec fn units_in(column: DecimalUnits, row: int) -> Option<int> {
    match column {
        DecimalUnits::Wide(vector) => if vector.valid_at(row) {
            Some(vector.values@[row] as int)
        } else {
            None
        },
        DecimalUnits::Narrow(vector) => if vector.valid_at(row) {
            Some(vector.values@[row] as int)
        } else {
            None
        },
    }
}

/// Revenue is the price times what the discount leaves of one: all of it without a discount,
/// nothing at a full discount, and the price less its discounted part in between.
pub proof fn law_revenue_of_term(term: RevenueTerm, one: int)
    ensures
        term.revenue(one) == term.price * one - term.price * term.discount,
        term.discount == 0 ==> term.revenue(one) == term.price * one,
        term.discount == one ==> term.revenue(one) == 0,
{
    let price = term.price as int;
    let discount = term.discount as int;
    assert(price * (one - discount) == price * one - price * discount) by (nonlinear_arith);
    if discount == 0 {
        assert(price * 0 == 0) by (nonlinear_arith);
    }
}

/// Revenue in units is the price less its discounted part.
pub proof fn law_raw_revenue(price: i64, discount: i64, one: i64)
    ensures
        raw_revenue(price, discount, one) == price * one - price * discount,
        discount == one ==> raw_revenue(price, discount, one) == 0,
{
    let (first, second, third) = (price as int, discount as int, one as int);
    assert(first * (third - second) == first * third - first * second) by (nonlinear_arith);
}

/// The price and the discount of a row are those of its own columns, and are there exactly
/// where neither is null.
pub proof fn law_term_at(prices: DecimalUnits, discounts: DecimalUnits, row: int)
    requires
        0 <= row < prices.rows(),
        row < discounts.rows(),
    ensures
        term_at(prices, discounts, row) is Some <==> units_in(prices, row) is Some && units_in(
            discounts,
            row,
        ) is Some,
        term_at(prices, discounts, row) matches Some(term) ==> units_in(prices, row) == Some(
            term.price as int,
        ) && units_in(discounts, row) == Some(term.discount as int),
{
}

proof fn lemma_answered_listed<T>(
    answers: Seq<Option<T>>,
    prices: DecimalUnits,
    discounts: DecimalUnits,
    told: spec_fn(int) -> Option<(usize, T, RevenueTerm)>,
)
    requires
        forall|row: int|
            0 <= row < answers.len() ==> #[trigger] told(row) == (match (
                answers[row],
                term_at(prices, discounts, row),
            ) {
                (Some(payload), Some(term)) => Some((row as usize, payload, term)),
                _ => None,
            }),
    ensures
        answered_terms(answers, prices, discounts) == listed(told, answers.len() as int),
    decreases answers.len(),
{
    if answers.len() > 0 {
        let shorter = answers.drop_last();
        assert forall|row: int| 0 <= row < shorter.len() implies #[trigger] told(row) == (match (
            shorter[row],
            term_at(prices, discounts, row),
        ) {
            (Some(payload), Some(term)) => Some((row as usize, payload, term)),
            _ => None,
        }) by {
            assert(shorter[row] == answers[row]);
        }
        lemma_answered_listed(shorter, prices, discounts, told);
        assert(told(answers.len() - 1) is Some || told(answers.len() - 1) is None);
    }
}

/// Revenue is read from the rows that have an answer, a price and a discount, and from no
/// other: each with its own number, answer, price and discount.
pub proof fn law_answered_revenue<T>(
    answers: Seq<Option<T>>,
    prices: DecimalUnits,
    discounts: DecimalUnits,
) -> (rows: Seq<int>)
    requires
        prices.rows() >= answers.len(),
        discounts.rows() >= answers.len(),
        answers.len() <= usize::MAX,
    ensures
        rows_in_order(rows, answers.len() as int),
        rows.len() == answered_terms(answers, prices, discounts).len(),
        forall|row: int|
            0 <= row < answers.len() ==> (#[trigger] rows.contains(row) <==> answers[row] is Some
                && units_in(prices, row) is Some && units_in(discounts, row) is Some),
        forall|place: int|
            0 <= place < rows.len() ==> {
                let found = #[trigger] answered_terms(answers, prices, discounts)[place];
                let row = rows[place];
                &&& found.0 == row
                &&& answers[row] == Some(found.1)
                &&& units_in(prices, row) == Some(found.2.price as int)
                &&& units_in(discounts, row) == Some(found.2.discount as int)
            },
{
    let told = |row: int|
        match (answers[row], term_at(prices, discounts, row)) {
            (Some(payload), Some(term)) => Some((row as usize, payload, term)),
            _ => None,
        };
    lemma_answered_listed(answers, prices, discounts, told);
    let rows = lemma_listed_rows(told, answers.len() as int);
    assert forall|row: int| 0 <= row < answers.len() implies (#[trigger] rows.contains(row)
        <==> answers[row] is Some && units_in(prices, row) is Some && units_in(
        discounts,
        row,
    ) is Some) by {
        assert(rows.contains(row) <==> told(row) is Some);
        law_term_at(prices, discounts, row);
    }
    assert forall|place: int| 0 <= place < rows.len() implies {
        let found = #[trigger] answered_terms(answers, prices, discounts)[place];
        let row = rows[place];
        &&& found.0 == row
        &&& answers[row] == Some(found.1)
        &&& units_in(prices, row) == Some(found.2.price as int)
        &&& units_in(discounts, row) == Some(found.2.discount as int)
    } by {
        let row = rows[place];
        assert(told(row) == Some(answered_terms(answers, prices, discounts)[place]));
        law_term_at(prices, discounts, row);
    }
    rows
}

/// A row whose date lies from the start on and before the end has its own key as answer; any
/// other has none.
pub proof fn law_keys_in_dates(
    keys: Seq<i64>,
    dates: Seq<i32>,
    start_days: i32,
    end_days: i32,
    row: int,
)
    requires
        0 <= row < keys.len(),
        keys.len() == dates.len(),
    ensures
        keys_in_dates(keys, dates, start_days, end_days).len() == keys.len(),
        dates[row] < start_days ==> keys_in_dates(keys, dates, start_days, end_days)[row] is None,
        dates[row] >= end_days ==> keys_in_dates(keys, dates, start_days, end_days)[row] is None,
        dates[row] >= start_days && dates[row] < end_days ==> keys_in_dates(
            keys,
            dates,
            start_days,
            end_days,
        )[row] == Some(keys[row]),
{
}

/// A row whose date lies from the start on and before the end has the flag of its key as
/// answer; a row without key, date or flag, or with another date, has none.
pub proof fn law_flags_in_dates(
    keys: Vector<i64>,
    dates: Vector<i32>,
    lookup: Map<i64, bool>,
    start_days: i32,
    end_days: i32,
    row: int,
)
    requires
        0 <= row < keys.values@.len(),
        keys.values@.len() == dates.values@.len(),
    ensures
        flags_in_dates(keys, dates, lookup, start_days, end_days)[row] is Some <==> keys.valid_at(
            row,
        ) && dates.valid_at(row) && lookup.contains_key(keys.values@[row]) && start_days
            <= dates.values@[row] && dates.values@[row] < end_days,
        flags_in_dates(keys, dates, lookup, start_days, end_days)[row] matches Some(flag) ==> flag
            == lookup[keys.values@[row]],
{
}

/// The key of a row is its answer exactly where it is wanted.
pub proof fn law_keys_in_set(keys: Vector<i64>, wanted: Set<i64>, row: int)
    requires
        0 <= row < keys.values@.len(),
    ensures
        keys_in_set(keys, wanted)[row] is Some <==> keys.valid_at(row) && wanted.contains(
            keys.values@[row],
        ),
        keys_in_set(keys, wanted)[row] matches Some(key) ==> key == keys.values@[row],
{
}

/// A row has its part as answer exactly where the part is wanted and was shipped in 1994.
pub proof fn law_shipped_parts(
    partkeys: Vector<i64>,
    shipdates: Vector<i32>,
    wanted: Set<i64>,
    row: int,
)
    requires
        0 <= row < partkeys.values@.len(),
        partkeys.values@.len() == shipdates.values@.len(),
    ensures
        shipped_parts(partkeys, shipdates, wanted)[row] is Some <==> partkeys.valid_at(row)
            && shipdates.valid_at(row) && wanted.contains(partkeys.values@[row]) && day_number(
            1994,
            1,
            1,
        ) <= shipdates.values@[row] && shipdates.values@[row] <= day_number(1994, 12, 31),
        shipped_parts(partkeys, shipdates, wanted)[row] matches Some(part) ==> part
            == partkeys.values@[row],
{
    reveal_with_fuel(days_before_month, 13);
    assert(day_number(1994, 1, 1) == 8_766);
    assert(day_number(1994, 12, 31) == 9_130);
}

/// A row has the customer of its order as answer exactly where it was returned and its order
/// has one.
pub proof fn law_returned_customers(
    orderkeys: Vector<i64>,
    returnflags: Vector<String>,
    order_customers: Map<i64, i64>,
    row: int,
)
    requires
        0 <= row < orderkeys.values@.len(),
        orderkeys.values@.len() == returnflags.values@.len(),
    ensures
        returned_customers(orderkeys, returnflags, order_customers)[row] is Some
            <==> orderkeys.valid_at(row) && returnflags.valid_at(row) && returnflags.values@[row]@
            == "R"@ && order_customers.contains_key(orderkeys.values@[row]),
        returned_customers(orderkeys, returnflags, order_customers)[row] matches Some(customer)
            ==> customer == order_customers[orderkeys.values@[row]],
{
}

/// A row has a nation as answer exactly where its supplier and the customer of its order are
/// both of it.
pub proof fn law_shared_nations(
    orderkeys: Vector<i64>,
    suppkeys: Vector<i64>,
    order_customer_nations: Map<i64, i64>,
    supplier_nations: Map<i64, i64>,
    row: int,
    nation: i64,
)
    requires
        0 <= row < orderkeys.values@.len(),
        orderkeys.values@.len() == suppkeys.values@.len(),
    ensures
        shared_nations(orderkeys, suppkeys, order_customer_nations, supplier_nations)[row] == Some(
            nation,
        ) <==> orderkeys.valid_at(row) && suppkeys.valid_at(row)
            && order_customer_nations.contains_key(orderkeys.values@[row])
            && supplier_nations.contains_key(suppkeys.values@[row])
            && order_customer_nations[orderkeys.values@[row]] == nation
            && supplier_nations[suppkeys.values@[row]] == nation,
{
}

proof fn lemma_quantities_listed(
    partkeys: Seq<i64>,
    suppkeys: Vector<i64>,
    quantities: DecimalUnits,
    rows: int,
)
    ensures
        quantity_payload(partkeys, suppkeys, quantities, rows) == listed(
            |row: int|
                match (suppkeys@[row], quantities.at(row)) {
                    (Some(suppkey), Some(quantity)) => Some(
                        ((partkeys[row], suppkey), quantity as i128),
                    ),
                    _ => None,
                },
            rows,
        ),
    decreases rows,
{
    if rows > 0 {
        lemma_quantities_listed(partkeys, suppkeys, quantities, rows - 1);
    }
}

/// Quantities are read from the payload rows with a supplier and a quantity: under the part
/// that was remembered of the row and its own supplier, its own quantity.
pub proof fn law_quantity_payload(
    partkeys: Seq<i64>,
    suppkeys: Vector<i64>,
    quantities: DecimalUnits,
) -> (rows: Seq<int>)
    requires
        quantities.rows() == suppkeys.values@.len(),
    ensures
        rows_in_order(rows, suppkeys.values@.len() as int),
        ({
            let count = suppkeys.values@.len() as int;
            let found = quantity_payload(partkeys, suppkeys, quantities, count);
            &&& rows.len() == found.len()
            &&& forall|row: int|
                0 <= row < count ==> (#[trigger] rows.contains(row) <==> suppkeys.valid_at(row)
                    && units_in(quantities, row) is Some)
            &&& forall|place: int|
                0 <= place < rows.len() ==> {
                    let row = rows[place];
                    &&& (#[trigger] found[place]).0.0 == partkeys[row]
                    &&& found[place].0.1 == suppkeys.values@[row]
                    &&& units_in(quantities, row) == Some(found[place].1 as int)
                }
        }),
{
    let count = suppkeys.values@.len() as int;
    let told = |row: int|
        match (suppkeys@[row], quantities.at(row)) {
            (Some(suppkey), Some(quantity)) => Some(((partkeys[row], suppkey), quantity as i128)),
            _ => None,
        };
    lemma_quantities_listed(partkeys, suppkeys, quantities, count);
    let rows = lemma_listed_rows(told, count);
    let found = quantity_payload(partkeys, suppkeys, quantities, count);
    assert forall|row: int| 0 <= row < count implies (#[trigger] rows.contains(row)
        <==> suppkeys.valid_at(row) && units_in(quantities, row) is Some) by {
        assert(rows.contains(row) <==> told(row) is Some);
    }
    assert forall|place: int| 0 <= place < rows.len() implies {
        let row = rows[place];
        &&& (#[trigger] found[place]).0.0 == partkeys[row]
        &&& found[place].0.1 == suppkeys.values@[row]
        &&& units_in(quantities, row) == Some(found[place].1 as int)
    } by {
        assert(told(rows[place]) == Some(found[place]));
    }
    rows
}

proof fn lemma_customers_listed(
    payload: CustomerPayload,
    custkeys: Seq<i64>,
    wanted: Set<i64>,
    rows: int,
)
    ensures
        payload.customers(custkeys, wanted, rows) == listed(
            |row: int|
                if wanted.contains(custkeys[row]) && payload.complete_at(row) {
                    Some((custkeys[row], row as usize))
                } else {
                    None
                },
            rows,
        ),
    decreases rows,
{
    if rows > 0 {
        lemma_customers_listed(payload, custkeys, wanted, rows - 1);
    }
}

/// Customers are the payload rows that lack nothing and of which a wanted customer was
/// remembered.
pub proof fn law_customer_payload(
    payload: CustomerPayload,
    custkeys: Seq<i64>,
    wanted: Set<i64>,
) -> (rows: Seq<int>)
    requires
        payload.well_formed(),
        payload.rows() <= usize::MAX,
    ensures
        rows_in_order(rows, payload.rows()),
        ({
            let found = payload.customers(custkeys, wanted, payload.rows());
            &&& rows.len() == found.len()
            &&& forall|row: int|
                0 <= row < payload.rows() ==> (#[trigger] rows.contains(row) <==> wanted.contains(
                    custkeys[row],
                ) && payload.names.valid_at(row) && units_in(payload.acctbals, row) is Some
                    && payload.nationkeys.valid_at(row) && payload.addresses.valid_at(row)
                    && payload.phones.valid_at(row) && payload.comments.valid_at(row))
            &&& forall|place: int|
                0 <= place < rows.len() ==> (#[trigger] found[place]).0 == custkeys[rows[place]]
                    && found[place].1 == rows[place]
        }),
{
    let count = payload.rows();
    let told = |row: int|
        if wanted.contains(custkeys[row]) && payload.complete_at(row) {
            Some((custkeys[row], row as usize))
        } else {
            None
        };
    lemma_customers_listed(payload, custkeys, wanted, count);
    let rows = lemma_listed_rows(told, count);
    let found = payload.customers(custkeys, wanted, count);
    assert forall|row: int| 0 <= row < count implies (#[trigger] rows.contains(row)
        <==> wanted.contains(custkeys[row]) && payload.names.valid_at(row) && units_in(
        payload.acctbals,
        row,
    ) is Some && payload.nationkeys.valid_at(row) && payload.addresses.valid_at(row)
        && payload.phones.valid_at(row) && payload.comments.valid_at(row)) by {
        assert(rows.contains(row) <==> told(row) is Some);
    }
    assert forall|place: int| 0 <= place < rows.len() implies (#[trigger] found[place]).0
        == custkeys[rows[place]] && found[place].1 == rows[place] by {
        assert(told(rows[place]) == Some(found[place]));
    }
    rows
}

proof fn lemma_contributions_listed(
    columns: RevenueRows,
    rows: int,
    start_days: i32,
    end_days: i32,
    one: i64,
)
    ensures
        columns.contributions(rows, start_days, end_days, one) == listed(
            |row: int|
                if columns.in_dates(row, start_days, end_days) {
                    Some(
                        (
                            columns.keys@[row] as int,
                            raw_revenue(columns.prices@[row], columns.discounts@[row], one),
                        ),
                    )
                } else {
                    None
                },
            rows,
        ),
    decreases rows,
{
    if rows > 0 {
        lemma_contributions_listed(columns, rows - 1, start_days, end_days, one);
    }
}

/// Sums get a contribution from each row from the start on and before the end, or from every
/// row where dates are not asked for: to its own key, its price less the discounted part.
pub proof fn law_contributions(
    columns: RevenueRows,
    start_days: i32,
    end_days: i32,
    one: i64,
) -> (rows: Seq<int>)
    ensures
        rows_in_order(rows, columns.rows()),
        ({
            let found = columns.contributions(columns.rows(), start_days, end_days, one);
            &&& rows.len() == found.len()
            &&& forall|row: int|
                0 <= row < columns.rows() ==> (#[trigger] rows.contains(row)
                    <==> match columns.dates {
                    Some(dates) => start_days <= dates@[row] && dates@[row] < end_days,
                    None => true,
                })
            &&& forall|place: int|
                0 <= place < rows.len() ==> {
                    let row = rows[place];
                    &&& (#[trigger] found[place]).0 == columns.keys@[row]
                    &&& found[place].1 == columns.prices@[row] * one - columns.prices@[row]
                        * columns.discounts@[row]
                }
        }),
{
    let count = columns.rows();
    let told = |row: int|
        if columns.in_dates(row, start_days, end_days) {
            Some(
                (
                    columns.keys@[row] as int,
                    raw_revenue(columns.prices@[row], columns.discounts@[row], one),
                ),
            )
        } else {
            None
        };
    lemma_contributions_listed(columns, count, start_days, end_days, one);
    let rows = lemma_listed_rows(told, count);
    let found = columns.contributions(count, start_days, end_days, one);
    assert forall|row: int| 0 <= row < count implies (#[trigger] rows.contains(row)
        <==> match columns.dates {
        Some(dates) => start_days <= dates@[row] && dates@[row] < end_days,
        None => true,
    }) by {
        assert(rows.contains(row) <==> told(row) is Some);
    }
    assert forall|place: int| 0 <= place < rows.len() implies {
        let row = rows[place];
        &&& (#[trigger] found[place]).0 == columns.keys@[row]
        &&& found[place].1 == columns.prices@[row] * one - columns.prices@[row]
            * columns.discounts@[row]
    } by {
        let row = rows[place];
        assert(told(row) == Some(found[place]));
        law_raw_revenue(columns.prices@[row], columns.discounts@[row], one);
    }
    rows
}

/// Rows at offsets are counted from the base on, and each has its own price and discount.
pub proof fn law_terms_at_offsets(
    row_offsets: Seq<u32>,
    row_base: int,
    row_count: int,
    prices: DecimalUnits,
    discounts: DecimalUnits,
)
    requires
        0 <= row_base,
        row_count <= usize::MAX,
    ensures
        ({
            let (found, all) = terms_at_offsets(
                row_offsets,
                row_base,
                row_count,
                prices,
                discounts,
            );
            &&& found.len() <= row_offsets.len()
            &&& all <==> found.len() == row_offsets.len()
            &&& all <==> forall|place: int|
                0 <= place < row_offsets.len() ==> row_base <= #[trigger] row_offsets[place]
                    && row_offsets[place] < row_base + row_count
            &&& forall|place: int|
                0 <= place < found.len() ==> (#[trigger] found[place]).0 == row_offsets[place]
                    - row_base && found[place].1 == term_at(
                    prices,
                    discounts,
                    row_offsets[place] - row_base,
                )
        }),
    decreases row_offsets.len(),
{
    if row_offsets.len() > 0 {
        let shorter = row_offsets.drop_last();
        law_terms_at_offsets(shorter, row_base, row_count, prices, discounts);
        let (earlier, before) = terms_at_offsets(shorter, row_base, row_count, prices, discounts);
        let (found, all) = terms_at_offsets(row_offsets, row_base, row_count, prices, discounts);
        assert forall|place: int| 0 <= place < found.len() implies (#[trigger] found[place]).0
            == row_offsets[place] - row_base && found[place].1 == term_at(
            prices,
            discounts,
            row_offsets[place] - row_base,
        ) by {
            if place < earlier.len() {
                assert(earlier[place] == found[place]);
                assert(shorter[place] == row_offsets[place]);
            }
        }
        if all {
            assert forall|place: int| 0 <= place < row_offsets.len() implies row_base
                <= #[trigger] row_offsets[place] && row_offsets[place] < row_base + row_count by {
                if place < shorter.len() {
                    assert(shorter[place] == row_offsets[place]);
                }
            }
        }
        if forall|place: int|
            0 <= place < row_offsets.len() ==> row_base <= #[trigger] row_offsets[place]
                && row_offsets[place] < row_base + row_count {
            assert forall|place: int| 0 <= place < shorter.len() implies row_base
                <= #[trigger] shorter[place] && shorter[place] < row_base + row_count by {
                assert(shorter[place] == row_offsets[place]);
            }
            assert(row_offsets[row_offsets.len() - 1] == row_offsets.last());
        }
    }
}

} // verus!
