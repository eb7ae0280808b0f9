//! The rows that discounted revenue is summed from.
//!
//! A decimal is held as its units at a fixed scale. The revenue of a row is the price
//! less the discount; a row that lacks either has none.

use std::collections::HashMap;
use vstd::prelude::*;
use crate::columns::{BatchView, ColumnData, Vector};
use crate::error::{fails_unsupported, SqlError, SqlResult};
use crate::late_selection::{
    coalesced, regional_revenue_late_selected_nation, remembered, returned_customers,
    shared_nations, LateSelection,
};
use crate::tables::{entry_of, hash_get, AdaptiveI64Map};
use crate::text::str_eq;

verus! {

/// A column of decimals, by their units.
#[derive(Clone, Copy)]
pub enum DecimalUnits<'a> {
    Wide(&'a Vector<i128>),
    Narrow(&'a Vector<i64>),
}

impl<'a> DecimalUnits<'a> {
    /// Whether the column is in order.
    pub open spec fn well_formed(self) -> bool {
        match self {
            DecimalUnits::Wide(values) => values.well_formed(),
            DecimalUnits::Narrow(units) => units.well_formed(),
        }
    }

    /// The number of rows.
    pub open spec fn rows(self) -> int {
        match self {
            DecimalUnits::Wide(values) => values@.len() as int,
            DecimalUnits::Narrow(units) => units@.len() as int,
        }
    }

    /// The units of a row, `None` where it is null.
    pub open spec fn at(self, row: int) -> Option<int> {
        match self {
            DecimalUnits::Wide(values) => match values@[row] {
                Some(value) => Some(value as int),
                None => None,
            },
            DecimalUnits::Narrow(units) => match units@[row] {
                Some(unit) => Some(unit as int),
                None => None,
            },
        }
    }

    /// The number of rows.
    pub fn len(&self) -> (rows: usize)
        requires
            self.well_formed(),
        ensures
            rows == self.rows(),
    {
        match self {
            DecimalUnits::Wide(values) => values.len(),
            DecimalUnits::Narrow(units) => units.len(),
        }
    }

    /// The units of a row, `None` where it is null.
    pub fn get(&self, row: usize) -> (unit: Option<i128>)
        requires
            self.well_formed(),
            row < self.rows(),
        ensures
            match self.at(row as int) {
                Some(value) => unit matches Some(unit) && unit == value,
                None => unit is None,
            },
    {
        match self {
            DecimalUnits::Wide(values) => values.get(row),
            DecimalUnits::Narrow(units) => match units.get(row) {
                Some(unit) => Some(unit as i128),
                None => None,
            },
        }
    }
}

/// The decimal column at a position of a view.
pub open spec fn units_of(column: Option<ColumnData>, units: DecimalUnits) -> bool {
    match column {
        Some(ColumnData::Decimal128 { values, .. }) => units == DecimalUnits::Wide(&values),
        Some(ColumnData::DecimalInt64 { units: narrow, .. }) => units == DecimalUnits::Narrow(
            &narrow,
        ),
        _ => false,
    }
}

/// Whether a column holds decimals.
pub open spec fn holds_decimals(column: Option<ColumnData>) -> bool {
    match column {
        Some(ColumnData::Decimal128 { .. }) => true,
        Some(ColumnData::DecimalInt64 { .. }) => true,
        _ => false,
    }
}

/// The decimal column at a position of a view, `None` where there is no such column.
pub fn decimal128_vector(view: &BatchView, index: usize) -> (units: Option<DecimalUnits<'_>>)
    requires
        view.well_formed(),
    ensures
        units.is_some() == holds_decimals(view.column(index as int)),
        units matches Some(units) ==> units_of(view.column(index as int), units)
            && units.well_formed() && units.rows() == view.batch.num_rows,
{
    if index < view.batch.columns.len() {
        assert(view.batch.columns@[index as int].well_formed());
        match &view.batch.columns[index].data {
            ColumnData::Decimal128 { values, .. } => Some(DecimalUnits::Wide(values)),
            ColumnData::DecimalInt64 { units, .. } => Some(DecimalUnits::Narrow(units)),
            _ => None,
        }
    } else {
        None
    }
}

/// The price and the discount that the revenue of a row comes from, in units.
#[derive(Clone, Copy, Debug, PartialEq, Eq, Structural)]
pub struct RevenueTerm {
    pub price: i128,
    pub discount: i128,
}

impl RevenueTerm {
    /// The revenue in units of both scales: the price times one less the discount,
    /// where `discount_factor` units of discount are one.
    pub open spec fn revenue(self, discount_factor: int) -> int {
        self.price * (discount_factor - self.discount)
    }
}

/// The price and the discount of a row, `None` where either is null.
pub open spec fn term_at(prices: DecimalUnits, discounts: DecimalUnits, row: int) -> Option<
    RevenueTerm,
> {
    match (prices.at(row), discounts.at(row)) {
        (Some(price), Some(discount)) => Some(
            RevenueTerm { price: price as i128, discount: discount as i128 },
        ),
        _ => None,
    }
}

/// Whether two columns of decimals are in order and have the rows asked for.
pub open spec fn revenue_rows_given(
    prices: DecimalUnits,
    discounts: DecimalUnits,
    rows: int,
) -> bool {
    &&& prices.well_formed()
    &&& discounts.well_formed()
    &&& rows <= prices.rows()
    &&& rows <= discounts.rows()
}

/// The price and the discount of a row, `None` where either is null.
fn revenue_term(prices: DecimalUnits<'_>, discounts: DecimalUnits<'_>, row: usize) -> (term: Option<
    RevenueTerm,
>)
    requires
        revenue_rows_given(prices, discounts, row + 1),
    ensures
        term == term_at(prices, discounts, row as int),
{
    match (prices.get(row), discounts.get(row)) {
        (Some(price), Some(discount)) => Some(RevenueTerm { price, discount }),
        _ => None,
    }
}

/// The price and the discount of each row.
pub open spec fn terms_of(prices: DecimalUnits, discounts: DecimalUnits, rows: int) -> Seq<
    Option<RevenueTerm>,
> {
    Seq::new(rows as nat, |row: int| term_at(prices, discounts, row))
}

/// The price and the discount of each row.
pub fn consume_discounted_revenue_decimal128_vectors(
    extendedprices: DecimalUnits<'_>,
    discounts: DecimalUnits<'_>,
    row_count: usize,
) -> (terms: Vec<Option<RevenueTerm>>)
    requires
        revenue_rows_given(extendedprices, discounts, row_count as int),
    ensures
        terms@ == terms_of(extendedprices, discounts, row_count as int),
{
    let ghost expected = terms_of(extendedprices, discounts, row_count as int);
    let mut terms: Vec<Option<RevenueTerm>> = Vec::new();
    let mut row: usize = 0;
    while row < row_count
        invariant
            revenue_rows_given(extendedprices, discounts, row_count as int),
            expected == terms_of(extendedprices, discounts, row_count as int),
            row <= row_count,
            terms@ == expected.take(row as int),
        decreases row_count - row,
    {
        terms.push(revenue_term(extendedprices, discounts, row));
        row += 1;
        assert(terms@ =~= expected.take(row as int));
    }
    assert(terms@ =~= expected);
    terms
}

/// The rows that have both an answer and revenue, with both.
pub open spec fn answered_terms<Payload>(
    answers: Seq<Option<Payload>>,
    prices: DecimalUnits,
    discounts: DecimalUnits,
) -> Seq<(usize, Payload, RevenueTerm)>
    decreases answers.len(),
{
    if answers.len() == 0 {
        Seq::empty()
    } else {
        let row = answers.len() - 1;
        let earlier = answered_terms(answers.drop_last(), prices, discounts);
        match (answers.last(), term_at(prices, discounts, row)) {
            (Some(payload), Some(term)) => earlier.push((row as usize, payload, term)),
            _ => earlier,
        }
    }
}

/// Two lists of answers that agree wherever a row has revenue give the same rows.
proof fn lemma_answers_agree<Payload>(
    first: Seq<Option<Payload>>,
    second: Seq<Option<Payload>>,
    prices: DecimalUnits,
    discounts: DecimalUnits,
)
    requires
        first.len() == second.len(),
        forall|row: int|
            0 <= row < first.len() && #[trigger] term_at(prices, discounts, row) is Some
                ==> first[row] == second[row],
    ensures
        answered_terms(first, prices, discounts) == answered_terms(second, prices, discounts),
    decreases first.len(),
{
    if first.len() > 0 {
        let row = first.len() - 1;
        assert forall|earlier: int|
            0 <= earlier < first.len() - 1 && #[trigger] term_at(prices, discounts, earlier)
                is Some implies first.drop_last()[earlier] == second.drop_last()[earlier] by {
            assert(first[earlier] == second[earlier]);
        }
        lemma_answers_agree(first.drop_last(), second.drop_last(), prices, discounts);
        if term_at(prices, discounts, row) is Some {
            assert(first[row] == second[row]);
        }
    }
}

/// Whether `answers` are what the predicate answered of each row that has revenue.
pub open spec fn answered_by<Payload, Predicate: Fn(usize) -> SqlResult<Option<Payload>>>(
    predicate: Predicate,
    answers: Seq<Option<Payload>>,
    prices: DecimalUnits,
    discounts: DecimalUnits,
) -> bool {
    forall|row: int|
        0 <= row < answers.len() && #[trigger] term_at(prices, discounts, row) is Some
            ==> call_ensures(
            predicate,
            (row as usize,),
            Ok::<Option<Payload>, SqlError>(answers[row]),
        )
}

/// Adds the rows that the predicate answers and that have revenue, each with the answer.
/// A row without revenue is not asked of; the first error of the predicate ends it, and the
/// rows before it stay added.
pub fn consume_filtered_discounted_revenue_decimal128_vectors_with_payload<
    Payload,
    Predicate: Fn(usize) -> SqlResult<Option<Payload>>,
>(
    extendedprices: DecimalUnits<'_>,
    discounts: DecimalUnits<'_>,
    row_count: usize,
    predicate: Predicate,
    rows: &mut Vec<(usize, Payload, RevenueTerm)>,
) -> (result: SqlResult<()>)
    requires
        revenue_rows_given(extendedprices, discounts, row_count as int),
        forall|row: usize| row < row_count ==> #[trigger] call_requires(predicate, (row,)),
    ensures
        match result {
            Ok(_) => exists|answers: Seq<Option<Payload>>|
                {
                    &&& answers.len() == row_count
                    &&& #[trigger] answered_by(predicate, answers, extendedprices, discounts)
                    &&& final(rows)@ == old(rows)@ + answered_terms(
                        answers,
                        extendedprices,
                        discounts,
                    )
                },
            Err(error) => exists|answers: Seq<Option<Payload>>|
                {
                    &&& answers.len() < row_count
                    &&& #[trigger] answered_by(predicate, answers, extendedprices, discounts)
                    &&& term_at(extendedprices, discounts, answers.len() as int) is Some
                    &&& call_ensures(
                        predicate,
                        (answers.len() as usize,),
                        Err::<Option<Payload>, SqlError>(error),
                    )
                    &&& final(rows)@ == old(rows)@ + answered_terms(
                        answers,
                        extendedprices,
                        discounts,
                    )
                },
        },
{
    let ghost given = rows@;
    let ghost mut answers: Seq<Option<Payload>> = Seq::empty();
    let mut row: usize = 0;
    while row < row_count
        invariant
            revenue_rows_given(extendedprices, discounts, row_count as int),
            forall|row: usize| row < row_count ==> #[trigger] call_requires(predicate, (row,)),
            row <= row_count,
            answers.len() == row,
            answered_by(predicate, answers, extendedprices, discounts),
            given == old(rows)@,
            rows@ =~= given + answered_terms(answers, extendedprices, discounts),
        decreases row_count - row,
    {
        let ghost before = answers;
        match revenue_term(extendedprices, discounts, row) {
            Some(term) => match predicate(row) {
                Ok(answer) => {
                    proof {
                        answers = before.push(answer);
                        assert(answers.drop_last() =~= before);
                    }
                    match answer {
                        Some(payload) => {
                            rows.push((row, payload, term));
                        },
                        None => {},
                    }
                },
                Err(error) => {
                    return Err(error);
                },
            },
            None => {
                proof {
                    answers = before.push(None);
                    assert(answers.drop_last() =~= before);
                }
            },
        }
        proof {
            assert forall|earlier: int|
                0 <= earlier < answers.len() && #[trigger] term_at(
                    extendedprices,
                    discounts,
                    earlier,
                ) is Some implies call_ensures(
                predicate,
                (earlier as usize,),
                Ok::<Option<Payload>, SqlError>(answers[earlier]),
            ) by {
                if earlier < row {
                    assert(answers[earlier] == before[earlier]);
                }
            }
        }
        row += 1;
    }
    Ok(())
}

/// Adds the rows that pass the predicate and that have revenue. A row without revenue is
/// not asked of; the first error of the predicate ends it, and the rows before it stay
/// added.
pub fn consume_filtered_discounted_revenue_decimal128_vectors<
    Predicate: Fn(usize) -> SqlResult<bool>,
>(
    extendedprices: DecimalUnits<'_>,
    discounts: DecimalUnits<'_>,
    row_count: usize,
    predicate: Predicate,
    rows: &mut Vec<(usize, RevenueTerm)>,
) -> (result: SqlResult<()>)
    requires
        revenue_rows_given(extendedprices, discounts, row_count as int),
        forall|row: usize| row < row_count ==> #[trigger] call_requires(predicate, (row,)),
    ensures
        match result {
            Ok(_) => exists|answers: Seq<bool>|
                {
                    &&& answers.len() == row_count
                    &&& #[trigger] passed_by(predicate, answers, extendedprices, discounts)
                    &&& final(rows)@ == old(rows)@ + passed_terms(
                        answers,
                        extendedprices,
                        discounts,
                    )
                },
            Err(error) => exists|answers: Seq<bool>|
                {
                    &&& answers.len() < row_count
                    &&& #[trigger] passed_by(predicate, answers, extendedprices, discounts)
                    &&& term_at(extendedprices, discounts, answers.len() as int) is Some
                    &&& call_ensures(
                        predicate,
                        (answers.len() as usize,),
                        Err::<bool, SqlError>(error),
                    )
                    &&& final(rows)@ == old(rows)@ + passed_terms(
                        answers,
                        extendedprices,
                        discounts,
                    )
                },
        },
{
    let ghost given = rows@;
    let ghost mut answers: Seq<bool> = Seq::empty();
    let mut row: usize = 0;
    while row < row_count
        invariant
            revenue_rows_given(extendedprices, discounts, row_count as int),
            forall|row: usize| row < row_count ==> #[trigger] call_requires(predicate, (row,)),
            row <= row_count,
            answers.len() == row,
            passed_by(predicate, answers, extendedprices, discounts),
            given == old(rows)@,
            rows@ =~= given + passed_terms(answers, extendedprices, discounts),
        decreases row_count - row,
    {
        let ghost before = answers;
        match revenue_term(extendedprices, discounts, row) {
            Some(term) => match predicate(row) {
                Ok(passes) => {
                    proof {
                        answers = before.push(passes);
                        assert(answers.drop_last() =~= before);
                    }
                    if passes {
                        rows.push((row, term));
                    }
                },
                Err(error) => {
                    return Err(error);
                },
            },
            None => {
                proof {
                    answers = before.push(false);
                    assert(answers.drop_last() =~= before);
                }
            },
        }
        proof {
            assert forall|earlier: int|
                0 <= earlier < answers.len() && #[trigger] term_at(
                    extendedprices,
                    discounts,
                    earlier,
                ) is Some implies call_ensures(
                predicate,
                (earlier as usize,),
                Ok::<bool, SqlError>(answers[earlier]),
            ) by {
                if earlier < row {
                    assert(answers[earlier] == before[earlier]);
                }
            }
        }
        row += 1;
    }
    Ok(())
}

/// Whether `answers` are what the predicate answered of each row that has revenue.
pub open spec fn passed_by<Predicate: Fn(usize) -> SqlResult<bool>>(
    predicate: Predicate,
    answers: Seq<bool>,
    prices: DecimalUnits,
    discounts: DecimalUnits,
) -> bool {
    forall|row: int|
        0 <= row < answers.len() && #[trigger] term_at(prices, discounts, row) is Some
            ==> call_ensures(predicate, (row as usize,), Ok::<bool, SqlError>(answers[row]))
}

/// The rows that pass and have revenue.
pub open spec fn passed_terms(
    answers: Seq<bool>,
    prices: DecimalUnits,
    discounts: DecimalUnits,
) -> Seq<(usize, RevenueTerm)>
    decreases answers.len(),
{
    if answers.len() == 0 {
        Seq::empty()
    } else {
        let row = answers.len() - 1;
        let earlier = passed_terms(answers.drop_last(), prices, discounts);
        match term_at(prices, discounts, row) {
            Some(term) => if answers.last() {
                earlier.push((row as usize, term))
            } else {
                earlier
            },
            None => earlier,
        }
    }
}

/// Whether an offset names one of `row_count` rows that start at `row_base`.
pub open spec fn offset_in_rows(offset: u32, row_base: int, row_count: int) -> bool {
    row_base <= offset < row_base + row_count
}

/// The rows at offsets, in their order, with the price and the discount of each, up to the
/// first offset that names none of the rows.
pub open spec fn terms_at_offsets(
    row_offsets: Seq<u32>,
    row_base: int,
    row_count: int,
    prices: DecimalUnits,
    discounts: DecimalUnits,
) -> (Seq<(usize, Option<RevenueTerm>)>, bool)
    decreases row_offsets.len(),
{
    if row_offsets.len() == 0 {
        (Seq::empty(), true)
    } else {
        let (earlier, all) = terms_at_offsets(
            row_offsets.drop_last(),
            row_base,
            row_count,
            prices,
            discounts,
        );
        if all && offset_in_rows(row_offsets.last(), row_base, row_count) {
            let row = row_offsets.last() - row_base;
            (earlier.push((row as usize, term_at(prices, discounts, row))), true)
        } else {
            (earlier, false)
        }
    }
}

/// What comes behind an offset that names no row adds nothing.
proof fn lemma_offsets_end(
    row_offsets: Seq<u32>,
    row_base: int,
    row_count: int,
    prices: DecimalUnits,
    discounts: DecimalUnits,
    count: int,
)
    requires
        0 <= count <= row_offsets.len(),
        !terms_at_offsets(row_offsets.take(count), row_base, row_count, prices, discounts).1,
    ensures
        terms_at_offsets(row_offsets, row_base, row_count, prices, discounts) == terms_at_offsets(
            row_offsets.take(count),
            row_base,
            row_count,
            prices,
            discounts,
        ),
    decreases row_offsets.len() - count,
{
    if count < row_offsets.len() {
        assert(row_offsets.take(count + 1).drop_last() =~= row_offsets.take(count));
        lemma_offsets_end(row_offsets, row_base, row_count, prices, discounts, count + 1);
    } else {
        assert(row_offsets.take(count) =~= row_offsets);
    }
}

/// Adds the rows at the given offsets, in their order, with the price and the discount of
/// each. The first offset that names none of the rows is an error; the rows before it stay
/// added.
pub fn consume_discounted_revenue_decimal128_vectors_at_offsets(
    extendedprices: DecimalUnits<'_>,
    discounts: DecimalUnits<'_>,
    row_count: usize,
    row_base: usize,
    row_offsets: &[u32],
    rows: &mut Vec<(usize, Option<RevenueTerm>)>,
) -> (result: SqlResult<()>)
    requires
        extendedprices.well_formed(),
        discounts.well_formed(),
    ensures
        if extendedprices.rows() < row_count || discounts.rows() < row_count {
            &&& fails_unsupported(result, "discounted revenue vector row count mismatch"@)
            &&& final(rows)@ == old(rows)@
        } else {
            let (added, all) = terms_at_offsets(
                row_offsets@,
                row_base as int,
                row_count as int,
                extendedprices,
                discounts,
            );
            &&& final(rows)@ == old(rows)@ + added
            &&& if all {
                result is Ok
            } else {
                fails_unsupported(result, "discounted revenue selected row out of range"@)
            }
        },
{
    if extendedprices.len() < row_count || discounts.len() < row_count {
        return Err(SqlError::unsupported("discounted revenue vector row count mismatch"));
    }
    let ghost given = rows@;
    let mut index: usize = 0;
    assert(row_offsets@.take(0) =~= Seq::empty());
    assert(rows@ =~= given + Seq::<(usize, Option<RevenueTerm>)>::empty());
    while index < row_offsets.len()
        invariant
            revenue_rows_given(extendedprices, discounts, row_count as int),
            index <= row_offsets@.len(),
            given == old(rows)@,
            ({
                let (added, all) = terms_at_offsets(
                    row_offsets@.take(index as int),
                    row_base as int,
                    row_count as int,
                    extendedprices,
                    discounts,
                );
                all && rows@ == given + added
            }),
        decreases row_offsets@.len() - index,
    {
        let ghost added = terms_at_offsets(
            row_offsets@.take(index as int),
            row_base as int,
            row_count as int,
            extendedprices,
            discounts,
        ).0;
        proof {
            assert(row_offsets@.take(index + 1).drop_last() =~= row_offsets@.take(index as int));
            assert(row_offsets@.take(index + 1).last() == row_offsets@[index as int]);
        }
        let offset: usize = row_offsets[index] as usize;
        if offset < row_base || offset - row_base >= row_count {
            proof {
                assert(!offset_in_rows(
                    row_offsets@[index as int],
                    row_base as int,
                    row_count as int,
                ));
                lemma_offsets_end(
                    row_offsets@,
                    row_base as int,
                    row_count as int,
                    extendedprices,
                    discounts,
                    index + 1,
                );
            }
            return Err(SqlError::unsupported("discounted revenue selected row out of range"));
        }
        let row: usize = offset - row_base;
        let found = revenue_term(extendedprices, discounts, row);
        rows.push((row, found));
        assert(rows@ =~= given + added.push((row, found)));
        index += 1;
    }
    assert(row_offsets@.take(index as int) =~= row_offsets@);
    Ok(())
}

/// Revenue that belongs to a key.
pub type KeyedTerm = (i64, RevenueTerm);

/// The keys and terms of rows.
pub open spec fn keyed(rows: Seq<(usize, i64, RevenueTerm)>) -> Seq<KeyedTerm> {
    rows.map_values(|row: (usize, i64, RevenueTerm)| (row.1, row.2))
}

/// Drops the row numbers.
fn without_rows(rows: Vec<(usize, i64, RevenueTerm)>) -> (pairs: Vec<KeyedTerm>)
    ensures
        pairs@ == keyed(rows@),
{
    let mut pairs: Vec<KeyedTerm> = Vec::new();
    let mut index: usize = 0;
    while index < rows.len()
        invariant
            index <= rows@.len(),
            pairs@ == keyed(rows@).take(index as int),
        decreases rows@.len() - index,
    {
        pairs.push((rows[index].1, rows[index].2));
        index += 1;
        assert(pairs@ =~= keyed(rows@).take(index as int));
    }
    assert(pairs@ =~= keyed(rows@));
    pairs
}

/// The revenue of the rows whose supplier and customer share a nation, by nation.
pub fn revenue_by_nation_vector(
    orderkeys: &Vector<i64>,
    suppkeys: &Vector<i64>,
    extendedprices: DecimalUnits<'_>,
    discounts: DecimalUnits<'_>,
    order_customer_nations: &HashMap<i64, i64>,
    supplier_nations: &AdaptiveI64Map<i64>,
) -> (groups: Vec<KeyedTerm>)
    requires
        orderkeys.well_formed(),
        suppkeys.well_formed(),
        orderkeys@.len() == suppkeys@.len(),
        revenue_rows_given(extendedprices, discounts, orderkeys@.len() as int),
    ensures
        groups@ == keyed(
            answered_terms(
                shared_nations(
                    *orderkeys,
                    *suppkeys,
                    order_customer_nations@,
                    supplier_nations@,
                ),
                extendedprices,
                discounts,
            ),
        ),
{
    let ghost expected = shared_nations(
        *orderkeys,
        *suppkeys,
        order_customer_nations@,
        supplier_nations@,
    );
    let row_count: usize = orderkeys.len();
    let nation_of_row = |row: usize| -> (answer: SqlResult<Option<i64>>)
        requires
            row < orderkeys@.len(),
            orderkeys.well_formed(),
            suppkeys.well_formed(),
            orderkeys@.len() == suppkeys@.len(),
        ensures
            answer matches Ok(nation) && nation == shared_nations(
                *orderkeys,
                *suppkeys,
                order_customer_nations@,
                supplier_nations@,
            )[row as int],
        {
            match (orderkeys.get(row), suppkeys.get(row)) {
                (Some(orderkey), Some(suppkey)) => Ok(
                    regional_revenue_late_selected_nation(
                        orderkey,
                        suppkey,
                        order_customer_nations,
                        supplier_nations,
                    ),
                ),
                _ => Ok(None),
            }
        };
    let mut rows: Vec<(usize, i64, RevenueTerm)> = Vec::new();
    let ghost none = rows@;
    let result = consume_filtered_discounted_revenue_decimal128_vectors_with_payload(
        extendedprices,
        discounts,
        row_count,
        nation_of_row,
        &mut rows,
    );
    match result {
        Ok(_) => {
            proof {
                let answers = choose|answers: Seq<Option<i64>>|
                    {
                        &&& answers.len() == row_count
                        &&& #[trigger] answered_by(
                            nation_of_row,
                            answers,
                            extendedprices,
                            discounts,
                        )
                        &&& rows@ == none + answered_terms(answers, extendedprices, discounts)
                    };
                assert(rows@ =~= answered_terms(answers, extendedprices, discounts));
                lemma_answers_agree(answers, expected, extendedprices, discounts);
            }
            without_rows(rows)
        },
        Err(_) => Vec::new(),
    }
}

/// The revenue of the returned rows whose order is known, by customer.
pub fn returned_revenue_rows(
    orderkeys: &Vector<i64>,
    returnflags: &Vector<String>,
    extendedprices: DecimalUnits<'_>,
    discounts: DecimalUnits<'_>,
    order_customers: &HashMap<i64, i64>,
) -> (groups: Vec<KeyedTerm>)
    requires
        orderkeys.well_formed(),
        returnflags.well_formed(),
        orderkeys@.len() == returnflags@.len(),
        revenue_rows_given(extendedprices, discounts, orderkeys@.len() as int),
    ensures
        groups@ == keyed(
            answered_terms(
                returned_customers(*orderkeys, *returnflags, order_customers@),
                extendedprices,
                discounts,
            ),
        ),
{
    let ghost expected = returned_customers(*orderkeys, *returnflags, order_customers@);
    let row_count: usize = orderkeys.len();
    let customer_of_row = |row: usize| -> (answer: SqlResult<Option<i64>>)
        requires
            row < orderkeys@.len(),
            orderkeys.well_formed(),
            returnflags.well_formed(),
            orderkeys@.len() == returnflags@.len(),
        ensures
            answer matches Ok(customer) && customer == returned_customers(
                *orderkeys,
                *returnflags,
                order_customers@,
            )[row as int],
        {
            if returnflags.is_null(row) || !str_eq(returnflags.values[row].as_str(), "R") {
                return Ok(None);
            }
            match orderkeys.get(row) {
                Some(orderkey) => Ok(hash_get(order_customers, orderkey)),
                None => Ok(None),
            }
        };
    let mut rows: Vec<(usize, i64, RevenueTerm)> = Vec::new();
    let ghost none = rows@;
    let result = consume_filtered_discounted_revenue_decimal128_vectors_with_payload(
        extendedprices,
        discounts,
        row_count,
        customer_of_row,
        &mut rows,
    );
    match result {
        Ok(_) => {
            proof {
                let answers = choose|answers: Seq<Option<i64>>|
                    {
                        &&& answers.len() == row_count
                        &&& #[trigger] answered_by(
                            customer_of_row,
                            answers,
                            extendedprices,
                            discounts,
                        )
                        &&& rows@ == none + answered_terms(answers, extendedprices, discounts)
                    };
                assert(rows@ =~= answered_terms(answers, extendedprices, discounts));
                lemma_answers_agree(answers, expected, extendedprices, discounts);
            }
            without_rows(rows)
        },
        Err(_) => Vec::new(),
    }
}

/// The key of each row whose date lies in a range, as answers.
pub open spec fn keys_in_dates(
    keys: Seq<i64>,
    dates: Seq<i32>,
    start_days: i32,
    end_days: i32,
) -> Seq<Option<i64>> {
    Seq::new(
        keys.len(),
        |row: int|
            if start_days <= dates[row] < end_days {
                Some(keys[row])
            } else {
                None
            },
    )
}

/// Whether a view has keys, dates, prices and discounts at the given places, the keys
/// and the dates without nulls.
pub open spec fn grouped_revenue_columns(
    view: BatchView,
    key_index: int,
    date_index: int,
    extendedprice_index: int,
    discount_index: int,
) -> bool {
    &&& view.column(key_index) matches Some(ColumnData::Int64(keys)) && keys.null_free()
    &&& view.column(date_index) matches Some(ColumnData::Date32(dates)) && dates.null_free()
    &&& holds_decimals(view.column(extendedprice_index))
    &&& holds_decimals(view.column(discount_index))
}

/// The revenue of the rows whose date lies in a range, by key; `None` where the view
/// does not have the columns for it.
pub fn update_i64_grouped_discounted_revenue_by_date_view(
    view: &BatchView,
    key_index: usize,
    date_index: usize,
    extendedprice_index: usize,
    discount_index: usize,
    start_days: i32,
    end_days: i32,
) -> (revenues: Option<Vec<KeyedTerm>>)
    requires
        view.well_formed(),
    ensures
        revenues.is_some() == grouped_revenue_columns(
            *view,
            key_index as int,
            date_index as int,
            extendedprice_index as int,
            discount_index as int,
        ),
        revenues matches Some(revenues) ==> forall|
            prices: DecimalUnits,
            discounts: DecimalUnits,
        |
            #[trigger] units_of(view.column(extendedprice_index as int), prices)
                && #[trigger] units_of(view.column(discount_index as int), discounts)
                ==> revenues@ == keyed(
                answered_terms(
                    keys_in_dates(
                        view.column(key_index as int)->0->Int64_0.values@,
                        view.column(date_index as int)->0->Date32_0.values@,
                        start_days,
                        end_days,
                    ),
                    prices,
                    discounts,
                ),
            ),
{
    let (keys, dates) = match (view.i64_vector(key_index), view.date32_vector(date_index)) {
        (Some(keys), Some(dates)) => (keys, dates),
        _ => {
            return None;
        },
    };
    let (extendedprices, discounts) = match (
        decimal128_vector(view, extendedprice_index),
        decimal128_vector(view, discount_index),
    ) {
        (Some(extendedprices), Some(discounts)) => (extendedprices, discounts),
        _ => {
            return None;
        },
    };
    let (key_values, date_values) = match (
        keys.values_if_null_free(),
        dates.values_if_null_free(),
    ) {
        (Some(key_values), Some(date_values)) => (key_values, date_values),
        _ => {
            return None;
        },
    };
    let ghost expected = keys_in_dates(key_values@, date_values@, start_days, end_days);
    let row_count: usize = view.num_rows();
    let key_of_row = |row: usize| -> (answer: SqlResult<Option<i64>>)
        requires
            row < key_values@.len(),
            key_values@.len() == date_values@.len(),
        ensures
            answer matches Ok(key) && key == keys_in_dates(
                key_values@,
                date_values@,
                start_days,
                end_days,
            )[row as int],
        {
            let date: i32 = date_values[row];
            if date >= start_days && date < end_days {
                Ok(Some(key_values[row]))
            } else {
                Ok(None)
            }
        };
    let mut rows: Vec<(usize, i64, RevenueTerm)> = Vec::new();
    let ghost none = rows@;
    let result = consume_filtered_discounted_revenue_decimal128_vectors_with_payload(
        extendedprices,
        discounts,
        row_count,
        key_of_row,
        &mut rows,
    );
    match result {
        Ok(_) => {
            proof {
                let answers = choose|answers: Seq<Option<i64>>|
                    {
                        &&& answers.len() == row_count
                        &&& #[trigger] answered_by(key_of_row, answers, extendedprices, discounts)
                        &&& rows@ == none + answered_terms(answers, extendedprices, discounts)
                    };
                assert(rows@ =~= answered_terms(answers, extendedprices, discounts));
                lemma_answers_agree(answers, expected, extendedprices, discounts);
            }
            Some(without_rows(rows))
        },
        Err(_) => None,
    }
}

/// The flag of each row that has one and whose date lies in a range, as answers.
pub open spec fn flags_in_dates(
    keys: Vector<i64>,
    dates: Vector<i32>,
    lookup: Map<i64, bool>,
    start_days: i32,
    end_days: i32,
) -> Seq<Option<bool>> {
    Seq::new(
        keys@.len(),
        |row: int|
            match (keys@[row], dates@[row]) {
                (Some(key), Some(date)) => if start_days <= date < end_days {
                    entry_of(lookup, key)
                } else {
                    None
                },
                _ => None,
            },
    )
}

/// The revenue of the rows whose key has a flag and whose date lies in a range, with
/// the flag.
pub fn discounted_revenue_by_i64_bool_lookup(
    keys: &Vector<i64>,
    dates: &Vector<i32>,
    extendedprices: DecimalUnits<'_>,
    discounts: DecimalUnits<'_>,
    start_days: i32,
    end_days: i32,
    lookup: &AdaptiveI64Map<bool>,
) -> (rows: Vec<(usize, bool, RevenueTerm)>)
    requires
        keys.well_formed(),
        dates.well_formed(),
        keys@.len() == dates@.len(),
        revenue_rows_given(extendedprices, discounts, keys@.len() as int),
    ensures
        rows@ == answered_terms(
            flags_in_dates(*keys, *dates, lookup@, start_days, end_days),
            extendedprices,
            discounts,
        ),
{
    let ghost expected = flags_in_dates(*keys, *dates, lookup@, start_days, end_days);
    let row_count: usize = keys.len();
    let flag_of_row = |row: usize| -> (answer: SqlResult<Option<bool>>)
        requires
            row < keys@.len(),
            keys.well_formed(),
            dates.well_formed(),
            keys@.len() == dates@.len(),
        ensures
            answer matches Ok(flag) && flag == flags_in_dates(
                *keys,
                *dates,
                lookup@,
                start_days,
                end_days,
            )[row as int],
        {
            match (keys.get(row), dates.get(row)) {
                (Some(key), Some(date)) => {
                    if date < start_days || date >= end_days {
                        Ok(None)
                    } else {
                        Ok(lookup.get(key))
                    }
                },
                _ => Ok(None),
            }
        };
    let mut rows: Vec<(usize, bool, RevenueTerm)> = Vec::new();
    let ghost none = rows@;
    let result = consume_filtered_discounted_revenue_decimal128_vectors_with_payload(
        extendedprices,
        discounts,
        row_count,
        flag_of_row,
        &mut rows,
    );
    match result {
        Ok(_) => {
            proof {
                let answers = choose|answers: Seq<Option<bool>>|
                    {
                        &&& answers.len() == row_count
                        &&& #[trigger] answered_by(flag_of_row, answers, extendedprices, discounts)
                        &&& rows@ == none + answered_terms(answers, extendedprices, discounts)
                    };
                assert(rows@ =~= answered_terms(answers, extendedprices, discounts));
                lemma_answers_agree(answers, expected, extendedprices, discounts);
            }
            rows
        },
        Err(_) => Vec::new(),
    }
}

/// The keys remembered of payload rows that have revenue, with it.
pub open spec fn payload_terms(keys: Seq<i64>, terms: Seq<Option<RevenueTerm>>) -> Seq<KeyedTerm>
    decreases terms.len(),
{
    if terms.len() == 0 {
        Seq::empty()
    } else {
        let earlier = payload_terms(keys, terms.drop_last());
        match terms.last() {
            Some(term) => earlier.push((keys[terms.len() - 1], term)),
            None => earlier,
        }
    }
}

/// The revenue of a payload batch, by the key that was remembered of each row. More
/// payload rows than were selected are an error.
pub fn late_consume_revenue_payload(
    extendedprices: DecimalUnits<'_>,
    discounts: DecimalUnits<'_>,
    row_count: usize,
    selection: &mut LateSelection<i64>,
    overflow_message: &str,
) -> (result: SqlResult<Vec<KeyedTerm>>)
    requires
        old(selection).well_formed(),
        revenue_rows_given(extendedprices, discounts, row_count as int),
    ensures
        final(selection).well_formed(),
        final(selection).mask@ == old(selection).mask@,
        final(selection).remembered@ == old(selection).remembered@,
        if old(selection).payload_offset + row_count <= old(selection).remembered@.len() {
            &&& result matches Ok(groups) && groups@ == payload_terms(
                old(selection).remembered@.skip(old(selection).payload_offset as int),
                terms_of(extendedprices, discounts, row_count as int),
            )
            &&& final(selection).payload_offset == old(selection).payload_offset + row_count
        } else {
            &&& fails_unsupported(result, overflow_message@)
            &&& final(selection).payload_offset == old(selection).remembered@.len()
        },
{
    let ghost start = selection.payload_offset as int;
    let ghost all = selection.remembered@;
    let ghost keys = all.skip(start);
    let terms = consume_discounted_revenue_decimal128_vectors(extendedprices, discounts, row_count);
    let mut groups: Vec<KeyedTerm> = Vec::new();
    let mut row: usize = 0;
    assert(terms@.take(0) =~= Seq::empty());
    while row < row_count
        invariant
            selection.well_formed(),
            selection.mask@ == old(selection).mask@,
            selection.remembered@ == all,
            all == old(selection).remembered@,
            start == old(selection).payload_offset,
            keys == all.skip(start),
            row <= row_count,
            selection.payload_offset == start + row,
            terms@.len() == row_count,
            groups@ == payload_terms(keys, terms@.take(row as int)),
        decreases row_count - row,
    {
        match selection.next_payload(overflow_message) {
            Ok(key) => {
                assert(terms@.take(row + 1).drop_last() =~= terms@.take(row as int));
                assert(key == keys[row as int]);
                match terms[row] {
                    Some(term) => {
                        groups.push((key, term));
                    },
                    None => {},
                }
            },
            Err(error) => {
                return Err(error);
            },
        }
        row += 1;
    }
    assert(terms@.take(row as int) =~= terms@);
    Ok(groups)
}

/// The keys remembered of payload rows that have both a key and revenue, with it.
pub open spec fn optional_payload_terms(
    keys: Seq<Option<i64>>,
    terms: Seq<Option<RevenueTerm>>,
) -> Seq<KeyedTerm>
    decreases terms.len(),
{
    if terms.len() == 0 {
        Seq::empty()
    } else {
        let earlier = optional_payload_terms(keys, terms.drop_last());
        match (keys[terms.len() - 1], terms.last()) {
            (Some(key), Some(term)) => earlier.push((key, term)),
            _ => earlier,
        }
    }
}

/// The revenue of a payload batch, by the nation that was remembered of each row; a
/// row without one counts for nothing. More payload rows than were selected are an
/// error.
pub fn regional_revenue_late_consume_payload_vector(
    extendedprices: DecimalUnits<'_>,
    discounts: DecimalUnits<'_>,
    row_count: usize,
    selection: &mut LateSelection<Option<i64>>,
) -> (result: SqlResult<Vec<KeyedTerm>>)
    requires
        old(selection).well_formed(),
        revenue_rows_given(extendedprices, discounts, row_count as int),
    ensures
        final(selection).well_formed(),
        final(selection).mask@ == old(selection).mask@,
        final(selection).remembered@ == old(selection).remembered@,
        if old(selection).payload_offset + row_count <= old(selection).remembered@.len() {
            &&& result matches Ok(groups) && groups@ == optional_payload_terms(
                old(selection).remembered@.skip(old(selection).payload_offset as int),
                terms_of(extendedprices, discounts, row_count as int),
            )
            &&& final(selection).payload_offset == old(selection).payload_offset + row_count
        } else {
            &&& fails_unsupported(result, "regional revenue late payload row overflow"@)
            &&& final(selection).payload_offset == old(selection).remembered@.len()
        },
{
    let ghost start = selection.payload_offset as int;
    let ghost all = selection.remembered@;
    let ghost keys = all.skip(start);
    let terms = consume_discounted_revenue_decimal128_vectors(extendedprices, discounts, row_count);
    let mut groups: Vec<KeyedTerm> = Vec::new();
    let mut row: usize = 0;
    assert(terms@.take(0) =~= Seq::empty());
    while row < row_count
        invariant
            selection.well_formed(),
            selection.mask@ == old(selection).mask@,
            selection.remembered@ == all,
            all == old(selection).remembered@,
            start == old(selection).payload_offset,
            keys == all.skip(start),
            row <= row_count,
            selection.payload_offset == start + row,
            terms@.len() == row_count,
            groups@ == optional_payload_terms(keys, terms@.take(row as int)),
        decreases row_count - row,
    {
        match selection.next_payload("regional revenue late payload row overflow") {
            Ok(remembered) => {
                assert(terms@.take(row + 1).drop_last() =~= terms@.take(row as int));
                assert(remembered == keys[row as int]);
                match (remembered, terms[row]) {
                    (Some(nation), Some(term)) => {
                        groups.push((nation, term));
                    },
                    _ => {},
                }
            },
            Err(error) => {
                return Err(error);
            },
        }
        row += 1;
    }
    assert(terms@.take(row as int) =~= terms@);
    Ok(groups)
}

/// The terms of the selected rows, which are the rows of the payload.
pub open spec fn selected_terms<T>(
    answers: Seq<Option<T>>,
    prices: DecimalUnits,
    discounts: DecimalUnits,
) -> Seq<Option<RevenueTerm>>
    decreases answers.len(),
{
    if answers.len() == 0 {
        Seq::empty()
    } else {
        let earlier = selected_terms(answers.drop_last(), prices, discounts);
        if answers.last() is Some {
            earlier.push(term_at(prices, discounts, answers.len() - 1))
        } else {
            earlier
        }
    }
}

proof fn lemma_payload_prefix(keys: Seq<i64>, more: Seq<i64>, terms: Seq<Option<RevenueTerm>>)
    requires
        terms.len() <= keys.len() <= more.len(),
        more.take(keys.len() as int) == keys,
    ensures
        payload_terms(more, terms) == payload_terms(keys, terms),
    decreases terms.len(),
{
    if terms.len() > 0 {
        lemma_payload_prefix(keys, more, terms.drop_last());
        assert(more.take(keys.len() as int)[terms.len() - 1] == more[terms.len() - 1]);
    }
}

proof fn lemma_selected_len<T>(
    answers: Seq<Option<T>>,
    prices: DecimalUnits,
    discounts: DecimalUnits,
)
    ensures
        selected_terms(answers, prices, discounts).len() == remembered(answers).len(),
    decreases answers.len(),
{
    if answers.len() > 0 {
        lemma_selected_len(answers.drop_last(), prices, discounts);
    }
}

/// Selecting rows first and reading their revenue later gives the same keys with the
/// same revenue, in the same order, as reading every row at once.
pub proof fn law_late_revenue_is_direct_revenue(
    answers: Seq<Option<i64>>,
    prices: DecimalUnits,
    discounts: DecimalUnits,
)
    ensures
        payload_terms(remembered(answers), selected_terms(answers, prices, discounts)) =~= keyed(
            answered_terms(answers, prices, discounts),
        ),
    decreases answers.len(),
{
    if answers.len() > 0 {
        let shorter = answers.drop_last();
        law_late_revenue_is_direct_revenue(shorter, prices, discounts);
        let earlier = selected_terms(shorter, prices, discounts);
        lemma_selected_len(shorter, prices, discounts);
        match answers.last() {
            Some(key) => {
                let keys = remembered(shorter);
                let more = keys.push(key);
                assert(more.take(keys.len() as int) =~= keys);
                lemma_payload_prefix(keys, more, earlier);
                let term = term_at(prices, discounts, answers.len() - 1);
                assert(earlier.push(term).drop_last() =~= earlier);
            },
            None => {},
        }
    }
}

proof fn lemma_optional_prefix(
    keys: Seq<Option<i64>>,
    more: Seq<Option<i64>>,
    terms: Seq<Option<RevenueTerm>>,
)
    requires
        terms.len() <= keys.len() <= more.len(),
        more.take(keys.len() as int) == keys,
    ensures
        optional_payload_terms(more, terms) == optional_payload_terms(keys, terms),
    decreases terms.len(),
{
    if terms.len() > 0 {
        lemma_optional_prefix(keys, more, terms.drop_last());
        assert(more.take(keys.len() as int)[terms.len() - 1] == more[terms.len() - 1]);
    }
}

proof fn lemma_wider_selection(
    answers: Seq<Option<i64>>,
    wider: Seq<Option<Option<i64>>>,
    prices: DecimalUnits,
    discounts: DecimalUnits,
)
    requires
        answers.len() == wider.len(),
        forall|row: int|
            0 <= row < answers.len() ==> (match answers[row] {
                Some(value) => #[trigger] wider[row] == Some(Some(value)),
                None => wider[row] == None::<Option<i64>> || wider[row] == Some(None::<i64>),
            }),
    ensures
        optional_payload_terms(remembered(wider), selected_terms(wider, prices, discounts))
            =~= keyed(answered_terms(answers, prices, discounts)),
    decreases answers.len(),
{
    if answers.len() > 0 {
        let last = answers.len() - 1;
        let shorter = wider.drop_last();
        lemma_wider_selection(answers.drop_last(), shorter, prices, discounts);
        assert(wider[last] == wider.last());
        let earlier = selected_terms(shorter, prices, discounts);
        lemma_selected_len(shorter, prices, discounts);
        match wider.last() {
            Some(key) => {
                let keys = remembered(shorter);
                let more = keys.push(key);
                assert(more.take(keys.len() as int) =~= keys);
                lemma_optional_prefix(keys, more, earlier);
                let term = term_at(prices, discounts, last);
                assert(earlier.push(term).drop_last() =~= earlier);
            },
            None => {},
        }
    }
}

/// Closing gaps in a selection changes nothing of the revenue that is read later.
pub proof fn law_coalesced_revenue_is_direct_revenue(
    answers: Seq<Option<i64>>,
    max_gap: int,
    prices: DecimalUnits,
    discounts: DecimalUnits,
)
    ensures
        ({
            let wider = coalesced(answers, max_gap);
            optional_payload_terms(remembered(wider), selected_terms(wider, prices, discounts))
        }) =~= keyed(answered_terms(answers, prices, discounts)),
{
    lemma_wider_selection(answers, coalesced(answers, max_gap), prices, discounts);
}

} // verus!
