//! Payload rows of a late selection, with what was remembered of each.

use vstd::prelude::*;
use crate::columns::Vector;
use crate::discounted_revenue::DecimalUnits;
use crate::error::{fails_unsupported, SqlResult};
use crate::late_selection::LateSelection;
use crate::tables::AdaptiveI64Set;

verus! {

/// The part, the supplier and the quantity of the payload rows that lack nothing.
pub open spec fn quantity_payload(
    partkeys: Seq<i64>,
    suppkeys: Vector<i64>,
    quantities: DecimalUnits,
    rows: int,
) -> Seq<((i64, i64), i128)>
    decreases rows,
{
    if rows <= 0 {
        Seq::empty()
    } else {
        let earlier = quantity_payload(partkeys, suppkeys, quantities, rows - 1);
        match (suppkeys@[rows - 1], quantities.at(rows - 1)) {
            (Some(suppkey), Some(quantity)) => earlier.push(
                ((partkeys[rows - 1], suppkey), quantity as i128),
            ),
            _ => earlier,
        }
    }
}

/// The part, the supplier and the quantity of each payload row that lacks nothing. More
/// payload rows than were selected are an error.
pub fn prefix_lineitem_late_consume_payload(
    suppkeys: &Vector<i64>,
    quantities: DecimalUnits<'_>,
    selection: &mut LateSelection<i64>,
) -> (result: SqlResult<Vec<((i64, i64), i128)>>)
    requires
        suppkeys.well_formed(),
        quantities.well_formed(),
        quantities.rows() == suppkeys@.len(),
        old(selection).well_formed(),
    ensures
        final(selection).well_formed(),
        final(selection).mask@ == old(selection).mask@,
        final(selection).remembered@ == old(selection).remembered@,
        if old(selection).payload_offset + suppkeys@.len() <= old(selection).remembered@.len() {
            &&& result matches Ok(sums) && sums@ == quantity_payload(
                old(selection).remembered@.skip(old(selection).payload_offset as int),
                *suppkeys,
                quantities,
                suppkeys@.len() as int,
            )
            &&& final(selection).payload_offset == old(selection).payload_offset + suppkeys@.len()
        } else {
            &&& fails_unsupported(result, "PrefixSupplierThreshold late payload row overflow"@)
            &&& final(selection).payload_offset == old(selection).remembered@.len()
        },
{
    let ghost start = selection.payload_offset as int;
    let ghost all = selection.remembered@;
    let ghost keys = all.skip(start);
    let rows: usize = suppkeys.len();
    let mut sums: Vec<((i64, i64), i128)> = Vec::new();
    let mut row: usize = 0;
    while row < rows
        invariant
            suppkeys.well_formed(),
            quantities.well_formed(),
            quantities.rows() == suppkeys@.len(),
            rows == suppkeys@.len(),
            selection.well_formed(),
            selection.mask@ == old(selection).mask@,
            selection.remembered@ == all,
            all == old(selection).remembered@,
            start == old(selection).payload_offset,
            keys == all.skip(start),
            row <= rows,
            selection.payload_offset == start + row,
            sums@ == quantity_payload(keys, *suppkeys, quantities, row as int),
        decreases rows - row,
    {
        match selection.next_payload("PrefixSupplierThreshold late payload row overflow") {
            Ok(partkey) => {
                assert(partkey == keys[row as int]);
                match (suppkeys.get(row), quantities.get(row)) {
                    (Some(suppkey), Some(quantity)) => {
                        sums.push(((partkey, suppkey), quantity));
                    },
                    _ => {},
                }
            },
            Err(error) => {
                return Err(error);
            },
        }
        row += 1;
    }
    Ok(sums)
}

/// The payload columns of customers.
pub struct CustomerPayload<'a> {
    pub names: &'a Vector<String>,
    pub acctbals: DecimalUnits<'a>,
    pub nationkeys: &'a Vector<i64>,
    pub addresses: &'a Vector<String>,
    pub phones: &'a Vector<String>,
    pub comments: &'a Vector<String>,
}

impl<'a> CustomerPayload<'a> {
    /// The number of rows.
    pub open spec fn rows(self) -> int {
        self.nationkeys@.len() as int
    }

    /// Whether the columns are in order and of one length.
    pub open spec fn well_formed(self) -> bool {
        &&& self.names.well_formed() && self.names@.len() == self.rows()
        &&& self.acctbals.well_formed() && self.acctbals.rows() == self.rows()
        &&& self.nationkeys.well_formed()
        &&& self.addresses.well_formed() && self.addresses@.len() == self.rows()
        &&& self.phones.well_formed() && self.phones@.len() == self.rows()
        &&& self.comments.well_formed() && self.comments@.len() == self.rows()
    }

    /// Whether a row lacks nothing.
    pub open spec fn complete_at(self, row: int) -> bool {
        &&& self.names.valid_at(row)
        &&& self.acctbals.at(row) is Some
        &&& self.nationkeys.valid_at(row)
        &&& self.addresses.valid_at(row)
        &&& self.phones.valid_at(row)
        &&& self.comments.valid_at(row)
    }

    /// The rows that lack nothing and whose customer is wanted, with the customer.
    pub open spec fn customers(self, custkeys: Seq<i64>, wanted: Set<i64>, rows: int) -> Seq<
        (i64, usize),
    >
        decreases rows,
    {
        if rows <= 0 {
            Seq::empty()
        } else {
            let earlier = self.customers(custkeys, wanted, rows - 1);
            if wanted.contains(custkeys[rows - 1]) && self.complete_at(rows - 1) {
                earlier.push((custkeys[rows - 1], (rows - 1) as usize))
            } else {
                earlier
            }
        }
    }

    /// Whether a row lacks nothing.
    fn is_complete(&self, row: usize) -> (complete: bool)
        requires
            self.well_formed(),
            row < self.rows(),
        ensures
            complete == self.complete_at(row as int),
    {
        !self.names.is_null(row) && self.acctbals.get(row).is_some() && !self.nationkeys.is_null(row)
            && !self.addresses.is_null(row) && !self.phones.is_null(row)
            && !self.comments.is_null(row)
    }
}

/// The payload rows that lack nothing and whose customer is wanted, with the customer.
/// More payload rows than were selected are an error.
pub fn customer_late_consume_payload(
    payload: &CustomerPayload<'_>,
    customer_keys: &AdaptiveI64Set,
    selection: &mut LateSelection<i64>,
) -> (result: SqlResult<Vec<(i64, usize)>>)
    requires
        payload.well_formed(),
        old(selection).well_formed(),
    ensures
        final(selection).well_formed(),
        final(selection).mask@ == old(selection).mask@,
        final(selection).remembered@ == old(selection).remembered@,
        if old(selection).payload_offset + payload.rows() <= old(selection).remembered@.len() {
            &&& result matches Ok(customers) && customers@ == payload.customers(
                old(selection).remembered@.skip(old(selection).payload_offset as int),
                customer_keys@,
                payload.rows(),
            )
            &&& final(selection).payload_offset == old(selection).payload_offset + payload.rows()
        } else {
            &&& fails_unsupported(result, "Q10 customer payload row overflow"@)
            &&& final(selection).payload_offset == old(selection).remembered@.len()
        },
{
    let ghost start = selection.payload_offset as int;
    let ghost all = selection.remembered@;
    let ghost keys = all.skip(start);
    let rows: usize = payload.nationkeys.len();
    let mut customers: Vec<(i64, usize)> = Vec::new();
    let mut row: usize = 0;
    while row < rows
        invariant
            payload.well_formed(),
            rows == payload.rows(),
            selection.well_formed(),
            selection.mask@ == old(selection).mask@,
            selection.remembered@ == all,
            all == old(selection).remembered@,
            start == old(selection).payload_offset,
            keys == all.skip(start),
            row <= rows,
            selection.payload_offset == start + row,
            customers@ == payload.customers(keys, customer_keys@, row as int),
        decreases rows - row,
    {
        match selection.next_payload("Q10 customer payload row overflow") {
            Ok(custkey) => {
                assert(custkey == keys[row as int]);
                if customer_keys.contains(custkey) && payload.is_complete(row) {
                    customers.push((custkey, row));
                }
            },
            Err(error) => {
                return Err(error);
            },
        }
        row += 1;
    }
    Ok(customers)
}

} // verus!
