//! The year of each order.

use vstd::prelude::*;
use crate::calendar::{day_in_year, law_day_in_one_year, year_of_day};
use crate::columns::{batch_column, date32_value, numeric_i64_value, ColumnArray, RecordBatch};
use crate::error::{SqlError, SqlResult};
use crate::tables::{entries_of, entry_of, AdaptiveI64Map};

verus! {

/// The year that a day lies in.
pub open spec fn year_of(day: i32) -> i32 {
    choose|year: i32| day_in_year(day as int, year as int)
}

/// The year of a day.
fn year(day: i32) -> (year: i32)
    ensures
        year == year_of(day),
{
    let year: i32 = year_of_day(day);
    proof {
        law_day_in_one_year(day as int, year as int, year_of(day) as int);
    }
    year
}

/// Orders with their years, as read from some batches.
pub struct OrderYearPartial {
    pub rows: Vec<(i64, i32)>,
    pub min_key: i64,
    pub max_key: i64,
    pub fallback_required: bool,
}

impl OrderYearPartial {
    /// Whether the extent is that of the keys that are not negative, and a negative
    /// key is noted.
    pub open spec fn well_formed(self) -> bool {
        &&& self.fallback_required <==> exists|index: int|
            0 <= index < self.rows@.len() && (#[trigger] self.rows@[index]).0 < 0
        &&& forall|index: int|
            0 <= index < self.rows@.len() && (#[trigger] self.rows@[index]).0 >= 0 ==> self.min_key
                <= self.rows@[index].0 <= self.max_key
        &&& self.min_key <= self.max_key ==> 0 <= self.min_key && (exists|index: int|
            0 <= index < self.rows@.len() && (#[trigger] self.rows@[index]).0 == self.min_key) && (
        exists|index: int|
            0 <= index < self.rows@.len() && (#[trigger] self.rows@[index]).0 == self.max_key)
        &&& self.min_key > self.max_key ==> self.min_key == i64::MAX && self.max_key == i64::MIN
    }

    /// No order yet.
    pub fn new() -> (partial: OrderYearPartial)
        ensures
            partial.well_formed(),
            partial.rows@ == Seq::<(i64, i32)>::empty(),
    {
        OrderYearPartial {
            rows: Vec::new(),
            min_key: i64::MAX,
            max_key: i64::MIN,
            fallback_required: false,
        }
    }

    /// Adds an order.
    pub fn push(&mut self, orderkey: i64, year: i32)
        requires
            old(self).well_formed(),
        ensures
            final(self).well_formed(),
            final(self).rows@ == old(self).rows@.push((orderkey, year)),
    {
        let ghost before = *self;
        if orderkey < 0 {
            self.fallback_required = true;
        } else {
            if orderkey < self.min_key {
                self.min_key = orderkey;
            }
            if orderkey > self.max_key {
                self.max_key = orderkey;
            }
        }
        self.rows.push((orderkey, year));
        proof {
            let rows = self.rows@;
            assert(rows[before.rows@.len() as int] == (orderkey, year));
            assert(forall|index: int|
                0 <= index < before.rows@.len() ==> #[trigger] rows[index] == before.rows@[index]);
            if before.fallback_required {
                let index = choose|index: int|
                    0 <= index < before.rows@.len() && (#[trigger] before.rows@[index]).0 < 0;
                assert(rows[index].0 < 0);
            }
            if before.min_key <= before.max_key {
                let low = choose|index: int|
                    0 <= index < before.rows@.len() && (#[trigger] before.rows@[index]).0
                        == before.min_key;
                let high = choose|index: int|
                    0 <= index < before.rows@.len() && (#[trigger] before.rows@[index]).0
                        == before.max_key;
                assert(rows[low].0 == before.min_key);
                assert(rows[high].0 == before.max_key);
            }
        }
    }
}

/// Whether a row of a key and a date column cannot be read.
pub open spec fn dated_unreadable(keys: ColumnArray, dates: ColumnArray, row: int) -> bool {
    (!keys.null_at(row) && !keys.is_integer()) || (!dates.null_at(row) && !dates.is_date())
}

/// The orders of the first `rows` rows with their years.
pub open spec fn dated_orders(keys: ColumnArray, dates: ColumnArray, rows: int) -> Seq<(i64, i32)>
    decreases rows,
{
    if rows <= 0 {
        Seq::empty()
    } else if !keys.null_at(rows - 1) && !dates.null_at(rows - 1) {
        dated_orders(keys, dates, rows - 1).push(
            (keys.integer_at(rows - 1) as i64, year_of(dates.day_at(rows - 1))),
        )
    } else {
        dated_orders(keys, dates, rows - 1)
    }
}

/// Why the orders of a batch cannot be read: a column is missing, or the first row
/// that cannot be read has no integer key or else no date.
pub open spec fn orders_error(batch: RecordBatch, error: SqlError) -> bool {
    if !batch.has_column("o_orderkey"@) {
        error.is_unknown_column("o_orderkey"@)
    } else if !batch.has_column("o_orderdate"@) {
        error.is_unknown_column("o_orderdate"@)
    } else {
        let keys = batch.column_named("o_orderkey"@);
        let dates = batch.column_named("o_orderdate"@);
        exists|row: int|
            0 <= row < batch.num_rows && #[trigger] dated_unreadable(keys, dates, row) && (forall|
                earlier: int,
            |
                0 <= earlier < row ==> !#[trigger] dated_unreadable(keys, dates, earlier))
                && error.is_unsupported(
                if !keys.null_at(row) && !keys.is_integer() {
                    "expected integer column, got "@ + keys.type_label@
                } else {
                    "expected date column, got "@ + dates.type_label@
                },
            )
    }
}

/// Whether the orders of a batch can be read.
pub open spec fn orders_readable(batch: RecordBatch) -> bool {
    &&& batch.has_column("o_orderkey"@)
    &&& batch.has_column("o_orderdate"@)
    &&& forall|row: int|
        0 <= row < batch.num_rows ==> !#[trigger] dated_unreadable(
            batch.column_named("o_orderkey"@),
            batch.column_named("o_orderdate"@),
            row,
        )
}

/// Without an integer key or a date, no order is read.
proof fn lemma_no_orders(keys: ColumnArray, dates: ColumnArray, rows: int)
    requires
        !keys.is_integer() || !dates.is_date(),
        forall|row: int| 0 <= row < rows ==> !#[trigger] dated_unreadable(keys, dates, row),
    ensures
        dated_orders(keys, dates, rows) =~= Seq::empty(),
    decreases rows,
{
    if rows > 0 {
        assert(!dated_unreadable(keys, dates, rows - 1));
        lemma_no_orders(keys, dates, rows - 1);
    }
}

/// Adds the orders of a batch with their years.
pub fn order_years_partial_batch_into(
    batch: &RecordBatch,
    partial: &mut OrderYearPartial,
) -> (result:
    SqlResult<()>)
    requires
        batch.well_formed(),
        old(partial).well_formed(),
    ensures
        final(partial).well_formed(),
        match result {
            Ok(_) => orders_readable(*batch) && final(partial).rows@ == old(partial).rows@
                + dated_orders(
                batch.column_named("o_orderkey"@),
                batch.column_named("o_orderdate"@),
                batch.num_rows as int,
            ),
            Err(error) => !orders_readable(*batch) && orders_error(*batch, error) && final(
                partial).rows@ == old(partial).rows@,
        },
{
    let keys = match batch_column(batch, "o_orderkey") {
        Ok(keys) => keys,
        Err(error) => {
            return Err(error);
        },
    };
    let dates = match batch_column(batch, "o_orderdate") {
        Ok(dates) => dates,
        Err(error) => {
            return Err(error);
        },
    };
    let ghost before = partial.rows@;
    let mut row: usize = 0;
    assert(partial.rows@ =~= before + dated_orders(*keys, *dates, 0));
    while row < batch.num_rows
        invariant
            batch.has_column("o_orderkey"@),
            batch.has_column("o_orderdate"@),
            *keys == batch.column_named("o_orderkey"@),
            *dates == batch.column_named("o_orderdate"@),
            keys.well_formed(),
            dates.well_formed(),
            keys.rows() == batch.num_rows,
            dates.rows() == batch.num_rows,
            before == old(partial).rows@,
            partial.well_formed(),
            row <= batch.num_rows,
            forall|earlier: int|
                0 <= earlier < row ==> !#[trigger] dated_unreadable(*keys, *dates, earlier),
            partial.rows@ == before + dated_orders(*keys, *dates, row as int),
        decreases batch.num_rows - row,
    {
        let key: Option<i64> = match numeric_i64_value(keys, row) {
            Ok(key) => key,
            Err(error) => {
                proof {
                    assert(dated_unreadable(*keys, *dates, row as int));
                    lemma_no_orders(*keys, *dates, row as int);
                    assert(partial.rows@ =~= before);
                }
                return Err(error);
            },
        };
        let day: Option<i32> = match date32_value(dates, row) {
            Ok(day) => day,
            Err(error) => {
                proof {
                    assert(dated_unreadable(*keys, *dates, row as int));
                    lemma_no_orders(*keys, *dates, row as int);
                    assert(partial.rows@ =~= before);
                }
                return Err(error);
            },
        };
        assert(!dated_unreadable(*keys, *dates, row as int));
        match (key, day) {
            (Some(key), Some(day)) => {
                partial.push(key, year(day));
            },
            _ => {},
        }
        assert(partial.rows@ =~= before + dated_orders(*keys, *dates, row + 1));
        row += 1;
    }
    Ok(())
}

/// The years of orders: by key from a base where the keys are dense, in a map
/// otherwise.
pub enum OrderYears {
    Dense { values: Vec<i32>, base_key: i64, missing: i32 },
    Fallback(AdaptiveI64Map<i32>),
}

/// What dense years hold for a key.
pub open spec fn dense_year(
    values: Seq<i32>,
    base_key: i64,
    missing: i32,
    key: i64,
) -> Option<i32> {
    if 0 <= key - base_key <= i64::MAX && key - base_key < values.len() && values[key - base_key]
        != missing {
        Some(values[key - base_key])
    } else {
        None
    }
}

impl View for OrderYears {
    type V = Map<i64, i32>;

    /// The year of each order.
    open spec fn view(&self) -> Map<i64, i32> {
        match self {
            OrderYears::Dense { values, base_key, missing } => Map::new(
                |key: i64| dense_year(values@, *base_key, *missing, key) is Some,
                |key: i64| dense_year(values@, *base_key, *missing, key)->0,
            ),
            OrderYears::Fallback(years) => years@,
        }
    }
}

/// What dense years hold for a key.
pub fn dense_year_get(
    values: &[i32],
    base_key: i64,
    missing: i32,
    orderkey: i64,
) -> (year: Option<i32>)
    ensures
        year == dense_year(values@, base_key, missing, orderkey),
{
    match orderkey.checked_sub(base_key) {
        None => None,
        Some(distance) => {
            if distance < 0 || distance as u64 >= values.len() as u64 {
                return None;
            }
            let value: i32 = values[distance as usize];
            if value != missing {
                Some(value)
            } else {
                None
            }
        },
    }
}

impl OrderYears {
    /// The year of an order.
    pub fn get(&self, orderkey: i64) -> (year: Option<i32>)
        ensures
            year == entry_of(self@, orderkey),
    {
        match self {
            OrderYears::Dense { values, base_key, missing } => dense_year_get(
                values.as_slice(),
                *base_key,
                *missing,
                orderkey,
            ),
            OrderYears::Fallback(years) => years.get(orderkey),
        }
    }
}

/// The orders of several partial results, in order.
pub open spec fn joined_orders(partials: Seq<OrderYearPartial>) -> Seq<(i64, i32)>
    decreases partials.len(),
{
    if partials.len() == 0 {
        Seq::empty()
    } else {
        joined_orders(partials.drop_last()) + partials.last().rows@
    }
}

/// The extent of the keys of several partial results.
#[derive(Clone, Copy, Debug, PartialEq, Eq, Structural)]
pub struct OrderExtent {
    pub min_key: i64,
    pub max_key: i64,
    pub fallback_required: bool,
}

impl OrderExtent {
    /// Whether every key of an order lies within, unless one is negative.
    pub open spec fn holds(self, orders: Seq<(i64, i32)>) -> bool {
        &&& self.fallback_required <==> exists|index: int|
            0 <= index < orders.len() && (#[trigger] orders[index]).0 < 0
        &&& forall|index: int|
            0 <= index < orders.len() && (#[trigger] orders[index]).0 >= 0 ==> self.min_key
                <= orders[index].0 <= self.max_key
        &&& self.min_key <= self.max_key ==> 0 <= self.min_key
    }
}

/// The orders in the first part of a list of partial results come first.
proof fn lemma_joined_orders(partials: Seq<OrderYearPartial>, count: int)
    requires
        0 <= count < partials.len(),
    ensures
        joined_orders(partials.take(count + 1)) == joined_orders(partials.take(count))
            + partials[count].rows@,
{
    assert(partials.take(count + 1).drop_last() =~= partials.take(count));
}

/// The extent of the keys of several partial results.
pub fn order_extent(partials: &[OrderYearPartial]) -> (extent: OrderExtent)
    requires
        forall|index: int|
            0 <= index < partials@.len() ==> (#[trigger] partials@[index]).well_formed(),
    ensures
        extent.holds(joined_orders(partials@)),
{
    let mut extent = OrderExtent {
        min_key: i64::MAX,
        max_key: i64::MIN,
        fallback_required: false,
    };
    let mut index: usize = 0;
    assert(joined_orders(partials@.take(0)) =~= Seq::empty());
    while index < partials.len()
        invariant
            forall|index: int|
                0 <= index < partials@.len() ==> (#[trigger] partials@[index]).well_formed(),
            index <= partials@.len(),
            extent.holds(joined_orders(partials@.take(index as int))),
            extent.min_key > extent.max_key ==> extent.min_key == i64::MAX && extent.max_key
                == i64::MIN,
        decreases partials@.len() - index,
    {
        let ghost before = extent;
        let partial = &partials[index];
        if partial.fallback_required {
            extent.fallback_required = true;
        }
        if partial.min_key <= partial.max_key {
            if partial.min_key < extent.min_key {
                extent.min_key = partial.min_key;
            }
            if partial.max_key > extent.max_key {
                extent.max_key = partial.max_key;
            }
        }
        proof {
            lemma_joined_orders(partials@, index as int);
            let shorter = joined_orders(partials@.take(index as int));
            let longer = joined_orders(partials@.take(index + 1));
            let added = partial.rows@;
            assert(forall|place: int| 0 <= place < shorter.len() ==> #[trigger] longer[place] == shorter[place]);
            assert(forall|place: int|
                0 <= place < added.len() ==> #[trigger] added[place] == longer[shorter.len() + place]);
            if before.fallback_required {
                let place = choose|place: int|
                    0 <= place < shorter.len() && (#[trigger] shorter[place]).0 < 0;
                assert(longer[place].0 < 0);
            }
            if partial.fallback_required {
                let place = choose|place: int| 0 <= place < added.len() && (#[trigger] added[place]).0 < 0;
                assert(longer[shorter.len() + place].0 < 0);
            }
            assert forall|place: int| 0 <= place < longer.len() && (#[trigger] longer[place]).0
                >= 0 implies extent.min_key <= longer[place].0 <= extent.max_key by {
                if place < shorter.len() {
                    assert(longer[place] == shorter[place]);
                } else {
                    assert(longer[place] == added[place - shorter.len()]);
                }
            }
            if exists|place: int| 0 <= place < longer.len() && (#[trigger] longer[place]).0 < 0 {
                let place = choose|place: int| 0 <= place < longer.len() && (#[trigger] longer[place]).0 < 0;
                if place < shorter.len() {
                    assert(shorter[place].0 < 0);
                } else {
                    assert(added[place - shorter.len()].0 < 0);
                }
            }
        }
        index += 1;
    }
    assert(partials@.take(index as int) =~= partials@);
    extent
}

/// Dense years once an order is added.
proof fn lemma_dense_insert(
    values: Seq<i32>,
    base_key: i64,
    missing: i32,
    key: i64,
    year: i32,
    other: i64,
)
    requires
        0 <= key - base_key < values.len(),
        key - base_key <= i64::MAX,
        year != missing,
    ensures
        dense_year(
            values.update(key - base_key, year),
            base_key,
            missing,
            other,
        ) == (if other == key {
            Some(year)
        } else {
            dense_year(values, base_key, missing, other)
        }),
{
}

/// The years of the orders of several partial results; a later order with the same
/// key wins.
///
/// They are kept by key where `dense_allowed` says so, every key is not negative and
/// the extent takes at most `max_entries` entries.
pub fn order_years_from_partials(
    partials: &[OrderYearPartial],
    dense_allowed: bool,
    max_entries: usize,
    max_dense_key: usize,
) -> (years: OrderYears)
    requires
        forall|index: int|
            0 <= index < partials@.len() ==> (#[trigger] partials@[index]).well_formed(),
        forall|index: int|
            0 <= index < joined_orders(partials@).len() ==> (#[trigger] joined_orders(
                partials@,
            )[index]).1 != i32::MIN,
    ensures
        years@ == entries_of(joined_orders(partials@)),
{
    let extent = order_extent(partials);
    let ghost all = joined_orders(partials@);
    let mut dense = !extent.fallback_required && extent.min_key <= extent.max_key && dense_allowed;
    let mut width: u64 = 0;
    if dense {
        width = (extent.max_key - extent.min_key) as u64 + 1;
        if width > max_entries as u64 {
            dense = false;
        }
    }
    let mut values: Vec<i32> = Vec::new();
    let mut fallback: AdaptiveI64Map<i32> = AdaptiveI64Map::new_dense(max_dense_key);
    if dense {
        while (values.len() as u64) < width
            invariant
                values@.len() <= width <= max_entries,
                forall|index: int| 0 <= index < values@.len() ==> values@[index] == i32::MIN,
            decreases width - values@.len(),
        {
            values.push(i32::MIN);
        }
    }
    let ghost missing = i32::MIN;
    let ghost base = extent.min_key;
    assert(forall|key: i64| !dense || dense_year(values@, base, missing, key) is None);
    let mut index: usize = 0;
    assert(joined_orders(partials@.take(0)) =~= Seq::empty());
    assert(fallback@ =~= entries_of(joined_orders(partials@.take(0))));
    let ghost no_entries: Map<i64, i32> = entries_of(joined_orders(partials@.take(0)));
    assert(forall|key: i64| entry_of(no_entries, key) is None);
    while index < partials.len()
        invariant
            all == joined_orders(partials@),
            extent.holds(all),
            forall|place: int| 0 <= place < all.len() ==> (#[trigger] all[place]).1 != i32::MIN,
            missing == i32::MIN,
            base == extent.min_key,
            index <= partials@.len(),
            dense ==> !extent.fallback_required && extent.min_key <= extent.max_key && values@.len()
                == extent.max_key - extent.min_key + 1,
            dense ==> forall|key: i64| #[trigger]
                dense_year(values@, base, missing, key) == entry_of(
                    entries_of(joined_orders(partials@.take(index as int))),
                    key,
                ),
            !dense ==> fallback@ == entries_of(joined_orders(partials@.take(index as int))),
        decreases partials@.len() - index,
    {
        let rows = &partials[index].rows;
        let ghost earlier = joined_orders(partials@.take(index as int));
        proof {
            lemma_joined_orders(partials@, index as int);
            lemma_joined_prefix(partials@, index + 1);
            assert(partials@.take(index + 1).last().rows@ == rows@);
        }
        let mut row: usize = 0;
        assert(earlier + rows@.take(0) =~= earlier);
        while row < rows.len()
            invariant
                extent.holds(all),
                forall|place: int| 0 <= place < all.len() ==> (#[trigger] all[place]).1 != i32::MIN,
                missing == i32::MIN,
                base == extent.min_key,
                row <= rows@.len(),
                earlier.len() + rows@.len() <= all.len(),
                forall|place: int|
                    0 <= place < rows@.len() ==> all[earlier.len() + place] == #[trigger] rows@[place],
                dense ==> !extent.fallback_required && extent.min_key <= extent.max_key
                    && values@.len() == extent.max_key - extent.min_key + 1,
                dense ==> forall|key: i64| #[trigger]
                    dense_year(values@, base, missing, key) == entry_of(
                        entries_of(earlier + rows@.take(row as int)),
                        key,
                    ),
                !dense ==> fallback@ == entries_of(earlier + rows@.take(row as int)),
            decreases rows@.len() - row,
        {
            let (key, year): (i64, i32) = rows[row];
            let ghost known = earlier + rows@.take(row as int);
            let ghost longer = earlier + rows@.take(row + 1);
            proof {
                assert(longer =~= known.push((key, year)));
                assert(longer.drop_last() =~= known);
                let place = earlier.len() + row;
                assert(all[place] == rows@[row as int]);
                assert(all[place].1 != i32::MIN);
                assert(entries_of(longer) == entries_of(known).insert(key, year));
            }
            if dense {
                let ghost before = values@;
                assert(key >= 0);
                assert(key - extent.min_key < values.len());
                let slot: usize = (key - extent.min_key) as usize;
                assert(slot == key - base);
                values[slot] = year;
                assert forall|other: i64| #[trigger] dense_year(values@, base, missing, other)
                    == entry_of(entries_of(longer), other) by {
                    lemma_dense_insert(before, base, missing, key, year, other);
                    assert(dense_year(before, base, missing, other) == entry_of(
                        entries_of(known),
                        other,
                    ));
                }
            } else {
                fallback.insert(key, year);
            }
            row += 1;
        }
        assert(rows@.take(row as int) =~= rows@);
        index += 1;
    }
    assert(partials@.take(index as int) =~= partials@);
    if dense {
        let years = OrderYears::Dense { values, base_key: extent.min_key, missing: i32::MIN };
        proof {
            let expected = entries_of(all);
            assert forall|key: i64| years@.contains_key(key) == expected.contains_key(key) by {
                assert(dense_year(values@, base, missing, key) == entry_of(expected, key));
            }
            assert forall|key: i64| years@.contains_key(key) implies years@[key] == expected[key] by {
                assert(dense_year(values@, base, missing, key) == entry_of(expected, key));
            }
            assert(years@ =~= expected);
        }
        years
    } else {
        OrderYears::Fallback(fallback)
    }
}

/// The orders of the first partial results are those that all start with.
proof fn lemma_joined_prefix(partials: Seq<OrderYearPartial>, count: int)
    requires
        0 < count <= partials.len(),
    ensures
        ({
            let earlier = joined_orders(partials.take(count - 1));
            let rows = partials[count - 1].rows@;
            let all = joined_orders(partials);
            &&& earlier.len() + rows.len() <= all.len()
            &&& forall|place: int|
                0 <= place < rows.len() ==> all[earlier.len() + place] == #[trigger] rows[place]
        }),
    decreases partials.len(),
{
    if count == partials.len() {
        assert(partials.take(count - 1) =~= partials.drop_last());
    } else {
        lemma_joined_prefix(partials.drop_last(), count);
        assert(partials.drop_last().take(count - 1) =~= partials.take(count - 1));
    }
}

} // verus!
