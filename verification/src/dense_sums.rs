//! Sums of discounted revenue by a dense integer key.
//!
//! Revenue is summed in unscaled decimal units: the price times one minus the
//! discount, both taken as the integers that store them. Sums are kept in 64 bits
//! and wrap; a test on the ranges of the columns shows beforehand that they cannot.

use vstd::prelude::*;
use crate::columns::{BatchView, ColumnData, Vector};
use crate::error::{fails_unsupported, SqlError, SqlResult};

verus! {

/// The range of a column within a row group, as the file records it.
#[derive(Clone, Copy, Debug, PartialEq, Eq, Structural)]
pub struct PrimitiveRowGroupMinMax {
    pub min: i128,
    pub max: i128,
    pub null_count: Option<u64>,
    pub rows: usize,
}

/// Ten to the given power.
pub open spec fn power_of_ten(exponent: int) -> int
    decreases exponent,
{
    if exponent <= 0 {
        1
    } else {
        10 * power_of_ten(exponent - 1)
    }
}

/// The number of units in one at a decimal scale; `None` for a negative scale or
/// where it does not fit.
pub fn decimal_raw_scale_i64(scale: i8) -> (units: Option<i64>)
    ensures
        match units {
            Some(units) => scale >= 0 && units == power_of_ten(scale as int),
            None => scale < 0 || power_of_ten(scale as int) > i64::MAX,
        },
{
    if scale < 0 {
        return None;
    }
    let mut units: i64 = 1;
    let mut done: i8 = 0;
    while done < scale
        invariant
            0 <= done <= scale,
            units == power_of_ten(done as int),
            units >= 1,
        decreases scale - done,
    {
        if units > i64::MAX / 10 {
            proof {
                lemma_power_of_ten_grows(done + 1, scale as int);
            }
            return None;
        }
        units = units * 10;
        done += 1;
    }
    Some(units)
}

proof fn lemma_power_of_ten_grows(smaller: int, larger: int)
    requires
        0 <= smaller <= larger,
    ensures
        1 <= power_of_ten(smaller) <= power_of_ten(larger),
    decreases larger,
{
    if smaller < larger {
        lemma_power_of_ten_grows(smaller, larger - 1);
    } else if smaller > 0 {
        lemma_power_of_ten_grows(smaller - 1, larger - 1);
    }
}

/// The distance from zero.
pub open spec fn magnitude(value: int) -> int {
    if value < 0 {
        -value
    } else {
        value
    }
}

/// Whether `bound` is the largest of the given magnitudes at the ends of the
/// ranges, zero where there are none.
pub open spec fn is_largest(
    ranges: Seq<PrimitiveRowGroupMinMax>,
    distance: spec_fn(int) -> int,
    bound: int,
) -> bool {
    &&& 0 <= bound
    &&& forall|index: int|
        0 <= index < ranges.len() ==> distance((#[trigger] ranges[index]).min as int) <= bound
            && distance(ranges[index].max as int) <= bound
    &&& bound == 0 || exists|index: int|
        0 <= index < ranges.len() && (distance((#[trigger] ranges[index]).min as int) == bound
            || distance(ranges[index].max as int) == bound)
}

/// The rows of all row groups.
pub open spec fn total_rows(ranges: Seq<PrimitiveRowGroupMinMax>) -> int
    decreases ranges.len(),
{
    if ranges.len() == 0 {
        0
    } else {
        total_rows(ranges.drop_last()) + ranges.last().rows
    }
}

/// The distance of a unit discount from the whole.
pub open spec fn from_whole(discount_factor: i64) -> spec_fn(int) -> int {
    |discount: int| magnitude(discount_factor - discount)
}

/// The distance from zero.
pub open spec fn from_zero() -> spec_fn(int) -> int {
    |value: int| magnitude(value)
}

/// Whether the magnitudes of all range ends can be computed in 128 bits.
pub open spec fn ranges_measurable(
    extendedprice_ranges: Seq<PrimitiveRowGroupMinMax>,
    discount_ranges: Seq<PrimitiveRowGroupMinMax>,
    discount_factor: i64,
) -> bool {
    &&& forall|index: int|
        0 <= index < extendedprice_ranges.len() ==> (#[trigger] extendedprice_ranges[index]).min
            > i128::MIN && extendedprice_ranges[index].max > i128::MIN
    &&& forall|index: int|
        0 <= index < discount_ranges.len() ==> magnitude(
            discount_factor - (#[trigger] discount_ranges[index]).min,
        ) <= i128::MAX && magnitude(discount_factor - discount_ranges[index].max) <= i128::MAX
}

/// Whether a sum over all rows stays within 64 bits: the largest price times the
/// largest share left after discount, once per row.
pub open spec fn revenue_sum_fits(
    key_ranges: Seq<PrimitiveRowGroupMinMax>,
    largest_price: int,
    largest_share: int,
) -> bool {
    &&& total_rows(key_ranges) <= i128::MAX
    &&& largest_price * largest_share <= i128::MAX
    &&& largest_price * largest_share * total_rows(key_ranges) <= i64::MAX
}

proof fn lemma_total_rows_take(ranges: Seq<PrimitiveRowGroupMinMax>, count: int)
    requires
        0 <= count <= ranges.len(),
    ensures
        0 <= total_rows(ranges.take(count)) <= total_rows(ranges),
    decreases ranges.len(),
{
    if count == ranges.len() {
        assert(ranges.take(count) =~= ranges);
        if count > 0 {
            lemma_total_rows_take(ranges.drop_last(), count - 1);
        }
    } else {
        lemma_total_rows_take(ranges.drop_last(), count);
        assert(ranges.drop_last().take(count) =~= ranges.take(count));
    }
}

/// The largest magnitude of `base - end` over the ends of the ranges.
fn largest_distance(ranges: &[PrimitiveRowGroupMinMax], base: i128) -> (bound: i128)
    requires
        forall|index: int|
            0 <= index < ranges@.len() ==> magnitude(base - (#[trigger] ranges@[index]).min)
                <= i128::MAX && magnitude(base - ranges@[index].max) <= i128::MAX,
    ensures
        is_largest(ranges@, |value: int| magnitude(base - value), bound as int),
{
    let ghost distance = |value: int| magnitude(base - value);
    let mut bound: i128 = 0;
    let mut index: usize = 0;
    while index < ranges.len()
        invariant
            forall|index: int|
                0 <= index < ranges@.len() ==> magnitude(base - (#[trigger] ranges@[index]).min)
                    <= i128::MAX && magnitude(base - ranges@[index].max) <= i128::MAX,
            distance == (|value: int| magnitude(base - value)),
            index <= ranges@.len(),
            0 <= bound,
            forall|done: int|
                0 <= done < index ==> distance((#[trigger] ranges@[done]).min as int) <= bound
                    && distance(ranges@[done].max as int) <= bound,
            bound == 0 || exists|done: int|
                0 <= done < index && (distance((#[trigger] ranges@[done]).min as int) == bound
                    || distance(ranges@[done].max as int) == bound),
        decreases ranges@.len() - index,
    {
        let range: PrimitiveRowGroupMinMax = ranges[index];
        assert(magnitude(base - ranges@[index as int].min) <= i128::MAX);
        let low: i128 = base - range.min;
        let low: i128 = if low < 0 {
            -low
        } else {
            low
        };
        let high: i128 = base - range.max;
        let high: i128 = if high < 0 {
            -high
        } else {
            high
        };
        assert(distance(ranges@[index as int].min as int) == low);
        assert(distance(ranges@[index as int].max as int) == high);
        if low > bound {
            bound = low;
        }
        if high > bound {
            bound = high;
        }
        index += 1;
    }
    bound
}

/// The rows of all row groups, `None` where their number is too large.
fn count_rows(ranges: &[PrimitiveRowGroupMinMax]) -> (rows: Option<i128>)
    ensures
        match rows {
            Some(rows) => rows == total_rows(ranges@),
            None => total_rows(ranges@) > i128::MAX,
        },
{
    let mut rows: i128 = 0;
    let mut index: usize = 0;
    assert(ranges@.take(0) =~= Seq::empty());
    while index < ranges.len()
        invariant
            index <= ranges@.len(),
            0 <= rows,
            rows == total_rows(ranges@.take(index as int)),
        decreases ranges@.len() - index,
    {
        proof {
            lemma_total_rows_take(ranges@, index + 1);
            assert(ranges@.take(index + 1).drop_last() =~= ranges@.take(index as int));
        }
        match rows.checked_add(ranges[index].rows as i128) {
            Some(sum) => {
                rows = sum;
            },
            None => {
                return None;
            },
        }
        index += 1;
    }
    assert(ranges@.take(index as int) =~= ranges@);
    Some(rows)
}

/// Whether a sum of discounted revenue over all rows stays within 64 bits, by the
/// ranges of the columns.
pub fn dense_atomic_discounted_revenue_sum_fits(
    key_ranges: &[PrimitiveRowGroupMinMax],
    extendedprice_ranges: &[PrimitiveRowGroupMinMax],
    discount_ranges: &[PrimitiveRowGroupMinMax],
    discount_factor: i64,
) -> (fits: bool)
    requires
        ranges_measurable(extendedprice_ranges@, discount_ranges@, discount_factor),
    ensures
        exists|price: int, share: int|
            is_largest(extendedprice_ranges@, from_zero(), price) && #[trigger] is_largest(
                discount_ranges@,
                from_whole(discount_factor),
                share,
            ) && fits == #[trigger] revenue_sum_fits(key_ranges@, price, share),
{
    assert forall|index: int| 0 <= index < extendedprice_ranges@.len() implies magnitude(
        0 - (#[trigger] extendedprice_ranges@[index]).min,
    ) <= i128::MAX && magnitude(0 - extendedprice_ranges@[index].max) <= i128::MAX by {}
    let price: i128 = largest_distance(extendedprice_ranges, 0);
    let share: i128 = largest_distance(discount_ranges, discount_factor as i128);
    proof {
        let zero = |value: int| magnitude(0 - value);
        assert forall|value: int| zero(value) == #[trigger] from_zero()(value) by {}
        assert(is_largest(extendedprice_ranges@, from_zero(), price as int));
        let whole = |value: int| magnitude(discount_factor as i128 - value);
        assert forall|value: int| whole(value) == #[trigger] from_whole(discount_factor)(value) by {}
        assert(is_largest(discount_ranges@, from_whole(discount_factor), share as int));
    }
    let ghost rows_total = total_rows(key_ranges@);
    proof {
        lemma_total_rows_take(key_ranges@, key_ranges@.len() as int);
        assert(key_ranges@.take(key_ranges@.len() as int) =~= key_ranges@);
    }
    let fits = match count_rows(key_ranges) {
        None => false,
        Some(rows) => match price.checked_mul(share) {
            None => false,
            Some(most) => match most.checked_mul(rows) {
                None => false,
                Some(sum) => sum <= i64::MAX as i128,
            },
        },
    };
    proof {
        assert(price * share >= 0) by (nonlinear_arith)
            requires
                price >= 0,
                share >= 0,
        ;
        assert(price * share * rows_total >= 0) by (nonlinear_arith)
            requires
                price * share >= 0,
                rows_total >= 0,
        ;
        assert(fits == revenue_sum_fits(key_ranges@, price as int, share as int));
    }
    fits
}

/// A contribution to the sum of a key.
pub type Contribution = (int, int);

/// Sums by key, with a flag for each key that has a contribution.
pub struct DenseAtomicI64GroupedSum {
    pub sums: Vec<i64>,
    pub present: Vec<bool>,
}

/// A 64-bit sum after one more contribution, which wraps.
pub open spec fn wrapped_sum(sum: i64, value: int) -> i64 {
    let exact = sum + value;
    if exact > i64::MAX {
        (exact - 0x1_0000_0000_0000_0000) as i64
    } else if exact < i64::MIN {
        (exact + 0x1_0000_0000_0000_0000) as i64
    } else {
        exact as i64
    }
}

/// The sums after contributions in order.
pub open spec fn sums_after(sums: Seq<i64>, contributions: Seq<Contribution>) -> Seq<i64>
    decreases contributions.len(),
{
    if contributions.len() == 0 {
        sums
    } else {
        let before = sums_after(sums, contributions.drop_last());
        let (key, value) = contributions.last();
        before.update(key, wrapped_sum(before[key], value))
    }
}

/// The flags after contributions in order.
pub open spec fn present_after(present: Seq<bool>, contributions: Seq<Contribution>) -> Seq<bool>
    decreases contributions.len(),
{
    if contributions.len() == 0 {
        present
    } else {
        present_after(present, contributions.drop_last()).update(contributions.last().0, true)
    }
}

/// The exact sum of the contributions to a key.
pub open spec fn exact_sum(contributions: Seq<Contribution>, key: int) -> int
    decreases contributions.len(),
{
    if contributions.len() == 0 {
        0
    } else {
        let (last_key, value) = contributions.last();
        exact_sum(contributions.drop_last(), key) + (if last_key == key {
            value
        } else {
            0
        })
    }
}

impl DenseAtomicI64GroupedSum {
    /// Whether there is a sum and a flag for each key up to `max_key`.
    pub open spec fn covers(self, max_key: int) -> bool {
        self.sums@.len() == max_key + 1 && self.present@.len() == max_key + 1
    }

    /// Sums of zero for the keys up to `max_key`, none with a contribution.
    pub fn new(max_key: usize) -> (sums: DenseAtomicI64GroupedSum)
        requires
            max_key < usize::MAX,
        ensures
            sums.covers(max_key as int),
            sums.sums@ == Seq::new((max_key + 1) as nat, |key: int| 0i64),
            sums.present@ == Seq::new((max_key + 1) as nat, |key: int| false),
    {
        let mut sums: Vec<i64> = Vec::new();
        let mut present: Vec<bool> = Vec::new();
        let mut key: usize = 0;
        while key < max_key + 1
            invariant
                max_key < usize::MAX,
                key <= max_key + 1,
                sums@.len() == key,
                present@.len() == key,
                forall|index: int| 0 <= index < key ==> sums@[index] == 0,
                forall|index: int| 0 <= index < key ==> !present@[index],
            decreases max_key + 1 - key,
        {
            sums.push(0);
            present.push(false);
            key += 1;
        }
        assert(sums@ =~= Seq::new((max_key + 1) as nat, |key: int| 0i64));
        assert(present@ =~= Seq::new((max_key + 1) as nat, |key: int| false));
        DenseAtomicI64GroupedSum { sums, present }
    }

    /// Adds a contribution; the sum wraps.
    pub fn add(&mut self, key: usize, value: i64)
        requires
            key < old(self).sums@.len(),
            key < old(self).present@.len(),
        ensures
            final(self).sums@ == old(self).sums@.update(
                key as int,
                wrapped_sum(old(self).sums@[key as int], value as int),
            ),
            final(self).present@ == old(self).present@.update(key as int, true),
    {
        let sum: i64 = self.sums[key].wrapping_add(value);
        self.sums[key] = sum;
        self.present[key] = true;
    }

    /// The sums of the keys that have a contribution, smallest key first.
    pub fn present_sums(&self) -> (entries: Vec<(i64, i64)>)
        requires
            self.sums@.len() == self.present@.len(),
            self.sums@.len() <= i64::MAX,
        ensures
            forall|index: int|
                0 <= index < entries@.len() ==> {
                    let (key, sum) = #[trigger] entries@[index];
                    0 <= key < self.sums@.len() && self.present@[key as int]
                        && self.sums@[key as int] == sum
                },
            forall|left: int, right: int|
                0 <= left < right < entries@.len() ==> (#[trigger] entries@[left]).0 < (
                #[trigger] entries@[right]).0,
            forall|key: int|
                0 <= key < self.sums@.len() && #[trigger] self.present@[key] ==> entries@.contains(
                    (key as i64, self.sums@[key]),
                ),
    {
        let mut entries: Vec<(i64, i64)> = Vec::new();
        let mut key: usize = 0;
        while key < self.sums.len()
            invariant
                self.sums@.len() == self.present@.len(),
                self.sums@.len() <= i64::MAX,
                key <= self.sums@.len(),
                forall|index: int|
                    0 <= index < entries@.len() ==> {
                        let (key, sum) = #[trigger] entries@[index];
                        0 <= key < self.sums@.len() && self.present@[key as int]
                            && self.sums@[key as int] == sum
                    },
                forall|index: int|
                    0 <= index < entries@.len() ==> (#[trigger] entries@[index]).0 < key,
                forall|left: int, right: int|
                    0 <= left < right < entries@.len() ==> (#[trigger] entries@[left]).0 < (
                    #[trigger] entries@[right]).0,
                forall|done: int|
                    0 <= done < key && #[trigger] self.present@[done] ==> entries@.contains(
                        (done as i64, self.sums@[done]),
                    ),
            decreases self.sums@.len() - key,
        {
            if self.present[key] {
                let ghost before = entries@;
                entries.push((key as i64, self.sums[key]));
                assert forall|done: int| 0 <= done < key + 1
                    && #[trigger] self.present@[done] implies entries@.contains(
                    (done as i64, self.sums@[done]),
                ) by {
                    if done == key {
                        assert(entries@[before.len() as int] == (
                            key as i64,
                            self.sums@[key as int],
                        ));
                    } else {
                        let place = choose|place: int|
                            0 <= place < before.len() && before[place] == (
                                done as i64,
                                self.sums@[done],
                            );
                        assert(entries@[place] == (done as i64, self.sums@[done]));
                    }
                }
            }
            key += 1;
        }
        entries
    }
}

/// The sum of the magnitudes of contributions.
pub open spec fn total_magnitude(contributions: Seq<Contribution>) -> int
    decreases contributions.len(),
{
    if contributions.len() == 0 {
        0
    } else {
        total_magnitude(contributions.drop_last()) + magnitude(contributions.last().1)
    }
}

/// Sums that start at zero are exact as long as the magnitudes of all contributions
/// together stay within 64 bits.
pub proof fn law_sums_are_exact(keys: int, contributions: Seq<Contribution>, key: int)
    requires
        0 <= key < keys,
        forall|index: int|
            0 <= index < contributions.len() ==> 0 <= (#[trigger] contributions[index]).0 < keys,
        total_magnitude(contributions) <= i64::MAX,
    ensures
        sums_after(Seq::new(keys as nat, |index: int| 0i64), contributions).len() == keys,
        sums_after(Seq::new(keys as nat, |index: int| 0i64), contributions)[key] == exact_sum(
            contributions,
            key,
        ),
        magnitude(exact_sum(contributions, key)) <= total_magnitude(contributions),
    decreases contributions.len(),
{
    if contributions.len() > 0 {
        let earlier = contributions.drop_last();
        let (last_key, value) = contributions.last();
        assert(0 <= contributions[contributions.len() - 1].0 < keys);
        assert forall|index: int| 0 <= index < earlier.len() implies 0 <= (
        #[trigger] earlier[index]).0 < keys by {
            assert(earlier[index] == contributions[index]);
        }
        law_sums_are_exact(keys, earlier, key);
        law_sums_are_exact(keys, earlier, last_key);
    }
}

/// Contributions that are each within a bound are together within the bound times
/// their number.
proof fn lemma_total_magnitude_bounded(contributions: Seq<Contribution>, bound: int)
    requires
        0 <= bound,
        forall|index: int|
            0 <= index < contributions.len() ==> magnitude((#[trigger] contributions[index]).1)
                <= bound,
    ensures
        0 <= total_magnitude(contributions) <= bound * contributions.len(),
    decreases contributions.len(),
{
    if contributions.len() > 0 {
        let earlier = contributions.drop_last();
        assert forall|index: int| 0 <= index < earlier.len() implies magnitude(
            (#[trigger] earlier[index]).1,
        ) <= bound by {
            assert(earlier[index] == contributions[index]);
        }
        lemma_total_magnitude_bounded(earlier, bound);
        assert(magnitude(contributions[contributions.len() - 1].1) <= bound);
        let count = contributions.len() as int;
        assert(bound * (count - 1) + bound == bound * count) by (nonlinear_arith);
    }
}

/// Where the ranges of the columns show that a sum fits, the sums over rows within
/// those ranges are exact, whatever the rows are.
pub proof fn law_fitting_sums_are_exact(
    key_ranges: Seq<PrimitiveRowGroupMinMax>,
    largest_price: int,
    largest_share: int,
    keys: int,
    contributions: Seq<Contribution>,
    key: int,
)
    requires
        0 <= largest_price,
        0 <= largest_share,
        revenue_sum_fits(key_ranges, largest_price, largest_share),
        contributions.len() <= total_rows(key_ranges),
        forall|index: int|
            0 <= index < contributions.len() ==> 0 <= (#[trigger] contributions[index]).0 < keys
                && magnitude(contributions[index].1) <= largest_price * largest_share,
        0 <= key < keys,
    ensures
        sums_after(Seq::new(keys as nat, |index: int| 0i64), contributions)[key] == exact_sum(
            contributions,
            key,
        ),
{
    let bound = largest_price * largest_share;
    let rows = total_rows(key_ranges);
    let count = contributions.len() as int;
    assert(bound >= 0) by (nonlinear_arith)
        requires
            bound == largest_price * largest_share,
            largest_price >= 0,
            largest_share >= 0,
    ;
    lemma_total_magnitude_bounded(contributions, bound);
    assert(bound * count <= bound * rows) by (nonlinear_arith)
        requires
            bound >= 0,
            0 <= count <= rows,
    ;
    law_sums_are_exact(keys, contributions, key);
}

/// The revenue of a row: its price times what is left after the discount, both in
/// units.
pub open spec fn raw_revenue(price: i64, discount: i64, discount_factor: i64) -> int {
    price * (discount_factor - discount)
}

/// The columns of a batch that revenue is summed from, without nulls.
pub struct RevenueRows<'a> {
    pub keys: &'a [i64],
    pub dates: Option<&'a [i32]>,
    pub prices: &'a [i64],
    pub discounts: &'a [i64],
}

impl<'a> RevenueRows<'a> {
    /// The number of rows.
    pub open spec fn rows(self) -> int {
        self.keys@.len() as int
    }

    /// Whether every column has every row.
    pub open spec fn aligned(self) -> bool {
        &&& self.prices@.len() == self.keys@.len()
        &&& self.discounts@.len() == self.keys@.len()
        &&& self.dates matches Some(dates) ==> dates@.len() == self.keys@.len()
    }

    /// Whether a row lies within the dates asked for.
    pub open spec fn in_dates(self, row: int, start_days: i32, end_days: i32) -> bool {
        self.dates matches Some(dates) ==> start_days <= dates@[row] < end_days
    }

    /// Whether a row can be added.
    pub open spec fn addable(self, row: int, max_key: int, discount_factor: i64) -> bool {
        &&& 0 <= self.keys@[row] <= max_key
        &&& i64::MIN <= raw_revenue(self.prices@[row], self.discounts@[row], discount_factor)
            <= i64::MAX
    }

    /// The contributions of the first `rows` rows within the dates.
    pub open spec fn contributions(
        self,
        rows: int,
        start_days: i32,
        end_days: i32,
        discount_factor: i64,
    ) -> Seq<Contribution>
        decreases rows,
    {
        if rows <= 0 {
            Seq::empty()
        } else if self.in_dates(rows - 1, start_days, end_days) {
            self.contributions(rows - 1, start_days, end_days, discount_factor).push(
                (
                    self.keys@[rows - 1] as int,
                    raw_revenue(
                        self.prices@[rows - 1],
                        self.discounts@[rows - 1],
                        discount_factor,
                    ),
                ),
            )
        } else {
            self.contributions(rows - 1, start_days, end_days, discount_factor)
        }
    }

    /// Whether `row` is the first row within the dates that cannot be added.
    pub open spec fn stops_at(
        self,
        row: int,
        start_days: i32,
        end_days: i32,
        max_key: int,
        discount_factor: i64,
    ) -> bool {
        &&& 0 <= row < self.rows()
        &&& self.in_dates(row, start_days, end_days)
        &&& !self.addable(row, max_key, discount_factor)
        &&& forall|earlier: int|
            0 <= earlier < row && self.in_dates(earlier, start_days, end_days)
                ==> #[trigger] self.addable(earlier, max_key, discount_factor)
    }
}

/// Which way of summing an error message speaks of.
#[derive(Clone, Copy)]
pub enum RevenueScan {
    ByDate,
    Selected,
}

impl RevenueScan {
    /// The message for a negative key.
    pub open spec fn negative_key(self) -> Seq<char> {
        match self {
            RevenueScan::ByDate => "direct dense atomic grouped discounted-revenue key is negative"@,
            RevenueScan::Selected => "selected dictionary grouped discounted-revenue key is negative"@,
        }
    }

    /// The message for a key past the largest.
    pub open spec fn key_too_large(self) -> Seq<char> {
        match self {
            RevenueScan::ByDate => "direct dense atomic grouped discounted-revenue key exceeds metadata range"@,
            RevenueScan::Selected => "selected dictionary grouped discounted-revenue key exceeds metadata range"@,
        }
    }

    /// The message for revenue that does not fit.
    pub open spec fn value_overflow(self) -> Seq<char> {
        match self {
            RevenueScan::ByDate => "direct dense atomic grouped discounted-revenue value overflow"@,
            RevenueScan::Selected => "selected dictionary grouped discounted-revenue value overflow"@,
        }
    }

    /// The message for a batch with other columns.
    pub open spec fn shape_mismatch(self) -> Seq<char> {
        match self {
            RevenueScan::ByDate => "direct dense atomic grouped discounted-revenue vector shape mismatch"@,
            RevenueScan::Selected => "selected dictionary grouped discounted-revenue vector shape mismatch"@,
        }
    }

    /// The message for a batch with nulls or wide decimals.
    pub open spec fn not_raw(self) -> Seq<char> {
        match self {
            RevenueScan::ByDate => "direct dense atomic grouped discounted-revenue requires null-free raw vectors"@,
            RevenueScan::Selected => "selected dictionary grouped discounted-revenue requires null-free raw vectors"@,
        }
    }

    fn negative_key_error(self) -> (error: SqlError)
        ensures
            error.is_unsupported(self.negative_key()),
    {
        match self {
            RevenueScan::ByDate => SqlError::unsupported(
                "direct dense atomic grouped discounted-revenue key is negative",
            ),
            RevenueScan::Selected => SqlError::unsupported(
                "selected dictionary grouped discounted-revenue key is negative",
            ),
        }
    }

    fn key_too_large_error(self) -> (error: SqlError)
        ensures
            error.is_unsupported(self.key_too_large()),
    {
        match self {
            RevenueScan::ByDate => SqlError::unsupported(
                "direct dense atomic grouped discounted-revenue key exceeds metadata range",
            ),
            RevenueScan::Selected => SqlError::unsupported(
                "selected dictionary grouped discounted-revenue key exceeds metadata range",
            ),
        }
    }

    fn value_overflow_error(self) -> (error: SqlError)
        ensures
            error.is_unsupported(self.value_overflow()),
    {
        match self {
            RevenueScan::ByDate => SqlError::unsupported(
                "direct dense atomic grouped discounted-revenue value overflow",
            ),
            RevenueScan::Selected => SqlError::unsupported(
                "selected dictionary grouped discounted-revenue value overflow",
            ),
        }
    }

    fn shape_mismatch_error(self) -> (error: SqlError)
        ensures
            error.is_unsupported(self.shape_mismatch()),
    {
        match self {
            RevenueScan::ByDate => SqlError::unsupported(
                "direct dense atomic grouped discounted-revenue vector shape mismatch",
            ),
            RevenueScan::Selected => SqlError::unsupported(
                "selected dictionary grouped discounted-revenue vector shape mismatch",
            ),
        }
    }

    fn not_raw_error(self) -> (error: SqlError)
        ensures
            error.is_unsupported(self.not_raw()),
    {
        match self {
            RevenueScan::ByDate => SqlError::unsupported(
                "direct dense atomic grouped discounted-revenue requires null-free raw vectors",
            ),
            RevenueScan::Selected => SqlError::unsupported(
                "selected dictionary grouped discounted-revenue requires null-free raw vectors",
            ),
        }
    }
}

/// The outcome of adding rows: each row within the dates is added, up to the first
/// that cannot be, which is reported.
pub open spec fn adds_rows(
    rows: RevenueRows,
    scan: RevenueScan,
    max_key: int,
    discount_factor: i64,
    start_days: i32,
    end_days: i32,
    before: DenseAtomicI64GroupedSum,
    after: DenseAtomicI64GroupedSum,
    result: SqlResult<()>,
) -> bool {
    match result {
        Ok(_) => {
            let added = rows.contributions(rows.rows(), start_days, end_days, discount_factor);
            &&& forall|row: int|
                0 <= row < rows.rows() && rows.in_dates(row, start_days, end_days)
                    ==> #[trigger] rows.addable(row, max_key, discount_factor)
            &&& after.sums@ == sums_after(before.sums@, added)
            &&& after.present@ == present_after(before.present@, added)
        },
        Err(error) => exists|stop: int| #[trigger]
            rows.stops_at(stop, start_days, end_days, max_key, discount_factor) && ({
                let added = rows.contributions(stop, start_days, end_days, discount_factor);
                &&& after.sums@ == sums_after(before.sums@, added)
                &&& after.present@ == present_after(before.present@, added)
                &&& error.is_unsupported(
                    if rows.keys@[stop] < 0 {
                        scan.negative_key()
                    } else if rows.keys@[stop] > max_key {
                        scan.key_too_large()
                    } else {
                        scan.value_overflow()
                    },
                )
            }),
    }
}

/// Adds the revenue of the rows within the dates to the sums of their keys.
pub fn add_revenue_rows(
    rows: &RevenueRows<'_>,
    scan: RevenueScan,
    sums: &mut DenseAtomicI64GroupedSum,
    max_key: usize,
    discount_factor: i64,
    start_days: i32,
    end_days: i32,
) -> (result: SqlResult<()>)
    requires
        rows.aligned(),
        old(sums).covers(max_key as int),
        forall|row: int|
            0 <= row < rows.rows() ==> i64::MIN <= discount_factor - #[trigger] rows.discounts@[row]
                <= i64::MAX,
    ensures
        final(sums).covers(max_key as int),
        adds_rows(
            *rows,
            scan,
            max_key as int,
            discount_factor,
            start_days,
            end_days,
            *old(sums),
            *final(sums),
            result,
        ),
{
    let ghost before = *sums;
    let mut row: usize = 0;
    while row < rows.keys.len()
        invariant
            rows.aligned(),
            before == *old(sums),
            before.covers(max_key as int),
            sums.covers(max_key as int),
            forall|row: int|
                0 <= row < rows.rows() ==> i64::MIN <= discount_factor
                    - #[trigger] rows.discounts@[row] <= i64::MAX,
            row <= rows.rows(),
            sums.sums@ == sums_after(
                before.sums@,
                rows.contributions(row as int, start_days, end_days, discount_factor),
            ),
            sums.present@ == present_after(
                before.present@,
                rows.contributions(row as int, start_days, end_days, discount_factor),
            ),
            forall|done: int|
                0 <= done < row && rows.in_dates(done, start_days, end_days)
                    ==> #[trigger] rows.addable(done, max_key as int, discount_factor),
        decreases rows.rows() - row,
    {
        let within = match rows.dates {
            Some(dates) => start_days <= dates[row] && dates[row] < end_days,
            None => true,
        };
        if within {
            let key: i64 = rows.keys[row];
            if key < 0 {
                assert(rows.stops_at(
                    row as int,
                    start_days,
                    end_days,
                    max_key as int,
                    discount_factor,
                ));
                return Err(scan.negative_key_error());
            }
            if key as u64 > max_key as u64 {
                assert(rows.stops_at(
                    row as int,
                    start_days,
                    end_days,
                    max_key as int,
                    discount_factor,
                ));
                return Err(scan.key_too_large_error());
            }
            assert(i64::MIN <= discount_factor - rows.discounts@[row as int] <= i64::MAX);
            match rows.prices[row].checked_mul(discount_factor - rows.discounts[row]) {
                Some(value) => {
                    let ghost added = rows.contributions(
                        row as int,
                        start_days,
                        end_days,
                        discount_factor,
                    );
                    proof {
                        assert(rows.contributions(
                            row + 1,
                            start_days,
                            end_days,
                            discount_factor,
                        ).drop_last() =~= added);
                    }
                    sums.add(key as usize, value);
                },
                None => {
                    assert(rows.stops_at(
                        row as int,
                        start_days,
                        end_days,
                        max_key as int,
                        discount_factor,
                    ));
                    return Err(scan.value_overflow_error());
                },
            }
        }
        row += 1;
    }
    Ok(())
}

/// The columns of a view that revenue is summed from, as far as they are there:
/// keys, dates where the scan goes by date, prices and discounts.
pub open spec fn revenue_columns(view: BatchView, scan: RevenueScan) -> bool {
    match scan {
        RevenueScan::ByDate => view.column(0) matches Some(ColumnData::Int64(_)) && view.column(1)
            matches Some(ColumnData::Date32(_)) && is_decimal(view.column(2)) && is_decimal(
            view.column(3),
        ),
        RevenueScan::Selected => view.column(0) matches Some(ColumnData::Int64(_)) && is_decimal(
            view.column(1),
        ) && is_decimal(view.column(2)),
    }
}

/// Whether a column holds decimals.
pub open spec fn is_decimal(column: Option<ColumnData>) -> bool {
    match column {
        Some(ColumnData::Decimal128 { .. }) => true,
        Some(ColumnData::DecimalInt64 { .. }) => true,
        _ => false,
    }
}

/// The unscaled 64-bit values of a decimal column without nulls.
pub open spec fn raw_decimals(column: Option<ColumnData>) -> Option<Seq<i64>> {
    match column {
        Some(ColumnData::DecimalInt64 { units, .. }) => if units.null_free() {
            Some(units.values@)
        } else {
            None
        },
        _ => None,
    }
}

/// The position of the price column; the discount column follows it.
pub open spec fn price_column(scan: RevenueScan) -> int {
    match scan {
        RevenueScan::ByDate => 2,
        RevenueScan::Selected => 1,
    }
}

/// Whether the columns hold no nulls and the decimals are stored in 64 bits.
pub open spec fn revenue_columns_raw(view: BatchView, scan: RevenueScan) -> bool {
    &&& view.column(0) matches Some(ColumnData::Int64(keys)) && keys.null_free()
    &&& scan is ByDate ==> (view.column(1) matches Some(ColumnData::Date32(dates))
        && dates.null_free())
    &&& raw_decimals(view.column(price_column(scan))) is Some
    &&& raw_decimals(view.column(price_column(scan) + 1)) is Some
}

/// Whether rows are those of a view.
pub open spec fn rows_of_view(rows: RevenueRows, view: BatchView, scan: RevenueScan) -> bool {
    &&& view.column(0) matches Some(ColumnData::Int64(keys)) && rows.keys@ == keys.values@
    &&& match scan {
        RevenueScan::ByDate => view.column(1) matches Some(ColumnData::Date32(dates)) && (
        rows.dates matches Some(found) && found@ == dates.values@),
        RevenueScan::Selected => rows.dates is None,
    }
    &&& raw_decimals(view.column(price_column(scan))) == Some(rows.prices@)
    &&& raw_decimals(view.column(price_column(scan) + 1)) == Some(rows.discounts@)
}

/// The outcome of adding a view: an error where the columns are others, or hold
/// nulls or wide decimals, and otherwise that of adding its rows.
pub open spec fn adds_view(
    view: BatchView,
    scan: RevenueScan,
    max_key: int,
    discount_factor: i64,
    start_days: i32,
    end_days: i32,
    before: DenseAtomicI64GroupedSum,
    after: DenseAtomicI64GroupedSum,
    result: SqlResult<()>,
) -> bool {
    if !revenue_columns(view, scan) {
        fails_unsupported(result, scan.shape_mismatch()) && after == before
    } else if !revenue_columns_raw(view, scan) {
        fails_unsupported(result, scan.not_raw()) && after == before
    } else {
        exists|rows: RevenueRows| #[trigger]
            rows_of_view(rows, view, scan) && adds_rows(
                rows,
                scan,
                max_key,
                discount_factor,
                start_days,
                end_days,
                before,
                after,
                result,
            )
    }
}

/// The unscaled 64-bit values of a decimal column without nulls.
fn raw_decimal_values(column: &ColumnData) -> (values: Option<&Vec<i64>>)
    requires
        column matches ColumnData::DecimalInt64 { units, .. } ==> units.well_formed(),
    ensures
        match raw_decimals(Some(*column)) {
            Some(expected) => values matches Some(values) && values@ == expected,
            None => values.is_none(),
        },
{
    match column {
        ColumnData::DecimalInt64 { units, .. } => units.values_if_null_free(),
        _ => None,
    }
}

/// Whether a column holds decimals.
fn holds_decimals(column: &ColumnData) -> (is: bool)
    ensures
        is == is_decimal(Some(*column)),
{
    match column {
        ColumnData::Decimal128 { .. } => true,
        ColumnData::DecimalInt64 { .. } => true,
        _ => false,
    }
}

/// Adds the revenue of a view to the sums of its keys.
fn add_revenue_view(
    view: &BatchView,
    scan: RevenueScan,
    sums: &mut DenseAtomicI64GroupedSum,
    max_key: usize,
    discount_factor: i64,
    start_days: i32,
    end_days: i32,
) -> (result: SqlResult<()>)
    requires
        view.well_formed(),
        old(sums).covers(max_key as int),
        raw_decimals(view.column(price_column(scan) + 1)) matches Some(discounts) ==> forall|
            row: int,
        |
            0 <= row < discounts.len() ==> i64::MIN <= discount_factor - #[trigger] discounts[row]
                <= i64::MAX,
    ensures
        final(sums).covers(max_key as int),
        adds_view(
            *view,
            scan,
            max_key as int,
            discount_factor,
            start_days,
            end_days,
            *old(sums),
            *final(sums),
            result,
        ),
{
    let price: usize = match scan {
        RevenueScan::ByDate => 2,
        RevenueScan::Selected => 1,
    };
    let columns = &view.batch.columns;
    if columns.len() < price + 2 {
        return Err(scan.shape_mismatch_error());
    }
    assert(columns@[0].well_formed() && columns@[1].well_formed());
    assert(columns@[price as int].well_formed() && columns@[price + 1].well_formed());
    let keys: &Vector<i64> = match view.i64_vector(0) {
        Some(keys) => keys,
        None => {
            return Err(scan.shape_mismatch_error());
        },
    };
    let mut dates: Option<&Vector<i32>> = None;
    match scan {
        RevenueScan::ByDate => match view.date32_vector(1) {
            Some(vector) => {
                dates = Some(vector);
            },
            None => {
                return Err(scan.shape_mismatch_error());
            },
        },
        RevenueScan::Selected => {},
    }
    if !holds_decimals(&columns[price].data) || !holds_decimals(&columns[price + 1].data) {
        return Err(scan.shape_mismatch_error());
    }
    assert(revenue_columns(*view, scan));
    let key_values: &Vec<i64> = match keys.values_if_null_free() {
        Some(values) => values,
        None => {
            return Err(scan.not_raw_error());
        },
    };
    let date_values: Option<&[i32]> = match dates {
        None => None,
        Some(vector) => match vector.values_if_null_free() {
            Some(values) => Some(values.as_slice()),
            None => {
                return Err(scan.not_raw_error());
            },
        },
    };
    match (raw_decimal_values(&columns[price].data), raw_decimal_values(&columns[price + 1].data)) {
        (Some(prices), Some(discounts)) => {
            let rows = RevenueRows {
                keys: key_values.as_slice(),
                dates: date_values,
                prices: prices.as_slice(),
                discounts: discounts.as_slice(),
            };
            assert(rows_of_view(rows, *view, scan));
            assert(columns@[price as int].rows() == view.batch.num_rows);
            assert(columns@[price + 1].rows() == view.batch.num_rows);
            add_revenue_rows(&rows, scan, sums, max_key, discount_factor, start_days, end_days)
        },
        _ => Err(scan.not_raw_error()),
    }
}

/// Adds the revenue of the rows of a batch that lie within the dates.
pub fn update_dense_atomic_i64_grouped_discounted_revenue_by_date_view(
    view: &BatchView,
    sums: &mut DenseAtomicI64GroupedSum,
    max_key: usize,
    discount_factor: i64,
    start_days: i32,
    end_days: i32,
) -> (result: SqlResult<()>)
    requires
        view.well_formed(),
        old(sums).covers(max_key as int),
        raw_decimals(view.column(3)) matches Some(discounts) ==> forall|row: int|
            0 <= row < discounts.len() ==> i64::MIN <= discount_factor - #[trigger] discounts[row]
                <= i64::MAX,
    ensures
        final(sums).covers(max_key as int),
        adds_view(
            *view,
            RevenueScan::ByDate,
            max_key as int,
            discount_factor,
            start_days,
            end_days,
            *old(sums),
            *final(sums),
            result,
        ),
{
    add_revenue_view(
        view,
        RevenueScan::ByDate,
        sums,
        max_key,
        discount_factor,
        start_days,
        end_days,
    )
}

/// Adds the revenue of all rows of a batch, which were selected by date already.
pub fn update_dense_atomic_i64_grouped_discounted_revenue_selected_view(
    view: &BatchView,
    sums: &mut DenseAtomicI64GroupedSum,
    max_key: usize,
    discount_factor: i64,
) -> (result: SqlResult<()>)
    requires
        view.well_formed(),
        old(sums).covers(max_key as int),
        raw_decimals(view.column(2)) matches Some(discounts) ==> forall|row: int|
            0 <= row < discounts.len() ==> i64::MIN <= discount_factor - #[trigger] discounts[row]
                <= i64::MAX,
    ensures
        final(sums).covers(max_key as int),
        adds_view(
            *view,
            RevenueScan::Selected,
            max_key as int,
            discount_factor,
            0,
            0,
            *old(sums),
            *final(sums),
            result,
        ),
{
    add_revenue_view(view, RevenueScan::Selected, sums, max_key, discount_factor, 0, 0)
}

/// Whether no range records a null or leaves open whether there are any.
pub open spec fn surely_null_free(ranges: Seq<PrimitiveRowGroupMinMax>) -> bool {
    forall|index: int|
        0 <= index < ranges.len() ==> (#[trigger] ranges[index]).null_count == Some(0u64)
}

/// Whether no range records a null or leaves open whether there are any.
fn is_surely_null_free(ranges: &[PrimitiveRowGroupMinMax]) -> (is: bool)
    ensures
        is == surely_null_free(ranges@),
{
    let mut index: usize = 0;
    while index < ranges.len()
        invariant
            index <= ranges@.len(),
            forall|earlier: int|
                0 <= earlier < index ==> (#[trigger] ranges@[earlier]).null_count == Some(0u64),
        decreases ranges@.len() - index,
    {
        match ranges[index].null_count {
            Some(count) => {
                if count != 0 {
                    assert(ranges@[index as int].null_count != Some(0u64));
                    return false;
                }
            },
            None => {
                assert(ranges@[index as int].null_count != Some(0u64));
                return false;
            },
        }
        index += 1;
    }
    true
}

/// Whether the smallest of the minima is `least` and the largest of the maxima is
/// `greatest`.
pub open spec fn key_extent(
    ranges: Seq<PrimitiveRowGroupMinMax>,
    least: i128,
    greatest: i128,
) -> bool {
    &&& forall|index: int|
        0 <= index < ranges.len() ==> least <= (#[trigger] ranges[index]).min
            && ranges[index].max <= greatest
    &&& exists|index: int| 0 <= index < ranges.len() && (#[trigger] ranges[index]).min == least
    &&& exists|index: int| 0 <= index < ranges.len() && (#[trigger] ranges[index]).max == greatest
}

/// The smallest minimum and the largest maximum, `None` without ranges.
fn extent_of(ranges: &[PrimitiveRowGroupMinMax]) -> (extent: Option<(i128, i128)>)
    ensures
        extent.is_some() == (ranges@.len() > 0),
        extent matches Some((least, greatest)) ==> key_extent(ranges@, least, greatest),
{
    if ranges.len() == 0 {
        return None;
    }
    let mut least: i128 = ranges[0].min;
    let mut greatest: i128 = ranges[0].max;
    let mut index: usize = 1;
    while index < ranges.len()
        invariant
            1 <= index <= ranges@.len(),
            forall|done: int|
                0 <= done < index ==> least <= (#[trigger] ranges@[done]).min && ranges@[done].max
                    <= greatest,
            exists|done: int| 0 <= done < index && (#[trigger] ranges@[done]).min == least,
            exists|done: int| 0 <= done < index && (#[trigger] ranges@[done]).max == greatest,
        decreases ranges@.len() - index,
    {
        if ranges[index].min < least {
            least = ranges[index].min;
        }
        if ranges[index].max > greatest {
            greatest = ranges[index].max;
        }
        index += 1;
    }
    Some((least, greatest))
}

/// Whether revenue can be summed densely by key.
#[derive(Clone, Copy, Debug, PartialEq, Eq, Structural)]
pub enum DenseRevenuePlan {
    /// Another way has to be used.
    Unavailable,
    /// There is nothing to sum.
    Empty,
    /// One sum per key up to the largest, with this many units in a whole.
    Dense { max_key: usize, discount_factor: i64 },
}

/// Whether sums by key can be kept densely: nothing is null, keys are not negative
/// and at most `max_dense_key`, the scale of the discount has a unit that fits, and
/// no sum can leave 64 bits.
pub open spec fn dense_plan(
    key_ranges: Seq<PrimitiveRowGroupMinMax>,
    date_ranges: Seq<PrimitiveRowGroupMinMax>,
    extendedprice_ranges: Seq<PrimitiveRowGroupMinMax>,
    discount_ranges: Seq<PrimitiveRowGroupMinMax>,
    discount_scale: i8,
    max_dense_key: usize,
    plan: DenseRevenuePlan,
) -> bool {
    if !surely_null_free(key_ranges) || !surely_null_free(date_ranges) || !surely_null_free(
        extendedprice_ranges,
    ) || !surely_null_free(discount_ranges) {
        plan == DenseRevenuePlan::Unavailable
    } else if key_ranges.len() == 0 {
        plan == DenseRevenuePlan::Empty
    } else {
        exists|least: i128, greatest: i128, price: int, share: int|
            #![
                trigger key_extent(key_ranges, least, greatest),
                revenue_sum_fits(key_ranges, price, share),
            ]
            {
                let factor = power_of_ten(discount_scale as int);
                let usable = 0 <= least && 0 <= greatest <= i64::MAX && greatest <= max_dense_key
                    && discount_scale >= 0 && factor <= i64::MAX;
                &&& key_extent(key_ranges, least, greatest)
                &&& usable ==> is_largest(extendedprice_ranges, from_zero(), price) && is_largest(
                    discount_ranges,
                    from_whole(factor as i64),
                    share,
                )
                &&& plan == (if usable && revenue_sum_fits(key_ranges, price, share) {
                    DenseRevenuePlan::Dense {
                        max_key: greatest as usize,
                        discount_factor: factor as i64,
                    }
                } else {
                    DenseRevenuePlan::Unavailable
                })
            }
    }
}

/// Decides whether revenue can be summed densely by key, from what the file records
/// of the columns.
pub fn plan_dense_grouped_revenue(
    key_ranges: &[PrimitiveRowGroupMinMax],
    date_ranges: &[PrimitiveRowGroupMinMax],
    extendedprice_ranges: &[PrimitiveRowGroupMinMax],
    discount_ranges: &[PrimitiveRowGroupMinMax],
    discount_scale: i8,
    max_dense_key: usize,
) -> (plan: DenseRevenuePlan)
    requires
        discount_scale >= 0 && power_of_ten(discount_scale as int) <= i64::MAX ==> ranges_measurable(
            extendedprice_ranges@,
            discount_ranges@,
            power_of_ten(discount_scale as int) as i64,
        ),
    ensures
        dense_plan(
            key_ranges@,
            date_ranges@,
            extendedprice_ranges@,
            discount_ranges@,
            discount_scale,
            max_dense_key,
            plan,
        ),
{
    if !is_surely_null_free(key_ranges) || !is_surely_null_free(date_ranges)
        || !is_surely_null_free(extendedprice_ranges) || !is_surely_null_free(discount_ranges) {
        return DenseRevenuePlan::Unavailable;
    }
    let (least, greatest): (i128, i128) = match extent_of(key_ranges) {
        Some(extent) => extent,
        None => {
            return DenseRevenuePlan::Empty;
        },
    };
    let ghost nothing = revenue_sum_fits(key_ranges@, 0, 0);
    if least < 0 || greatest < 0 || greatest > i64::MAX as i128 || greatest
        > max_dense_key as i128 {
        return DenseRevenuePlan::Unavailable;
    }
    let max_key: usize = greatest as usize;
    let discount_factor: i64 = match decimal_raw_scale_i64(discount_scale) {
        Some(discount_factor) => discount_factor,
        None => {
            return DenseRevenuePlan::Unavailable;
        },
    };
    let fits = dense_atomic_discounted_revenue_sum_fits(
        key_ranges,
        extendedprice_ranges,
        discount_ranges,
        discount_factor,
    );
    if fits {
        DenseRevenuePlan::Dense { max_key, discount_factor }
    } else {
        DenseRevenuePlan::Unavailable
    }
}

} // verus!
