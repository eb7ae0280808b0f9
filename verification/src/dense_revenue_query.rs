//! Revenue by key, summed densely over the views of a scan.

use vstd::prelude::*;
use crate::columns::BatchView;
use crate::dense_sums::{
    adds_view, exact_sum, law_fitting_sums_are_exact, magnitude, present_after, price_column,
    raw_decimals, revenue_columns, revenue_columns_raw, revenue_sum_fits, rows_of_view, sums_after,
    total_rows, update_dense_atomic_i64_grouped_discounted_revenue_by_date_view,
    update_dense_atomic_i64_grouped_discounted_revenue_selected_view, Contribution,
    DenseAtomicI64GroupedSum, DenseRevenuePlan, PrimitiveRowGroupMinMax, RevenueRows, RevenueScan,
};
use crate::error::{SqlError, SqlResult};

verus! {

/// What a scan of revenue goes by: the units in a whole discount, and the dates.
#[derive(Clone, Copy)]
pub struct RevenueTerms {
    pub discount_factor: i64,
    pub start_days: i32,
    pub end_days: i32,
}

/// What the rows of a view contribute.
pub open spec fn view_contributions(view: BatchView, scan: RevenueScan, terms: RevenueTerms) -> Seq<
    Contribution,
> {
    let rows = choose|rows: RevenueRows| #[trigger] rows_of_view(rows, view, scan);
    rows.contributions(rows.rows(), terms.start_days, terms.end_days, terms.discount_factor)
}

/// What the rows of views contribute, in order.
pub open spec fn all_contributions(
    views: Seq<BatchView>,
    scan: RevenueScan,
    terms: RevenueTerms,
) -> Seq<Contribution>
    decreases views.len(),
{
    if views.len() == 0 {
        Seq::empty()
    } else {
        all_contributions(views.drop_last(), scan, terms) + view_contributions(
            views.last(),
            scan,
            terms,
        )
    }
}

/// Whether the rows of a view can be added: its columns are there, hold no nulls and
/// narrow decimals, and each row has a key up to the largest and a revenue that fits.
pub open spec fn is_summable(
    view: BatchView,
    scan: RevenueScan,
    max_key: int,
    terms: RevenueTerms,
) -> bool {
    &&& revenue_columns(view, scan)
    &&& revenue_columns_raw(view, scan)
    &&& forall|rows: RevenueRows, row: int|
        rows_of_view(rows, view, scan) && 0 <= row < rows.rows() && rows.in_dates(
            row,
            terms.start_days,
            terms.end_days,
        ) ==> #[trigger] rows.addable(row, max_key, terms.discount_factor)
}

/// Whether an error is what adding a view comes to.
pub open spec fn refuses_view(
    view: BatchView,
    scan: RevenueScan,
    max_key: int,
    terms: RevenueTerms,
    error: SqlError,
) -> bool {
    exists|before: DenseAtomicI64GroupedSum, after: DenseAtomicI64GroupedSum| #[trigger]
        adds_view(
            view,
            scan,
            max_key,
            terms.discount_factor,
            terms.start_days,
            terms.end_days,
            before,
            after,
            Err(error),
        )
}

/// Whether a view is the first that cannot be added.
pub open spec fn revenue_fails_at(
    views: Seq<BatchView>,
    scan: RevenueScan,
    max_key: int,
    terms: RevenueTerms,
    index: int,
    error: SqlError,
) -> bool {
    &&& 0 <= index < views.len()
    &&& refuses_view(views[index], scan, max_key, terms, error)
    &&& forall|earlier: int|
        0 <= earlier < index ==> is_summable(#[trigger] views[earlier], scan, max_key, terms)
}

/// Whether entries are the sums of the keys that have a contribution, smallest key first.
pub open spec fn lists_sums(entries: Seq<(i64, i64)>, sums: Seq<i64>, present: Seq<bool>) -> bool {
    &&& forall|index: int|
        0 <= index < entries.len() ==> {
            let (key, sum) = #[trigger] entries[index];
            0 <= key < sums.len() && present[key as int] && sums[key as int] == sum
        }
    &&& forall|left: int, right: int|
        0 <= left < right < entries.len() ==> (#[trigger] entries[left]).0 < (
        #[trigger] entries[right]).0
    &&& forall|key: int|
        0 <= key < sums.len() && #[trigger] present[key] ==> entries.contains(
            (key as i64, sums[key]),
        )
}

/// Sums of zero for the keys up to the largest.
pub open spec fn no_sums(max_key: int) -> Seq<i64> {
    Seq::new((max_key + 1) as nat, |key: int| 0i64)
}

/// No key with a contribution up to the largest.
pub open spec fn no_keys(max_key: int) -> Seq<bool> {
    Seq::new((max_key + 1) as nat, |key: int| false)
}

proof fn lemma_contributions_agree(
    left: RevenueRows,
    right: RevenueRows,
    view: BatchView,
    scan: RevenueScan,
    terms: RevenueTerms,
    rows: int,
)
    requires
        rows_of_view(left, view, scan),
        rows_of_view(right, view, scan),
    ensures
        left.contributions(rows, terms.start_days, terms.end_days, terms.discount_factor)
            == right.contributions(rows, terms.start_days, terms.end_days, terms.discount_factor),
        left.rows() == right.rows(),
    decreases rows,
{
    if rows > 0 {
        lemma_contributions_agree(left, right, view, scan, terms, rows - 1);
        assert(left.in_dates(rows - 1, terms.start_days, terms.end_days) == right.in_dates(
            rows - 1,
            terms.start_days,
            terms.end_days,
        ));
    }
}

proof fn lemma_sums_concatenate(sums: Seq<i64>, first: Seq<Contribution>, second: Seq<Contribution>)
    ensures
        sums_after(sums, first + second) == sums_after(sums_after(sums, first), second),
    decreases second.len(),
{
    if second.len() == 0 {
        assert(first + second =~= first);
    } else {
        lemma_sums_concatenate(sums, first, second.drop_last());
        assert((first + second).drop_last() =~= first + second.drop_last());
    }
}

proof fn lemma_keys_concatenate(
    present: Seq<bool>,
    first: Seq<Contribution>,
    second: Seq<Contribution>,
)
    ensures
        present_after(present, first + second) == present_after(
            present_after(present, first),
            second,
        ),
    decreases second.len(),
{
    if second.len() == 0 {
        assert(first + second =~= first);
    } else {
        lemma_keys_concatenate(present, first, second.drop_last());
        assert((first + second).drop_last() =~= first + second.drop_last());
    }
}

/// Adding a view that can be added adds what its rows contribute.
proof fn lemma_view_added(
    view: BatchView,
    scan: RevenueScan,
    max_key: int,
    terms: RevenueTerms,
    before: DenseAtomicI64GroupedSum,
    after: DenseAtomicI64GroupedSum,
)
    requires
        adds_view(
            view,
            scan,
            max_key,
            terms.discount_factor,
            terms.start_days,
            terms.end_days,
            before,
            after,
            Ok(()),
        ),
    ensures
        is_summable(view, scan, max_key, terms),
        after.sums@ == sums_after(before.sums@, view_contributions(view, scan, terms)),
        after.present@ == present_after(before.present@, view_contributions(view, scan, terms)),
{
    let rows = choose|rows: RevenueRows| #[trigger]
        rows_of_view(rows, view, scan) && crate::dense_sums::adds_rows(
            rows,
            scan,
            max_key,
            terms.discount_factor,
            terms.start_days,
            terms.end_days,
            before,
            after,
            Ok(()),
        );
    let chosen = choose|rows: RevenueRows| #[trigger] rows_of_view(rows, view, scan);
    lemma_contributions_agree(rows, chosen, view, scan, terms, rows.rows());
    assert forall|other: RevenueRows, row: int|
        rows_of_view(other, view, scan) && 0 <= row < other.rows() && other.in_dates(
            row,
            terms.start_days,
            terms.end_days,
        ) implies #[trigger] other.addable(row, max_key, terms.discount_factor) by {
        assert(rows.in_dates(row, terms.start_days, terms.end_days));
        assert(rows.addable(row, max_key, terms.discount_factor));
    }
}

/// Whether the discounts of a view leave a share that fits.
pub open spec fn shares_fit(view: BatchView, scan: RevenueScan, discount_factor: i64) -> bool {
    raw_decimals(view.column(price_column(scan) + 1)) matches Some(discounts) ==> forall|row: int|
        0 <= row < discounts.len() ==> i64::MIN <= discount_factor - #[trigger] discounts[row]
            <= i64::MAX
}

/// Whether a result is the revenue by key of views, summed densely.
pub open spec fn sums_densely(
    views: Seq<BatchView>,
    scan: RevenueScan,
    max_key: int,
    terms: RevenueTerms,
    result: SqlResult<Option<Vec<(i64, i64)>>>,
) -> bool {
    match result {
        Ok(Some(entries)) => {
            &&& forall|index: int|
                0 <= index < views.len() ==> is_summable(
                    #[trigger] views[index],
                    scan,
                    max_key,
                    terms,
                )
            &&& lists_sums(
                entries@,
                sums_after(no_sums(max_key), all_contributions(views, scan, terms)),
                present_after(no_keys(max_key), all_contributions(views, scan, terms)),
            )
        },
        Ok(None) => false,
        Err(error) => exists|index: int| #[trigger]
            revenue_fails_at(views, scan, max_key, terms, index, error),
    }
}

/// What revenue is summed by: the dates count only for views that are not selected by date
/// already.
pub open spec fn scan_terms(
    scan: RevenueScan,
    discount_factor: i64,
    start_days: i32,
    end_days: i32,
) -> RevenueTerms {
    match scan {
        RevenueScan::ByDate => RevenueTerms { discount_factor, start_days, end_days },
        RevenueScan::Selected => RevenueTerms { discount_factor, start_days: 0, end_days: 0 },
    }
}

/// Whether a result is the revenue by key of views under a plan.
pub open spec fn sums_revenue(
    plan: DenseRevenuePlan,
    views: Seq<BatchView>,
    scan: RevenueScan,
    start_days: i32,
    end_days: i32,
    result: SqlResult<Option<Vec<(i64, i64)>>>,
) -> bool {
    match plan {
        DenseRevenuePlan::Unavailable => result matches Ok(None),
        DenseRevenuePlan::Empty => result matches Ok(Some(entries)) && entries@.len() == 0,
        DenseRevenuePlan::Dense { max_key, discount_factor } => sums_densely(
            views,
            scan,
            max_key as int,
            scan_terms(scan, discount_factor, start_days, end_days),
            result,
        ),
    }
}

/// The revenue by key of the views of a scan, in raw units, as far as the plan allows it.
/// Views selected by date already are added whole; of others the rows within the dates.
pub fn dense_grouped_revenue(
    plan: DenseRevenuePlan,
    views: &[BatchView],
    scan: RevenueScan,
    start_days: i32,
    end_days: i32,
) -> (result: SqlResult<Option<Vec<(i64, i64)>>>)
    requires
        plan matches DenseRevenuePlan::Dense { max_key, discount_factor } ==> max_key < usize::MAX
            && max_key < i64::MAX && forall|index: int|
            0 <= index < views@.len() ==> (#[trigger] views@[index]).well_formed() && shares_fit(
                views@[index],
                scan,
                discount_factor,
            ),
    ensures
        sums_revenue(plan, views@, scan, start_days, end_days, result),
{
    let (max_key, discount_factor): (usize, i64) = match plan {
        DenseRevenuePlan::Unavailable => {
            return Ok(None);
        },
        DenseRevenuePlan::Empty => {
            return Ok(Some(Vec::new()));
        },
        DenseRevenuePlan::Dense { max_key, discount_factor } => (max_key, discount_factor),
    };
    let ghost terms = scan_terms(scan, discount_factor, start_days, end_days);
    let (from, until): (i32, i32) = match scan {
        RevenueScan::ByDate => (start_days, end_days),
        RevenueScan::Selected => (0, 0),
    };
    let mut sums = DenseAtomicI64GroupedSum::new(max_key);
    let mut index: usize = 0;
    assert(views@.take(0) =~= Seq::empty());
    while index < views.len()
        invariant
            index <= views@.len(),
            plan == (DenseRevenuePlan::Dense { max_key, discount_factor }),
            terms == (RevenueTerms { discount_factor, start_days: from, end_days: until }),
            terms == scan_terms(scan, discount_factor, start_days, end_days),
            scan is Selected ==> from == 0 && until == 0,
            forall|index: int|
                0 <= index < views@.len() ==> (#[trigger] views@[index]).well_formed()
                    && shares_fit(views@[index], scan, discount_factor),
            sums.covers(max_key as int),
            forall|earlier: int|
                0 <= earlier < index ==> is_summable(
                    #[trigger] views@[earlier],
                    scan,
                    max_key as int,
                    terms,
                ),
            sums.sums@ == sums_after(
                no_sums(max_key as int),
                all_contributions(views@.take(index as int), scan, terms),
            ),
            sums.present@ == present_after(
                no_keys(max_key as int),
                all_contributions(views@.take(index as int), scan, terms),
            ),
        decreases views@.len() - index,
    {
        let ghost before = sums;
        assert(shares_fit(views@[index as int], scan, discount_factor));
        let added = match scan {
            RevenueScan::ByDate => update_dense_atomic_i64_grouped_discounted_revenue_by_date_view(
                &views[index],
                &mut sums,
                max_key,
                discount_factor,
                from,
                until,
            ),
            RevenueScan::Selected => {
                update_dense_atomic_i64_grouped_discounted_revenue_selected_view(
                    &views[index],
                    &mut sums,
                    max_key,
                    discount_factor,
                )
            },
        };
        match added {
            Ok(()) => {
                proof {
                    let view = views@[index as int];
                    let earlier = all_contributions(views@.take(index as int), scan, terms);
                    let more = view_contributions(view, scan, terms);
                    lemma_view_added(view, scan, max_key as int, terms, before, sums);
                    assert(views@.take(index + 1).drop_last() =~= views@.take(index as int));
                    lemma_sums_concatenate(no_sums(max_key as int), earlier, more);
                    lemma_keys_concatenate(no_keys(max_key as int), earlier, more);
                }
            },
            Err(error) => {
                assert(adds_view(
                    views@[index as int],
                    scan,
                    max_key as int,
                    discount_factor,
                    from,
                    until,
                    before,
                    sums,
                    Err(error),
                ));
                assert(refuses_view(views@[index as int], scan, max_key as int, terms, error));
                assert(revenue_fails_at(views@, scan, max_key as int, terms, index as int, error));
                let refused: SqlResult<Option<Vec<(i64, i64)>>> = Err(error);
                assert(sums_densely(views@, scan, max_key as int, terms, refused));
                return refused;
            },
        }
        index += 1;
    }
    assert(views@.take(index as int) =~= views@);
    Ok(Some(sums.present_sums()))
}

/// Where the ranges of the columns show that a sum fits, what is listed for a key is the
/// exact sum of what its rows contribute.
pub proof fn law_listed_revenue_is_exact(
    key_ranges: Seq<PrimitiveRowGroupMinMax>,
    largest_price: int,
    largest_share: int,
    max_key: int,
    contributions: Seq<Contribution>,
    entries: Seq<(i64, i64)>,
    index: int,
)
    requires
        0 <= largest_price,
        0 <= largest_share,
        0 <= max_key,
        revenue_sum_fits(key_ranges, largest_price, largest_share),
        contributions.len() <= total_rows(key_ranges),
        forall|place: int|
            0 <= place < contributions.len() ==> 0 <= (#[trigger] contributions[place]).0 <= max_key
                && magnitude(contributions[place].1) <= largest_price * largest_share,
        lists_sums(
            entries,
            sums_after(no_sums(max_key), contributions),
            present_after(no_keys(max_key), contributions),
        ),
        0 <= index < entries.len(),
    ensures
        entries[index].1 == exact_sum(contributions, entries[index].0 as int),
{
    let key = entries[index].0 as int;
    lemma_sums_keep_length(no_sums(max_key), contributions);
    law_fitting_sums_are_exact(
        key_ranges,
        largest_price,
        largest_share,
        max_key + 1,
        contributions,
        key,
    );
    assert(no_sums(max_key) =~= Seq::new((max_key + 1) as nat, |index: int| 0i64));
}

proof fn lemma_sums_keep_length(sums: Seq<i64>, contributions: Seq<Contribution>)
    requires
        forall|place: int|
            0 <= place < contributions.len() ==> 0 <= (#[trigger] contributions[place]).0
                < sums.len(),
    ensures
        sums_after(sums, contributions).len() == sums.len(),
    decreases contributions.len(),
{
    if contributions.len() > 0 {
        let earlier = contributions.drop_last();
        assert forall|place: int| 0 <= place < earlier.len() implies 0 <= (
        #[trigger] earlier[place]).0 < sums.len() by {
            assert(earlier[place] == contributions[place]);
        }
        lemma_sums_keep_length(sums, earlier);
        assert(0 <= contributions[contributions.len() - 1].0 < sums.len());
    }
}

} // verus!
