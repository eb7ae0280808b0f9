//! The orders in which rows are put out, said over what the rows hold.

use vstd::prelude::*;
use crate::named_rows::{
    addresses, by_name, by_revenue, law_names_order_rows, law_put_in_order, law_revenue_orders_rows,
    named_revenues, placed, put_in_order, revenues, NamedAddress, NamedRevenue, NationRevenue,
    SupplierAddress,
};
use crate::part_groups::PartGroup;
use crate::pricing_summary::{groups_in_order, PricingSummaryRow};
use crate::profit_rows::{in_report_order, named_groups, reported_rows, ProfitRow, ReportedProfit};
use crate::returned_customers::{entry_rank, entry_ranks, known_entries, RevenueEntry};
use crate::supplier_rows::{is_report, reports, reports_one, PartSupplierGroupRow};
use crate::text::{comes_before, law_comes_before_irreflexive, law_comes_before_total};
use crate::topk::{comes_after_all, is_top, ranks_before, smaller_at};

verus! {

/// Of two texts that differ, the one with the smaller character at the first difference comes
/// first; a text comes before those that go on behind it.
pub proof fn law_first_difference_decides(left: Seq<char>, right: Seq<char>, place: int)
    requires
        0 <= place <= left.len(),
        place < right.len(),
        left.take(place) == right.take(place),
        place < left.len() ==> (left[place] as u32) < (right[place] as u32),
    ensures
        comes_before(left, right),
        !comes_before(right, left),
    decreases place,
{
    if place > 0 {
        assert(left.take(place)[0] == left[0]);
        assert(right.take(place)[0] == right[0]);
        assert(left.skip(1).take(place - 1) =~= left.take(place).skip(1));
        assert(right.skip(1).take(place - 1) =~= right.take(place).skip(1));
        law_first_difference_decides(left.skip(1), right.skip(1), place - 1);
        assert(comes_before(left, right) == comes_before(left.skip(1), right.skip(1)));
        assert(comes_before(right, left) == comes_before(right.skip(1), left.skip(1)));
    } else {
        assert(left.len() > 0 ==> left[0] != right[0]);
    }
}

/// Part groups are put out with the most suppliers first; groups with as many suppliers go by
/// brand, those of one brand by type, those of one type by size. Each row tells the suppliers
/// of its own group, and a group without suppliers has no row.
pub proof fn law_most_suppliers_first(
    rows: Seq<PartSupplierGroupRow>,
    groups: Seq<PartGroup>,
    counts: Seq<u64>,
)
    requires
        is_report(rows, groups, counts, groups.len() as int),
    ensures
        forall|left: int, right: int|
            0 <= left < right < rows.len() ==> (#[trigger] rows[left]).supplier_count >= (
            #[trigger] rows[right]).supplier_count,
        forall|left: int, right: int|
            0 <= left < right < rows.len() && (#[trigger] rows[left]).supplier_count == (
            #[trigger] rows[right]).supplier_count ==> rows[left].brand@ == rows[right].brand@
                || comes_before(rows[left].brand@, rows[right].brand@),
        forall|left: int, right: int|
            0 <= left < right < rows.len() && (#[trigger] rows[left]).supplier_count == (
            #[trigger] rows[right]).supplier_count && rows[left].brand@ == rows[right].brand@
                ==> rows[left].part_type@ == rows[right].part_type@ || comes_before(
                rows[left].part_type@,
                rows[right].part_type@,
            ),
        forall|left: int, right: int|
            0 <= left < right < rows.len() && (#[trigger] rows[left]).supplier_count == (
            #[trigger] rows[right]).supplier_count && rows[left].brand@ == rows[right].brand@
                && rows[left].part_type@ == rows[right].part_type@ ==> rows[left].size
                < rows[right].size,
        forall|place: int|
            0 <= place < rows.len() ==> (#[trigger] rows[place]).supplier_count > 0 && exists|
                group: int,
            |
                0 <= group < groups.len() && group < counts.len()
                    && (#[trigger] groups[group]).brand
                    == rows[place].brand@ && groups[group].part_type == rows[place].part_type@
                    && groups[group].size == rows[place].size && counts[group]
                    == rows[place].supplier_count,
        forall|group: int|
            0 <= group < groups.len() && group < counts.len() && counts[group] > 0 ==> exists|
                place: int,
            |
                0 <= place < rows.len() && (#[trigger] rows[place]).brand@ == (
                #[trigger] groups[group]).brand && rows[place].part_type@
                    == groups[group].part_type && rows[place].size == groups[group].size
                    && rows[place].supplier_count == counts[group],
{
    reveal(PartSupplierGroupRow::before);
    assert forall|place: int| 0 <= place < rows.len() implies (
    #[trigger] rows[place]).supplier_count > 0 && exists|group: int|
        0 <= group < groups.len() && group < counts.len() && (#[trigger] groups[group]).brand
            == rows[place].brand@ && groups[group].part_type == rows[place].part_type@
            && groups[group].size == rows[place].size && counts[group]
            == rows[place].supplier_count by {
        assert(reports_one(rows[place], groups, counts, groups.len() as int));
        let group = choose|group: int|
            group < groups.len() && #[trigger] reports(rows[place], groups, counts, group);
        assert(groups[group].brand == rows[place].brand@);
    }
    assert forall|group: int|
        0 <= group < groups.len() && group < counts.len() && counts[group] > 0 implies exists|
        place: int,
    |
        0 <= place < rows.len() && (#[trigger] rows[place]).brand@ == (
        #[trigger] groups[group]).brand && rows[place].part_type@ == groups[group].part_type
            && rows[place].size == groups[group].size && rows[place].supplier_count
            == counts[group] by {
        let place = choose|place: int|
            0 <= place < rows.len() && reports(#[trigger] rows[place], groups, counts, group);
        assert(rows[place].brand@ == groups[group].brand);
    }
}

/// Profit is put out by nation, and of one nation the later year first.
pub proof fn law_nations_then_later_years<V>(rows: Seq<ProfitRow<V>>)
    requires
        in_report_order(reported_rows(rows)),
    ensures
        forall|left: int, right: int|
            0 <= left < right < rows.len() ==> (#[trigger] rows[left]).nation@ == (
            #[trigger] rows[right]).nation@ || comes_before(
                rows[left].nation@,
                rows[right].nation@,
            ),
        forall|left: int, right: int|
            0 <= left < right < rows.len() && (#[trigger] rows[left]).nation@ == (
            #[trigger] rows[right]).nation@ ==> rows[left].o_year >= rows[right].o_year,
{
    let reported = reported_rows(rows);
    assert forall|left: int, right: int| 0 <= left < right < rows.len() implies ((
    #[trigger] rows[left]).nation@ == (#[trigger] rows[right]).nation@ || comes_before(
        rows[left].nation@,
        rows[right].nation@,
    )) && (rows[left].nation@ == rows[right].nation@ ==> rows[left].o_year
        >= rows[right].o_year) by {
        assert(!reported[right].before(reported[left]));
        if rows[left].nation@ != rows[right].nation@ {
            law_comes_before_total(rows[left].nation@, rows[right].nation@);
        }
    }
}

proof fn lemma_named_groups<V>(
    groups: Seq<((i64, i32), V)>,
    names: Map<i64, String>,
    count: int,
    value: ReportedProfit<V>,
)
    requires
        0 <= count <= groups.len(),
    ensures
        named_groups(groups, names, count).contains(value) <==> exists|index: int|
            0 <= index < count && names.contains_key((#[trigger] groups[index]).0.0)
                && names[groups[index].0.0]@ == value.nation && groups[index].0.1 == value.o_year
                && groups[index].1 == value.sum_profit,
    decreases count,
{
    let all = named_groups(groups, names, count);
    if count > 0 {
        let earlier = named_groups(groups, names, count - 1);
        lemma_named_groups(groups, names, count - 1, value);
        let last = groups[count - 1];
        if names.contains_key(last.0.0) {
            let added = ReportedProfit {
                nation: names[last.0.0]@,
                o_year: last.0.1,
                sum_profit: last.1,
            };
            assert(all == earlier.push(added));
            assert(all[earlier.len() as int] == added);
            if earlier.contains(value) {
                let place = choose|place: int| 0 <= place < earlier.len()
                    && earlier[place] == value;
                assert(all[place] == value);
            }
            if all.contains(value) && value != added {
                let place = choose|place: int| 0 <= place < all.len() && all[place] == value;
                assert(earlier[place] == value);
            }
        }
    }
}

/// Whether a row has the name, the year and the profit of one of the groups.
pub open spec fn earned<V>(
    groups: Seq<((i64, i32), V)>,
    names: Map<i64, String>,
    row: ProfitRow<V>,
) -> bool {
    exists|index: int|
        0 <= index < groups.len() && names.contains_key((#[trigger] groups[index]).0.0)
            && names[groups[index].0.0]@ == row.nation@ && groups[index].0.1 == row.o_year
            && groups[index].1 == row.sum_profit
}

/// The rows of profit are the groups of nations with a name: each row has the name, the year
/// and the profit of one group, and each such group has its row.
pub proof fn law_profit_rows_tell_groups<V>(
    rows: Seq<ProfitRow<V>>,
    groups: Seq<((i64, i32), V)>,
    names: Map<i64, String>,
)
    requires
        reported_rows(rows).to_multiset() == named_groups(
            groups,
            names,
            groups.len() as int,
        ).to_multiset(),
    ensures
        forall|place: int|
            0 <= place < rows.len() ==> earned(groups, names, #[trigger] rows[place]),
        forall|index: int|
            0 <= index < groups.len() && names.contains_key((#[trigger] groups[index]).0.0)
                ==> exists|place: int|
                0 <= place < rows.len() && (#[trigger] rows[place]).nation@
                    == names[groups[index].0.0]@ && rows[place].o_year == groups[index].0.1
                    && rows[place].sum_profit == groups[index].1,
{
    broadcast use vstd::seq_lib::group_to_multiset_ensures;

    let reported = reported_rows(rows);
    let named = named_groups(groups, names, groups.len() as int);
    assert forall|place: int| 0 <= place < rows.len() implies earned(
        groups,
        names,
        #[trigger] rows[place],
    ) by {
        assert(reported.contains(reported[place]));
        assert(reported.to_multiset().count(reported[place]) > 0);
        assert(named.contains(reported[place]));
        lemma_named_groups(groups, names, groups.len() as int, reported[place]);
    }
    assert forall|index: int|
        0 <= index < groups.len() && names.contains_key((#[trigger] groups[index]).0.0)
            implies exists|
        place: int,
    |
        0 <= place < rows.len() && (#[trigger] rows[place]).nation@ == names[groups[index].0.0]@
            && rows[place].o_year == groups[index].0.1 && rows[place].sum_profit
            == groups[index].1 by {
        let value = ReportedProfit {
            nation: names[groups[index].0.0]@,
            o_year: groups[index].0.1,
            sum_profit: groups[index].1,
        };
        lemma_named_groups(groups, names, groups.len() as int, value);
        assert(named.to_multiset().count(value) > 0);
        assert(reported.contains(value));
        let place = choose|place: int| 0 <= place < reported.len() && reported[place] == value;
        assert(rows[place].nation@ == value.nation);
    }
}

proof fn lemma_placed_ties<T>(
    sorted: Seq<T>,
    row: T,
    after: spec_fn(T, T) -> bool,
    alike: spec_fn(T) -> bool,
)
    requires
        forall|left: T, right: T| alike(left) && alike(right) ==> !#[trigger] after(left, right),
    ensures
        placed(sorted, row, after).filter(alike) == sorted.push(row).filter(alike),
    decreases sorted.len(),
{
    reveal(Seq::filter);
    if sorted.len() > 0 && after(sorted.last(), row) {
        let shorter = sorted.drop_last();
        let last = sorted.last();
        let earlier = placed(shorter, row, after);
        lemma_placed_ties(shorter, row, after, alike);
        assert(earlier.push(last).drop_last() =~= earlier);
        assert(shorter.push(row).drop_last() =~= shorter);
        assert(sorted.push(row).drop_last() =~= sorted);
        assert(sorted.filter(alike) == (if alike(last) {
            shorter.filter(alike).push(last)
        } else {
            shorter.filter(alike)
        }));
    }
}

/// Rows of which none need come after another stay as they were.
pub proof fn law_ties_stay<T>(
    rows: Seq<T>,
    after: spec_fn(T, T) -> bool,
    alike: spec_fn(T) -> bool,
)
    requires
        forall|left: T, right: T| alike(left) && alike(right) ==> !#[trigger] after(left, right),
    ensures
        put_in_order(rows, after).filter(alike) == rows.filter(alike),
    decreases rows.len(),
{
    reveal(Seq::filter);
    if rows.len() > 0 {
        let shorter = rows.drop_last();
        let earlier = put_in_order(shorter, after);
        law_ties_stay(shorter, after, alike);
        lemma_placed_ties(earlier, rows.last(), after, alike);
        assert(earlier.push(rows.last()).drop_last() =~= earlier);
    }
}

/// Suppliers are put out by name: a name never stands before one that it comes after, no
/// supplier is lost or added, and suppliers of one name stay as they were.
pub proof fn law_suppliers_by_name(
    rows: Seq<SupplierAddress>,
    sorted: Seq<SupplierAddress>,
    name: Seq<char>,
)
    requires
        addresses(sorted) == put_in_order(addresses(rows), by_name()),
    ensures
        forall|left: int, right: int|
            0 <= left < right < sorted.len() ==> (#[trigger] sorted[left]).s_name@ == (
            #[trigger] sorted[right]).s_name@ || comes_before(
                sorted[left].s_name@,
                sorted[right].s_name@,
            ),
        addresses(sorted).to_multiset() == addresses(rows).to_multiset(),
        addresses(sorted).filter(|row: NamedAddress| row.0 == name) == addresses(rows).filter(
            |row: NamedAddress| row.0 == name,
        ),
{
    law_names_order_rows();
    law_put_in_order(addresses(rows), by_name());
    let values = addresses(sorted);
    assert forall|left: int, right: int| 0 <= left < right < sorted.len() implies (
    #[trigger] sorted[left]).s_name@ == (#[trigger] sorted[right]).s_name@ || comes_before(
        sorted[left].s_name@,
        sorted[right].s_name@,
    ) by {
        assert(!by_name()(values[left], values[right]));
        if sorted[left].s_name@ != sorted[right].s_name@ {
            law_comes_before_total(sorted[left].s_name@, sorted[right].s_name@);
        }
    }
    law_comes_before_irreflexive(name);
    law_ties_stay(addresses(rows), by_name(), |row: NamedAddress| row.0 == name);
}

proof fn lemma_named_revenues(
    groups: Seq<(i64, i64)>,
    names: Map<i64, String>,
    value: NamedRevenue,
)
    ensures
        named_revenues(groups, names).contains(value) <==> exists|index: int|
            0 <= index < groups.len() && names.contains_key((#[trigger] groups[index]).0)
                && names[groups[index].0]@ == value.0 && groups[index].1 == value.1,
    decreases groups.len(),
{
    let all = named_revenues(groups, names);
    if groups.len() > 0 {
        let shorter = groups.drop_last();
        let earlier = named_revenues(shorter, names);
        lemma_named_revenues(shorter, names, value);
        let last = groups.last();
        if earlier.contains(value) {
            let index = choose|index: int|
                0 <= index < shorter.len() && names.contains_key((#[trigger] shorter[index]).0)
                    && names[shorter[index].0]@ == value.0 && shorter[index].1 == value.1;
            assert(groups[index] == shorter[index]);
        }
        if names.contains_key(last.0) {
            let added = (names[last.0]@, last.1);
            assert(all == earlier.push(added));
            assert(all[earlier.len() as int] == added);
            if earlier.contains(value) {
                let place = choose|place: int| 0 <= place < earlier.len()
                    && earlier[place] == value;
                assert(all[place] == value);
            }
            if all.contains(value) && value != added {
                let place = choose|place: int| 0 <= place < all.len() && all[place] == value;
                assert(earlier[place] == value);
            }
            if value == added {
                assert(groups[groups.len() - 1].0 == last.0);
            }
        }
        if exists|index: int|
            0 <= index < groups.len() && names.contains_key((#[trigger] groups[index]).0)
                && names[groups[index].0]@ == value.0 && groups[index].1 == value.1 {
            let index = choose|index: int|
                0 <= index < groups.len() && names.contains_key((#[trigger] groups[index]).0)
                    && names[groups[index].0]@ == value.0 && groups[index].1 == value.1;
            if index < shorter.len() {
                assert(shorter[index] == groups[index]);
            }
        }
    }
}

/// Whether a row has the name of one of the nations and what it earned.
pub open spec fn taken_in(
    groups: Seq<(i64, i64)>,
    names: Map<i64, String>,
    row: NationRevenue,
) -> bool {
    exists|index: int|
        0 <= index < groups.len() && names.contains_key((#[trigger] groups[index]).0)
            && names[groups[index].0]@ == row.n_name@ && groups[index].1 == row.revenue
}

/// Nations are put out with those that earned most first. Each row has the name of a nation
/// and what it earned, and each nation with a name has its row.
pub proof fn law_most_revenue_first(
    rows: Seq<NationRevenue>,
    groups: Seq<(i64, i64)>,
    names: Map<i64, String>,
)
    requires
        revenues(rows) == put_in_order(named_revenues(groups, names), by_revenue()),
    ensures
        forall|left: int, right: int|
            0 <= left < right < rows.len() ==> (#[trigger] rows[left]).revenue >= (
            #[trigger] rows[right]).revenue,
        forall|place: int|
            0 <= place < rows.len() ==> taken_in(groups, names, #[trigger] rows[place]),
        forall|index: int|
            0 <= index < groups.len() && names.contains_key((#[trigger] groups[index]).0)
                ==> exists|place: int|
                0 <= place < rows.len() && (#[trigger] rows[place]).n_name@
                    == names[groups[index].0]@ && rows[place].revenue == groups[index].1,
{
    broadcast use vstd::seq_lib::group_to_multiset_ensures;

    let named = named_revenues(groups, names);
    let values = revenues(rows);
    law_revenue_orders_rows();
    law_put_in_order(named, by_revenue());
    assert forall|left: int, right: int| 0 <= left < right < rows.len() implies (
    #[trigger] rows[left]).revenue >= (#[trigger] rows[right]).revenue by {
        assert(!by_revenue()(values[left], values[right]));
    }
    assert forall|place: int| 0 <= place < rows.len() implies taken_in(
        groups,
        names,
        #[trigger] rows[place],
    ) by {
        assert(values.contains(values[place]));
        assert(values.to_multiset().count(values[place]) > 0);
        assert(named.contains(values[place]));
        lemma_named_revenues(groups, names, values[place]);
    }
    assert forall|index: int|
        0 <= index < groups.len() && names.contains_key((#[trigger] groups[index]).0)
            implies exists|
        place: int,
    |
        0 <= place < rows.len() && (#[trigger] rows[place]).n_name@ == names[groups[index].0]@
            && rows[place].revenue == groups[index].1 by {
        let value = (names[groups[index].0]@, groups[index].1);
        lemma_named_revenues(groups, names, value);
        assert(named.to_multiset().count(value) > 0);
        assert(values.contains(value));
        let place = choose|place: int| 0 <= place < values.len() && values[place] == value;
        assert(rows[place].n_name@ == value.0);
    }
}

proof fn lemma_rank_order(left: RevenueEntry, right: RevenueEntry)
    requires
        ranks_before(entry_rank(left), entry_rank(right)),
    ensures
        left.1 > right.1 || (left.1 == right.1 && left.0 < right.0),
{
    let first = entry_rank(left);
    let second = entry_rank(right);
    let place = choose|place: int| smaller_at(first, second, place);
    assert(first[0] == -(left.1 as int));
    assert(second[0] == -(right.1 as int));
    assert(first[1] == left.0);
    assert(second[1] == right.0);
    if place == 1 {
        assert(first.take(1)[0] == second.take(1)[0]);
    }
}

proof fn lemma_entry_there(entries: Seq<RevenueEntry>, entry: RevenueEntry)
    requires
        entry_ranks(entries).contains(entry_rank(entry)),
    ensures
        entries.contains(entry),
{
    let ranks = entry_ranks(entries);
    let place = choose|place: int| 0 <= place < ranks.len() && ranks[place] == entry_rank(entry);
    assert(entry_rank(entries[place])[0] == entry_rank(entry)[0]);
    assert(entry_rank(entries[place])[1] == entry_rank(entry)[1]);
    assert(entries[place] == entry);
}

/// The first entries are those with the most revenue, most first and of equal revenue the
/// smaller key first; each is one of the entries, as many are kept as the limit allows, and
/// none that is left out has more revenue than one that is kept.
pub proof fn law_top_entries(entries: Seq<RevenueEntry>, top: Seq<RevenueEntry>, limit: int)
    requires
        is_top(entry_ranks(entries), entry_ranks(top), limit),
    ensures
        top.len() == (if entries.len() <= limit {
            entries.len() as int
        } else {
            limit
        }),
        forall|left: int, right: int|
            0 <= left < right < top.len() ==> (#[trigger] top[left]).1 > (#[trigger] top[right]).1
                || (top[left].1 == top[right].1 && top[left].0 < top[right].0),
        forall|place: int| 0 <= place < top.len() ==> entries.contains(#[trigger] top[place]),
        forall|entry: RevenueEntry, place: int| #[trigger]
            entries.contains(entry) && !top.contains(entry) && 0 <= place < top.len() ==> (
            #[trigger] top[place]).1 > entry.1 || (top[place].1 == entry.1 && top[place].0
                < entry.0),
{
    let ranks = entry_ranks(top);
    let offered = entry_ranks(entries);
    assert forall|left: int, right: int| 0 <= left < right < top.len() implies (
    #[trigger] top[left]).1 > (#[trigger] top[right]).1 || (top[left].1 == top[right].1
        && top[left].0 < top[right].0) by {
        assert(ranks_before(ranks[left], ranks[right]));
        lemma_rank_order(top[left], top[right]);
    }
    assert forall|place: int| 0 <= place < top.len() implies entries.contains(
        #[trigger] top[place],
    ) by {
        assert(offered.contains(ranks[place]));
        lemma_entry_there(entries, top[place]);
    }
    assert forall|entry: RevenueEntry, place: int| #[trigger]
        entries.contains(entry) && !top.contains(entry) && 0 <= place < top.len() implies (
    #[trigger] top[place]).1 > entry.1 || (top[place].1 == entry.1 && top[place].0 < entry.0) by {
        let source = choose|source: int| 0 <= source < entries.len() && entries[source] == entry;
        assert(offered[source] == entry_rank(entry));
        assert(offered.contains(entry_rank(entry)));
        if ranks.contains(entry_rank(entry)) {
            lemma_entry_there(top, entry);
        }
        assert(comes_after_all(ranks, entry_rank(entry)));
        assert(ranks_before(ranks[place], entry_rank(entry)));
        lemma_rank_order(top[place], entry);
    }
}

/// The entries that are known are those of a customer whose nation has a name.
pub proof fn law_known_entries(
    revenues: Seq<RevenueEntry>,
    customer_nations: Map<i64, i64>,
    nation_names: Map<i64, String>,
)
    ensures
        forall|entry: RevenueEntry|
            #[trigger] known_entries(revenues, customer_nations, nation_names).contains(entry)
                <==> revenues.contains(entry) && customer_nations.contains_key(entry.0)
                && nation_names.contains_key(customer_nations[entry.0]),
    decreases revenues.len(),
{
    let known = known_entries(revenues, customer_nations, nation_names);
    if revenues.len() > 0 {
        let shorter = revenues.drop_last();
        let last = revenues.last();
        let earlier = known_entries(shorter, customer_nations, nation_names);
        law_known_entries(shorter, customer_nations, nation_names);
        assert forall|entry: RevenueEntry|
            #[trigger] known.contains(entry) <==> revenues.contains(entry)
                && customer_nations.contains_key(entry.0) && nation_names.contains_key(
                customer_nations[entry.0],
            ) by {
            assert(earlier.contains(entry) <==> shorter.contains(entry)
                && customer_nations.contains_key(entry.0) && nation_names.contains_key(
                customer_nations[entry.0],
            ));
            if shorter.contains(entry) {
                let place = choose|place: int| 0 <= place < shorter.len()
                    && shorter[place] == entry;
                assert(revenues[place] == entry);
            }
            assert(revenues[revenues.len() - 1] == last);
            if revenues.contains(entry) && entry != last {
                let place = choose|place: int|
                    0 <= place < revenues.len() && revenues[place] == entry;
                assert(shorter[place] == entry);
            }
            if earlier.contains(entry) {
                let place = choose|place: int| 0 <= place < earlier.len()
                    && earlier[place] == entry;
                assert(known[place] == entry);
            }
            if known.len() > earlier.len() {
                assert(known[earlier.len() as int] == last);
            }
            if known.contains(entry) && !earlier.contains(entry) {
                let place = choose|place: int| 0 <= place < known.len() && known[place] == entry;
                if place < earlier.len() {
                    assert(earlier[place] == entry);
                }
            }
        }
    }
}

/// The groups of the pricing summary are put out by return flag, and those of one return flag
/// by line status.
pub proof fn law_flags_then_statuses(rows: Seq<PricingSummaryRow>)
    requires
        groups_in_order(rows),
    ensures
        forall|left: int, right: int|
            0 <= left < right < rows.len() ==> (#[trigger] rows[left]).returnflag@ == (
            #[trigger] rows[right]).returnflag@ || comes_before(
                rows[left].returnflag@,
                rows[right].returnflag@,
            ),
        forall|left: int, right: int|
            0 <= left < right < rows.len() && (#[trigger] rows[left]).returnflag@ == (
            #[trigger] rows[right]).returnflag@ ==> rows[left].linestatus@
                == rows[right].linestatus@ || comes_before(
                rows[left].linestatus@,
                rows[right].linestatus@,
            ),
{
    assert forall|left: int, right: int| 0 <= left < right < rows.len() implies ((
    #[trigger] rows[left]).returnflag@ == (#[trigger] rows[right]).returnflag@ || comes_before(
        rows[left].returnflag@,
        rows[right].returnflag@,
    )) && (rows[left].returnflag@ == rows[right].returnflag@ ==> rows[left].linestatus@
        == rows[right].linestatus@ || comes_before(
        rows[left].linestatus@,
        rows[right].linestatus@,
    )) by {
        if rows[left].returnflag@ != rows[right].returnflag@ {
            law_comes_before_total(rows[left].returnflag@, rows[right].returnflag@);
        } else if rows[left].linestatus@ != rows[right].linestatus@ {
            law_comes_before_total(rows[left].linestatus@, rows[right].linestatus@);
        }
    }
}

} // verus!
