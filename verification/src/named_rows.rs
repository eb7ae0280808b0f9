//! Rows that are put out by name, or by what they earned.

use std::collections::HashMap;
use vstd::prelude::*;
use crate::text::{
    comes_before, law_comes_before_irreflexive, law_comes_before_total, law_comes_before_transitive,
    str_less, string_copy,
};

verus! {

broadcast use vstd::std_specs::hash::group_hash_axioms;

/// Rows in order with one more, which goes behind every row that need not come after it.
pub open spec fn placed<T>(sorted: Seq<T>, row: T, after: spec_fn(T, T) -> bool) -> Seq<T>
    decreases sorted.len(),
{
    if sorted.len() > 0 && after(sorted.last(), row) {
        placed(sorted.drop_last(), row, after).push(sorted.last())
    } else {
        sorted.push(row)
    }
}

/// Rows in order; rows of which neither need come after the other stay as they were.
pub open spec fn put_in_order<T>(rows: Seq<T>, after: spec_fn(T, T) -> bool) -> Seq<T>
    decreases rows.len(),
{
    if rows.len() == 0 {
        Seq::empty()
    } else {
        placed(put_in_order(rows.drop_last(), after), rows.last(), after)
    }
}

/// Whether no row stands before one that it must come after.
pub open spec fn in_order<T>(rows: Seq<T>, after: spec_fn(T, T) -> bool) -> bool {
    forall|left: int, right: int|
        0 <= left < right < rows.len() ==> !after(#[trigger] rows[left], #[trigger] rows[right])
}

/// Whether coming after is a strict order in which ties tie alike.
pub open spec fn orders_rows<T>(after: spec_fn(T, T) -> bool) -> bool {
    &&& forall|left: T, right: T| #[trigger] after(left, right) ==> !after(right, left)
    &&& forall|first: T, second: T, third: T|
        !#[trigger] after(first, second) && !#[trigger] after(second, third) ==> !after(
            first,
            third,
        )
}

proof fn lemma_placed_at<T>(sorted: Seq<T>, row: T, after: spec_fn(T, T) -> bool, place: int)
    requires
        0 <= place <= sorted.len(),
        forall|index: int| place <= index < sorted.len() ==> after(#[trigger] sorted[index], row),
        place > 0 ==> !after(sorted[place - 1], row),
    ensures
        placed(sorted, row, after) =~= sorted.insert(place, row),
    decreases sorted.len() - place,
{
    if place < sorted.len() {
        lemma_placed_at(sorted.drop_last(), row, after, place);
        assert(sorted.insert(place, row) =~= sorted.drop_last().insert(place, row).push(
            sorted.last(),
        ));
    } else {
        assert(sorted.insert(place, row) =~= sorted.push(row));
    }
}

proof fn lemma_placed<T>(sorted: Seq<T>, row: T, after: spec_fn(T, T) -> bool)
    requires
        orders_rows(after),
        in_order(sorted, after),
    ensures
        in_order(placed(sorted, row, after), after),
        placed(sorted, row, after).to_multiset() =~= sorted.to_multiset().insert(row),
        forall|index: int|
            0 <= index < placed(sorted, row, after).len() ==> #[trigger] placed(
                sorted,
                row,
                after,
            )[index] == row || sorted.contains(placed(sorted, row, after)[index]),
    decreases sorted.len(),
{
    broadcast use vstd::seq_lib::group_to_multiset_ensures;

    let all = placed(sorted, row, after);
    if sorted.len() > 0 && after(sorted.last(), row) {
        let shorter = sorted.drop_last();
        let last = sorted.last();
        let earlier = placed(shorter, row, after);
        lemma_placed(shorter, row, after);
        assert(sorted =~= shorter.push(last));
        assert forall|left: int, right: int| 0 <= left < right < all.len() implies !after(
            #[trigger] all[left],
            #[trigger] all[right],
        ) by {
            if right == all.len() - 1 {
                assert(all[left] == earlier[left]);
                if earlier[left] != row {
                    let place = choose|place: int|
                        0 <= place < shorter.len() && shorter[place] == earlier[left];
                    assert(!after(sorted[place], sorted[sorted.len() - 1]));
                }
            } else {
                assert(!after(earlier[left], earlier[right]));
            }
        }
        assert forall|index: int| 0 <= index < all.len() implies #[trigger] all[index] == row
            || sorted.contains(all[index]) by {
            if index < earlier.len() {
                assert(all[index] == earlier[index]);
                if earlier[index] != row {
                    let place = choose|place: int|
                        0 <= place < shorter.len() && shorter[place] == earlier[index];
                    assert(sorted[place] == all[index]);
                }
            } else {
                assert(sorted[sorted.len() - 1] == all[index]);
            }
        }
    } else {
        assert forall|left: int, right: int| 0 <= left < right < all.len() implies !after(
            #[trigger] all[left],
            #[trigger] all[right],
        ) by {
            if right == sorted.len() {
                let last = sorted[sorted.len() - 1];
                if left < sorted.len() - 1 {
                    assert(!after(sorted[left], last));
                    assert(!after(last, row));
                }
            } else {
                assert(!after(sorted[left], sorted[right]));
            }
        }
        assert forall|index: int| 0 <= index < all.len() implies #[trigger] all[index] == row
            || sorted.contains(all[index]) by {
            if index < sorted.len() {
                assert(sorted[index] == all[index]);
            }
        }
    }
}

/// Putting rows in order loses none, adds none and leaves none before one that it must
/// come after.
pub proof fn law_put_in_order<T>(rows: Seq<T>, after: spec_fn(T, T) -> bool)
    requires
        orders_rows(after),
    ensures
        in_order(put_in_order(rows, after), after),
        put_in_order(rows, after).to_multiset() =~= rows.to_multiset(),
    decreases rows.len(),
{
    broadcast use vstd::seq_lib::group_to_multiset_ensures;

    if rows.len() > 0 {
        law_put_in_order(rows.drop_last(), after);
        lemma_placed(put_in_order(rows.drop_last(), after), rows.last(), after);
        assert(rows =~= rows.drop_last().push(rows.last()));
    } else {
        assert(rows =~= Seq::empty());
    }
}

/// The name and address of a supplier.
#[derive(Debug)]
pub struct SupplierAddress {
    pub s_name: String,
    pub s_address: String,
}

/// The name and address of a supplier, as values.
pub type NamedAddress = (Seq<char>, Seq<char>);

/// Suppliers as values.
pub open spec fn addresses(rows: Seq<SupplierAddress>) -> Seq<NamedAddress> {
    rows.map_values(|row: SupplierAddress| (row.s_name@, row.s_address@))
}

/// Whether a name comes after another.
pub open spec fn by_name() -> spec_fn(NamedAddress, NamedAddress) -> bool {
    |left: NamedAddress, right: NamedAddress| comes_before(right.0, left.0)
}

/// Names order suppliers.
pub proof fn law_names_order_rows()
    ensures
        orders_rows(by_name()),
{
    let after = by_name();
    assert forall|left: NamedAddress, right: NamedAddress| #[trigger]
        after(left, right) implies !after(right, left) by {
        if after(right, left) {
            law_comes_before_transitive(left.0, right.0, left.0);
            law_comes_before_irreflexive(left.0);
        }
    }
    assert forall|first: NamedAddress, second: NamedAddress, third: NamedAddress|
        !#[trigger] after(first, second) && !#[trigger] after(second, third) implies !after(
        first,
        third,
    ) by {
        if after(first, third) {
            if first.0 != second.0 {
                law_comes_before_total(first.0, second.0);
                law_comes_before_transitive(third.0, first.0, second.0);
            }
        }
    }
}

/// The suppliers by name; those of one name stay as they were.
pub fn suppliers_by_name(rows: Vec<SupplierAddress>) -> (sorted: Vec<SupplierAddress>)
    ensures
        addresses(sorted@) == put_in_order(addresses(rows@), by_name()),
{
    let ghost all = addresses(rows@);
    let mut sorted: Vec<SupplierAddress> = Vec::new();
    assert(addresses(sorted@) =~= put_in_order(all.take(0), by_name()));
    for row in rest: rows
        invariant
            all == addresses(rest.seq()),
            addresses(sorted@) == put_in_order(all.take(rest.index() as int), by_name()),
    {
        let ghost before = addresses(sorted@);
        let ghost value = (row.s_name@, row.s_address@);
        let mut place: usize = sorted.len();
        while place > 0 && str_less(row.s_name.as_str(), sorted[place - 1].s_name.as_str())
            invariant
                place <= sorted@.len(),
                before == addresses(sorted@),
                value == (row.s_name@, row.s_address@),
                forall|index: int|
                    place <= index < before.len() ==> by_name()(#[trigger] before[index], value),
            decreases place,
        {
            place -= 1;
            assert(before[place as int] == (
                sorted@[place as int].s_name@,
                sorted@[place as int].s_address@,
            ));
        }
        sorted.insert(place, row);
        proof {
            let index = rest.index() as int;
            assert(all.take(index + 1).drop_last() =~= all.take(index));
            assert(all[index] == value);
            lemma_placed_at(before, value, by_name(), place as int);
            assert(addresses(sorted@) =~= before.insert(place as int, value));
        }
    }
    assert(all.take(all.len() as int) =~= all);
    sorted
}

/// A nation and what it earned, by the integer that orders as the amount does.
#[derive(Debug)]
pub struct NationRevenue {
    pub n_name: String,
    pub revenue: i64,
}

/// A nation and what it earned, as values.
pub type NamedRevenue = (Seq<char>, i64);

/// Nations as values.
pub open spec fn revenues(rows: Seq<NationRevenue>) -> Seq<NamedRevenue> {
    rows.map_values(|row: NationRevenue| (row.n_name@, row.revenue))
}

/// Whether a nation earned less than another.
pub open spec fn by_revenue() -> spec_fn(NamedRevenue, NamedRevenue) -> bool {
    |left: NamedRevenue, right: NamedRevenue| left.1 < right.1
}

/// Revenue orders nations.
pub proof fn law_revenue_orders_rows()
    ensures
        orders_rows(by_revenue()),
{
}

/// The nations that have a name, with what each earned.
pub open spec fn named_revenues(groups: Seq<(i64, i64)>, names: Map<i64, String>) -> Seq<
    NamedRevenue,
>
    decreases groups.len(),
{
    if groups.len() == 0 {
        Seq::empty()
    } else {
        let earlier = named_revenues(groups.drop_last(), names);
        if names.contains_key(groups.last().0) {
            earlier.push((names[groups.last().0]@, groups.last().1))
        } else {
            earlier
        }
    }
}

/// The nations that have a name, those that earned most first; those that earned the same
/// stay as they were.
pub fn nations_by_revenue(groups: &[(i64, i64)], names: &HashMap<i64, String>) -> (rows: Vec<
    NationRevenue,
>)
    ensures
        revenues(rows@) == put_in_order(named_revenues(groups@, names@), by_revenue()),
{
    let mut rows: Vec<NationRevenue> = Vec::new();
    let mut index: usize = 0;
    assert(groups@.take(0) =~= Seq::empty());
    assert(revenues(rows@) =~= put_in_order(named_revenues(groups@.take(0), names@), by_revenue()));
    while index < groups.len()
        invariant
            index <= groups@.len(),
            revenues(rows@) == put_in_order(
                named_revenues(groups@.take(index as int), names@),
                by_revenue(),
            ),
        decreases groups@.len() - index,
    {
        let (nation, revenue): (i64, i64) = groups[index];
        proof {
            assert(groups@.take(index + 1).drop_last() =~= groups@.take(index as int));
            assert(groups@.take(index + 1).last() == groups@[index as int]);
        }
        match names.get(&nation) {
            Some(name) => {
                let ghost before = revenues(rows@);
                let ghost value = (name@, revenue);
                let ghost named = named_revenues(groups@.take(index as int), names@);
                let mut place: usize = rows.len();
                while place > 0 && rows[place - 1].revenue < revenue
                    invariant
                        place <= rows@.len(),
                        before == revenues(rows@),
                        value.1 == revenue,
                        forall|later: int|
                            place <= later < before.len() ==> by_revenue()(
                                #[trigger] before[later],
                                value,
                            ),
                    decreases place,
                {
                    place -= 1;
                    assert(before[place as int].1 == rows@[place as int].revenue);
                }
                rows.insert(place, NationRevenue { n_name: string_copy(name), revenue });
                proof {
                    lemma_placed_at(before, value, by_revenue(), place as int);
                    assert(revenues(rows@) =~= before.insert(place as int, value));
                    assert(named.push(value).drop_last() =~= named);
                }
            },
            None => {},
        }
        index += 1;
    }
    assert(groups@.take(index as int) =~= groups@);
    rows
}

} // verus!
