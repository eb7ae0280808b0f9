//! The rows that report profit by nation and year.

use std::collections::HashMap;
use vstd::prelude::*;
use crate::text::{
    comes_before, law_comes_before_irreflexive, law_comes_before_total, law_comes_before_transitive,
    str_less,
};

verus! {

broadcast use vstd::std_specs::hash::group_hash_axioms;

/// A nation and year with their profit.
pub struct ProfitRow<V> {
    pub nation: String,
    pub o_year: i32,
    pub sum_profit: V,
}

/// A nation and year with their profit, as a value.
pub struct ReportedProfit<V> {
    pub nation: Seq<char>,
    pub o_year: i32,
    pub sum_profit: V,
}

impl<V> ReportedProfit<V> {
    /// Whether this row comes before `other`: by nation, then the later year first.
    pub open spec fn before(self, other: ReportedProfit<V>) -> bool {
        if self.nation != other.nation {
            comes_before(self.nation, other.nation)
        } else {
            self.o_year > other.o_year
        }
    }
}

impl<V> ProfitRow<V> {
    /// The row as a value.
    pub open spec fn reported(self) -> ReportedProfit<V> {
        ReportedProfit {
            nation: self.nation@,
            o_year: self.o_year,
            sum_profit: self.sum_profit,
        }
    }

    /// Whether this row comes before `other`.
    pub fn is_before(&self, other: &ProfitRow<V>) -> (before: bool)
        ensures
            before == self.reported().before(other.reported()),
    {
        if self.nation != other.nation {
            str_less(self.nation.as_str(), other.nation.as_str())
        } else {
            self.o_year > other.o_year
        }
    }
}

/// The rows as values.
pub open spec fn reported_rows<V>(rows: Seq<ProfitRow<V>>) -> Seq<ReportedProfit<V>> {
    rows.map_values(|row: ProfitRow<V>| row.reported())
}

/// Whether no row comes before an earlier one.
pub open spec fn in_report_order<V>(rows: Seq<ReportedProfit<V>>) -> bool {
    forall|left: int, right: int|
        0 <= left < right < rows.len() ==> !(#[trigger] rows[right]).before(#[trigger] rows[left])
}

/// The groups whose nation has a name, in order.
pub open spec fn named_groups<V>(
    groups: Seq<((i64, i32), V)>,
    names: Map<i64, String>,
    count: int,
) -> Seq<ReportedProfit<V>>
    decreases count,
{
    if count <= 0 {
        Seq::empty()
    } else {
        let ((nationkey, o_year), sum_profit) = groups[count - 1];
        if names.contains_key(nationkey) {
            named_groups(groups, names, count - 1).push(
                ReportedProfit { nation: names[nationkey]@, o_year, sum_profit },
            )
        } else {
            named_groups(groups, names, count - 1)
        }
    }
}

/// What does not come after can be chained.
proof fn lemma_not_before_chains<V>(
    first: ReportedProfit<V>,
    second: ReportedProfit<V>,
    third: ReportedProfit<V>,
)
    requires
        !second.before(first),
        !third.before(second),
    ensures
        !third.before(first),
{
    if third.before(first) {
        if first.nation != second.nation {
            law_comes_before_total(first.nation, second.nation);
        }
        if second.nation != third.nation {
            law_comes_before_total(second.nation, third.nation);
        }
        if first.nation != second.nation && second.nation != third.nation {
            law_comes_before_transitive(first.nation, second.nation, third.nation);
            if first.nation == third.nation {
                law_comes_before_irreflexive(first.nation);
            } else {
                law_comes_before_transitive(third.nation, first.nation, third.nation);
                law_comes_before_irreflexive(third.nation);
            }
        } else if first.nation != third.nation {
            law_comes_before_transitive(third.nation, first.nation, third.nation);
            law_comes_before_irreflexive(third.nation);
        }
    }
}

/// A row that comes before another does not come after it.
proof fn lemma_before_not_after<V>(left: ReportedProfit<V>, right: ReportedProfit<V>)
    requires
        left.before(right),
    ensures
        !right.before(left),
{
    if left.nation != right.nation && right.before(left) {
        law_comes_before_transitive(left.nation, right.nation, left.nation);
        law_comes_before_irreflexive(left.nation);
    }
}

/// Putting a value into a list adds it to what the list holds.
proof fn lemma_insert_multiset<T>(list: Seq<T>, place: int, value: T)
    requires
        0 <= place <= list.len(),
    ensures
        list.insert(place, value).to_multiset() =~= list.push(value).to_multiset(),
{
    let front = list.take(place);
    let back = list.skip(place);
    assert(list.insert(place, value) =~= (front + seq![value]) + back);
    assert(list.push(value) =~= (front + back) + seq![value]);
    vstd::seq_lib::lemma_multiset_commutative(front + seq![value], back);
    vstd::seq_lib::lemma_multiset_commutative(front, seq![value]);
    vstd::seq_lib::lemma_multiset_commutative(front + back, seq![value]);
    vstd::seq_lib::lemma_multiset_commutative(front, back);
}

/// The same value put behind two lists that hold the same.
proof fn lemma_push_multiset<T>(left: Seq<T>, right: Seq<T>, value: T)
    requires
        left.to_multiset() == right.to_multiset(),
    ensures
        left.push(value).to_multiset() == right.push(value).to_multiset(),
{
    assert(left.push(value) =~= left + seq![value]);
    assert(right.push(value) =~= right + seq![value]);
    vstd::seq_lib::lemma_multiset_commutative(left, seq![value]);
    vstd::seq_lib::lemma_multiset_commutative(right, seq![value]);
}

/// Puts a row where it belongs, behind rows that it does not come before.
fn insert_row<V>(rows: &mut Vec<ProfitRow<V>>, row: ProfitRow<V>)
    requires
        in_report_order(reported_rows(old(rows)@)),
    ensures
        in_report_order(reported_rows(final(rows)@)),
        reported_rows(final(rows)@).to_multiset() == reported_rows(old(rows)@).push(
            row.reported(),
        ).to_multiset(),
{
    let ghost before = reported_rows(rows@);
    let ghost item = row.reported();
    let mut place: usize = rows.len();
    while place > 0 && row.is_before(&rows[place - 1])
        invariant
            before == reported_rows(rows@),
            item == row.reported(),
            place <= before.len(),
            forall|index: int|
                place <= index < before.len() ==> item.before(#[trigger] before[index]),
        decreases place,
    {
        assert(before[place - 1] == rows@[place - 1].reported());
        place -= 1;
    }
    assert(place > 0 ==> before[place - 1] == rows@[place - 1].reported());
    rows.insert(place, row);
    proof {
        let after = before.insert(place as int, item);
        assert(reported_rows(rows@) =~= after);
        lemma_insert_multiset(before, place as int, item);
        assert forall|left: int, right: int| 0 <= left < right < after.len() implies !(
        #[trigger] after[right]).before(#[trigger] after[left]) by {
            let left_source = if left < place {
                left
            } else {
                left - 1
            };
            let right_source = if right < place {
                right
            } else {
                right - 1
            };
            if left == place {
                assert(after[right] == before[right_source]);
                lemma_before_not_after(item, before[right_source]);
            } else if right == place {
                assert(after[left] == before[left_source]);
                let last = before[place - 1];
                if left_source < place - 1 {
                    lemma_not_before_chains(before[left_source], last, item);
                }
            } else {
                assert(after[left] == before[left_source]);
                assert(after[right] == before[right_source]);
            }
        }
    }
}

/// The rows for the groups whose nation has a name, by nation, then the later year
/// first.
pub fn profit_rows_from_groups<V: Copy>(
    groups: &[((i64, i32), V)],
    nation_names: &HashMap<i64, String>,
) -> (rows: Vec<ProfitRow<V>>)
    ensures
        in_report_order(reported_rows(rows@)),
        reported_rows(rows@).to_multiset() == named_groups(
            groups@,
            nation_names@,
            groups@.len() as int,
        ).to_multiset(),
{
    let mut rows: Vec<ProfitRow<V>> = Vec::new();
    let mut index: usize = 0;
    assert(reported_rows(rows@) =~= named_groups(groups@, nation_names@, 0));
    while index < groups.len()
        invariant
            index <= groups@.len(),
            in_report_order(reported_rows(rows@)),
            reported_rows(rows@).to_multiset() == named_groups(
                groups@,
                nation_names@,
                index as int,
            ).to_multiset(),
        decreases groups@.len() - index,
    {
        let ((nationkey, o_year), sum_profit): ((i64, i32), V) = groups[index];
        match nation_names.get(&nationkey) {
            Some(nation) => {
                let row = ProfitRow { nation: nation.clone(), o_year, sum_profit };
                proof {
                    lemma_push_multiset(
                        reported_rows(rows@),
                        named_groups(groups@, nation_names@, index as int),
                        row.reported(),
                    );
                }
                insert_row(&mut rows, row);
            },
            None => {},
        }
        index += 1;
    }
    rows
}

} // verus!
