//! The customers with the most revenue.
//!
//! Revenue is given by an integer that orders as it does. Of equal revenue the smaller
//! key comes first.

use std::collections::HashMap;
use vstd::prelude::*;
use crate::topk::{
    comes_after_all, is_top, lemma_ascending_distinct, lemma_no_longer, rank_views, ranks_before,
    Rank, TopK,
};

verus! {

broadcast use vstd::std_specs::hash::group_hash_axioms;

/// A key and its revenue.
pub type RevenueEntry = (i64, i64);

/// The place of an entry in the order: more revenue first, then the smaller key.
pub open spec fn entry_rank(entry: RevenueEntry) -> Seq<i128> {
    seq![(-(entry.1 as int)) as i128, entry.0 as i128]
}

/// The places of entries in the order.
pub open spec fn entry_ranks(entries: Seq<RevenueEntry>) -> Seq<Seq<i128>> {
    entries.map_values(|entry: RevenueEntry| entry_rank(entry))
}

/// Whether no key occurs twice.
pub open spec fn keys_distinct(entries: Seq<RevenueEntry>) -> bool {
    forall|left: int, right: int|
        0 <= left < right < entries.len() ==> (#[trigger] entries[left]).0 != (
        #[trigger] entries[right]).0
}

/// The first `limit` entries in the order.
fn top_entries(entries: &[RevenueEntry], limit: usize) -> (top: Vec<RevenueEntry>)
    requires
        keys_distinct(entries@),
    ensures
        is_top(entry_ranks(entries@), entry_ranks(top@), limit as int),
{
    let ghost ranks = entry_ranks(entries@);
    let mut kept = TopK::new(limit, 2);
    let mut index: usize = 0;
    assert(ranks.take(0) =~= Seq::empty());
    while index < entries.len()
        invariant
            keys_distinct(entries@),
            ranks == entry_ranks(entries@),
            index <= entries@.len(),
            kept.well_formed(),
            kept.limit() == limit,
            kept.width() == 2,
            kept.offered() == ranks.take(index as int),
        decreases entries@.len() - index,
    {
        let (key, revenue): (i64, i64) = entries[index];
        let most_first: i128 = -(revenue as i128);
        let rank: Rank = vec![most_first, key as i128];
        assert(rank@ =~= entry_rank(entries@[index as int]));
        proof {
            if kept.offered().contains(rank@) {
                let place = choose|place: int|
                    0 <= place < kept.offered().len() && kept.offered()[place] == rank@;
                assert(ranks.take(index as int)[place] == entry_rank(entries@[place]));
                assert(entry_rank(entries@[place])[1] == entry_rank(entries@[index as int])[1]);
            }
        }
        kept.push(rank);
        index += 1;
        assert(ranks.take(index as int) =~= ranks.take(index - 1).push(ranks[index - 1]));
    }
    assert(ranks.take(index as int) =~= ranks);
    let places = kept.into_ranks();
    let mut top: Vec<RevenueEntry> = Vec::new();
    let mut place: usize = 0;
    while place < places.len()
        invariant
            ranks == entry_ranks(entries@),
            is_top(ranks, rank_views(places@), limit as int),
            place <= places@.len(),
            top@.len() == place,
            forall|earlier: int|
                0 <= earlier < place ==> entry_rank(#[trigger] top@[earlier]) == rank_views(
                    places@,
                )[earlier],
        decreases places@.len() - place,
    {
        let ghost rank = rank_views(places@)[place as int];
        proof {
            assert(ranks.contains(rank));
            let source = choose|source: int| 0 <= source < ranks.len() && ranks[source] == rank;
            assert(rank == entry_rank(entries@[source]));
            assert(rank =~= places@[place as int]@);
            assert(rank[0] == -(entries@[source].1 as int));
            assert(rank[1] == entries@[source].0);
        }
        let revenue: i64 = (-places[place][0]) as i64;
        let key: i64 = places[place][1] as i64;
        top.push((key, revenue));
        assert(entry_rank((key, revenue)) =~= rank);
        place += 1;
    }
    assert(entry_ranks(top@) =~= rank_views(places@));
    top
}

/// Whether a customer and the name of its nation are known.
pub open spec fn customer_known(
    custkey: i64,
    customer_nations: Map<i64, i64>,
    nation_names: Map<i64, String>,
) -> bool {
    customer_nations.contains_key(custkey) && nation_names.contains_key(customer_nations[custkey])
}

/// The entries of customers that are known, in the given order.
pub open spec fn known_entries(
    revenues: Seq<RevenueEntry>,
    customer_nations: Map<i64, i64>,
    nation_names: Map<i64, String>,
) -> Seq<RevenueEntry>
    decreases revenues.len(),
{
    if revenues.len() == 0 {
        Seq::empty()
    } else {
        let earlier = known_entries(revenues.drop_last(), customer_nations, nation_names);
        if customer_known(revenues.last().0, customer_nations, nation_names) {
            earlier.push(revenues.last())
        } else {
            earlier
        }
    }
}

/// The known entries are those entries that are known.
proof fn lemma_known_entries(
    revenues: Seq<RevenueEntry>,
    customer_nations: Map<i64, i64>,
    nation_names: Map<i64, String>,
)
    ensures
        forall|entry: RevenueEntry|
            #[trigger] known_entries(revenues, customer_nations, nation_names).contains(entry)
                <==> revenues.contains(entry) && customer_known(
                entry.0,
                customer_nations,
                nation_names,
            ),
        keys_distinct(revenues) ==> keys_distinct(
            known_entries(revenues, customer_nations, nation_names),
        ),
    decreases revenues.len(),
{
    let known = known_entries(revenues, customer_nations, nation_names);
    if revenues.len() > 0 {
        let shorter = revenues.drop_last();
        let last = revenues.last();
        let earlier = known_entries(shorter, customer_nations, nation_names);
        lemma_known_entries(shorter, customer_nations, nation_names);
        assert(revenues =~= shorter.push(last));
        assert forall|entry: RevenueEntry| #[trigger] known.contains(entry) <==> revenues.contains(
            entry,
        ) && customer_known(entry.0, customer_nations, nation_names) by {
            lemma_push_contains(shorter, last, entry);
            lemma_push_contains(earlier, last, entry);
        }
        if keys_distinct(revenues) {
            assert forall|left: int, right: int| 0 <= left < right < shorter.len() implies (
            #[trigger] shorter[left]).0 != (#[trigger] shorter[right]).0 by {
                assert(revenues[left].0 != revenues[right].0);
            }
            assert forall|left: int, right: int| 0 <= left < right < known.len() implies (
            #[trigger] known[left]).0 != (#[trigger] known[right]).0 by {
                if right == earlier.len() {
                    assert(earlier.contains(known[left]));
                    let source = choose|source: int|
                        0 <= source < shorter.len() && shorter[source] == known[left];
                    assert(revenues[source].0 != revenues[revenues.len() - 1].0);
                }
            }
        }
    } else {
        assert(known =~= revenues);
    }
}

proof fn lemma_push_contains<T>(list: Seq<T>, last: T, value: T)
    ensures
        list.push(last).contains(value) <==> list.contains(value) || value == last,
{
    let longer = list.push(last);
    if list.contains(value) {
        let place = choose|place: int| 0 <= place < list.len() && list[place] == value;
        assert(longer[place] == value);
    }
    assert(longer[list.len() as int] == last);
    if longer.contains(value) && value != last {
        let place = choose|place: int| 0 <= place < longer.len() && longer[place] == value;
        assert(list[place] == value);
    }
}

/// The first `limit` of the customers that are known.
pub fn returned_customer_rows_from_payload(
    revenues: &[RevenueEntry],
    customer_nations: &HashMap<i64, i64>,
    nation_names: &HashMap<i64, String>,
    limit: usize,
) -> (rows: Vec<RevenueEntry>)
    requires
        keys_distinct(revenues@),
    ensures
        is_top(
            entry_ranks(known_entries(revenues@, customer_nations@, nation_names@)),
            entry_ranks(rows@),
            limit as int,
        ),
{
    let mut known: Vec<RevenueEntry> = Vec::new();
    let mut index: usize = 0;
    assert(revenues@.take(0) =~= Seq::empty());
    while index < revenues.len()
        invariant
            index <= revenues@.len(),
            known@ == known_entries(
                revenues@.take(index as int),
                customer_nations@,
                nation_names@,
            ),
        decreases revenues@.len() - index,
    {
        let entry: RevenueEntry = revenues[index];
        assert(revenues@.take(index + 1).drop_last() =~= revenues@.take(index as int));
        match customer_nations.get(&entry.0) {
            Some(nation) => {
                if nation_names.contains_key(nation) {
                    known.push(entry);
                }
            },
            None => {},
        }
        index += 1;
    }
    assert(revenues@.take(index as int) =~= revenues@);
    proof {
        lemma_known_entries(revenues@, customer_nations@, nation_names@);
    }
    top_entries(known.as_slice(), limit)
}

/// How many customers are looked up for `limit` rows: eight for each, as far as there
/// are so many.
pub open spec fn candidates_for(customers: int, limit: int) -> int {
    let wanted = if 8 * limit > usize::MAX {
        usize::MAX as int
    } else {
        8 * limit
    };
    if customers < wanted {
        customers
    } else {
        wanted
    }
}

/// The customers to look up first for `limit` rows, `None` where that is all of them.
pub fn returned_customer_candidates(revenues: &[RevenueEntry], limit: usize) -> (candidates: Option<
    Vec<RevenueEntry>,
>)
    requires
        keys_distinct(revenues@),
    ensures
        candidates.is_some() == (candidates_for(revenues@.len() as int, limit as int)
            != revenues@.len()),
        candidates matches Some(candidates) ==> is_top(
            entry_ranks(revenues@),
            entry_ranks(candidates@),
            candidates_for(revenues@.len() as int, limit as int),
        ),
{
    let wanted: usize = if limit > usize::MAX / 8 {
        usize::MAX
    } else {
        8 * limit
    };
    let count: usize = if revenues.len() < wanted {
        revenues.len()
    } else {
        wanted
    };
    if count == revenues.len() {
        return None;
    }
    Some(top_entries(revenues, count))
}

proof fn lemma_entry_of_rank(left: RevenueEntry, right: RevenueEntry)
    requires
        entry_rank(left) == entry_rank(right),
    ensures
        left == right,
{
    assert(entry_rank(left)[0] == entry_rank(right)[0]);
    assert(entry_rank(left)[1] == entry_rank(right)[1]);
}

proof fn lemma_ranks_contain(entries: Seq<RevenueEntry>, entry: RevenueEntry)
    ensures
        entries.contains(entry) <==> entry_ranks(entries).contains(entry_rank(entry)),
{
    if entries.contains(entry) {
        let place = choose|place: int| 0 <= place < entries.len() && entries[place] == entry;
        assert(entry_ranks(entries)[place] == entry_rank(entry));
    }
    if entry_ranks(entries).contains(entry_rank(entry)) {
        let place = choose|place: int|
            0 <= place < entries.len() && entry_ranks(entries)[place] == entry_rank(entry);
        lemma_entry_of_rank(entries[place], entry);
    }
}

/// Where the customers looked up first give as many rows as asked for, looking up every
/// customer gives the same rows.
pub proof fn law_candidates_suffice(
    revenues: Seq<RevenueEntry>,
    candidates: Seq<RevenueEntry>,
    rows: Seq<RevenueEntry>,
    customer_nations: Map<i64, i64>,
    nation_names: Map<i64, String>,
    count: int,
    limit: int,
)
    requires
        is_top(entry_ranks(revenues), entry_ranks(candidates), count),
        is_top(
            entry_ranks(known_entries(candidates, customer_nations, nation_names)),
            entry_ranks(rows),
            limit,
        ),
        rows.len() == limit,
    ensures
        is_top(
            entry_ranks(known_entries(revenues, customer_nations, nation_names)),
            entry_ranks(rows),
            limit,
        ),
{
    let all = entry_ranks(revenues);
    let first = entry_ranks(candidates);
    let known_first = known_entries(candidates, customer_nations, nation_names);
    let known_all = known_entries(revenues, customer_nations, nation_names);
    let offered = entry_ranks(known_all);
    let kept = entry_ranks(rows);
    lemma_known_entries(candidates, customer_nations, nation_names);
    lemma_known_entries(revenues, customer_nations, nation_names);
    lemma_ascending_distinct(kept);
    assert forall|index: int| 0 <= index < kept.len() implies offered.contains(
        #[trigger] kept[index],
    ) && first.contains(kept[index]) by {
        let entry = rows[index];
        assert(kept[index] == entry_rank(entry));
        assert(entry_ranks(known_first).contains(kept[index]));
        lemma_ranks_contain(known_first, entry);
        lemma_ranks_contain(candidates, entry);
        let place = choose|place: int| 0 <= place < first.len() && first[place] == kept[index];
        assert(all.contains(first[place]));
        lemma_ranks_contain(revenues, entry);
        assert(known_all.contains(entry));
        lemma_ranks_contain(known_all, entry);
    }
    lemma_no_longer(kept, offered);
    assert forall|rank: Seq<i128>| #[trigger] offered.contains(rank) implies kept.contains(rank)
        || (offered.len() > limit && comes_after_all(kept, rank)) by {
        let source = choose|source: int| 0 <= source < offered.len() && offered[source] == rank;
        let entry = known_all[source];
        assert(rank == entry_rank(entry));
        assert(known_all.contains(entry));
        lemma_ranks_contain(revenues, entry);
        lemma_ranks_contain(candidates, entry);
        if !kept.contains(rank) {
            let longer = kept.push(rank);
            assert(longer.no_duplicates()) by {
                assert forall|left: int, right: int|
                    0 <= left < longer.len() && 0 <= right < longer.len() && left
                        != right implies longer[left] != longer[right] by {
                    if left < kept.len() && right < kept.len() {
                        assert(kept[left] != kept[right]);
                    } else if left < kept.len() {
                        assert(kept.contains(kept[left]));
                    } else {
                        assert(kept.contains(kept[right]));
                    }
                }
            }
            assert forall|index: int| 0 <= index < longer.len() implies offered.contains(
                #[trigger] longer[index],
            ) by {
                if index < kept.len() {
                    assert(longer[index] == kept[index]);
                }
            }
            lemma_no_longer(longer, offered);
            if first.contains(rank) {
                assert(known_first.contains(entry));
                lemma_ranks_contain(known_first, entry);
                assert(comes_after_all(kept, rank));
            } else {
                assert(all.contains(rank));
                assert(comes_after_all(first, rank));
                assert forall|index: int| 0 <= index < kept.len() implies ranks_before(
                    #[trigger] kept[index],
                    rank,
                ) by {
                    assert(first.contains(kept[index]));
                    let place = choose|place: int|
                        0 <= place < first.len() && first[place] == kept[index];
                    assert(ranks_before(first[place], rank));
                }
            }
        }
    }
}

/// Whether reading customers ends: as many were found as are wanted.
pub fn all_found(found: usize, wanted: usize) -> (ends: bool)
    ensures
        ends == (found == wanted),
{
    found == wanted
}

} // verus!
