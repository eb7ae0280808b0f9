//! The first rows of an order, kept while rows are offered one by one.
//!
//! A row is ranked by a sequence of integers: its sort keys, then whatever tells
//! rows with equal keys apart. Ranks compare from the front.

use vstd::prelude::*;

verus! {

/// A row's rank.
pub type Rank = Vec<i128>;

/// Whether the first place where two ranks differ is `place`, and `left` is the
/// smaller there.
pub open spec fn smaller_at(left: Seq<i128>, right: Seq<i128>, place: int) -> bool {
    &&& 0 <= place < left.len()
    &&& place < right.len()
    &&& left.take(place) =~= right.take(place)
    &&& left[place] < right[place]
}

/// Whether `left` ranks before `right`.
pub open spec fn ranks_before(left: Seq<i128>, right: Seq<i128>) -> bool {
    exists|place: int| smaller_at(left, right, place)
}

/// The ranks held in vectors.
pub open spec fn rank_views(ranks: Seq<Rank>) -> Seq<Seq<i128>> {
    ranks.map_values(|rank: Rank| rank@)
}

/// Whether each rank comes before the ones behind it.
pub open spec fn ascending(ranks: Seq<Seq<i128>>) -> bool {
    forall|left: int, right: int|
        0 <= left < right < ranks.len() ==> ranks_before(
            #[trigger] ranks[left],
            #[trigger] ranks[right],
        )
}

/// Whether `kept` holds the first `limit` of the offered ranks, in order.
pub open spec fn is_top(offered: Seq<Seq<i128>>, kept: Seq<Seq<i128>>, limit: int) -> bool {
    &&& kept.len() == (if offered.len() <= limit {
        offered.len() as int
    } else {
        limit
    })
    &&& ascending(kept)
    &&& forall|index: int| 0 <= index < kept.len() ==> offered.contains(#[trigger] kept[index])
    &&& forall|rank: Seq<i128>| #[trigger]
        offered.contains(rank) ==> kept.contains(rank) || (offered.len() > limit
            && comes_after_all(kept, rank))
}

/// Whether every kept rank comes before `rank`.
pub open spec fn comes_after_all(kept: Seq<Seq<i128>>, rank: Seq<i128>) -> bool {
    forall|index: int| 0 <= index < kept.len() ==> ranks_before(#[trigger] kept[index], rank)
}

/// Ranks order transitively.
pub proof fn law_ranks_before_transitive(first: Seq<i128>, second: Seq<i128>, third: Seq<i128>)
    requires
        ranks_before(first, second),
        ranks_before(second, third),
    ensures
        ranks_before(first, third),
{
    let left = choose|place: int| smaller_at(first, second, place);
    let right = choose|place: int| smaller_at(second, third, place);
    let place = if left <= right {
        left
    } else {
        right
    };
    assert forall|index: int| 0 <= index < place implies first[index] == third[index] by {
        assert(first.take(left)[index] == second.take(left)[index]);
        assert(second.take(right)[index] == third.take(right)[index]);
    }
    assert(first.take(place) =~= third.take(place));
    if left < right {
        assert(second.take(right)[left] == third.take(right)[left]);
    } else if right < left {
        assert(first.take(left)[right] == second.take(left)[right]);
    }
    assert(smaller_at(first, third, place));
}

/// No two ranks come before each other.
pub proof fn law_ranks_before_asymmetric(left: Seq<i128>, right: Seq<i128>)
    requires
        ranks_before(left, right),
    ensures
        !ranks_before(right, left),
        left != right,
{
    let place = choose|place: int| smaller_at(left, right, place);
    if ranks_before(right, left) {
        let other = choose|other: int| smaller_at(right, left, other);
        if place < other {
            assert(right.take(other)[place] == left.take(other)[place]);
        } else if other < place {
            assert(left.take(place)[other] == right.take(place)[other]);
        }
    }
}

/// Of two different ranks of one length, one comes before the other.
pub proof fn law_ranks_before_total(left: Seq<i128>, right: Seq<i128>)
    requires
        left.len() == right.len(),
        left != right,
    ensures
        ranks_before(left, right) || ranks_before(right, left),
{
    lemma_first_difference(left, right, 0);
}

proof fn lemma_first_difference(left: Seq<i128>, right: Seq<i128>, from: int)
    requires
        left.len() == right.len(),
        left != right,
        0 <= from <= left.len(),
        left.take(from) =~= right.take(from),
    ensures
        ranks_before(left, right) || ranks_before(right, left),
    decreases left.len() - from,
{
    if from == left.len() {
        assert(left.take(from) =~= left);
        assert(right.take(from) =~= right);
    } else if left[from] < right[from] {
        assert(smaller_at(left, right, from));
    } else if right[from] < left[from] {
        assert(smaller_at(right, left, from));
    } else {
        assert(left.take(from + 1) =~= left.take(from).push(left[from]));
        assert(right.take(from + 1) =~= right.take(from).push(right[from]));
        lemma_first_difference(left, right, from + 1);
    }
}

/// Whether `left` ranks before `right`.
pub fn rank_less(left: &Rank, right: &Rank) -> (less: bool)
    requires
        left@.len() == right@.len(),
    ensures
        less == ranks_before(left@, right@),
{
    let mut place: usize = 0;
    while place < left.len()
        invariant
            left@.len() == right@.len(),
            place <= left@.len(),
            left@.take(place as int) =~= right@.take(place as int),
        decreases left@.len() - place,
    {
        if left[place] < right[place] {
            assert(smaller_at(left@, right@, place as int));
            return true;
        }
        if left[place] > right[place] {
            assert(smaller_at(right@, left@, place as int));
            proof {
                law_ranks_before_asymmetric(right@, left@);
            }
            return false;
        }
        assert(left@.take(place + 1) =~= left@.take(place as int).push(left@[place as int]));
        assert(right@.take(place + 1) =~= right@.take(place as int).push(right@[place as int]));
        place += 1;
    }
    assert(left@ =~= left@.take(place as int));
    assert(right@ =~= right@.take(place as int));
    proof {
        if ranks_before(left@, right@) {
            law_ranks_before_asymmetric(left@, right@);
        }
    }
    false
}

/// The first `limit` of the ranks offered so far.
pub struct TopK {
    limit: usize,
    width: usize,
    kept: Vec<Rank>,
    offered: Ghost<Seq<Seq<i128>>>,
}

impl TopK {
    /// How many ranks are kept.
    pub closed spec fn limit(self) -> int {
        self.limit as int
    }

    /// How many integers make a rank.
    pub closed spec fn width(self) -> int {
        self.width as int
    }

    /// The ranks offered so far.
    pub closed spec fn offered(self) -> Seq<Seq<i128>> {
        self.offered@
    }

    /// The ranks kept.
    pub closed spec fn kept(self) -> Seq<Seq<i128>> {
        rank_views(self.kept@)
    }

    /// Whether what is kept are the first of what was offered.
    pub closed spec fn well_formed(self) -> bool {
        &&& is_top(self.offered(), self.kept(), self.limit())
        &&& forall|index: int|
            0 <= index < self.kept@.len() ==> (#[trigger] self.kept@[index])@.len() == self.width
        &&& forall|index: int|
            0 <= index < self.offered().len() ==> (#[trigger] self.offered()[index]).len()
                == self.width
    }

    /// Nothing offered yet.
    pub fn new(limit: usize, width: usize) -> (top: TopK)
        ensures
            top.well_formed(),
            top.limit() == limit,
            top.width() == width,
            top.offered() == Seq::<Seq<i128>>::empty(),
    {
        let top = TopK { limit, width, kept: Vec::new(), offered: Ghost(Seq::empty()) };
        assert(top.kept() =~= Seq::empty());
        top
    }

    /// What the invariant says of the ranks kept.
    pub proof fn lemma_kept(self)
        requires
            self.well_formed(),
        ensures
            is_top(self.offered(), self.kept(), self.limit()),
            forall|index: int|
                0 <= index < self.kept().len() ==> (#[trigger] self.kept()[index]).len()
                    == self.width(),
    {
        assert forall|index: int| 0 <= index < self.kept().len() implies (
        #[trigger] self.kept()[index]).len() == self.width() by {
            assert(self.kept()[index] == self.kept@[index]@);
        }
    }

    /// The last of the ranks kept, once as many are kept as may be.
    pub fn worst(&self) -> (worst: Option<&Rank>)
        requires
            self.well_formed(),
        ensures
            worst.is_some() == (self.kept().len() == self.limit() && self.limit() > 0),
            worst matches Some(worst) ==> worst@ == self.kept().last() && worst@.len()
                == self.width(),
    {
        if self.kept.len() == self.limit && self.limit > 0 {
            Some(&self.kept[self.kept.len() - 1])
        } else {
            None
        }
    }

    /// Offers a rank that was not offered before.
    pub fn push(&mut self, rank: Rank)
        requires
            old(self).well_formed(),
            rank@.len() == old(self).width(),
            !old(self).offered().contains(rank@),
        ensures
            final(self).well_formed(),
            final(self).limit() == old(self).limit(),
            final(self).width() == old(self).width(),
            final(self).offered() == old(self).offered().push(rank@),
    {
        let ghost before = *self;
        let ghost kept = self.kept();
        let ghost item = rank@;
        let ghost offered = self.offered@.push(item);
        proof {
            assert forall|other: Seq<i128>| #[trigger] offered.contains(other) implies other == item
                || before.offered().contains(other) by {
                let index = choose|index: int| 0 <= index < offered.len() && offered[index] == other;
                if index < before.offered().len() {
                    assert(before.offered()[index] == other);
                }
            }
            assert(offered.contains(item)) by {
                assert(offered[offered.len() - 1] == item);
            }
            assert forall|other: Seq<i128>| before.offered().contains(other) implies #[trigger] offered.contains(
                other,
            ) by {
                let index = choose|index: int|
                    0 <= index < before.offered().len() && before.offered()[index] == other;
                assert(offered[index] == other);
            }
        }
        let mut place: usize = self.kept.len();
        while place > 0 && rank_less(&rank, &self.kept[place - 1])
            invariant
                *self == before,
                before.well_formed(),
                kept == before.kept(),
                item == rank@,
                item.len() == before.width(),
                place <= self.kept@.len(),
                forall|index: int|
                    place <= index < kept.len() ==> ranks_before(item, #[trigger] kept[index]),
            decreases place,
        {
            assert(kept[place - 1] == self.kept@[place - 1]@);
            place -= 1;
        }
        proof {
            assert forall|index: int| 0 <= index < place implies ranks_before(
                #[trigger] kept[index],
                item,
            ) by {
                assert(kept[index] == self.kept@[index]@);
                assert(kept[place - 1] == self.kept@[place - 1]@);
                assert(before.offered().contains(kept[place - 1]));
                law_ranks_before_total(kept[place - 1], item);
                if index < place - 1 {
                    law_ranks_before_transitive(kept[index], kept[place - 1], item);
                }
            }
        }
        if place == self.limit {
            // As many as may be kept come before this one.
            proof {
                assert(comes_after_all(kept, item));
                self.offered = Ghost(offered);
                assert(self.kept() =~= kept);
            }
            return;
        }
        let full = self.kept.len() == self.limit;
        let ghost trimmed = if full {
            kept.drop_last()
        } else {
            kept
        };
        if full {
            self.kept.pop();
        }
        assert(rank_views(self.kept@) =~= trimmed);
        self.kept.insert(place, rank);
        proof {
            self.offered = Ghost(offered);
            let after = trimmed.insert(place as int, item);
            assert(self.kept() =~= after);
            assert forall|left: int, right: int| 0 <= left < right < after.len() implies ranks_before(
                #[trigger] after[left],
                #[trigger] after[right],
            ) by {
                let left_source = if left < place {
                    left
                } else {
                    left - 1
                };
                let right_source = if right < place {
                    right
                } else {
                    right - 1
                };
                if left == place {
                    assert(after[right] == kept[right_source]);
                } else if right == place {
                    assert(after[left] == kept[left_source]);
                } else {
                    assert(after[left] == kept[left_source]);
                    assert(after[right] == kept[right_source]);
                }
            }
            assert forall|index: int| 0 <= index < after.len() implies offered.contains(
                #[trigger] after[index],
            ) by {
                if index < place {
                    assert(after[index] == kept[index]);
                } else if index > place {
                    assert(after[index] == kept[index - 1]);
                }
            }
            assert forall|other: Seq<i128>| #[trigger] offered.contains(other) implies after.contains(
                other,
            ) || (offered.len() > before.limit() && comes_after_all(after, other)) by {
                self.lemma_still_placed(before, place as int, item, after, trimmed, other);
            }
        }
    }

    /// A rank offered is kept or comes after what is kept, also once another rank
    /// was taken in.
    proof fn lemma_still_placed(
        self,
        before: TopK,
        place: int,
        item: Seq<i128>,
        after: Seq<Seq<i128>>,
        trimmed: Seq<Seq<i128>>,
        other: Seq<i128>,
    )
        requires
            before.well_formed(),
            0 <= place <= trimmed.len(),
            if before.kept().len() == before.limit() {
                trimmed == before.kept().drop_last() && place < before.kept().len()
            } else {
                trimmed == before.kept()
            },
            after == trimmed.insert(place, item),
            ascending(after),
            forall|index: int|
                place <= index < before.kept().len() ==> ranks_before(
                    item,
                    #[trigger] before.kept()[index],
                ),
            other == item || before.offered().contains(other),
        ensures
            after.contains(other) || (before.offered().len() + 1 > before.limit()
                && comes_after_all(after, other)),
    {
        let kept = before.kept();
        if other == item {
            assert(after[place] == item);
        } else if kept.contains(other) {
            let index = choose|index: int| 0 <= index < kept.len() && kept[index] == other;
            if index < trimmed.len() {
                if index < place {
                    assert(after[index] == other);
                } else {
                    assert(after[index + 1] == other);
                }
            } else {
                assert forall|position: int| 0 <= position < after.len() implies ranks_before(
                    #[trigger] after[position],
                    other,
                ) by {
                    if position < place {
                        assert(after[position] == kept[position]);
                    } else if position == place {
                        assert(ranks_before(item, kept[index]));
                    } else {
                        assert(after[position] == kept[position - 1]);
                    }
                }
            }
        } else {
            assert(comes_after_all(kept, other));
            assert forall|position: int| 0 <= position < after.len() implies ranks_before(
                #[trigger] after[position],
                other,
            ) by {
                if position < place {
                    assert(after[position] == kept[position]);
                } else if position == place {
                    assert(ranks_before(item, kept[place]));
                    law_ranks_before_transitive(item, kept[place], other);
                } else {
                    assert(after[position] == kept[position - 1]);
                }
            }
        }
    }

    /// Counts ranks as offered that all come after the last rank kept, once as many
    /// are kept as may be.
    pub(crate) fn skip(&mut self, Ghost(ranks): Ghost<Seq<Seq<i128>>>)
        requires
            old(self).well_formed(),
            old(self).kept().len() == old(self).limit(),
            old(self).limit() > 0,
            forall|index: int|
                0 <= index < ranks.len() ==> (#[trigger] ranks[index]).len() == old(self).width()
                    && ranks_before(old(self).kept().last(), ranks[index]),
        ensures
            final(self).well_formed(),
            final(self).limit() == old(self).limit(),
            final(self).width() == old(self).width(),
            final(self).kept() == old(self).kept(),
            final(self).offered() == old(self).offered() + ranks,
    {
        proof {
            let before = *self;
            let kept = before.kept();
            let offered = before.offered() + ranks;
            self.offered = Ghost(offered);
            assert(self.kept() =~= kept);
            assert forall|index: int| 0 <= index < kept.len() implies offered.contains(
                #[trigger] kept[index],
            ) by {
                let place = choose|place: int|
                    0 <= place < before.offered().len() && before.offered()[place] == kept[index];
                assert(offered[place] == kept[index]);
            }
            assert forall|rank: Seq<i128>| #[trigger] offered.contains(rank) implies kept.contains(
                rank,
            ) || (offered.len() > before.limit() && comes_after_all(kept, rank)) by {
                let place = choose|place: int| 0 <= place < offered.len() && offered[place] == rank;
                if place < before.offered().len() {
                    assert(before.offered()[place] == rank);
                    assert(before.offered().contains(rank));
                } else {
                    assert(ranks[place - before.offered().len()] == rank);
                    assert forall|index: int| 0 <= index < kept.len() implies ranks_before(
                        #[trigger] kept[index],
                        rank,
                    ) by {
                        if index < kept.len() - 1 {
                            law_ranks_before_transitive(kept[index], kept.last(), rank);
                        }
                    }
                }
            }
            if ranks.len() == 0 {
                assert(offered =~= before.offered());
            }
        }
    }

    /// The ranks kept, first to last.
    pub fn into_ranks(self) -> (ranks: Vec<Rank>)
        requires
            self.well_formed(),
        ensures
            rank_views(ranks@) == self.kept(),
            is_top(self.offered(), rank_views(ranks@), self.limit()),
            forall|index: int|
                0 <= index < ranks@.len() ==> (#[trigger] ranks@[index])@.len() == self.width(),
    {
        self.kept
    }
}

/// The first ranks of an order are determined by what was offered.
pub proof fn law_top_unique(
    offered: Seq<Seq<i128>>,
    left: Seq<Seq<i128>>,
    right: Seq<Seq<i128>>,
    limit: int,
)
    requires
        is_top(offered, left, limit),
        is_top(offered, right, limit),
    ensures
        left =~= right,
{
    assert forall|index: int| 0 <= index < left.len() implies left[index] == right[index] by {
        lemma_top_agrees(offered, left, right, limit, index);
    }
}

proof fn lemma_top_agrees(
    offered: Seq<Seq<i128>>,
    left: Seq<Seq<i128>>,
    right: Seq<Seq<i128>>,
    limit: int,
    index: int,
)
    requires
        is_top(offered, left, limit),
        is_top(offered, right, limit),
        0 <= index < left.len(),
    ensures
        left[index] == right[index],
    decreases index,
{
    assert forall|earlier: int| 0 <= earlier < index implies left[earlier] == right[earlier] by {
        lemma_top_agrees(offered, left, right, limit, earlier);
    }
    if left[index] != right[index] {
        assert(offered.contains(left[index]));
        assert(offered.contains(right[index]));
        // Neither can stand further back on the other side, nor behind everything there.
        if right.contains(left[index]) {
            let place = choose|place: int| 0 <= place < right.len() && right[place] == left[index];
            if place < index {
                assert(left[place] == right[place]);
                law_ranks_before_asymmetric(left[place], left[index]);
            }
            assert(ranks_before(right[index], left[index]));
        } else {
            assert(ranks_before(right[index], left[index]));
        }
        if left.contains(right[index]) {
            let place = choose|place: int| 0 <= place < left.len() && left[place] == right[index];
            if place < index {
                assert(left[place] == right[place]);
                law_ranks_before_asymmetric(right[place], right[index]);
            }
            assert(ranks_before(left[index], right[index]));
        } else {
            assert(ranks_before(left[index], right[index]));
        }
        law_ranks_before_asymmetric(left[index], right[index]);
    }
}

/// A list with every rank of another list, and no rank twice, is no longer.
pub proof fn lemma_no_longer(inner: Seq<Seq<i128>>, outer: Seq<Seq<i128>>)
    requires
        inner.no_duplicates(),
        forall|index: int| 0 <= index < inner.len() ==> outer.contains(#[trigger] inner[index]),
    ensures
        inner.len() <= outer.len(),
{
    let within = inner.to_set();
    let whole = outer.to_set();
    inner.unique_seq_to_set();
    assert(within.subset_of(whole)) by {
        assert forall|rank: Seq<i128>| within.contains(rank) implies whole.contains(rank) by {
            assert(inner.contains(rank));
        }
    }
    outer.lemma_cardinality_of_set();
    vstd::set_lib::lemma_len_subset(within, whole);
}

/// Ranks in strict order are all different.
pub proof fn lemma_ascending_distinct(ranks: Seq<Seq<i128>>)
    requires
        ascending(ranks),
    ensures
        ranks.no_duplicates(),
{
    assert forall|left: int, right: int|
        0 <= left < ranks.len() && 0 <= right < ranks.len() && left != right implies ranks[left]
        != ranks[right] by {
        if left < right {
            assert(ranks_before(ranks[left], ranks[right]));
            if ranks[left] == ranks[right] {
                law_ranks_before_asymmetric(ranks[left], ranks[right]);
            }
        } else {
            assert(ranks_before(ranks[right], ranks[left]));
            if ranks[left] == ranks[right] {
                law_ranks_before_asymmetric(ranks[right], ranks[left]);
            }
        }
    }
}

/// The ranks of several lists, one list after the other.
pub open spec fn joined_ranks(parts: Seq<Seq<Seq<i128>>>) -> Seq<Seq<i128>>
    decreases parts.len(),
{
    if parts.len() == 0 {
        Seq::empty()
    } else {
        joined_ranks(parts.drop_last()) + parts.last()
    }
}

proof fn lemma_joined_contains(parts: Seq<Seq<Seq<i128>>>, index: int, rank: Seq<i128>)
    requires
        0 <= index < parts.len(),
        parts[index].contains(rank),
    ensures
        joined_ranks(parts).contains(rank),
    decreases parts.len(),
{
    let all = joined_ranks(parts);
    let earlier = joined_ranks(parts.drop_last());
    if index == parts.len() - 1 {
        let place = choose|place: int| 0 <= place < parts[index].len() && parts[index][place] == rank;
        assert(all[earlier.len() + place] == rank);
    } else {
        lemma_joined_contains(parts.drop_last(), index, rank);
        let place = choose|place: int| 0 <= place < earlier.len() && earlier[place] == rank;
        assert(all[place] == rank);
    }
}

proof fn lemma_joined_source(parts: Seq<Seq<Seq<i128>>>, rank: Seq<i128>) -> (index: int)
    requires
        joined_ranks(parts).contains(rank),
    ensures
        0 <= index < parts.len(),
        parts[index].contains(rank),
    decreases parts.len(),
{
    let all = joined_ranks(parts);
    let earlier = joined_ranks(parts.drop_last());
    let place = choose|place: int| 0 <= place < all.len() && all[place] == rank;
    if place < earlier.len() {
        assert(earlier[place] == rank);
        lemma_joined_source(parts.drop_last(), rank)
    } else {
        assert(parts.last()[place - earlier.len()] == rank);
        parts.len() - 1
    }
}

/// The tops of lists that have no rank in common have none in common either.
proof fn lemma_tops_distinct(parts: Seq<Seq<Seq<i128>>>, tops: Seq<Seq<Seq<i128>>>, limit: int)
    requires
        parts.len() == tops.len(),
        joined_ranks(parts).no_duplicates(),
        forall|index: int|
            0 <= index < parts.len() ==> is_top(#[trigger] parts[index], tops[index], limit),
    ensures
        joined_ranks(tops).no_duplicates(),
        forall|rank: Seq<i128>| #[trigger]
            joined_ranks(tops).contains(rank) ==> joined_ranks(parts).contains(rank),
    decreases parts.len(),
{
    let all = joined_ranks(tops);
    assert forall|rank: Seq<i128>| #[trigger] all.contains(rank) implies joined_ranks(
        parts,
    ).contains(rank) by {
        let index = lemma_joined_source(tops, rank);
        assert(is_top(parts[index], tops[index], limit));
        let place = choose|place: int| 0 <= place < tops[index].len() && tops[index][place] == rank;
        lemma_joined_contains(parts, index, rank);
    }
    if parts.len() > 0 {
        let whole = joined_ranks(parts);
        let earlier_parts = joined_ranks(parts.drop_last());
        let earlier = joined_ranks(tops.drop_last());
        let last = tops.last();
        assert(earlier_parts.no_duplicates()) by {
            assert forall|left: int, right: int|
                0 <= left < earlier_parts.len() && 0 <= right < earlier_parts.len() && left
                    != right implies earlier_parts[left] != earlier_parts[right] by {
                assert(whole[left] == earlier_parts[left]);
                assert(whole[right] == earlier_parts[right]);
            }
        }
        assert forall|index: int| 0 <= index < parts.len() - 1 implies is_top(
            #[trigger] parts.drop_last()[index],
            tops.drop_last()[index],
            limit,
        ) by {
            assert(is_top(parts[index], tops[index], limit));
        }
        lemma_tops_distinct(parts.drop_last(), tops.drop_last(), limit);
        assert(is_top(parts[parts.len() - 1], tops[parts.len() - 1], limit));
        lemma_ascending_distinct(last);
        assert forall|left: int, right: int|
            0 <= left < all.len() && 0 <= right < all.len() && left != right implies all[left]
            != all[right] by {
            if left < earlier.len() && right < earlier.len() {
                assert(all[left] == earlier[left] && all[right] == earlier[right]);
            } else if left >= earlier.len() && right >= earlier.len() {
                assert(all[left] == last[left - earlier.len()]);
                assert(all[right] == last[right - earlier.len()]);
            } else {
                let front = if left < right {
                    left
                } else {
                    right
                };
                let back = if left < right {
                    right
                } else {
                    left
                };
                assert(all[front] == earlier[front]);
                assert(all[back] == last[back - earlier.len()]);
                assert(earlier.contains(earlier[front]));
                let first_place = choose|place: int|
                    0 <= place < earlier_parts.len() && earlier_parts[place] == earlier[front];
                let second_place = choose|place: int|
                    0 <= place < parts.last().len() && parts.last()[place] == all[back];
                assert(whole[first_place] == all[front]);
                assert(whole[earlier_parts.len() + second_place] == all[back]);
            }
        }
    }
}

/// The first ranks of several lists are among the first ranks of each: cutting each list
/// off before they are put together gives the same first ranks.
pub proof fn law_tops_suffice(
    parts: Seq<Seq<Seq<i128>>>,
    tops: Seq<Seq<Seq<i128>>>,
    kept: Seq<Seq<i128>>,
    limit: int,
)
    requires
        parts.len() == tops.len(),
        joined_ranks(parts).no_duplicates(),
        forall|index: int|
            0 <= index < parts.len() ==> is_top(#[trigger] parts[index], tops[index], limit),
        is_top(joined_ranks(tops), kept, limit),
        limit >= 0,
    ensures
        is_top(joined_ranks(parts), kept, limit),
{
    let offered = joined_ranks(parts);
    let pruned = joined_ranks(tops);
    lemma_tops_distinct(parts, tops, limit);
    assert forall|place: int| 0 <= place < pruned.len() implies offered.contains(
        #[trigger] pruned[place],
    ) by {
        assert(pruned.contains(pruned[place]));
    }
    lemma_no_longer(pruned, offered);
    lemma_ascending_distinct(kept);
    assert forall|rank: Seq<i128>| #[trigger] offered.contains(rank) && !pruned.contains(
        rank,
    ) implies pruned.len() >= limit && offered.len() > limit && comes_after_all(kept, rank) by {
        let index = lemma_joined_source(parts, rank);
        let group = tops[index];
        assert(is_top(parts[index], group, limit));
        if group.contains(rank) {
            lemma_joined_contains(tops, index, rank);
        }
        assert(comes_after_all(group, rank));
        lemma_ascending_distinct(group);
        assert forall|place: int| 0 <= place < group.len() implies pruned.contains(
            #[trigger] group[place],
        ) by {
            assert(group.contains(group[place]));
            lemma_joined_contains(tops, index, group[place]);
        }
        lemma_no_longer(group, pruned);
        let longer = pruned.push(rank);
        lemma_push_distinct(pruned, rank);
        assert forall|place: int| 0 <= place < longer.len() implies offered.contains(
            #[trigger] longer[place],
        ) by {
            if place < pruned.len() {
                assert(pruned.contains(pruned[place]));
            }
        }
        lemma_no_longer(longer, offered);
        assert forall|place: int| 0 <= place < kept.len() implies ranks_before(
            #[trigger] kept[place],
            rank,
        ) by {
            if !group.contains(kept[place]) {
                if forall|other: int|
                    0 <= other < group.len() ==> kept.contains(#[trigger] group[other]) {
                    lemma_push_distinct(group, kept[place]);
                    let more = group.push(kept[place]);
                    assert forall|other: int| 0 <= other < more.len() implies kept.contains(
                        #[trigger] more[other],
                    ) by {
                        if other < group.len() {
                            assert(more[other] == group[other]);
                        }
                    }
                    lemma_no_longer(more, kept);
                } else {
                    let other = choose|other: int|
                        0 <= other < group.len() && !kept.contains(#[trigger] group[other]);
                    assert(pruned.contains(group[other]));
                    assert(comes_after_all(kept, group[other]));
                    assert(ranks_before(kept[place], group[other]));
                    law_ranks_before_transitive(kept[place], group[other], rank);
                }
            } else {
                let other = choose|other: int|
                    0 <= other < group.len() && group[other] == kept[place];
                assert(ranks_before(group[other], rank));
            }
        }
    }
    assert forall|index: int| 0 <= index < kept.len() implies offered.contains(
        #[trigger] kept[index],
    ) by {
        assert(pruned.contains(kept[index]));
    }
    if pruned.len() < offered.len() {
        if forall|place: int|
            0 <= place < offered.len() ==> pruned.contains(#[trigger] offered[place]) {
            lemma_no_longer(offered, pruned);
        } else {
            let place = choose|place: int|
                0 <= place < offered.len() && !pruned.contains(#[trigger] offered[place]);
            assert(offered.contains(offered[place]));
        }
    }
    assert forall|rank: Seq<i128>| #[trigger] offered.contains(rank) implies kept.contains(rank)
        || (offered.len() > limit && comes_after_all(kept, rank)) by {
        assert(pruned.contains(rank) || !pruned.contains(rank));
    }
}

/// One more rank that is not there leaves none twice.
proof fn lemma_push_distinct(ranks: Seq<Seq<i128>>, rank: Seq<i128>)
    requires
        ranks.no_duplicates(),
        !ranks.contains(rank),
    ensures
        ranks.push(rank).no_duplicates(),
{
    let longer = ranks.push(rank);
    assert forall|left: int, right: int|
        0 <= left < longer.len() && 0 <= right < longer.len() && left != right implies longer[left]
        != longer[right] by {
        if left < ranks.len() && right < ranks.len() {
            assert(longer[left] == ranks[left] && longer[right] == ranks[right]);
        } else if left < ranks.len() {
            assert(ranks.contains(ranks[left]));
        } else {
            assert(ranks.contains(ranks[right]));
        }
    }
}

} // verus!
