//! Suppliers by part group, one bit for each.

use vstd::arithmetic::div_mod::{lemma_fundamental_div_mod, lemma_fundamental_div_mod_converse};
use vstd::prelude::*;
use crate::batch_collect::read_columns;
use crate::columns::RecordBatch;
use crate::error::SqlResult;
use crate::supplier_counts::{
    batch_suppliers, collect_suppliers, seen_in, suppliers_error, suppliers_readable, GroupSupplier,
};
use crate::tables::{AdaptiveI64Map, AdaptiveI64Set};

verus! {

/// How the bits of the groups are laid out.
#[derive(Clone, Copy, Debug, PartialEq, Eq, Structural)]
pub struct SupplierBitsetLayout {
    pub group_count: usize,
    pub words_per_group: usize,
}

impl SupplierBitsetLayout {
    /// Whether each group has words, few enough to number their bits, and the words
    /// of all groups can be numbered.
    pub open spec fn valid(self) -> bool {
        &&& 0 < self.words_per_group <= 0x0200_0000_0000_0000
        &&& self.group_count * self.words_per_group <= usize::MAX
    }

    /// How many suppliers a group has bits for.
    pub open spec fn suppliers(self) -> int {
        64 * self.words_per_group
    }

    /// Whether there is a bit for a supplier of a group.
    pub open spec fn covers(self, pair: GroupSupplier) -> bool {
        pair.0 < self.group_count && 0 <= pair.1 < self.suppliers()
    }
}

/// Whether the bit at a place of a word is set.
pub open spec fn bit_at(word: u64, place: int) -> bool {
    (word >> (place as u64)) & 1 == 1
}

/// How many of the first `places` bits of a word are set.
pub open spec fn bits_set(word: u64, places: int) -> int
    decreases places,
{
    if places <= 0 {
        0
    } else {
        bits_set(word, places - 1) + (if bit_at(word, places - 1) {
            1int
        } else {
            0
        })
    }
}

/// How many of the first `count` integers satisfy a test.
pub open spec fn count_where(test: spec_fn(int) -> bool, count: int) -> int
    decreases count,
{
    if count <= 0 {
        0
    } else {
        count_where(test, count - 1) + (if test(count - 1) {
            1int
        } else {
            0
        })
    }
}

/// The number of bits set in a word.
fn count_ones(word: u64) -> (ones: u64)
    ensures
        ones == bits_set(word, 64),
        ones <= 64,
{
    let mut ones: u64 = 0;
    let mut place: u64 = 0;
    while place < 64
        invariant
            place <= 64,
            ones == bits_set(word, place as int),
            ones <= place,
        decreases 64 - place,
    {
        if (word >> place) & 1 == 1 {
            ones += 1;
        }
        place += 1;
    }
    ones
}

/// Suppliers by group, one bit for each.
pub struct GroupSupplierBitset {
    layout: SupplierBitsetLayout,
    words: Vec<u64>,
    seen: Ghost<Seq<GroupSupplier>>,
}

impl GroupSupplierBitset {
    /// How the bits are laid out.
    pub closed spec fn layout(self) -> SupplierBitsetLayout {
        self.layout
    }

    /// The pairs taken in so far.
    pub closed spec fn seen(self) -> Seq<GroupSupplier> {
        self.seen@
    }

    /// The word that holds the bit of a supplier of a group.
    spec fn word_index(self, group: int, word: int) -> int {
        group * self.layout.words_per_group + word
    }

    /// Whether the bit of a supplier of a group is set.
    spec fn has(self, group: int, supplier: int) -> bool {
        bit_at(self.words@[self.word_index(group, supplier / 64)], supplier % 64)
    }

    /// Whether the bits set are those of the pairs taken in.
    pub closed spec fn well_formed(self) -> bool {
        &&& self.layout.valid()
        &&& self.words@.len() == self.layout.group_count * self.layout.words_per_group
        &&& forall|group: int, supplier: int|
            0 <= group < self.layout.group_count && 0 <= supplier < self.layout.suppliers()
                ==> #[trigger] self.has(group, supplier) == self.seen@.contains(
                (group as usize, supplier as i64),
            )
    }

    /// No bit set.
    pub fn new(layout: SupplierBitsetLayout) -> (bitset: GroupSupplierBitset)
        requires
            layout.valid(),
        ensures
            bitset.well_formed(),
            bitset.layout() == layout,
            bitset.seen() == Seq::<GroupSupplier>::empty(),
    {
        let len: usize = layout.group_count * layout.words_per_group;
        let mut words: Vec<u64> = Vec::new();
        while words.len() < len
            invariant
                words@.len() <= len,
                forall|index: int| 0 <= index < words@.len() ==> words@[index] == 0,
            decreases len - words@.len(),
        {
            words.push(0);
        }
        let bitset = GroupSupplierBitset { layout, words, seen: Ghost(Seq::empty()) };
        assert forall|group: int, supplier: int|
            0 <= group < layout.group_count && 0 <= supplier < layout.suppliers() implies
            #[trigger] bitset.has(group, supplier) == bitset.seen@.contains(
            (group as usize, supplier as i64),
        ) by {
            bitset.lemma_word_in_range(group, supplier / 64);
            let place = (supplier % 64) as u64;
            assert((0u64 >> place) & 1 == 0) by (bit_vector);
        }
        bitset
    }

    /// The words of a group lie within the words of all.
    proof fn lemma_word_in_range(self, group: int, word: int)
        requires
            self.words@.len() == self.layout.group_count * self.layout.words_per_group,
            0 <= group < self.layout.group_count,
            0 <= word < self.layout.words_per_group,
        ensures
            0 <= self.word_index(group, word) < self.words@.len(),
    {
        let count = self.layout.group_count as int;
        let width = self.layout.words_per_group as int;
        assert(0 <= group * width + word < count * width) by (nonlinear_arith)
            requires
                0 <= group < count,
                0 <= word < width,
        ;
    }

    /// Each word belongs to one place in one group.
    proof fn lemma_word_index_unique(self, group: int, word: int, other_group: int, other_word: int)
        requires
            0 < self.layout.words_per_group,
            0 <= word < self.layout.words_per_group,
            0 <= other_word < self.layout.words_per_group,
            self.word_index(group, word) == self.word_index(other_group, other_word),
        ensures
            group == other_group,
            word == other_word,
    {
        let width = self.layout.words_per_group as int;
        let index = self.word_index(group, word);
        lemma_fundamental_div_mod_converse(index, width, group, word);
        lemma_fundamental_div_mod_converse(index, width, other_group, other_word);
    }

    /// Takes in a supplier of a group; one without a bit is passed over.
    pub fn insert(&mut self, group: usize, supplier: i64)
        requires
            old(self).well_formed(),
        ensures
            final(self).well_formed(),
            final(self).layout() == old(self).layout(),
            final(self).seen() == old(self).seen().push((group, supplier)),
    {
        let ghost before = *self;
        proof {
            self.seen = Ghost(before.seen@.push((group, supplier)));
            assert forall|other: GroupSupplier| self.seen@.contains(other) == (
            before.seen@.contains(other) || other == (group, supplier)) by {
                lemma_contains_push(before.seen@, (group, supplier), other);
            }
        }
        proof {
            if !self.layout.covers((group, supplier)) {
                assert forall|other_group: int, other_supplier: int|
                    0 <= other_group < self.layout.group_count && 0 <= other_supplier
                        < self.layout.suppliers() implies #[trigger] self.has(
                    other_group,
                    other_supplier,
                ) == self.seen@.contains((other_group as usize, other_supplier as i64)) by {
                    assert(before.has(other_group, other_supplier) == before.seen@.contains(
                        (other_group as usize, other_supplier as i64),
                    ));
                }
            }
        }
        if supplier < 0 || group >= self.layout.group_count {
            return;
        }
        let number: u64 = supplier as u64;
        let word: u64 = number / 64;
        if word >= self.layout.words_per_group as u64 {
            return;
        }
        proof {
            self.lemma_word_in_range(group as int, word as int);
            let width = self.layout.words_per_group as int;
            assert(group * width <= self.words@.len()) by (nonlinear_arith)
                requires
                    0 <= group < self.layout.group_count,
                    width == self.layout.words_per_group,
                    self.words@.len() == self.layout.group_count * width,
            ;
        }
        let index: usize = group * self.layout.words_per_group + word as usize;
        let place: u64 = number % 64;
        let old_word: u64 = self.words[index];
        let new_word: u64 = old_word | (1u64 << place);
        self.words[index] = new_word;
        proof {
            assert forall|other_group: int, other_supplier: int|
                0 <= other_group < self.layout.group_count && 0 <= other_supplier
                    < self.layout.suppliers() implies #[trigger] self.has(
                other_group,
                other_supplier,
            ) == self.seen@.contains((other_group as usize, other_supplier as i64)) by {
                let other_word = other_supplier / 64;
                let other_place = (other_supplier % 64) as u64;
                assert(before.has(other_group, other_supplier) == before.seen@.contains(
                    (other_group as usize, other_supplier as i64),
                ));
                self.lemma_word_in_range(other_group, other_word);
                if self.word_index(other_group, other_word) == index {
                    self.lemma_word_index_unique(
                        group as int,
                        word as int,
                        other_group,
                        other_word,
                    );
                    lemma_set_bit(old_word, place, other_place);
                    assert(other_supplier == 64 * other_word + other_supplier % 64);
                    assert(supplier == 64 * word + place);
                } else {
                    assert(!(other_group == group && other_supplier == supplier));
                }
            }
        }
    }

    /// Takes over the bits of another with the same layout.
    pub fn merge(&mut self, other: GroupSupplierBitset)
        requires
            old(self).well_formed(),
            other.well_formed(),
            old(self).layout() == other.layout(),
        ensures
            final(self).well_formed(),
            final(self).layout() == old(self).layout(),
            final(self).seen() == old(self).seen() + other.seen(),
    {
        let ghost before = *self;
        let mut index: usize = 0;
        while index < self.words.len()
            invariant
                self.layout == before.layout,
                before.words@.len() == other.words@.len(),
                self.words@.len() == before.words@.len(),
                index <= self.words@.len(),
                forall|done: int|
                    0 <= done < index ==> #[trigger] self.words@[done] == before.words@[done]
                        | other.words@[done],
                forall|later: int|
                    index <= later < self.words@.len() ==> #[trigger] self.words@[later]
                        == before.words@[later],
            decreases self.words@.len() - index,
        {
            let joined: u64 = self.words[index] | other.words[index];
            self.words[index] = joined;
            index += 1;
        }
        proof {
            self.seen = Ghost(before.seen@ + other.seen@);
            assert forall|group: int, supplier: int|
                0 <= group < self.layout.group_count && 0 <= supplier
                    < self.layout.suppliers() implies #[trigger] self.has(group, supplier)
                == self.seen@.contains((group as usize, supplier as i64)) by {
                let pair = (group as usize, supplier as i64);
                lemma_contains_concat(before.seen@, other.seen@, pair);
                self.lemma_word_in_range(group, supplier / 64);
                let word = self.word_index(group, supplier / 64);
                assert(before.has(group, supplier) == before.seen@.contains(pair));
                assert(other.has(group, supplier) == other.seen@.contains(pair));
                let left = before.words@[word];
                let right = other.words@[word];
                let place = (supplier % 64) as u64;
                assert(((left | right) >> place) & 1 == 1 <==> ((left >> place) & 1 == 1 || (right
                    >> place) & 1 == 1)) by (bit_vector);
            }
        }
    }

    /// The number of suppliers of each group.
    pub fn counts(&self) -> (counts: Vec<u64>)
        requires
            self.well_formed(),
        ensures
            counts@.len() == self.layout().group_count,
            forall|group: int|
                0 <= group < counts@.len() ==> #[trigger] counts@[group] == count_where(
                    |supplier: int| self.seen().contains((group as usize, supplier as i64)),
                    self.layout().suppliers(),
                ),
    {
        let mut counts: Vec<u64> = Vec::new();
        let mut group: usize = 0;
        while group < self.layout.group_count
            invariant
                self.well_formed(),
                group <= self.layout.group_count,
                counts@.len() == group,
                forall|done: int|
                    0 <= done < group ==> #[trigger] counts@[done] == count_where(
                        |supplier: int| self.seen().contains((done as usize, supplier as i64)),
                        self.layout().suppliers(),
                    ),
            decreases self.layout.group_count - group,
        {
            let ghost test = |supplier: int| self.seen().contains((group, supplier as i64));
            let mut total: u64 = 0;
            let mut word: usize = 0;
            while word < self.layout.words_per_group
                invariant
                    self.well_formed(),
                    group < self.layout.group_count,
                    word <= self.layout.words_per_group,
                    test == (|supplier: int| self.seen().contains((group, supplier as i64))),
                    total == count_where(test, 64 * word),
                    total <= 64 * word,
                decreases self.layout.words_per_group - word,
            {
                proof {
                    self.lemma_word_in_range(group as int, word as int);
                    self.lemma_word_counts(group as int, word as int, test, 64);
                    let width = self.layout.words_per_group as int;
                    assert(group * width <= self.words@.len()) by (nonlinear_arith)
                        requires
                            0 <= group < self.layout.group_count,
                            width == self.layout.words_per_group,
                            self.words@.len() == self.layout.group_count * width,
                    ;
                }
                let index: usize = group * self.layout.words_per_group + word;
                total += count_ones(self.words[index]);
                word += 1;
            }
            counts.push(total);
            group += 1;
        }
        counts
    }

    /// The bits of one more word are the suppliers that they stand for.
    proof fn lemma_word_counts(self, group: int, word: int, test: spec_fn(int) -> bool, places: int)
        requires
            self.well_formed(),
            0 <= group < self.layout.group_count,
            0 <= word < self.layout.words_per_group,
            0 <= places <= 64,
            test == (|supplier: int| self.seen().contains((group as usize, supplier as i64))),
        ensures
            count_where(test, 64 * word + places) == count_where(test, 64 * word) + bits_set(
                self.words@[self.word_index(group, word)],
                places,
            ),
        decreases places,
    {
        if places > 0 {
            self.lemma_word_counts(group, word, test, places - 1);
            let supplier = 64 * word + (places - 1);
            assert(supplier / 64 == word);
            assert(supplier % 64 == places - 1);
            assert(self.has(group, supplier) == self.seen@.contains(
                (group as usize, supplier as i64),
            ));
        }
    }
}

proof fn lemma_contains_push<T>(list: Seq<T>, value: T, other: T)
    ensures
        list.push(value).contains(other) == (list.contains(other) || other == value),
{
    let longer = list.push(value);
    assert(longer[list.len() as int] == value);
    if list.contains(other) {
        let place = choose|place: int| 0 <= place < list.len() && list[place] == other;
        assert(longer[place] == other);
    }
    if longer.contains(other) {
        let place = choose|place: int| 0 <= place < longer.len() && longer[place] == other;
        if place < list.len() {
            assert(list[place] == other);
        }
    }
}

proof fn lemma_contains_concat<T>(left: Seq<T>, right: Seq<T>, value: T)
    ensures
        (left + right).contains(value) == (left.contains(value) || right.contains(value)),
{
    let both = left + right;
    if left.contains(value) {
        let place = choose|place: int| 0 <= place < left.len() && left[place] == value;
        assert(both[place] == value);
    }
    if right.contains(value) {
        let place = choose|place: int| 0 <= place < right.len() && right[place] == value;
        assert(both[left.len() + place] == value);
    }
    if both.contains(value) {
        let place = choose|place: int| 0 <= place < both.len() && both[place] == value;
        if place < left.len() {
            assert(left[place] == value);
        } else {
            assert(right[place - left.len()] == value);
        }
    }
}

/// Setting a bit sets that bit and leaves the others.
proof fn lemma_set_bit(word: u64, place: u64, other: u64)
    requires
        place < 64,
        other < 64,
    ensures
        bit_at(word | (1u64 << place), other as int) == (bit_at(word, other as int) || other
            == place),
{
    assert((((word | (1u64 << place)) >> other) & 1 == 1) <==> (((word >> other) & 1 == 1) || other
        == place)) by (bit_vector)
        requires
            place < 64,
            other < 64,
    ;
}

/// Counting the bits of a group counts its different suppliers, as long as each of
/// them has a bit.
pub proof fn law_bits_count_suppliers(
    layout: SupplierBitsetLayout,
    seen: Seq<GroupSupplier>,
    group: usize,
)
    requires
        layout.valid(),
        forall|index: int| 0 <= index < seen.len() ==> layout.covers(#[trigger] seen[index]),
    ensures
        count_where(
            |supplier: int| seen.contains((group, supplier as i64)),
            layout.suppliers(),
        ) == seen_in(seen, group).len(),
{
    let test = |supplier: int| seen.contains((group, supplier as i64));
    lemma_count_is_cardinality(seen, group, layout.suppliers());
    let limited = Set::new(
        |supplier: i64| 0 <= supplier < layout.suppliers() && seen.contains((group, supplier)),
    );
    assert forall|supplier: i64| seen_in(seen, group).contains(supplier) implies limited.contains(
        supplier,
    ) by {
        let place = choose|place: int| 0 <= place < seen.len() && seen[place] == (group, supplier);
        assert(layout.covers(seen[place]));
    }
    assert(limited =~= seen_in(seen, group));
}

proof fn lemma_count_is_cardinality(seen: Seq<GroupSupplier>, group: usize, count: int)
    requires
        0 <= count <= i64::MAX + 1,
    ensures
        Set::new(
            |supplier: i64| 0 <= supplier < count && seen.contains((group, supplier)),
        ).finite(),
        count_where(|supplier: int| seen.contains((group, supplier as i64)), count) == Set::new(
            |supplier: i64| 0 <= supplier < count && seen.contains((group, supplier)),
        ).len(),
    decreases count,
{
    let smaller = Set::new(
        |supplier: i64| 0 <= supplier < count - 1 && seen.contains((group, supplier)),
    );
    let whole = Set::new(
        |supplier: i64| 0 <= supplier < count && seen.contains((group, supplier)),
    );
    if count == 0 {
        assert(whole =~= Set::<i64>::empty());
    } else {
        lemma_count_is_cardinality(seen, group, count - 1);
        if seen.contains((group, (count - 1) as i64)) {
            assert(whole =~= smaller.insert((count - 1) as i64));
        } else {
            assert(whole =~= smaller);
        }
    }
}

/// Takes in the suppliers of a batch.
pub fn supplier_counts_bitset_batch(
    batch: &RecordBatch,
    part_to_group: &AdaptiveI64Map<usize>,
    excluded: &AdaptiveI64Set,
    suppliers: &mut GroupSupplierBitset,
) -> (result: SqlResult<()>)
    requires
        batch.well_formed(),
        old(suppliers).well_formed(),
    ensures
        final(suppliers).well_formed(),
        final(suppliers).layout() == old(suppliers).layout(),
        match result {
            Ok(_) => suppliers_readable(*batch) && final(suppliers).seen() == old(suppliers).seen()
                + batch_suppliers(*batch, part_to_group@, excluded@),
            Err(error) => !suppliers_readable(*batch) && suppliers_error(*batch, error) && final(
                suppliers).seen() == old(suppliers).seen(),
        },
{
    let rows = match read_columns(batch, "ps_partkey", "ps_suppkey") {
        Ok(rows) => rows,
        Err(error) => {
            return Err(error);
        },
    };
    let pairs = collect_suppliers(rows.as_slice(), part_to_group, excluded);
    let ghost before = suppliers.seen();
    let mut index: usize = 0;
    assert(suppliers.seen() =~= before + pairs@.take(0));
    while index < pairs.len()
        invariant
            suppliers.well_formed(),
            suppliers.layout() == old(suppliers).layout(),
            index <= pairs@.len(),
            suppliers.seen() == before + pairs@.take(index as int),
        decreases pairs@.len() - index,
    {
        let (group, supplier): GroupSupplier = pairs[index];
        suppliers.insert(group, supplier);
        index += 1;
        assert(suppliers.seen() =~= before + pairs@.take(index as int));
    }
    assert(pairs@.take(index as int) =~= pairs@);
    Ok(())
}

/// Adds the suppliers seen by another worker.
pub fn merge_supplier_bitsets(groups: &mut GroupSupplierBitset, batch_groups: GroupSupplierBitset)
    requires
        old(groups).well_formed(),
        batch_groups.well_formed(),
        old(groups).layout() == batch_groups.layout(),
    ensures
        final(groups).well_formed(),
        final(groups).layout() == old(groups).layout(),
        final(groups).seen() == old(groups).seen() + batch_groups.seen(),
{
    groups.merge(batch_groups);
}

/// The words that a group needs for suppliers up to the largest.
pub open spec fn words_for(max_suppkey: int) -> int {
    (max_suppkey + 64) / 64
}

/// The layout for the groups, `None` where bits are switched off, the largest
/// supplier is unknown or negative, there is no group, or the bits take more than
/// `max_bytes`.
pub fn supplier_bitset_layout(
    group_count: usize,
    max_suppkey: Option<i64>,
    enabled: bool,
    max_bytes: usize,
) -> (layout: Option<SupplierBitsetLayout>)
    ensures
        match layout {
            Some(layout) => {
                &&& enabled
                &&& group_count > 0
                &&& max_suppkey matches Some(key) && key >= 0 && layout.words_per_group
                    == words_for(key as int)
                &&& layout.group_count == group_count
                &&& layout.valid()
                &&& group_count * layout.words_per_group * 8 <= max_bytes
            },
            None => !enabled || group_count == 0 || (match max_suppkey {
                Some(key) => key < 0 || group_count * words_for(key as int) * 8 > max_bytes,
                None => true,
            }),
        },
{
    if !enabled {
        return None;
    }
    let key: i64 = match max_suppkey {
        Some(key) => key,
        None => {
            return None;
        },
    };
    if key < 0 || group_count == 0 {
        return None;
    }
    let words: u64 = (key as u64 + 64) / 64;
    assert(words == words_for(key as int));
    assert(group_count * words * 8 > max_bytes || (words <= usize::MAX && group_count * words
        <= usize::MAX)) by (nonlinear_arith)
        requires
            group_count >= 1,
            words >= 1,
            max_bytes <= usize::MAX,
    ;
    if words > usize::MAX as u64 {
        return None;
    }
    let words_per_group: usize = words as usize;
    match group_count.checked_mul(words_per_group) {
        None => None,
        Some(total) => {
            assert(total == group_count * words);
            match total.checked_mul(8) {
                None => None,
                Some(bytes) => {
                    if bytes > max_bytes {
                        None
                    } else {
                        Some(SupplierBitsetLayout { group_count, words_per_group })
                    }
                },
            }
        },
    }
}

/// Every supplier up to the largest has a bit.
pub proof fn law_layout_covers(layout: SupplierBitsetLayout, max_suppkey: int, pair: GroupSupplier)
    requires
        layout.words_per_group == words_for(max_suppkey),
        pair.0 < layout.group_count,
        0 <= pair.1 <= max_suppkey,
    ensures
        layout.covers(pair),
{
}

} // verus!
