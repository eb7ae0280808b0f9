//! The rows that report suppliers by part group, and the suppliers left out.

use std::collections::HashSet;
use vstd::prelude::*;
use crate::batch_collect::{
    answered_pairs, columns_missing, has_key_and_strings, is_key_error, needs_other_key, pair_up,
    strings_of,
};
use crate::columns::{batch_column, batch_string_column, RecordBatch};
use crate::error::SqlResult;
use crate::order_laws::law_most_suppliers_first;
use crate::part_groups::{PartGroup, PartGroups};
use crate::supplier_bitset::{supplier_bitset_layout, words_for, SupplierBitsetLayout};
use crate::text::{
    characters_occur_at, chars_of, comes_before, law_comes_before_irreflexive,
    law_comes_before_total, law_comes_before_transitive, occurs_at, str_less,
};

verus! {

broadcast use vstd::std_specs::hash::group_hash_axioms;

/// A part group with the number of its suppliers.
pub struct PartSupplierGroupRow {
    pub brand: String,
    pub part_type: String,
    pub size: i64,
    pub supplier_count: u64,
}

impl PartSupplierGroupRow {
    /// The group.
    pub open spec fn group(self) -> PartGroup {
        PartGroup { brand: self.brand@, part_type: self.part_type@, size: self.size }
    }

    /// Whether this row comes before `other`: more suppliers first, then by brand,
    /// type and size.
    #[verifier::opaque]
    pub open spec fn before(self, other: PartSupplierGroupRow) -> bool {
        if self.supplier_count != other.supplier_count {
            self.supplier_count > other.supplier_count
        } else if self.brand@ != other.brand@ {
            comes_before(self.brand@, other.brand@)
        } else if self.part_type@ != other.part_type@ {
            comes_before(self.part_type@, other.part_type@)
        } else {
            self.size < other.size
        }
    }

    /// Whether this row comes before `other`.
    pub fn is_before(&self, other: &PartSupplierGroupRow) -> (before: bool)
        ensures
            before == self.before(*other),
    {
        reveal(PartSupplierGroupRow::before);
        if self.supplier_count != other.supplier_count {
            return self.supplier_count > other.supplier_count;
        }
        if self.brand != other.brand {
            return str_less(self.brand.as_str(), other.brand.as_str());
        }
        if self.part_type != other.part_type {
            return str_less(self.part_type.as_str(), other.part_type.as_str());
        }
        self.size < other.size
    }
}

/// Rows order transitively.
pub proof fn law_rows_before_transitive(
    first: PartSupplierGroupRow,
    second: PartSupplierGroupRow,
    third: PartSupplierGroupRow,
)
    requires
        first.before(second),
        second.before(third),
    ensures
        first.before(third),
{
    reveal(PartSupplierGroupRow::before);
    if first.supplier_count == second.supplier_count && second.supplier_count
        == third.supplier_count {
        if first.brand@ != second.brand@ && second.brand@ != third.brand@ {
            law_comes_before_transitive(first.brand@, second.brand@, third.brand@);
            if first.brand@ == third.brand@ {
                law_comes_before_irreflexive(first.brand@);
            }
        } else if first.brand@ == second.brand@ && second.brand@ == third.brand@ {
            if first.part_type@ != second.part_type@ && second.part_type@ != third.part_type@ {
                law_comes_before_transitive(
                    first.part_type@,
                    second.part_type@,
                    third.part_type@,
                );
                if first.part_type@ == third.part_type@ {
                    law_comes_before_irreflexive(first.part_type@);
                }
            }
        }
    }
}

/// Of two rows of different groups, one comes before the other.
pub proof fn law_rows_before_total(left: PartSupplierGroupRow, right: PartSupplierGroupRow)
    requires
        left.group() != right.group(),
    ensures
        left.before(right) || right.before(left),
{
    reveal(PartSupplierGroupRow::before);
    if left.brand@ != right.brand@ {
        law_comes_before_total(left.brand@, right.brand@);
    } else if left.part_type@ != right.part_type@ {
        law_comes_before_total(left.part_type@, right.part_type@);
    }
}

/// Whether a row reports a group with the number of its suppliers.
pub open spec fn reports(
    row: PartSupplierGroupRow,
    groups: Seq<PartGroup>,
    counts: Seq<u64>,
    group: int,
) -> bool {
    &&& 0 <= group < groups.len()
    &&& group < counts.len()
    &&& counts[group] > 0
    &&& row.group() == groups[group]
    &&& row.supplier_count == counts[group]
}

/// Whether a row reports one of the first `upto` groups.
pub open spec fn reports_one(
    row: PartSupplierGroupRow,
    groups: Seq<PartGroup>,
    counts: Seq<u64>,
    upto: int,
) -> bool {
    exists|group: int| group < upto && #[trigger] reports(row, groups, counts, group)
}

/// Whether rows report the first `upto` groups that have suppliers, each once and in
/// order.
pub open spec fn is_report(
    rows: Seq<PartSupplierGroupRow>,
    groups: Seq<PartGroup>,
    counts: Seq<u64>,
    upto: int,
) -> bool {
    &&& forall|left: int, right: int|
        0 <= left < right < rows.len() ==> (#[trigger] rows[left]).before(#[trigger] rows[right])
    &&& forall|index: int|
        0 <= index < rows.len() ==> reports_one(#[trigger] rows[index], groups, counts, upto)
    &&& forall|group: int|
        0 <= group < upto && group < groups.len() && group < counts.len() && #[trigger] counts[group]
            > 0 ==> exists|index: int|
            0 <= index < rows.len() && reports(#[trigger] rows[index], groups, counts, group)
}

/// Puts a row where it belongs.
fn insert_row(
    rows: &mut Vec<PartSupplierGroupRow>,
    row: PartSupplierGroupRow,
    Ghost(groups): Ghost<Seq<PartGroup>>,
    Ghost(counts): Ghost<Seq<u64>>,
    Ghost(group): Ghost<int>,
)
    requires
        is_report(old(rows)@, groups, counts, group),
        reports(row, groups, counts, group),
        forall|left: int, right: int|
            0 <= left < right < groups.len() ==> #[trigger] groups[left] != #[trigger] groups[right],
    ensures
        is_report(final(rows)@, groups, counts, group + 1),
{
    let ghost before = rows@;
    let mut place: usize = rows.len();
    while place > 0 && row.is_before(&rows[place - 1])
        invariant
            rows@ == before,
            place <= before.len(),
            forall|index: int| place <= index < before.len() ==> row.before(#[trigger] before[index]),
        decreases place,
    {
        place -= 1;
    }
    proof {
        assert forall|index: int| 0 <= index < place implies (#[trigger] before[index]).before(
            row,
        ) by {
            let last = before[place - 1];
            let other = choose|other: int|
                other < group && #[trigger] reports(before[place - 1], groups, counts, other);
            assert(groups[other] != groups[group]);
            law_rows_before_total(last, row);
            if index < place - 1 {
                law_rows_before_transitive(before[index], last, row);
            }
        }
    }
    rows.insert(place, row);
    proof {
        let after = before.insert(place as int, row);
        assert forall|left: int, right: int| 0 <= left < right < after.len() implies (
        #[trigger] after[left]).before(#[trigger] after[right]) by {
            let left_source = if left < place {
                left
            } else {
                left - 1
            };
            let right_source = if right < place {
                right
            } else {
                right - 1
            };
            if left == place {
                assert(after[right] == before[right_source]);
            } else if right == place {
                assert(after[left] == before[left_source]);
            } else {
                assert(after[left] == before[left_source]);
                assert(after[right] == before[right_source]);
            }
        }
        assert forall|index: int| 0 <= index < after.len() implies reports_one(
            #[trigger] after[index],
            groups,
            counts,
            group + 1,
        ) by {
            if index == place {
                assert(reports(after[index], groups, counts, group));
            } else {
                let source = if index < place {
                    index
                } else {
                    index - 1
                };
                assert(after[index] == before[source]);
                let other = choose|other: int|
                    other < group && #[trigger] reports(before[source], groups, counts, other);
                assert(reports(after[index], groups, counts, other));
            }
        }
        assert forall|other: int| 0 <= other < group + 1 && other < groups.len() && other
            < counts.len() && #[trigger] counts[other] > 0 implies exists|index: int|
            0 <= index < after.len() && reports(#[trigger] after[index], groups, counts, other) by {
            if other == group {
                assert(reports(after[place as int], groups, counts, group));
            } else {
                let source = choose|source: int|
                    0 <= source < before.len() && reports(
                        #[trigger] before[source],
                        groups,
                        counts,
                        other,
                    );
                let index = if source < place {
                    source
                } else {
                    source + 1
                };
                assert(after[index] == before[source]);
            }
        }
    }
}

/// The rows for the groups that have suppliers, most suppliers first, then by brand,
/// type and size.
pub fn part_supplier_rows(groups: &PartGroups, counts: &[u64]) -> (rows: Vec<PartSupplierGroupRow>)
    requires
        groups.well_formed(),
    ensures
        is_report(rows@, groups.state().groups, counts@, groups.state().groups.len() as int),
        forall|left: int, right: int|
            0 <= left < right < rows@.len() ==> (#[trigger] rows@[left]).supplier_count >= (
            #[trigger] rows@[right]).supplier_count,
{
    let ghost all = groups.state().groups;
    assert forall|left: int, right: int| 0 <= left < right < all.len() implies #[trigger] all[left]
        != #[trigger] all[right] by {
        groups.law_groups_distinct(left, right);
    }
    let mut rows: Vec<PartSupplierGroupRow> = Vec::new();
    let mut group: usize = 0;
    while group < groups.group_count()
        invariant
            groups.well_formed(),
            all == groups.state().groups,
            forall|left: int, right: int|
                0 <= left < right < all.len() ==> #[trigger] all[left] != #[trigger] all[right],
            group <= all.len(),
            is_report(rows@, all, counts@, group as int),
        decreases all.len() - group,
    {
        if group < counts.len() && counts[group] > 0 {
            let key = groups.group(group);
            let row = PartSupplierGroupRow {
                brand: key.brand.clone(),
                part_type: key.part_type.clone(),
                size: key.size,
                supplier_count: counts[group],
            };
            insert_row(&mut rows, row, Ghost(all), Ghost(counts@), Ghost(group as int));
        } else {
            proof {
                assert forall|index: int| 0 <= index < rows@.len() implies reports_one(
                    #[trigger] rows@[index],
                    all,
                    counts@,
                    group + 1,
                ) by {
                    let other = choose|other: int|
                        other < group && #[trigger] reports(rows@[index], all, counts@, other);
                    assert(reports(rows@[index], all, counts@, other));
                }
            }
        }
        group += 1;
    }
    proof {
        law_most_suppliers_first(rows@, all, counts@);
    }
    rows
}

/// How distinct suppliers are collected.
#[derive(Clone, Copy, Debug, PartialEq, Eq, Structural)]
pub enum SupplierCountMethod {
    /// As packed pairs.
    Packed,
    /// As bits.
    Bitset(SupplierBitsetLayout),
    /// As a hash set per group.
    Hash,
}

/// Whether packed pairs are used: they are not switched off, and the number of
/// groups and the largest supplier fit in 32 bits.
pub fn packed_distinct_enabled(
    group_count: usize,
    max_suppkey: Option<i64>,
    disabled: bool,
) -> (enabled: bool)
    ensures
        enabled == (!disabled && group_count <= u32::MAX && (max_suppkey matches Some(key) && 0 <= key
            <= u32::MAX)),
{
    if disabled || group_count as u64 > u32::MAX as u64 {
        return false;
    }
    match max_suppkey {
        Some(key) => key >= 0 && key <= u32::MAX as i64,
        None => false,
    }
}

/// Which ways of collecting suppliers are allowed.
#[derive(Clone, Copy)]
pub struct SupplierCountSwitches {
    pub packed_disabled: bool,
    pub bitset_enabled: bool,
    pub bitset_max_bytes: usize,
}

/// How distinct suppliers are collected: as packed pairs where that applies, else as
/// bits where they are switched on and not too many, else as hash sets.
pub open spec fn method_of(
    group_count: usize,
    max_suppkey: Option<i64>,
    switches: SupplierCountSwitches,
) -> SupplierCountMethod {
    match max_suppkey {
        Some(key) => if !switches.packed_disabled && group_count <= u32::MAX && 0 <= key <= u32::MAX {
            SupplierCountMethod::Packed
        } else if switches.bitset_enabled && group_count > 0 && key >= 0 && group_count * words_for(
            key as int,
        ) * 8 <= switches.bitset_max_bytes {
            SupplierCountMethod::Bitset(
                SupplierBitsetLayout {
                    group_count,
                    words_per_group: words_for(key as int) as usize,
                },
            )
        } else {
            SupplierCountMethod::Hash
        },
        None => SupplierCountMethod::Hash,
    }
}

/// How distinct suppliers are collected.
pub fn supplier_count_method(
    group_count: usize,
    max_suppkey: Option<i64>,
    switches: SupplierCountSwitches,
) -> (method: SupplierCountMethod)
    ensures
        method == method_of(group_count, max_suppkey, switches),
        method matches SupplierCountMethod::Bitset(layout) ==> layout.valid() && layout.group_count
            == group_count && (max_suppkey matches Some(key) && layout.words_per_group == words_for(
            key as int,
        )),
{
    if packed_distinct_enabled(group_count, max_suppkey, switches.packed_disabled) {
        return SupplierCountMethod::Packed;
    }
    match supplier_bitset_layout(
        group_count,
        max_suppkey,
        switches.bitset_enabled,
        switches.bitset_max_bytes,
    ) {
        Some(layout) => SupplierCountMethod::Bitset(layout),
        None => SupplierCountMethod::Hash,
    }
}

/// Whether the parts stand in a text from `start` on, each behind the one before.
pub open spec fn parts_in_order(text: Seq<char>, parts: Seq<Seq<char>>, start: int) -> bool
    decreases parts.len(),
{
    if parts.len() == 0 {
        true
    } else {
        exists|place: int|
            start <= place && #[trigger] occurs_at(text, parts[0], place) && parts_in_order(
                text,
                parts.skip(1),
                place + parts[0].len(),
            )
    }
}

/// What can be found from a place on can be found from an earlier place on.
pub proof fn law_parts_in_order_earlier(
    text: Seq<char>,
    parts: Seq<Seq<char>>,
    start: int,
    earlier: int,
)
    requires
        parts_in_order(text, parts, start),
        earlier <= start,
    ensures
        parts_in_order(text, parts, earlier),
{
    if parts.len() > 0 {
        let place = choose|place: int|
            start <= place && #[trigger] occurs_at(text, parts[0], place) && parts_in_order(
                text,
                parts.skip(1),
                place + parts[0].len(),
            );
        assert(occurs_at(text, parts[0], place));
    }
}

/// The strings as texts.
pub open spec fn texts_of(parts: Seq<String>) -> Seq<Seq<char>> {
    parts.map_values(|part: String| part@)
}

/// Where a needle first stands in a text from `start` on.
fn find_from(text: &[char], needle: &[char], start: usize) -> (place: Option<usize>)
    requires
        start <= text@.len(),
    ensures
        match place {
            Some(place) => start <= place && occurs_at(text@, needle@, place as int) && forall|
                earlier: int,
            |
                start <= earlier < place ==> !#[trigger] occurs_at(text@, needle@, earlier),
            None => forall|later: int|
                start <= later ==> !#[trigger] occurs_at(text@, needle@, later),
        },
{
    let mut place: usize = start;
    loop
        invariant
            start <= place <= text@.len(),
            forall|earlier: int|
                start <= earlier < place ==> !#[trigger] occurs_at(text@, needle@, earlier),
        decreases text@.len() - place,
    {
        if characters_occur_at(text, needle, place) {
            return Some(place);
        }
        if place == text.len() {
            return None;
        }
        place += 1;
    }
}

/// Whether the parts stand in a text, each behind the one before.
pub fn like_substrings_match(text: &str, parts: &[String]) -> (found: bool)
    ensures
        found == parts_in_order(text@, texts_of(parts@), 0),
{
    let characters = chars_of(text);
    let ghost all = texts_of(parts@);
    let mut start: usize = 0;
    let mut index: usize = 0;
    assert(all.skip(0) =~= all);
    while index < parts.len()
        invariant
            characters@ == text@,
            all == texts_of(parts@),
            index <= parts@.len(),
            start <= characters@.len(),
            parts_in_order(text@, all, 0) == parts_in_order(
                text@,
                all.skip(index as int),
                start as int,
            ),
        decreases parts@.len() - index,
    {
        let ghost rest = all.skip(index as int);
        assert(rest[0] == parts@[index as int]@);
        assert(rest.skip(1) =~= all.skip(index + 1));
        let needle = chars_of(parts[index].as_str());
        match find_from(characters.as_slice(), needle.as_slice(), start) {
            Some(place) => {
                proof {
                    let next = place + needle@.len();
                    if parts_in_order(text@, rest, start as int) {
                        let other = choose|other: int|
                            start <= other && #[trigger] occurs_at(text@, rest[0], other)
                                && parts_in_order(text@, rest.skip(1), other + rest[0].len());
                        law_parts_in_order_earlier(
                            text@,
                            rest.skip(1),
                            other + rest[0].len(),
                            next,
                        );
                    }
                    if parts_in_order(text@, rest.skip(1), next) {
                        assert(occurs_at(text@, rest[0], place as int));
                    }
                }
                assert(place + needle@.len() <= characters.len());
                start = place + needle.len();
            },
            None => {
                return false;
            },
        }
        index += 1;
    }
    assert(all.skip(index as int) =~= Seq::empty());
    true
}

/// Suppliers that are left out, and the largest supplier seen.
pub struct ExcludedSuppliers {
    pub keys: HashSet<i64>,
    pub max_suppkey: Option<i64>,
}

/// The larger of two keys, where there are any.
pub open spec fn larger_key(left: Option<i64>, right: i64) -> Option<i64> {
    match left {
        Some(left) => if left >= right {
            Some(left)
        } else {
            Some(right)
        },
        None => Some(right),
    }
}

/// The largest key of pairs and `start`.
pub open spec fn largest_key<V>(pairs: Seq<(i64, V)>, start: Option<i64>) -> Option<i64>
    decreases pairs.len(),
{
    if pairs.len() == 0 {
        start
    } else {
        larger_key(largest_key(pairs.drop_last(), start), pairs.last().0)
    }
}

/// For each row that has a key, whether its comment matches.
pub open spec fn comment_verdicts(comments: Seq<Option<Seq<char>>>, parts: Seq<Seq<char>>) -> Seq<
    Option<bool>,
> {
    comments.map_values(
        |comment: Option<Seq<char>>|
            match comment {
                Some(text) => Some(parts_in_order(text, parts, 0)),
                None => Some(false),
            },
    )
}

/// The keys of pairs that are marked.
pub open spec fn marked_keys(pairs: Seq<(i64, bool)>) -> Set<i64> {
    Set::new(|key: i64| pairs.contains((key, true)))
}

/// Takes in the suppliers of a batch: those whose comment matches are left out, and
/// all count towards the largest.
pub fn excluded_suppliers_batch(
    batch: &RecordBatch,
    comment_parts: &[String],
    suppliers: &mut ExcludedSuppliers,
) -> (result: SqlResult<()>)
    requires
        batch.well_formed(),
    ensures
        if has_key_and_strings(*batch, "s_suppkey"@, "s_comment"@) {
            let keys = batch.column_named("s_suppkey"@);
            let answers = comment_verdicts(
                strings_of(batch.column_named("s_comment"@)),
                texts_of(comment_parts@),
            );
            let pairs = answered_pairs(keys, answers, answers.len() as int);
            match result {
                Ok(_) => !needs_other_key(keys, answers) && final(suppliers).keys@ == old(
                    suppliers,
                ).keys@.union(marked_keys(pairs)) && final(suppliers).max_suppkey == largest_key(
                    pairs,
                    old(suppliers).max_suppkey,
                ),
                Err(error) => needs_other_key(keys, answers) && is_key_error(error, keys) && *final(suppliers) == *old(suppliers),
            }
        } else {
            result matches Err(error) && columns_missing(
                *batch,
                "s_suppkey"@,
                "s_comment"@,
                error,
            ) && *final(suppliers) == *old(suppliers)
        },
{
    let keys = match batch_column(batch, "s_suppkey") {
        Ok(keys) => keys,
        Err(error) => {
            return Err(error);
        },
    };
    let comments = match batch_string_column(batch, "s_comment") {
        Ok(comments) => comments,
        Err(error) => {
            return Err(error);
        },
    };
    let ghost expected = comment_verdicts(
        strings_of(batch.column_named("s_comment"@)),
        texts_of(comment_parts@),
    );
    let mut answers: Vec<Option<bool>> = Vec::new();
    let mut row: usize = 0;
    while row < comments.len()
        invariant
            comments.well_formed(),
            row <= comments@.len(),
            answers@.len() == row,
            forall|done: int|
                0 <= done < row ==> #[trigger] answers@[done] == Some(
                    comments.valid_at(done) && parts_in_order(
                        comments.values@[done]@,
                        texts_of(comment_parts@),
                        0,
                    ),
                ),
        decreases comments@.len() - row,
    {
        let matched = !comments.is_null(row) && like_substrings_match(
            comments.values[row].as_str(),
            comment_parts,
        );
        answers.push(Some(matched));
        row += 1;
    }
    assert(answers@ =~= expected);
    let pairs = match pair_up(keys, answers.as_slice()) {
        Ok(pairs) => pairs,
        Err(error) => {
            return Err(error);
        },
    };
    let ghost before = *suppliers;
    let mut index: usize = 0;
    assert(pairs@.take(0) =~= Seq::empty());
    assert(suppliers.keys@ =~= before.keys@.union(marked_keys(pairs@.take(0))));
    while index < pairs.len()
        invariant
            index <= pairs@.len(),
            suppliers.keys@ == before.keys@.union(marked_keys(pairs@.take(index as int))),
            suppliers.max_suppkey == largest_key(pairs@.take(index as int), before.max_suppkey),
        decreases pairs@.len() - index,
    {
        let (key, marked): (i64, bool) = pairs[index];
        proof {
            let longer = pairs@.take(index + 1);
            assert(longer.drop_last() =~= pairs@.take(index as int));
            assert forall|other: i64| marked_keys(longer).contains(other) == (marked_keys(
                pairs@.take(index as int),
            ).contains(other) || (marked && other == key)) by {
                lemma_take_contains(pairs@, index as int, (other, true));
            }
        }
        suppliers.max_suppkey = match suppliers.max_suppkey {
            Some(largest) => if largest >= key {
                Some(largest)
            } else {
                Some(key)
            },
            None => Some(key),
        };
        if marked {
            suppliers.keys.insert(key);
        }
        assert(suppliers.keys@ =~= before.keys@.union(marked_keys(pairs@.take(index + 1))));
        index += 1;
    }
    assert(pairs@.take(index as int) =~= pairs@);
    Ok(())
}

proof fn lemma_take_contains<T>(list: Seq<T>, count: int, value: T)
    requires
        0 <= count < list.len(),
    ensures
        list.take(count + 1).contains(value) == (list.take(count).contains(value) || list[count]
            == value),
{
    let longer = list.take(count + 1);
    let shorter = list.take(count);
    if shorter.contains(value) {
        let place = choose|place: int| 0 <= place < shorter.len() && shorter[place] == value;
        assert(longer[place] == value);
    }
    if longer.contains(value) {
        let place = choose|place: int| 0 <= place < longer.len() && longer[place] == value;
        if place < count {
            assert(shorter[place] == value);
        }
    }
    assert(longer[count] == list[count]);
}

} // verus!
