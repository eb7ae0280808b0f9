//! Groups of shipped rows by return flag and line status.
//!
//! Flags and statuses are nearly always one character long, and few pairs of them
//! occur. Such pairs take one of eight slots; any other pair goes to a list.

use vstd::prelude::*;
use crate::columns::Vector;
use crate::discounted_revenue::DecimalUnits;
use crate::text::{
    chars_of, comes_before, law_comes_before_irreflexive, law_comes_before_total,
    law_comes_before_transitive, lemma_char_code_injective, str_eq, str_less, string_from,
};

verus! {

/// The number of slots.
pub const SLOTS: usize = 8;

/// A return flag and a line status.
pub type PricingGroup = (Seq<char>, Seq<char>);

/// The character of a text that is one ASCII character.
pub open spec fn one_ascii(text: Seq<char>) -> bool {
    text.len() == 1 && (text[0] as u32) < 128
}

/// The byte of a text that is one ASCII character.
pub fn single_ascii_byte(value: &str) -> (byte: Option<u8>)
    ensures
        byte.is_some() == one_ascii(value@),
        byte matches Some(byte) ==> byte < 128 && value@ == byte_text(byte),
{
    let characters = chars_of(value);
    if characters.len() != 1 {
        return None;
    }
    let character: char = characters[0];
    let code: u32 = character as u32;
    if code < 128 {
        let byte: u8 = code as u8;
        proof {
            assert(byte as char as u32 == character as u32);
            lemma_char_code_injective(byte as char, character);
            assert(value@ =~= byte_text(byte));
        }
        Some(byte)
    } else {
        None
    }
}

/// The text with one character.
pub open spec fn byte_text(byte: u8) -> Seq<char> {
    seq![byte as char]
}

/// The text with one character.
fn byte_string(byte: u8) -> (text: String)
    ensures
        text@ == byte_text(byte),
{
    let characters: Vec<char> = vec![byte as char];
    assert(characters@ =~= byte_text(byte));
    string_from(characters.as_slice())
}

/// Whether offsets mark the ends of rows in data.
pub open spec fn offsets_in_data(offsets: Seq<i32>, data: Seq<u8>, row: int) -> bool {
    &&& row + 1 < offsets.len()
    &&& 0 <= offsets[row] <= offsets[row + 1] <= data.len()
}

/// The byte of a row that is one byte long.
pub fn single_byte_string_parts(offsets: &[i32], data: &[u8], row: usize) -> (byte: Option<u8>)
    requires
        offsets_in_data(offsets@, data@, row as int),
    ensures
        byte == (if offsets@[row + 1] == offsets@[row as int] + 1 {
            Some(data@[offsets@[row as int] as int])
        } else {
            None
        }),
{
    let start: usize = offsets[row] as usize;
    let end: usize = offsets[row + 1] as usize;
    if end == start + 1 {
        Some(data[start])
    } else {
        None
    }
}

/// Whether every row is the one byte at its own place.
pub open spec fn one_byte_each(offsets: Seq<i32>, data: Seq<u8>, rows: int) -> bool {
    &&& data.len() == rows
    &&& forall|index: int| 0 <= index < offsets.len() ==> #[trigger] offsets[index] == index
}

/// The bytes of a column without nulls whose rows are one byte each.
pub fn contiguous_single_byte_utf8_data<'a>(
    offsets: &[i32],
    data: &'a [u8],
    rows: usize,
    null_count: usize,
) -> (bytes: Option<&'a [u8]>)
    ensures
        bytes == (if null_count == 0 && one_byte_each(offsets@, data@, rows as int) {
            Some(data)
        } else {
            None
        }),
{
    if null_count != 0 || data.len() != rows {
        return None;
    }
    let mut index: usize = 0;
    while index < offsets.len()
        invariant
            index <= offsets@.len(),
            forall|earlier: int| 0 <= earlier < index ==> #[trigger] offsets@[earlier] == earlier,
        decreases offsets@.len() - index,
    {
        if offsets[index] < 0 || offsets[index] as usize != index {
            assert(offsets@[index as int] != index);
            return None;
        }
        index += 1;
    }
    Some(data)
}

/// In a column whose rows are one byte each, a row's byte is the byte at its place.
pub proof fn law_contiguous_bytes_are_rows(offsets: Seq<i32>, data: Seq<u8>, rows: int, row: int)
    requires
        one_byte_each(offsets, data, rows),
        offsets.len() == rows + 1,
        0 <= row < rows,
    ensures
        offsets_in_data(offsets, data, row),
        offsets[row + 1] == offsets[row] + 1,
        offsets[row] == row,
{
    assert(offsets[row] == row);
    assert(offsets[row + 1] == row + 1);
}

/// Where a group is kept.
#[derive(Clone, Copy, Debug, PartialEq, Eq, Structural)]
pub enum PricingSlot {
    Key(usize),
    Overflow(usize),
}

/// The groups seen so far, each with the number of rows that were counted in it.
pub struct PricingSummaryGroupSlots {
    pub keys: Vec<u16>,
    pub key_counts: Vec<u64>,
    pub overflow: Vec<(String, String)>,
    pub overflow_counts: Vec<u64>,
}

/// The group of a slot's key.
pub open spec fn key_group(key: u16) -> PricingGroup {
    (byte_text((key / 256) as u8), byte_text((key % 256) as u8))
}

/// The key of two bytes.
pub open spec fn pair_key(returnflag: u8, linestatus: u8) -> u16 {
    (returnflag * 256 + linestatus) as u16
}

/// Whether both parts of a group are one ASCII character.
pub open spec fn group_is_ascii(group: PricingGroup) -> bool {
    one_ascii(group.0) && one_ascii(group.1)
}

/// What is counted for a group, over all places that keep it.
pub open spec fn tally(groups: Seq<PricingGroup>, counts: Seq<u64>, group: PricingGroup) -> nat
    decreases groups.len(),
{
    if groups.len() == 0 {
        0
    } else {
        tally(groups.drop_last(), counts.drop_last(), group) + (if groups.last() == group {
            counts.last() as nat
        } else {
            0
        })
    }
}

impl PricingSummaryGroupSlots {
    /// The groups of the slots.
    pub open spec fn key_groups(self) -> Seq<PricingGroup> {
        self.keys@.map_values(|key: u16| key_group(key))
    }

    /// The groups of the list.
    pub open spec fn overflow_groups(self) -> Seq<PricingGroup> {
        self.overflow@.map_values(|group: (String, String)| (group.0@, group.1@))
    }

    /// Every group, those of the slots first.
    pub open spec fn groups(self) -> Seq<PricingGroup> {
        self.key_groups() + self.overflow_groups()
    }

    /// The counts of the groups, in their order.
    pub open spec fn order_counts(self) -> Seq<u64> {
        self.key_counts@ + self.overflow_counts@
    }

    /// Every group with its count.
    pub open spec fn entries(self) -> Seq<(PricingGroup, u64)> {
        Seq::new(
            self.groups().len(),
            |index: int| (self.groups()[index], self.order_counts()[index]),
        )
    }

    /// The groups that are kept.
    pub open spec fn held(self) -> Set<PricingGroup> {
        Set::new(
            |group: PricingGroup|
                self.key_groups().contains(group) || self.overflow_groups().contains(group),
        )
    }

    /// How many rows were counted in a group, none for one that is not kept.
    pub open spec fn count_of(self, group: PricingGroup) -> nat {
        tally(self.key_groups(), self.key_counts@, group) + tally(
            self.overflow_groups(),
            self.overflow_counts@,
            group,
        )
    }

    /// The count at a place.
    pub open spec fn count_at(self, slot: PricingSlot) -> u64 {
        match slot {
            PricingSlot::Key(index) => self.key_counts@[index as int],
            PricingSlot::Overflow(index) => self.overflow_counts@[index as int],
        }
    }

    /// Whether no more slots are taken than there are, all of them for ASCII pairs,
    /// neither the slots nor the list hold a group twice, and each place has a count.
    pub open spec fn well_formed(self) -> bool {
        &&& self.keys@.len() <= 8
        &&& self.key_counts@.len() == self.keys@.len()
        &&& self.overflow_counts@.len() == self.overflow@.len()
        &&& forall|index: int|
            0 <= index < self.keys@.len() ==> {
                let key = #[trigger] self.keys@[index];
                key / 256 < 128 && key % 256 < 128
            }
        &&& self.keys@.no_duplicates()
        &&& self.overflow_groups().no_duplicates()
    }

    /// Whether an ASCII pair is in the list only where every slot is taken by others.
    pub open spec fn settled(self) -> bool {
        forall|index: int|
            0 <= index < self.overflow_groups().len() && group_is_ascii(
                #[trigger] self.overflow_groups()[index],
            ) ==> self.keys@.len() == 8 && !self.key_groups().contains(
                self.overflow_groups()[index],
            )
    }

    /// The group that a slot keeps.
    pub open spec fn group_at(self, slot: PricingSlot) -> Option<PricingGroup> {
        match slot {
            PricingSlot::Key(index) => if index < self.keys@.len() {
                Some(key_group(self.keys@[index as int]))
            } else {
                None
            },
            PricingSlot::Overflow(index) => if index < self.overflow@.len() {
                Some((self.overflow@[index as int].0@, self.overflow@[index as int].1@))
            } else {
                None
            },
        }
    }

    /// Whether everything that `before` keeps is still kept where it was.
    pub open spec fn extends(self, before: PricingSummaryGroupSlots) -> bool {
        &&& before.keys@.len() <= self.keys@.len()
        &&& self.keys@.take(before.keys@.len() as int) == before.keys@
        &&& before.overflow@.len() <= self.overflow@.len()
        &&& self.overflow@.take(before.overflow@.len() as int) == before.overflow@
    }

    /// No group yet.
    pub fn new() -> (slots: PricingSummaryGroupSlots)
        ensures
            slots.well_formed(),
            slots.settled(),
            slots.groups() == Seq::<PricingGroup>::empty(),
            slots.held() == Set::<PricingGroup>::empty(),
            forall|group: PricingGroup| #[trigger] slots.count_of(group) == 0,
    {
        let slots = PricingSummaryGroupSlots {
            keys: Vec::new(),
            key_counts: Vec::new(),
            overflow: Vec::new(),
            overflow_counts: Vec::new(),
        };
        assert(slots.groups() =~= Seq::<PricingGroup>::empty());
        slots
    }

    /// The place of a group in the list, which takes it in where it is new.
    fn overflow_slot(&mut self, returnflag: &str, linestatus: &str) -> (slot: PricingSlot)
        requires
            old(self).well_formed(),
        ensures
            final(self).well_formed(),
            final(self).extends(*old(self)),
            final(self).keys@ == old(self).keys@,
            final(self).held() == old(self).held().insert((returnflag@, linestatus@)),
            forall|group: PricingGroup| #[trigger]
                final(self).count_of(group) == old(self).count_of(group),
            slot is Overflow,
            final(self).group_at(slot) == Some((returnflag@, linestatus@)),
            final(self).overflow_groups() == (if old(self).overflow_groups().contains(
                (returnflag@, linestatus@),
            ) {
                old(self).overflow_groups()
            } else {
                old(self).overflow_groups().push((returnflag@, linestatus@))
            }),
    {
        let ghost before = *self;
        let ghost group = (returnflag@, linestatus@);
        let mut index: usize = 0;
        while index < self.overflow.len()
            invariant
                *self == before,
                before == *old(self),
                before.well_formed(),
                group == (returnflag@, linestatus@),
                index <= self.overflow@.len(),
                forall|earlier: int|
                    0 <= earlier < index ==> #[trigger] self.overflow_groups()[earlier] != group,
            decreases self.overflow@.len() - index,
        {
            if str_eq(self.overflow[index].0.as_str(), returnflag) && str_eq(
                self.overflow[index].1.as_str(),
                linestatus,
            ) {
                assert(self.overflow_groups()[index as int] == group);
                assert(self.overflow@.take(before.overflow@.len() as int) =~= before.overflow@);
                assert(self.keys@.take(before.keys@.len() as int) =~= before.keys@);
                assert(self.held() =~= before.held().insert(group));
                return PricingSlot::Overflow(index);
            }
            assert(self.overflow_groups()[index as int] != group);
            index += 1;
        }
        let flag = string_from(chars_of(returnflag).as_slice());
        let status = string_from(chars_of(linestatus).as_slice());
        self.overflow.push((flag, status));
        self.overflow_counts.push(0);
        assert(self.overflow_groups() =~= before.overflow_groups().push(group));
        proof {
            assert(self.key_groups() == before.key_groups());
            lemma_pushed_contains(before.overflow_groups(), group);
            assert(self.held() =~= before.held().insert(group));
            assert forall|other: PricingGroup| #[trigger]
                self.count_of(other) == before.count_of(other) by {
                lemma_pushed_tally(
                    before.overflow_groups(),
                    before.overflow_counts@,
                    group,
                    0,
                    other,
                );
            }
        }
        assert(self.overflow@.take(before.overflow@.len() as int) =~= before.overflow@);
        assert(self.keys@.take(before.keys@.len() as int) =~= before.keys@);
        assert(!before.overflow_groups().contains(group));
        PricingSlot::Overflow(index)
    }

    /// The place of the group of two characters, which is taken in where it is new: in
    /// a slot while one is free, else in the list.
    pub fn state_for_key_mut(&mut self, returnflag: u8, linestatus: u8) -> (slot: PricingSlot)
        requires
            old(self).well_formed(),
            returnflag < 128,
            linestatus < 128,
        ensures
            final(self).well_formed(),
            final(self).extends(*old(self)),
            final(self).group_at(slot) == Some((byte_text(returnflag), byte_text(linestatus))),
            final(self).held() == old(self).held().insert(
                (byte_text(returnflag), byte_text(linestatus)),
            ),
            forall|group: PricingGroup| #[trigger]
                final(self).count_of(group) == old(self).count_of(group),
            old(self).settled() ==> final(self).settled(),
            ({
                let group = (byte_text(returnflag), byte_text(linestatus));
                if old(self).key_groups().contains(group) {
                    &&& slot is Key
                    &&& final(self).keys@ == old(self).keys@
                    &&& final(self).overflow_groups() == old(self).overflow_groups()
                } else if old(self).keys@.len() < 8 {
                    &&& slot == PricingSlot::Key(old(self).keys@.len() as usize)
                    &&& final(self).keys@ == old(self).keys@.push(pair_key(returnflag, linestatus))
                    &&& final(self).overflow_groups() == old(self).overflow_groups()
                } else {
                    &&& slot is Overflow
                    &&& final(self).keys@ == old(self).keys@
                    &&& final(self).overflow_groups() == (if old(
                        self,
                    ).overflow_groups().contains(group) {
                        old(self).overflow_groups()
                    } else {
                        old(self).overflow_groups().push(group)
                    })
                }
            }),
    {
        let ghost before = *self;
        let ghost group = (byte_text(returnflag), byte_text(linestatus));
        let key: u16 = returnflag as u16 * 256 + linestatus as u16;
        assert(key_group(key) == group);
        let mut index: usize = 0;
        while index < self.keys.len()
            invariant
                *self == before,
                before == *old(self),
                before.well_formed(),
                index <= self.keys@.len(),
                key == pair_key(returnflag, linestatus),
                group == (byte_text(returnflag), byte_text(linestatus)),
                key_group(key) == group,
                forall|earlier: int| 0 <= earlier < index ==> #[trigger] self.keys@[earlier] != key,
            decreases self.keys@.len() - index,
        {
            if self.keys[index] == key {
                assert(self.key_groups()[index as int] == group);
                assert(self.overflow@.take(before.overflow@.len() as int) =~= before.overflow@);
                assert(self.keys@.take(before.keys@.len() as int) =~= before.keys@);
                assert(self.held() =~= before.held().insert(group));
                return PricingSlot::Key(index);
            }
            index += 1;
        }
        proof {
            if before.key_groups().contains(group) {
                let place = choose|place: int|
                    0 <= place < before.key_groups().len() && before.key_groups()[place] == group;
                lemma_key_of_group(before.keys@[place], key);
            }
        }
        if self.keys.len() < SLOTS {
            self.keys.push(key);
            self.key_counts.push(0);
            assert(self.overflow@.take(before.overflow@.len() as int) =~= before.overflow@);
            assert(self.keys@.take(before.keys@.len() as int) =~= before.keys@);
            assert(self.overflow_groups() == before.overflow_groups());
            proof {
                assert(self.key_groups() =~= before.key_groups().push(group));
                lemma_pushed_contains(before.key_groups(), group);
                assert(self.held() =~= before.held().insert(group));
                assert forall|other: PricingGroup| #[trigger]
                    self.count_of(other) == before.count_of(other) by {
                    lemma_pushed_tally(before.key_groups(), before.key_counts@, group, 0, other);
                }
            }
            return PricingSlot::Key(index);
        }
        let flag = byte_string(returnflag);
        let status = byte_string(linestatus);
        let slot = self.overflow_slot(flag.as_str(), status.as_str());
        assert(self.key_groups() == before.key_groups());
        slot
    }

    /// Counts more rows in the group of a place.
    fn count_orders(&mut self, slot: PricingSlot, orders: u64)
        requires
            old(self).well_formed(),
            old(self).group_at(slot) is Some,
            old(self).count_at(slot) + orders <= u64::MAX,
        ensures
            final(self).well_formed(),
            final(self).keys@ == old(self).keys@,
            final(self).overflow@ == old(self).overflow@,
            forall|group: PricingGroup| #[trigger]
                final(self).count_of(group) == old(self).count_of(group) + (if old(self).group_at(
                    slot,
                ) == Some(group) {
                    orders as nat
                } else {
                    0
                }),
    {
        let ghost before = *self;
        match slot {
            PricingSlot::Key(index) => {
                let count: u64 = self.key_counts[index] + orders;
                self.key_counts[index] = count;
                proof {
                    assert forall|group: PricingGroup| #[trigger]
                        self.count_of(group) == before.count_of(group) + (if before.group_at(slot)
                            == Some(group) {
                            orders as nat
                        } else {
                            0
                        }) by {
                        lemma_raised_tally(
                            before.key_groups(),
                            before.key_counts@,
                            index as int,
                            count,
                            group,
                        );
                    }
                }
            },
            PricingSlot::Overflow(index) => {
                let count: u64 = self.overflow_counts[index] + orders;
                self.overflow_counts[index] = count;
                proof {
                    assert forall|group: PricingGroup| #[trigger]
                        self.count_of(group) == before.count_of(group) + (if before.group_at(slot)
                            == Some(group) {
                            orders as nat
                        } else {
                            0
                        }) by {
                        lemma_raised_tally(
                            before.overflow_groups(),
                            before.overflow_counts@,
                            index as int,
                            count,
                            group,
                        );
                    }
                }
            },
        }
    }

    /// Counts a row in the group of two characters, which is taken in where it is new, and
    /// tells its place. No other group changes.
    pub fn update_key(&mut self, returnflag: u8, linestatus: u8) -> (slot: PricingSlot)
        requires
            old(self).well_formed(),
            returnflag < 128,
            linestatus < 128,
            old(self).count_of((byte_text(returnflag), byte_text(linestatus))) < u64::MAX,
        ensures
            final(self).well_formed(),
            final(self).extends(*old(self)),
            final(self).group_at(slot) == Some((byte_text(returnflag), byte_text(linestatus))),
            final(self).held() == old(self).held().insert(
                (byte_text(returnflag), byte_text(linestatus)),
            ),
            forall|group: PricingGroup| #[trigger]
                final(self).count_of(group) == old(self).count_of(group) + (if group == (
                    byte_text(returnflag),
                    byte_text(linestatus),
                ) {
                    1nat
                } else {
                    0
                }),
            old(self).settled() ==> final(self).settled(),
    {
        let slot = self.state_for_key_mut(returnflag, linestatus);
        let ghost placed = *self;
        proof {
            lemma_count_at_bounded(placed, slot, (byte_text(returnflag), byte_text(linestatus)));
        }
        self.count_orders(slot, 1);
        proof {
            lemma_same_groups(placed, *self);
        }
        slot
    }

    /// Counts a row in a group, which is taken in where it is new, and tells its place. No
    /// other group changes.
    pub fn update(&mut self, returnflag: &str, linestatus: &str) -> (slot: PricingSlot)
        requires
            old(self).well_formed(),
            old(self).count_of((returnflag@, linestatus@)) < u64::MAX,
        ensures
            final(self).well_formed(),
            final(self).extends(*old(self)),
            final(self).group_at(slot) == Some((returnflag@, linestatus@)),
            final(self).held() == old(self).held().insert((returnflag@, linestatus@)),
            forall|group: PricingGroup| #[trigger]
                final(self).count_of(group) == old(self).count_of(group) + (if group == (
                    returnflag@,
                    linestatus@,
                ) {
                    1nat
                } else {
                    0
                }),
            old(self).settled() ==> final(self).settled(),
    {
        match (single_ascii_byte(returnflag), single_ascii_byte(linestatus)) {
            (Some(flag), Some(status)) => self.update_key(flag, status),
            _ => {
                let ghost before = *self;
                let slot = self.overflow_slot(returnflag, linestatus);
                let ghost placed = *self;
                proof {
                    lemma_count_at_bounded(placed, slot, (returnflag@, linestatus@));
                    assert(placed.key_groups() == before.key_groups());
                    if before.settled() {
                        assert forall|index: int|
                            0 <= index < placed.overflow_groups().len() && group_is_ascii(
                                #[trigger] placed.overflow_groups()[index],
                            ) implies placed.keys@.len() == 8 && !placed.key_groups().contains(
                            placed.overflow_groups()[index],
                        ) by {
                            if index < before.overflow_groups().len() {
                                assert(placed.overflow_groups()[index]
                                    == before.overflow_groups()[index]);
                            }
                        }
                    }
                }
                self.count_orders(slot, 1);
                proof {
                    lemma_same_groups(placed, *self);
                }
                slot
            },
        }
    }

    /// Takes in the groups of another table with their counts. Tells for each of its
    /// slots, then for each place of its list, where the group is kept now.
    pub fn merge_slots(&mut self, other: &PricingSummaryGroupSlots) -> (places: Vec<PricingSlot>)
        requires
            old(self).well_formed(),
            other.well_formed(),
            forall|group: PricingGroup| #[trigger]
                old(self).count_of(group) + other.count_of(group) <= u64::MAX,
        ensures
            final(self).well_formed(),
            final(self).extends(*old(self)),
            final(self).held() == old(self).held().union(other.held()),
            forall|group: PricingGroup| #[trigger]
                final(self).count_of(group) == old(self).count_of(group) + other.count_of(group),
            places@.len() == other.groups().len(),
            forall|index: int|
                0 <= index < places@.len() ==> final(self).group_at(#[trigger] places@[index])
                    == Some(other.groups()[index]),
            old(self).settled() && (forall|index: int|
                0 <= index < other.overflow_groups().len() ==> !group_is_ascii(
                    #[trigger] other.overflow_groups()[index],
                )) ==> final(self).settled(),
    {
        let ghost before = *self;
        let ghost plain = forall|index: int|
            0 <= index < other.overflow_groups().len() ==> !group_is_ascii(
                #[trigger] other.overflow_groups()[index],
            );
        let mut places: Vec<PricingSlot> = Vec::new();
        assert(self.overflow@.take(before.overflow@.len() as int) =~= before.overflow@);
        assert(self.keys@.take(before.keys@.len() as int) =~= before.keys@);
        let mut index: usize = 0;
        proof {
            assert(other.key_groups().take(0) =~= Seq::empty());
            assert(other.key_counts@.take(0) =~= Seq::empty());
            assert(other.key_groups().take(other.keys@.len() as int) =~= other.key_groups());
            assert(other.key_counts@.take(other.keys@.len() as int) =~= other.key_counts@);
        }
        while index < other.keys.len()
            invariant
                before == *old(self),
                self.well_formed(),
                other.well_formed(),
                self.extends(before),
                before.settled() ==> self.settled(),
                index <= other.keys@.len(),
                forall|group: PricingGroup| #[trigger]
                    before.count_of(group) + other.count_of(group) <= u64::MAX,
                forall|group: PricingGroup| #[trigger]
                    self.count_of(group) == before.count_of(group) + tally(
                        other.key_groups().take(index as int),
                        other.key_counts@.take(index as int),
                        group,
                    ),
                forall|group: PricingGroup| #[trigger]
                    self.held().contains(group) <==> before.held().contains(group)
                        || other.key_groups().take(index as int).contains(group),
                places@.len() == index,
                forall|earlier: int|
                    0 <= earlier < index ==> self.group_at(#[trigger] places@[earlier]) == Some(
                        other.groups()[earlier],
                    ),
            decreases other.keys@.len() - index,
        {
            let ghost so_far = *self;
            let key: u16 = other.keys[index];
            let returnflag: u8 = (key / 256) as u8;
            let linestatus: u8 = (key % 256) as u8;
            let slot = self.state_for_key_mut(returnflag, linestatus);
            let ghost placed = *self;
            let ghost group = key_group(key);
            proof {
                assert(other.groups()[index as int] == group);
                assert(other.key_groups()[index as int] == group);
                lemma_extends_transitive(before, so_far, placed);
                lemma_kept_places(so_far, placed, places@);
                lemma_count_at_bounded(placed, slot, group);
                lemma_tally_step(other.key_groups(), other.key_counts@, index as int);
                lemma_tally_grows(
                    other.key_groups(),
                    other.key_counts@,
                    index + 1,
                    group,
                );
                assert(before.count_of(group) + other.count_of(group) <= u64::MAX);
                assert(so_far.count_of(group) == placed.count_of(group));
            }
            self.count_orders(slot, other.key_counts[index]);
            proof {
                lemma_same_groups(placed, *self);
                assert forall|kept: PricingGroup| #[trigger]
                    self.held().contains(kept) <==> before.held().contains(kept)
                        || other.key_groups().take(index + 1).contains(kept) by {
                    lemma_pushed_contains(other.key_groups().take(index as int), group);
                    assert(self.held().contains(kept) == placed.held().contains(kept));
                    assert(so_far.held().contains(kept) ==> placed.held().contains(kept));
                }
                assert forall|kept: PricingGroup| #[trigger]
                    self.count_of(kept) == before.count_of(kept) + tally(
                        other.key_groups().take(index + 1),
                        other.key_counts@.take(index + 1),
                        kept,
                    ) by {
                    assert(placed.count_of(kept) == so_far.count_of(kept));
                }
            }
            places.push(slot);
            index += 1;
        }
        let mut row: usize = 0;
        let ghost listed = other.overflow_groups();
        proof {
            assert(listed.take(0) =~= Seq::empty());
            assert(other.overflow_counts@.take(0) =~= Seq::empty());
            assert(listed.take(listed.len() as int) =~= listed);
            assert(other.overflow_counts@.take(listed.len() as int) =~= other.overflow_counts@);
        }
        while row < other.overflow.len()
            invariant
                before == *old(self),
                self.well_formed(),
                other.well_formed(),
                self.extends(before),
                listed == other.overflow_groups(),
                forall|group: PricingGroup| #[trigger]
                    before.count_of(group) + other.count_of(group) <= u64::MAX,
                forall|group: PricingGroup| #[trigger]
                    self.count_of(group) == before.count_of(group) + tally(
                        other.key_groups(),
                        other.key_counts@,
                        group,
                    ) + tally(
                        listed.take(row as int),
                        other.overflow_counts@.take(row as int),
                        group,
                    ),
                forall|group: PricingGroup| #[trigger]
                    self.held().contains(group) <==> before.held().contains(group)
                        || other.key_groups().contains(group) || listed.take(
                        row as int,
                    ).contains(group),
                plain == (forall|index: int|
                    0 <= index < other.overflow_groups().len() ==> !group_is_ascii(
                        #[trigger] other.overflow_groups()[index],
                    )),
                before.settled() && plain ==> self.settled(),
                row <= other.overflow@.len(),
                places@.len() == other.keys@.len() + row,
                forall|earlier: int|
                    0 <= earlier < places@.len() ==> self.group_at(#[trigger] places@[earlier])
                        == Some(other.groups()[earlier]),
            decreases other.overflow@.len() - row,
        {
            let ghost so_far = *self;
            let slot = self.overflow_slot(
                other.overflow[row].0.as_str(),
                other.overflow[row].1.as_str(),
            );
            let ghost placed = *self;
            let ghost group = listed[row as int];
            proof {
                assert(other.groups()[other.keys@.len() + row] == group);
                lemma_extends_transitive(before, so_far, placed);
                lemma_kept_places(so_far, placed, places@);
                lemma_count_at_bounded(placed, slot, group);
                lemma_tally_step(listed, other.overflow_counts@, row as int);
                lemma_tally_grows(listed, other.overflow_counts@, row + 1, group);
                assert(before.count_of(group) + other.count_of(group) <= u64::MAX);
                assert(so_far.count_of(group) == placed.count_of(group));
                if before.settled() && plain {
                    assert(self.key_groups() == so_far.key_groups());
                    assert forall|index: int|
                        0 <= index < self.overflow_groups().len() && group_is_ascii(
                            #[trigger] self.overflow_groups()[index],
                        ) implies self.keys@.len() == 8 && !self.key_groups().contains(
                        self.overflow_groups()[index],
                    ) by {
                        assert(!group_is_ascii(other.overflow_groups()[row as int]));
                        if index < so_far.overflow_groups().len() {
                            assert(self.overflow_groups()[index]
                                == so_far.overflow_groups()[index]);
                        }
                    }
                }
            }
            self.count_orders(slot, other.overflow_counts[row]);
            proof {
                lemma_same_groups(placed, *self);
                assert forall|kept: PricingGroup| #[trigger]
                    self.held().contains(kept) <==> before.held().contains(kept)
                        || other.key_groups().contains(kept) || listed.take(row + 1).contains(
                        kept,
                    ) by {
                    lemma_pushed_contains(listed.take(row as int), group);
                    assert(self.held().contains(kept) == placed.held().contains(kept));
                    assert(so_far.held().contains(kept) ==> placed.held().contains(kept));
                }
                assert forall|kept: PricingGroup| #[trigger]
                    self.count_of(kept) == before.count_of(kept) + tally(
                        other.key_groups(),
                        other.key_counts@,
                        kept,
                    ) + tally(
                        listed.take(row + 1),
                        other.overflow_counts@.take(row + 1),
                        kept,
                    ) by {
                    assert(placed.count_of(kept) == so_far.count_of(kept));
                }
            }
            places.push(slot);
            row += 1;
        }
        assert(self.held() =~= before.held().union(other.held()));
        places
    }

    /// The groups, those of the slots first, each with its count and where it is kept.
    pub fn into_rows(self) -> (rows: Vec<PricingSummaryRow>)
        requires
            self.well_formed(),
        ensures
            row_groups(rows@) == self.groups(),
            row_entries(rows@) == self.entries(),
            forall|index: int|
                0 <= index < rows@.len() ==> self.group_at((#[trigger] rows@[index]).slot) == Some(
                    rows@[index].group(),
                ),
            forall|left: int, right: int|
                0 <= left < right < rows@.len() ==> (#[trigger] rows@[left]).slot != (
                #[trigger] rows@[right]).slot,
    {
        let mut rows: Vec<PricingSummaryRow> = Vec::new();
        let mut index: usize = 0;
        while index < self.keys.len()
            invariant
                self.well_formed(),
                index <= self.keys@.len(),
                rows@.len() == index,
                forall|earlier: int|
                    0 <= earlier < index ==> {
                        &&& (#[trigger] rows@[earlier]).group() == self.groups()[earlier]
                        &&& rows@[earlier].count_order == self.order_counts()[earlier]
                        &&& rows@[earlier].slot == PricingSlot::Key(earlier as usize)
                    },
            decreases self.keys@.len() - index,
        {
            let key: u16 = self.keys[index];
            let returnflag = byte_string((key / 256) as u8);
            let linestatus = byte_string((key % 256) as u8);
            assert(self.groups()[index as int] == key_group(key));
            let count_order: u64 = self.key_counts[index];
            let slot = PricingSlot::Key(index);
            rows.push(PricingSummaryRow { returnflag, linestatus, count_order, slot });
            index += 1;
        }
        let mut row: usize = 0;
        while row < self.overflow.len()
            invariant
                self.well_formed(),
                row <= self.overflow@.len(),
                rows@.len() == self.keys@.len() + row,
                forall|earlier: int|
                    0 <= earlier < rows@.len() ==> {
                        &&& (#[trigger] rows@[earlier]).group() == self.groups()[earlier]
                        &&& rows@[earlier].count_order == self.order_counts()[earlier]
                        &&& rows@[earlier].slot == (if earlier < self.keys@.len() {
                            PricingSlot::Key(earlier as usize)
                        } else {
                            PricingSlot::Overflow((earlier - self.keys@.len()) as usize)
                        })
                    },
            decreases self.overflow@.len() - row,
        {
            let returnflag = string_from(chars_of(self.overflow[row].0.as_str()).as_slice());
            let linestatus = string_from(chars_of(self.overflow[row].1.as_str()).as_slice());
            assert(self.groups()[self.keys@.len() + row] == self.overflow_groups()[row as int]);
            let count_order: u64 = self.overflow_counts[row];
            let slot = PricingSlot::Overflow(row);
            rows.push(PricingSummaryRow { returnflag, linestatus, count_order, slot });
            row += 1;
        }
        proof {
            assert(row_groups(rows@) =~= self.groups());
            assert(row_entries(rows@) =~= self.entries());
            assert forall|index: int| 0 <= index < rows@.len() implies self.group_at(
                (#[trigger] rows@[index]).slot,
            ) == Some(rows@[index].group()) by {
                assert(rows@[index].group() == self.groups()[index]);
            }
        }
        rows
    }
}

/// What a list with one more holds.
proof fn lemma_pushed_contains(groups: Seq<PricingGroup>, group: PricingGroup)
    ensures
        forall|other: PricingGroup| #[trigger]
            groups.push(group).contains(other) <==> groups.contains(other) || other == group,
{
    let longer = groups.push(group);
    assert forall|other: PricingGroup| #[trigger]
        longer.contains(other) <==> groups.contains(other) || other == group by {
        if groups.contains(other) {
            let place = choose|place: int| 0 <= place < groups.len() && groups[place] == other;
            assert(longer[place] == other);
        }
        if other == group {
            assert(longer[groups.len() as int] == other);
        }
        if longer.contains(other) && other != group {
            let place = choose|place: int| 0 <= place < longer.len() && longer[place] == other;
            assert(groups[place] == other);
        }
    }
}

proof fn lemma_pushed_tally(
    groups: Seq<PricingGroup>,
    counts: Seq<u64>,
    group: PricingGroup,
    count: u64,
    asked: PricingGroup,
)
    ensures
        tally(groups.push(group), counts.push(count), asked) == tally(groups, counts, asked) + (
        if group == asked {
            count as nat
        } else {
            0
        }),
{
    assert(groups.push(group).drop_last() =~= groups);
    assert(counts.push(count).drop_last() =~= counts);
}

/// Raising one count raises what is counted for its group.
proof fn lemma_raised_tally(
    groups: Seq<PricingGroup>,
    counts: Seq<u64>,
    place: int,
    count: u64,
    asked: PricingGroup,
)
    requires
        groups.len() == counts.len(),
        0 <= place < groups.len(),
    ensures
        tally(groups, counts.update(place, count), asked) + (if groups[place] == asked {
            counts[place] as nat
        } else {
            0
        }) == tally(groups, counts, asked) + (if groups[place] == asked {
            count as nat
        } else {
            0
        }),
    decreases groups.len(),
{
    let changed = counts.update(place, count);
    if place == groups.len() - 1 {
        assert(changed.drop_last() =~= counts.drop_last());
    } else {
        lemma_raised_tally(groups.drop_last(), counts.drop_last(), place, count, asked);
        assert(changed.drop_last() =~= counts.drop_last().update(place, count));
    }
}

/// The count at a place is no more than what is counted for its group.
proof fn lemma_count_within_tally(groups: Seq<PricingGroup>, counts: Seq<u64>, place: int)
    requires
        groups.len() == counts.len(),
        0 <= place < groups.len(),
    ensures
        counts[place] <= tally(groups, counts, groups[place]),
    decreases groups.len(),
{
    if place < groups.len() - 1 {
        lemma_count_within_tally(groups.drop_last(), counts.drop_last(), place);
    }
}

proof fn lemma_count_at_bounded(
    slots: PricingSummaryGroupSlots,
    slot: PricingSlot,
    group: PricingGroup,
)
    requires
        slots.well_formed(),
        slots.group_at(slot) == Some(group),
    ensures
        slots.count_at(slot) <= slots.count_of(group),
{
    match slot {
        PricingSlot::Key(index) => {
            lemma_count_within_tally(slots.key_groups(), slots.key_counts@, index as int);
        },
        PricingSlot::Overflow(index) => {
            lemma_count_within_tally(slots.overflow_groups(), slots.overflow_counts@, index as int);
        },
    }
}

/// One more place adds its count.
proof fn lemma_tally_step(groups: Seq<PricingGroup>, counts: Seq<u64>, place: int)
    requires
        groups.len() == counts.len(),
        0 <= place < groups.len(),
    ensures
        groups.take(place + 1) == groups.take(place).push(groups[place]),
        counts.take(place + 1) == counts.take(place).push(counts[place]),
        forall|asked: PricingGroup| #[trigger]
            tally(groups.take(place + 1), counts.take(place + 1), asked) == tally(
                groups.take(place),
                counts.take(place),
                asked,
            ) + (if groups[place] == asked {
                counts[place] as nat
            } else {
                0
            }),
{
    assert(groups.take(place + 1) =~= groups.take(place).push(groups[place]));
    assert(counts.take(place + 1) =~= counts.take(place).push(counts[place]));
    assert forall|asked: PricingGroup| #[trigger]
        tally(groups.take(place + 1), counts.take(place + 1), asked) == tally(
            groups.take(place),
            counts.take(place),
            asked,
        ) + (if groups[place] == asked {
            counts[place] as nat
        } else {
            0
        }) by {
        lemma_pushed_tally(
            groups.take(place),
            counts.take(place),
            groups[place],
            counts[place],
            asked,
        );
    }
}

/// The first places count no more than all.
proof fn lemma_tally_grows(
    groups: Seq<PricingGroup>,
    counts: Seq<u64>,
    place: int,
    asked: PricingGroup,
)
    requires
        groups.len() == counts.len(),
        0 <= place <= groups.len(),
    ensures
        tally(groups.take(place), counts.take(place), asked) <= tally(groups, counts, asked),
    decreases groups.len() - place,
{
    if place < groups.len() {
        lemma_tally_step(groups, counts, place);
        lemma_tally_grows(groups, counts, place + 1, asked);
    } else {
        assert(groups.take(place) =~= groups);
        assert(counts.take(place) =~= counts);
    }
}

/// Tables with the same places keep the same groups.
proof fn lemma_same_groups(before: PricingSummaryGroupSlots, after: PricingSummaryGroupSlots)
    requires
        after.keys@ == before.keys@,
        after.overflow@ == before.overflow@,
    ensures
        after.held() == before.held(),
        after.settled() == before.settled(),
        after.extends(before),
        forall|slot: PricingSlot| #[trigger] after.group_at(slot) == before.group_at(slot),
        forall|earlier: PricingSummaryGroupSlots|
            before.extends(earlier) ==> #[trigger] after.extends(earlier),
{
    assert(after.key_groups() == before.key_groups());
    assert(after.overflow_groups() == before.overflow_groups());
    assert(after.held() =~= before.held());
    assert(after.overflow@.take(before.overflow@.len() as int) =~= before.overflow@);
    assert(after.keys@.take(before.keys@.len() as int) =~= before.keys@);
}

/// A list that holds no group twice counts a group where it holds it, and nowhere else.
proof fn lemma_tally_at(groups: Seq<PricingGroup>, counts: Seq<u64>, asked: PricingGroup)
    requires
        groups.len() == counts.len(),
        groups.no_duplicates(),
    ensures
        !groups.contains(asked) ==> tally(groups, counts, asked) == 0,
        forall|place: int|
            0 <= place < groups.len() && #[trigger] groups[place] == asked ==> tally(
                groups,
                counts,
                asked,
            ) == counts[place],
    decreases groups.len(),
{
    if groups.len() > 0 {
        let shorter = groups.drop_last();
        lemma_tally_at(shorter, counts.drop_last(), asked);
        let last = groups.len() - 1;
        if shorter.contains(asked) {
            let place = choose|place: int| 0 <= place < shorter.len() && shorter[place] == asked;
            assert(groups[place] == asked);
        }
        if groups[last] == asked {
            assert(groups.contains(asked));
            assert(!shorter.contains(asked));
        }
        assert forall|place: int|
            0 <= place < groups.len() && #[trigger] groups[place] == asked implies tally(
            groups,
            counts,
            asked,
        ) == counts[place] by {
            if place < last {
                assert(shorter[place] == asked);
            }
        }
    }
}

/// A key tells its group.
proof fn lemma_key_of_group(left: u16, right: u16)
    requires
        key_group(left) == key_group(right),
        left / 256 < 128 && left % 256 < 128,
        right / 256 < 128 && right % 256 < 128,
    ensures
        left == right,
{
    assert(byte_text((left / 256) as u8)[0] == byte_text((right / 256) as u8)[0]);
    assert(byte_text((left % 256) as u8)[0] == byte_text((right % 256) as u8)[0]);
    assert((left / 256) as u8 as char as u32 == (left / 256) as u32);
    assert((right / 256) as u8 as char as u32 == (right / 256) as u32);
    assert((left % 256) as u8 as char as u32 == (left % 256) as u32);
    assert((right % 256) as u8 as char as u32 == (right % 256) as u32);
}

proof fn lemma_extends_transitive(
    first: PricingSummaryGroupSlots,
    second: PricingSummaryGroupSlots,
    third: PricingSummaryGroupSlots,
)
    requires
        second.extends(first),
        third.extends(second),
    ensures
        third.extends(first),
{
    assert(third.keys@.take(second.keys@.len() as int).take(first.keys@.len() as int)
        =~= third.keys@.take(first.keys@.len() as int));
    assert(third.overflow@.take(second.overflow@.len() as int).take(first.overflow@.len() as int)
        =~= third.overflow@.take(first.overflow@.len() as int));
}

/// Groups stay where they are kept.
proof fn lemma_kept_places(
    before: PricingSummaryGroupSlots,
    after: PricingSummaryGroupSlots,
    places: Seq<PricingSlot>,
)
    requires
        after.extends(before),
    ensures
        forall|index: int|
            0 <= index < places.len() && before.group_at(#[trigger] places[index]) is Some
                ==> after.group_at(places[index]) == before.group_at(places[index]),
{
    assert forall|index: int|
        0 <= index < places.len() && before.group_at(
            #[trigger] places[index],
        ) is Some implies after.group_at(places[index]) == before.group_at(places[index]) by {
        match places[index] {
            PricingSlot::Key(at) => {
                assert(after.keys@.take(before.keys@.len() as int)[at as int] == after.keys@[at as int]);
            },
            PricingSlot::Overflow(at) => {
                assert(after.overflow@.take(before.overflow@.len() as int)[at as int]
                    == after.overflow@[at as int]);
            },
        }
    }
}

/// Where an ASCII pair is in the list only because every slot is taken, no group is
/// kept twice.
pub proof fn law_groups_kept_once(slots: PricingSummaryGroupSlots)
    requires
        slots.well_formed(),
        slots.settled(),
    ensures
        slots.groups().no_duplicates(),
{
    let groups = slots.groups();
    assert forall|left: int, right: int|
        0 <= left < right < groups.len() implies groups[left] != groups[right] by {
        let slots_taken = slots.keys@.len();
        if right < slots_taken {
            assert(groups[left] == key_group(slots.keys@[left]));
            assert(groups[right] == key_group(slots.keys@[right]));
            if groups[left] == groups[right] {
                lemma_key_of_group(slots.keys@[left], slots.keys@[right]);
            }
        } else if left < slots_taken {
            let key = slots.keys@[left];
            assert(groups[left] == key_group(key));
            assert(groups[left] == slots.key_groups()[left]);
            assert(groups[right] == slots.overflow_groups()[right - slots_taken]);
            assert((key / 256) as u8 as char as u32 == (key / 256) as u32);
            assert((key % 256) as u8 as char as u32 == (key % 256) as u32);
            assert(group_is_ascii(groups[left]));
        } else {
            assert(groups[left] == slots.overflow_groups()[left - slots_taken]);
            assert(groups[right] == slots.overflow_groups()[right - slots_taken]);
        }
    }
}

/// Where no group is kept twice, the row of a group has all that was counted in it, and
/// nothing was counted in a group without a row.
pub proof fn law_rows_tell_the_counts(slots: PricingSummaryGroupSlots, group: PricingGroup)
    requires
        slots.well_formed(),
        slots.settled(),
    ensures
        slots.groups().contains(group) <==> slots.held().contains(group),
        forall|index: int|
            0 <= index < slots.entries().len() && (#[trigger] slots.entries()[index]).0 == group
                ==> slots.entries()[index].1 == slots.count_of(group),
        !slots.held().contains(group) ==> slots.count_of(group) == 0,
{
    law_groups_kept_once(slots);
    let groups = slots.groups();
    let taken = slots.keys@.len() as int;
    let keyed = slots.key_groups();
    let listed = slots.overflow_groups();
    assert forall|left: int, right: int|
        0 <= left < keyed.len() && 0 <= right < keyed.len() && left != right implies keyed[left]
        != keyed[right] by {
        assert(keyed[left] == groups[left]);
        assert(keyed[right] == groups[right]);
    }
    lemma_tally_at(keyed, slots.key_counts@, group);
    lemma_tally_at(listed, slots.overflow_counts@, group);
    if keyed.contains(group) {
        let place = choose|place: int| 0 <= place < keyed.len() && keyed[place] == group;
        assert(groups[place] == group);
        if listed.contains(group) {
            let at = choose|at: int| 0 <= at < listed.len() && listed[at] == group;
            assert(groups[taken + at] == group);
        }
    }
    if listed.contains(group) {
        let at = choose|at: int| 0 <= at < listed.len() && listed[at] == group;
        assert(groups[taken + at] == group);
    }
    if groups.contains(group) {
        let place = choose|place: int| 0 <= place < groups.len() && groups[place] == group;
        if place < taken {
            assert(keyed[place] == group);
        } else {
            assert(listed[place - taken] == group);
        }
    }
    assert forall|index: int|
        0 <= index < slots.entries().len() && (#[trigger] slots.entries()[index]).0
            == group implies slots.entries()[index].1 == slots.count_of(group) by {
        if index < taken {
            assert(keyed[index] == group);
        } else {
            assert(listed[index - taken] == group);
        }
    }
}

/// The count that rows tell for a group, zero for one without a row.
pub open spec fn told_count(entries: Seq<(PricingGroup, u64)>, group: PricingGroup) -> nat {
    if exists|index: int| 0 <= index < entries.len() && (#[trigger] entries[index]).0 == group {
        entries[choose|index: int|
            0 <= index < entries.len() && (#[trigger] entries[index]).0 == group].1 as nat
    } else {
        0
    }
}

/// Where no group is kept twice, its row tells what was counted in it.
proof fn lemma_told_count(slots: PricingSummaryGroupSlots, group: PricingGroup)
    requires
        slots.well_formed(),
        slots.settled(),
    ensures
        told_count(slots.entries(), group) == slots.count_of(group),
{
    law_rows_tell_the_counts(slots, group);
    let entries = slots.entries();
    if slots.held().contains(group) {
        let place = choose|place: int|
            0 <= place < slots.groups().len() && slots.groups()[place] == group;
        assert(entries[place].0 == group);
    } else if exists|index: int|
        0 <= index < entries.len() && (#[trigger] entries[index]).0 == group {
        let index = choose|index: int|
            0 <= index < entries.len() && (#[trigger] entries[index]).0 == group;
        assert(slots.groups()[index] == group);
    }
}

/// Merging a table without ASCII pairs in its list adds what the rows of the two tables
/// tell, group by group, and gives no group two rows, whether or not a slot was free.
pub proof fn law_merging_adds_the_rows(
    before: PricingSummaryGroupSlots,
    other: PricingSummaryGroupSlots,
    merged: PricingSummaryGroupSlots,
    group: PricingGroup,
)
    requires
        before.well_formed(),
        before.settled(),
        other.well_formed(),
        forall|index: int|
            0 <= index < other.overflow_groups().len() ==> !group_is_ascii(
                #[trigger] other.overflow_groups()[index],
            ),
        merged.well_formed(),
        merged.settled(),
        merged.count_of(group) == before.count_of(group) + other.count_of(group),
    ensures
        merged.groups().no_duplicates(),
        told_count(merged.entries(), group) == told_count(before.entries(), group) + told_count(
            other.entries(),
            group,
        ),
{
    assert(other.settled());
    law_groups_kept_once(merged);
    lemma_told_count(before, group);
    lemma_told_count(other, group);
    lemma_told_count(merged, group);
}

/// A group, the number of its rows and where it is kept.
pub struct PricingSummaryRow {
    pub returnflag: String,
    pub linestatus: String,
    pub count_order: u64,
    pub slot: PricingSlot,
}

impl PricingSummaryRow {
    /// The group.
    pub open spec fn group(self) -> PricingGroup {
        (self.returnflag@, self.linestatus@)
    }

    /// The group with its count.
    pub open spec fn entry(self) -> (PricingGroup, u64) {
        (self.group(), self.count_order)
    }

    /// Whether this row comes before `other`.
    fn is_before(&self, other: &PricingSummaryRow) -> (before: bool)
        ensures
            before == group_before(self.group(), other.group()),
    {
        if str_eq(self.returnflag.as_str(), other.returnflag.as_str()) {
            str_less(self.linestatus.as_str(), other.linestatus.as_str())
        } else {
            str_less(self.returnflag.as_str(), other.returnflag.as_str())
        }
    }
}

/// The groups of rows.
pub open spec fn row_groups(rows: Seq<PricingSummaryRow>) -> Seq<PricingGroup> {
    rows.map_values(|row: PricingSummaryRow| row.group())
}

/// The groups of rows with their counts.
pub open spec fn row_entries(rows: Seq<PricingSummaryRow>) -> Seq<(PricingGroup, u64)> {
    rows.map_values(|row: PricingSummaryRow| row.entry())
}

/// Whether a group comes before another: by return flag, then by line status.
pub open spec fn group_before(left: PricingGroup, right: PricingGroup) -> bool {
    if left.0 == right.0 {
        comes_before(left.1, right.1)
    } else {
        comes_before(left.0, right.0)
    }
}

/// What does not come after can be chained.
proof fn lemma_not_before_chains(first: PricingGroup, second: PricingGroup, third: PricingGroup)
    requires
        !group_before(second, first),
        !group_before(third, second),
    ensures
        !group_before(third, first),
{
    law_comes_before_irreflexive(first.0);
    law_comes_before_irreflexive(first.1);
    law_comes_before_irreflexive(third.0);
    law_comes_before_irreflexive(third.1);
    if group_before(third, first) {
        if first.0 != second.0 {
            law_comes_before_total(first.0, second.0);
        }
        if second.0 != third.0 {
            law_comes_before_total(second.0, third.0);
        }
        if first.1 != second.1 {
            law_comes_before_total(first.1, second.1);
        }
        if second.1 != third.1 {
            law_comes_before_total(second.1, third.1);
        }
        if comes_before(first.0, second.0) && comes_before(second.0, third.0) {
            law_comes_before_transitive(first.0, second.0, third.0);
        }
        if comes_before(first.1, second.1) && comes_before(second.1, third.1) {
            law_comes_before_transitive(first.1, second.1, third.1);
        }
        if comes_before(first.0, third.0) && comes_before(third.0, first.0) {
            law_comes_before_transitive(first.0, third.0, first.0);
        }
        if comes_before(first.1, third.1) && comes_before(third.1, first.1) {
            law_comes_before_transitive(first.1, third.1, first.1);
        }
    }
}

/// A group that comes before another does not come after it.
proof fn lemma_before_not_after(left: PricingGroup, right: PricingGroup)
    requires
        group_before(left, right),
    ensures
        !group_before(right, left),
{
    law_comes_before_irreflexive(left.0);
    law_comes_before_irreflexive(left.1);
    if comes_before(left.0, right.0) && comes_before(right.0, left.0) {
        law_comes_before_transitive(left.0, right.0, left.0);
    }
    if comes_before(left.1, right.1) && comes_before(right.1, left.1) {
        law_comes_before_transitive(left.1, right.1, left.1);
    }
}

/// Whether no row comes before an earlier one.
pub open spec fn groups_in_order(rows: Seq<PricingSummaryRow>) -> bool {
    forall|left: int, right: int|
        0 <= left < right < rows.len() ==> !group_before(
            (#[trigger] rows[right]).group(),
            (#[trigger] rows[left]).group(),
        )
}

/// Putting a value into a list adds it to what the list holds.
proof fn lemma_insert_multiset<T>(list: Seq<T>, place: int, value: T)
    requires
        0 <= place <= list.len(),
    ensures
        list.insert(place, value).to_multiset() =~= list.to_multiset().insert(value),
{
    let front = list.take(place);
    let back = list.skip(place);
    assert(list.insert(place, value) =~= (front + seq![value]) + back);
    assert(list =~= front + back);
    vstd::seq_lib::lemma_multiset_commutative(front + seq![value], back);
    vstd::seq_lib::lemma_multiset_commutative(front, seq![value]);
    vstd::seq_lib::lemma_multiset_commutative(front, back);
    assert(front.push(value) =~= front + seq![value]);
    broadcast use vstd::seq_lib::group_to_multiset_ensures;

    assert(front.push(value).to_multiset() == front.to_multiset().insert(value));
}

/// The groups with their counts, in order of return flag and line status.
pub fn pricing_summary_sorted_rows(groups: PricingSummaryGroupSlots) -> (rows: Vec<PricingSummaryRow>)
    requires
        groups.well_formed(),
    ensures
        groups_in_order(rows@),
        row_entries(rows@).to_multiset() == groups.entries().to_multiset(),
        forall|index: int|
            0 <= index < rows@.len() ==> groups.group_at((#[trigger] rows@[index]).slot) == Some(
                rows@[index].group(),
            ),
{
    let ghost given = groups;
    let mut unsorted = groups.into_rows();
    let ghost all = row_entries(unsorted@);
    let ghost kept = |row: PricingSummaryRow| given.group_at(row.slot) == Some(row.group());
    let mut sorted: Vec<PricingSummaryRow> = Vec::new();
    proof {
        assert(row_entries(sorted@) =~= Seq::empty());
        assert(row_entries(unsorted@).to_multiset() =~= all.to_multiset());
        broadcast use vstd::seq_lib::group_to_multiset_ensures;

        assert(row_entries(sorted@).to_multiset().add(row_entries(unsorted@).to_multiset())
            =~= all.to_multiset());
    }
    while unsorted.len() > 0
        invariant
            groups_in_order(sorted@),
            all == given.entries(),
            row_entries(sorted@).to_multiset().add(row_entries(unsorted@).to_multiset())
                == all.to_multiset(),
            forall|index: int|
                0 <= index < sorted@.len() ==> given.group_at((#[trigger] sorted@[index]).slot)
                    == Some(sorted@[index].group()),
            forall|index: int|
                0 <= index < unsorted@.len() ==> given.group_at((#[trigger] unsorted@[index]).slot)
                    == Some(unsorted@[index].group()),
        decreases unsorted@.len(),
    {
        let ghost rest = unsorted@;
        let row = unsorted.remove(0);
        let ghost before = sorted@;
        let ghost item = row;
        assert(given.group_at(rest[0].slot) == Some(rest[0].group()));
        let mut place: usize = sorted.len();
        while place > 0 && row.is_before(&sorted[place - 1])
            invariant
                sorted@ == before,
                item == row,
                place <= before.len(),
                forall|index: int|
                    place <= index < before.len() ==> group_before(
                        item.group(),
                        (#[trigger] before[index]).group(),
                    ),
            decreases place,
        {
            place -= 1;
        }
        sorted.insert(place, row);
        proof {
            let after = before.insert(place as int, item);
            assert(sorted@ == after);
            lemma_insert_multiset(row_entries(before), place as int, item.entry());
            assert(row_entries(after) =~= row_entries(before).insert(place as int, item.entry()));
            assert(row_entries(rest) =~= row_entries(unsorted@).insert(0, item.entry()));
            lemma_insert_multiset(row_entries(unsorted@), 0, item.entry());
            assert(row_entries(after).to_multiset().add(row_entries(unsorted@).to_multiset())
                =~= row_entries(before).to_multiset().add(row_entries(rest).to_multiset()));
            assert forall|index: int| 0 <= index < unsorted@.len() implies given.group_at(
                (#[trigger] unsorted@[index]).slot,
            ) == Some(unsorted@[index].group()) by {
                assert(unsorted@[index] == rest[index + 1]);
            }
            assert forall|left: int, right: int| 0 <= left < right < after.len() implies
                !group_before(
                    (#[trigger] after[right]).group(),
                    (#[trigger] after[left]).group(),
                ) by {
                let left_source = if left < place {
                    left
                } else {
                    left - 1
                };
                let right_source = if right < place {
                    right
                } else {
                    right - 1
                };
                if left == place {
                    assert(after[right] == before[right_source]);
                    lemma_before_not_after(item.group(), before[right_source].group());
                } else if right == place {
                    assert(after[left] == before[left_source]);
                    let last = before[place - 1];
                    if left_source < place - 1 {
                        lemma_not_before_chains(
                            before[left_source].group(),
                            last.group(),
                            item.group(),
                        );
                    }
                } else {
                    assert(after[left] == before[left_source]);
                    assert(after[right] == before[right_source]);
                }
            }
        }
    }
    proof {
        assert(row_entries(unsorted@) =~= Seq::empty());
        broadcast use vstd::seq_lib::group_to_multiset_ensures;

        assert(row_entries(sorted@).to_multiset().add(row_entries(unsorted@).to_multiset())
            =~= row_entries(sorted@).to_multiset());
    }
    sorted
}

/// The columns that the summary reads.
pub struct PricingColumns<'a> {
    pub returnflags: &'a Vector<String>,
    pub linestatuses: &'a Vector<String>,
    pub quantities: DecimalUnits<'a>,
    pub extendedprices: DecimalUnits<'a>,
    pub discounts: DecimalUnits<'a>,
    pub taxes: DecimalUnits<'a>,
    pub shipdates: &'a Vector<i32>,
}

impl<'a> PricingColumns<'a> {
    /// The number of rows.
    pub open spec fn rows(self) -> int {
        self.shipdates@.len() as int
    }

    /// Whether the columns are in order and of one length.
    pub open spec fn well_formed(self) -> bool {
        &&& self.returnflags.well_formed() && self.returnflags@.len() == self.rows()
        &&& self.linestatuses.well_formed() && self.linestatuses@.len() == self.rows()
        &&& self.quantities.well_formed() && self.quantities.rows() == self.rows()
        &&& self.extendedprices.well_formed() && self.extendedprices.rows() == self.rows()
        &&& self.discounts.well_formed() && self.discounts.rows() == self.rows()
        &&& self.taxes.well_formed() && self.taxes.rows() == self.rows()
        &&& self.shipdates.well_formed()
    }

    /// Whether a row is shipped by the cutoff and lacks nothing.
    pub open spec fn counts(self, row: int, cutoff_days: i32) -> bool {
        &&& self.shipdates@[row] matches Some(day) && day <= cutoff_days
        &&& self.returnflags.valid_at(row)
        &&& self.linestatuses.valid_at(row)
        &&& self.quantities.at(row) is Some
        &&& self.extendedprices.at(row) is Some
        &&& self.discounts.at(row) is Some
        &&& self.taxes.at(row) is Some
    }

    /// The rows that count among the first `rows`.
    pub open spec fn counted(self, rows: int, cutoff_days: i32) -> Seq<int>
        decreases rows,
    {
        if rows <= 0 {
            Seq::empty()
        } else if self.counts(rows - 1, cutoff_days) {
            self.counted(rows - 1, cutoff_days).push(rows - 1)
        } else {
            self.counted(rows - 1, cutoff_days)
        }
    }

    /// The group of a row.
    pub open spec fn group_of(self, row: int) -> PricingGroup {
        (self.returnflags.values@[row]@, self.linestatuses.values@[row]@)
    }

    /// How many of the first `rows` count in a group.
    pub open spec fn group_count(self, rows: int, cutoff_days: i32, group: PricingGroup) -> nat
        decreases rows,
    {
        if rows <= 0 {
            0
        } else {
            self.group_count(rows - 1, cutoff_days, group) + (if self.counts(rows - 1, cutoff_days)
                && self.group_of(rows - 1) == group {
                1nat
            } else {
                0
            })
        }
    }

    /// Whether one of the rows that count is in a group.
    pub open spec fn counts_group(self, cutoff_days: i32, group: PricingGroup) -> bool {
        let counted = self.counted(self.rows(), cutoff_days);
        exists|index: int|
            0 <= index < counted.len() && self.group_of(#[trigger] counted[index]) == group
    }
}

/// A group counts rows where one of the rows that count is in it.
proof fn lemma_group_counted(
    columns: PricingColumns,
    rows: int,
    cutoff_days: i32,
    group: PricingGroup,
)
    ensures
        columns.group_count(rows, cutoff_days, group) > 0 <==> exists|index: int|
            0 <= index < columns.counted(rows, cutoff_days).len() && columns.group_of(
                #[trigger] columns.counted(rows, cutoff_days)[index],
            ) == group,
    decreases rows,
{
    if rows > 0 {
        lemma_group_counted(columns, rows - 1, cutoff_days, group);
        let fewer = columns.counted(rows - 1, cutoff_days);
        let all = columns.counted(rows, cutoff_days);
        if columns.group_count(rows - 1, cutoff_days, group) > 0 {
            let index = choose|index: int|
                0 <= index < fewer.len() && columns.group_of(#[trigger] fewer[index]) == group;
            assert(all[index] == fewer[index]);
        } else if columns.group_count(rows, cutoff_days, group) > 0 {
            assert(all[fewer.len() as int] == rows - 1);
        } else if exists|index: int|
            0 <= index < all.len() && columns.group_of(#[trigger] all[index]) == group {
            let index = choose|index: int|
                0 <= index < all.len() && columns.group_of(#[trigger] all[index]) == group;
            if index < fewer.len() {
                assert(all[index] == fewer[index]);
            }
        }
    }
}

/// The first rows count no more in a group than all.
proof fn lemma_group_count_bounded(
    columns: PricingColumns,
    rows: int,
    all: int,
    cutoff_days: i32,
    group: PricingGroup,
)
    requires
        0 <= rows <= all,
    ensures
        columns.group_count(rows, cutoff_days, group) <= columns.group_count(
            all,
            cutoff_days,
            group,
        ),
    decreases all - rows,
{
    if rows < all {
        lemma_group_count_bounded(columns, rows, all - 1, cutoff_days, group);
    }
}

/// A row that counts, its group and its amounts in units.
#[derive(Clone, Copy, Debug, PartialEq, Eq, Structural)]
pub struct PricingTerm {
    pub slot: PricingSlot,
    pub quantity: i128,
    pub extendedprice: i128,
    pub discount: i128,
    pub tax: i128,
}

/// Whether a term is that of a row, in the group that the table keeps for it.
pub open spec fn is_term_of(
    term: PricingTerm,
    columns: PricingColumns,
    row: int,
    groups: PricingSummaryGroupSlots,
) -> bool {
    &&& groups.group_at(term.slot) == Some(columns.group_of(row))
    &&& columns.quantities.at(row) == Some(term.quantity as int)
    &&& columns.extendedprices.at(row) == Some(term.extendedprice as int)
    &&& columns.discounts.at(row) == Some(term.discount as int)
    &&& columns.taxes.at(row) == Some(term.tax as int)
}

/// The rows that count, in order, each counted in its group, which is taken in where it
/// is new. No other group changes.
pub fn pricing_summary_update_decimal(
    columns: &PricingColumns<'_>,
    cutoff_days: i32,
    groups: &mut PricingSummaryGroupSlots,
) -> (terms: Vec<PricingTerm>)
    requires
        columns.well_formed(),
        old(groups).well_formed(),
        forall|group: PricingGroup| #[trigger]
            old(groups).count_of(group) + columns.group_count(columns.rows(), cutoff_days, group)
                <= u64::MAX,
    ensures
        final(groups).well_formed(),
        final(groups).extends(*old(groups)),
        old(groups).settled() ==> final(groups).settled(),
        forall|group: PricingGroup| #[trigger]
            final(groups).count_of(group) == old(groups).count_of(group) + columns.group_count(
                columns.rows(),
                cutoff_days,
                group,
            ),
        forall|group: PricingGroup| #[trigger]
            final(groups).held().contains(group) <==> old(groups).held().contains(group)
                || columns.counts_group(cutoff_days, group),
        terms@.len() == columns.counted(columns.rows(), cutoff_days).len(),
        forall|index: int|
            0 <= index < terms@.len() ==> is_term_of(
                #[trigger] terms@[index],
                *columns,
                columns.counted(columns.rows(), cutoff_days)[index],
                *final(groups),
            ),
{
    let ghost before = *groups;
    let mut terms: Vec<PricingTerm> = Vec::new();
    let mut row: usize = 0;
    assert(groups.overflow@.take(before.overflow@.len() as int) =~= before.overflow@);
    assert(groups.keys@.take(before.keys@.len() as int) =~= before.keys@);
    while row < columns.shipdates.len()
        invariant
            columns.well_formed(),
            before == *old(groups),
            groups.well_formed(),
            groups.extends(before),
            before.settled() ==> groups.settled(),
            forall|group: PricingGroup| #[trigger]
                before.count_of(group) + columns.group_count(columns.rows(), cutoff_days, group)
                    <= u64::MAX,
            forall|group: PricingGroup| #[trigger]
                groups.count_of(group) == before.count_of(group) + columns.group_count(
                    row as int,
                    cutoff_days,
                    group,
                ),
            forall|group: PricingGroup| #[trigger]
                groups.held().contains(group) <==> before.held().contains(group)
                    || columns.group_count(row as int, cutoff_days, group) > 0,
            row <= columns.rows(),
            terms@.len() == columns.counted(row as int, cutoff_days).len(),
            forall|index: int|
                0 <= index < terms@.len() ==> is_term_of(
                    #[trigger] terms@[index],
                    *columns,
                    columns.counted(row as int, cutoff_days)[index],
                    *groups,
                ),
        decreases columns.rows() - row,
    {
        let ghost so_far = *groups;
        let ghost earlier = terms@;
        let shipped = match columns.shipdates.get(row) {
            Some(day) => day <= cutoff_days,
            None => false,
        };
        if shipped && !columns.returnflags.is_null(row) && !columns.linestatuses.is_null(row) {
            match (
                columns.quantities.get(row),
                columns.extendedprices.get(row),
                columns.discounts.get(row),
                columns.taxes.get(row),
            ) {
                (Some(quantity), Some(extendedprice), Some(discount), Some(tax)) => {
                    proof {
                        let group = columns.group_of(row as int);
                        lemma_group_count_bounded(
                            *columns,
                            row + 1,
                            columns.rows(),
                            cutoff_days,
                            group,
                        );
                        assert(before.count_of(group) + columns.group_count(
                            columns.rows(),
                            cutoff_days,
                            group,
                        ) <= u64::MAX);
                    }
                    let slot = groups.update(
                        columns.returnflags.values[row].as_str(),
                        columns.linestatuses.values[row].as_str(),
                    );
                    terms.push(PricingTerm { slot, quantity, extendedprice, discount, tax });
                    proof {
                        lemma_extends_transitive(before, so_far, *groups);
                        assert forall|index: int| 0 <= index < terms@.len() implies is_term_of(
                            #[trigger] terms@[index],
                            *columns,
                            columns.counted(row + 1, cutoff_days)[index],
                            *groups,
                        ) by {
                            if index < earlier.len() {
                                assert(terms@[index] == earlier[index]);
                                let places = seq![earlier[index].slot];
                                lemma_kept_places(so_far, *groups, places);
                                assert(so_far.group_at(places[0]) is Some);
                            }
                        }
                    }
                },
                _ => {},
            }
        }
        row += 1;
    }
    proof {
        assert forall|group: PricingGroup| #[trigger]
            groups.held().contains(group) <==> before.held().contains(group)
                || columns.counts_group(cutoff_days, group) by {
            lemma_group_counted(*columns, columns.rows(), cutoff_days, group);
        }
    }
    terms
}

/// Whether a row is the given byte and no more.
pub fn utf8_value_is_one_byte(offsets: &[i32], data: &[u8], row: usize, byte: u8) -> (is: bool)
    requires
        offsets_in_data(offsets@, data@, row as int),
    ensures
        is == (offsets@[row + 1] == offsets@[row as int] + 1 && data@[offsets@[row as int] as int]
            == byte),
{
    match single_byte_string_parts(offsets, data, row) {
        Some(found) => found == byte,
        None => false,
    }
}

/// The bytes of a row.
pub fn bytes_string_parts<'a>(offsets: &[i32], data: &'a [u8], row: usize) -> (bytes: &'a [u8])
    requires
        offsets_in_data(offsets@, data@, row as int),
    ensures
        bytes@ == data@.subrange(offsets@[row as int] as int, offsets@[row + 1] as int),
{
    let start: usize = offsets[row] as usize;
    let end: usize = offsets[row + 1] as usize;
    vstd::slice::slice_subrange(data, start, end)
}

} // verus!
