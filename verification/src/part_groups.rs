//! Parts grouped by brand, type and size.

use std::collections::HashMap;
use vstd::hash_map::StringHashMap;
use vstd::prelude::*;
use crate::batch_collect::{
    all_readable, integer_pairs, is_pair_error, read_integer_pairs, strings_of,
};
use crate::columns::{batch_column, batch_string_column, ColumnData, RecordBatch, Vector};
use crate::error::{SqlError, SqlResult};
use crate::tables::{AdaptiveI64Map, AdaptiveI64Set};
use crate::text::{has_prefix, starts_with, str_eq};

verus! {

broadcast use vstd::std_specs::hash::group_hash_axioms;

/// Strings numbered in the order in which they are first seen.
pub struct Interner {
    ids: StringHashMap<usize>,
    values: Vec<String>,
}

impl View for Interner {
    type V = Seq<Seq<char>>;

    /// The strings by number.
    closed spec fn view(&self) -> Seq<Seq<char>> {
        self.values@.map_values(|value: String| value@)
    }
}

impl Interner {
    /// Whether the numbers found by string are those of the strings, and no string
    /// occurs twice.
    pub closed spec fn well_formed(self) -> bool {
        &&& forall|id: int|
            0 <= id < self.values@.len() ==> self.ids@.contains_key(
                (#[trigger] self.values@[id])@,
            ) && self.ids@[self.values@[id]@] == id
        &&& forall|value: Seq<char>| #[trigger]
            self.ids@.contains_key(value) ==> self.ids@[value] < self.values@.len()
                && self.values@[self.ids@[value] as int]@ == value
    }

    /// No string yet.
    pub fn new() -> (interner: Interner)
        ensures
            interner.well_formed(),
            interner@ == Seq::<Seq<char>>::empty(),
    {
        let interner = Interner { ids: StringHashMap::new(), values: Vec::new() };
        assert(interner@ =~= Seq::<Seq<char>>::empty());
        interner
    }

    /// No string is numbered twice.
    pub proof fn law_no_duplicates(self, left: int, right: int)
        requires
            self.well_formed(),
            0 <= left < self@.len(),
            0 <= right < self@.len(),
            self@[left] == self@[right],
        ensures
            left == right,
    {
        assert(self@[left] == self.values@[left]@);
        assert(self@[right] == self.values@[right]@);
    }

    /// How many strings there are.
    pub fn len(&self) -> (len: usize)
        ensures
            len == self@.len(),
    {
        self.values.len()
    }

    /// The string with the given number.
    pub fn get(&self, id: usize) -> (value: &String)
        requires
            id < self@.len(),
        ensures
            value@ == self@[id as int],
    {
        &self.values[id]
    }

    /// The number of a string, which is taken in where it is new.
    pub fn intern_string(&mut self, value: &str) -> (id: usize)
        requires
            old(self).well_formed(),
        ensures
            final(self).well_formed(),
            id < final(self)@.len(),
            final(self)@[id as int] == value@,
            final(self)@ == (if old(self)@.contains(value@) {
                old(self)@
            } else {
                old(self)@.push(value@)
            }),
    {
        let ghost before = *self;
        let known: Option<usize> = match self.ids.get(value) {
            Some(id) => Some(*id),
            None => None,
        };
        match known {
            Some(id) => {
                assert(self@[id as int] == value@);
                assert(self@.contains(value@));
                return id;
            },
            None => {},
        }
        proof {
            if self@.contains(value@) {
                let place = choose|place: int| 0 <= place < self@.len() && self@[place] == value@;
                assert(self@[place] == self.values@[place]@);
                assert(self.ids@.contains_key(value@));
            }
        }
        let id: usize = self.values.len();
        self.values.push(value.to_owned());
        self.ids.insert(value.to_owned(), id);
        assert(self@ =~= before@.push(value@));
        assert forall|other: int| 0 <= other < self.values@.len() implies self.ids@.contains_key(
            (#[trigger] self.values@[other])@,
        ) && self.ids@[self.values@[other]@] == other by {
            if other < id {
                assert(self.values@[other] == before.values@[other]);
            }
        }
        assert forall|other: Seq<char>| #[trigger] self.ids@.contains_key(other) implies self.ids@[other]
            < self.values@.len() && self.values@[self.ids@[other] as int]@ == other by {
            if other != value@ {
                assert(before.ids@.contains_key(other));
                assert(self.values@[self.ids@[other] as int] == before.values@[before.ids@[other] as int]);
            }
        }
        id
    }
}

/// What a part is grouped by.
pub struct PartGroupKey {
    pub brand: String,
    pub part_type: String,
    pub size: i64,
}

/// What a part is grouped by, as a value.
pub struct PartGroup {
    pub brand: Seq<char>,
    pub part_type: Seq<char>,
    pub size: i64,
}

impl PartGroupKey {
    /// The group.
    pub open spec fn group(self) -> PartGroup {
        PartGroup { brand: self.brand@, part_type: self.part_type@, size: self.size }
    }
}

/// The groups that a table numbers, and the group of each part.
pub struct PartGroupState {
    pub groups: Seq<PartGroup>,
    pub parts: Map<i64, PartGroup>,
}

impl PartGroupState {
    /// The state once a part was put into a group: the group is numbered where it is
    /// new, and the part belongs to it from now on.
    pub open spec fn with_part(self, part: i64, group: PartGroup) -> PartGroupState {
        PartGroupState {
            groups: if self.groups.contains(group) {
                self.groups
            } else {
                self.groups.push(group)
            },
            parts: self.parts.insert(part, group),
        }
    }

    /// The state once parts were put into groups, in order.
    pub open spec fn with_parts(self, rows: Seq<(i64, PartGroup)>) -> PartGroupState
        decreases rows.len(),
    {
        if rows.len() == 0 {
            self
        } else {
            self.with_parts(rows.drop_last()).with_part(rows.last().0, rows.last().1)
        }
    }
}

/// No group and no part.
pub open spec fn empty_groups() -> PartGroupState {
    PartGroupState { groups: Seq::empty(), parts: Map::empty() }
}

/// The number of a brand, the number of a type, and a size.
#[derive(Clone, Copy, Debug, PartialEq, Eq, Structural)]
pub struct PartGroupIdKey {
    pub brand_id: usize,
    pub type_id: usize,
    pub size: i64,
}

/// Groups of parts, numbered in the order in which they are first seen.
pub struct PartGroups {
    brands: Interner,
    types: Interner,
    group_ids: Vec<PartGroupIdKey>,
    groups: Vec<PartGroupKey>,
    part_to_group: HashMap<i64, usize>,
}

impl PartGroups {
    /// The brands by number.
    pub closed spec fn brand_list(self) -> Seq<Seq<char>> {
        self.brands@
    }

    /// The types by number.
    pub closed spec fn type_list(self) -> Seq<Seq<char>> {
        self.types@
    }

    /// The group that a key stands for.
    pub open spec fn group_of(self, key: PartGroupIdKey) -> PartGroup {
        PartGroup {
            brand: self.brand_list()[key.brand_id as int],
            part_type: self.type_list()[key.type_id as int],
            size: key.size,
        }
    }

    /// The groups and the group of each part.
    pub closed spec fn state(self) -> PartGroupState {
        PartGroupState {
            groups: self.groups@.map_values(|key: PartGroupKey| key.group()),
            parts: Map::new(
                |part: i64| self.part_to_group@.contains_key(part),
                |part: i64| self.groups@[self.part_to_group@[part] as int].group(),
            ),
        }
    }

    /// The number of the group of a part.
    pub closed spec fn number_of(self, part: i64) -> Option<usize> {
        if self.part_to_group@.contains_key(part) {
            Some(self.part_to_group@[part])
        } else {
            None
        }
    }

    /// Whether numbers and strings agree, no group is numbered twice, and each part
    /// belongs to a group that is there.
    pub closed spec fn well_formed(self) -> bool {
        &&& self.brands.well_formed()
        &&& self.types.well_formed()
        &&& self.group_ids@.len() == self.groups@.len()
        &&& forall|id: int|
            0 <= id < self.groups@.len() ==> {
                let key = #[trigger] self.group_ids@[id];
                &&& key.brand_id < self.brands@.len()
                &&& key.type_id < self.types@.len()
                &&& self.groups@[id].group() == self.group_of(key)
            }
        &&& forall|left: int, right: int|
            0 <= left < right < self.group_ids@.len() ==> #[trigger] self.group_ids@[left]
                != #[trigger] self.group_ids@[right]
        &&& forall|part: i64| #[trigger]
            self.part_to_group@.contains_key(part) ==> self.part_to_group@[part]
                < self.groups@.len()
    }

    /// No group and no part.
    pub fn new() -> (groups: PartGroups)
        ensures
            groups.well_formed(),
            groups.state() == empty_groups(),
            groups.brand_list().len() == 0,
            groups.type_list().len() == 0,
    {
        let groups = PartGroups {
            brands: Interner::new(),
            types: Interner::new(),
            group_ids: Vec::new(),
            groups: Vec::new(),
            part_to_group: HashMap::new(),
        };
        assert(groups.state().groups =~= empty_groups().groups);
        assert(groups.state().parts =~= empty_groups().parts);
        groups
    }

    /// No two groups are the same.
    pub proof fn law_groups_distinct(self, left: int, right: int)
        requires
            self.well_formed(),
            0 <= left < right < self.state().groups.len(),
        ensures
            self.state().groups[left] != self.state().groups[right],
    {
        let first = self.group_ids@[left];
        let second = self.group_ids@[right];
        assert(self.state().groups[left] == self.group_of(first));
        assert(self.state().groups[right] == self.group_of(second));
        if self.state().groups[left] == self.state().groups[right] {
            self.brands.law_no_duplicates(first.brand_id as int, second.brand_id as int);
            self.types.law_no_duplicates(first.type_id as int, second.type_id as int);
        }
    }

    /// How many groups there are.
    pub fn group_count(&self) -> (count: usize)
        ensures
            count == self.state().groups.len(),
    {
        self.groups.len()
    }

    /// The group with the given number.
    pub fn group(&self, id: usize) -> (key: &PartGroupKey)
        requires
            id < self.state().groups.len(),
        ensures
            key.group() == self.state().groups[id as int],
    {
        &self.groups[id]
    }

    /// The number of the group of a part.
    pub fn group_of_part(&self, part: i64) -> (id: Option<usize>)
        requires
            self.well_formed(),
        ensures
            id == self.number_of(part),
            id matches Some(id) ==> id < self.state().groups.len(),
    {
        match self.part_to_group.get(&part) {
            Some(id) => Some(*id),
            None => None,
        }
    }

    /// The number of the group of each part.
    pub closed spec fn numbers(self) -> Map<i64, usize> {
        self.part_to_group@
    }

    /// A part has a number where it belongs to a group, and the number is that of the
    /// group.
    pub proof fn law_numbers(self, part: i64)
        requires
            self.well_formed(),
        ensures
            self.numbers().contains_key(part) == self.state().parts.contains_key(part),
            self.number_of(part) == (if self.numbers().contains_key(part) {
                Some(self.numbers()[part])
            } else {
                None
            }),
            self.numbers().contains_key(part) ==> self.numbers()[part] < self.state().groups.len()
                && self.state().groups[self.numbers()[part] as int] == self.state().parts[part],
    {
    }

    /// The number of the group of each part, by part.
    pub fn part_lookup(&self) -> (lookup: AdaptiveI64Map<usize>)
        ensures
            lookup@ == self.numbers(),
    {
        let copied = self.part_to_group.clone();
        assert(copied@ =~= self.part_to_group@);
        AdaptiveI64Map::from_hash(copied)
    }

    /// The number of the group with the given key.
    fn find_group(&self, key: PartGroupIdKey) -> (id: Option<usize>)
        ensures
            match id {
                Some(id) => id < self.group_ids@.len() && self.group_ids@[id as int] == key,
                None => !self.group_ids@.contains(key),
            },
    {
        let mut id: usize = 0;
        while id < self.group_ids.len()
            invariant
                id <= self.group_ids@.len(),
                forall|earlier: int| 0 <= earlier < id ==> self.group_ids@[earlier] != key,
            decreases self.group_ids@.len() - id,
        {
            if self.group_ids[id] == key {
                return Some(id);
            }
            id += 1;
        }
        None
    }

    /// Puts a part into the group of a brand, a type and a size.
    pub fn insert_part_group_ids(
        &mut self,
        partkey: i64,
        size: i64,
        brand_id: usize,
        type_id: usize,
    )
        requires
            old(self).well_formed(),
            brand_id < old(self).brand_list().len(),
            type_id < old(self).type_list().len(),
        ensures
            final(self).well_formed(),
            final(self).brand_list() == old(self).brand_list(),
            final(self).type_list() == old(self).type_list(),
            final(self).state() == old(self).state().with_part(
                partkey,
                PartGroup {
                    brand: old(self).brand_list()[brand_id as int],
                    part_type: old(self).type_list()[type_id as int],
                    size,
                },
            ),
    {
        let ghost before = *self;
        let key = PartGroupIdKey { brand_id, type_id, size };
        let ghost group = before.group_of(key);
        let id: usize = match self.find_group(key) {
            Some(id) => {
                proof {
                    assert(before.group_ids@[id as int] == key);
                    assert(before.state().groups[id as int] == group);
                    assert(before.state().groups.contains(group));
                }
                id
            },
            None => {
                let id: usize = self.groups.len();
                proof {
                    if before.state().groups.contains(group) {
                        let place = choose|place: int|
                            0 <= place < before.state().groups.len()
                                && before.state().groups[place] == group;
                        let other = before.group_ids@[place];
                        assert(before.state().groups[place] == before.group_of(other));
                        before.brands.law_no_duplicates(
                            other.brand_id as int,
                            brand_id as int,
                        );
                        before.types.law_no_duplicates(other.type_id as int, type_id as int);
                        assert(other == key);
                        assert(before.group_ids@.contains(key));
                    }
                }
                let brand = self.brands.get(brand_id).clone();
                let part_type = self.types.get(type_id).clone();
                self.groups.push(PartGroupKey { brand, part_type, size });
                self.group_ids.push(key);
                id
            },
        };
        self.part_to_group.insert(partkey, id);
        proof {
            let expected = before.state().with_part(partkey, group);
            assert(self.groups@[id as int].group() == group);
            assert forall|other: int| 0 <= other < before.groups@.len() implies
                self.groups@[other] == before.groups@[other] by {}
            assert(self.state().groups =~= expected.groups);
            assert(self.state().parts =~= expected.parts);
            assert forall|other: int| 0 <= other < self.groups@.len() implies ({
                let known = #[trigger] self.group_ids@[other];
                &&& known.brand_id < self.brands@.len()
                &&& known.type_id < self.types@.len()
                &&& self.groups@[other].group() == self.group_of(known)
            }) by {
                if other < before.groups@.len() {
                    assert(self.group_ids@[other] == before.group_ids@[other]);
                    assert(before.group_of(before.group_ids@[other]) == before.groups@[other].group());
                }
            }
            assert forall|left: int, right: int| 0 <= left < right < self.group_ids@.len() implies #[trigger] self.group_ids@[left]
                != #[trigger] self.group_ids@[right] by {
                if right < before.group_ids@.len() {
                    assert(before.group_ids@[left] != before.group_ids@[right]);
                } else {
                    assert(before.group_ids@.contains(before.group_ids@[left]));
                }
            }
        }
    }

    /// Puts a part into its group, unless its brand or the start of its type is
    /// excluded.
    pub fn insert_part_group_row(
        &mut self,
        partkey: i64,
        size: i64,
        brand: &str,
        part_type: &str,
        excluded_brand: &str,
        excluded_type_prefix: &str,
    )
        requires
            old(self).well_formed(),
        ensures
            final(self).well_formed(),
            final(self).state() == (if brand@ == excluded_brand@ || has_prefix(
                part_type@,
                excluded_type_prefix@,
            ) {
                old(self).state()
            } else {
                old(self).state().with_part(
                    partkey,
                    PartGroup { brand: brand@, part_type: part_type@, size },
                )
            }),
    {
        if str_eq(brand, excluded_brand) || starts_with(part_type, excluded_type_prefix) {
            return;
        }
        let ghost before = *self;
        let brand_id: usize = self.intern_brand(brand);
        let type_id: usize = self.intern_type(part_type);
        self.insert_part_group_ids(partkey, size, brand_id, type_id);
    }

    /// The number of a brand.
    pub fn intern_brand(&mut self, brand: &str) -> (id: usize)
        requires
            old(self).well_formed(),
        ensures
            final(self).well_formed(),
            final(self).state() == old(self).state(),
            final(self).type_list() == old(self).type_list(),
            id < final(self).brand_list().len(),
            final(self).brand_list()[id as int] == brand@,
            old(self).brand_list().len() <= final(self).brand_list().len(),
            forall|other: int|
                0 <= other < old(self).brand_list().len() ==> final(self).brand_list()[other] == old(
                    self,
                ).brand_list()[other],
    {
        let ghost before = *self;
        let id = self.brands.intern_string(brand);
        proof {
            assert forall|other: int| 0 <= other < self.groups@.len() implies ({
                let known = #[trigger] self.group_ids@[other];
                &&& known.brand_id < self.brands@.len()
                &&& known.type_id < self.types@.len()
                &&& self.groups@[other].group() == self.group_of(known)
            }) by {
                assert(before.group_of(before.group_ids@[other]) == before.groups@[other].group());
            }
            assert(self.state().groups =~= before.state().groups);
            assert(self.state().parts =~= before.state().parts);
        }
        id
    }

    /// The number of a type.
    pub fn intern_type(&mut self, part_type: &str) -> (id: usize)
        requires
            old(self).well_formed(),
        ensures
            final(self).well_formed(),
            final(self).state() == old(self).state(),
            final(self).brand_list() == old(self).brand_list(),
            id < final(self).type_list().len(),
            final(self).type_list()[id as int] == part_type@,
            old(self).type_list().len() <= final(self).type_list().len(),
            forall|other: int|
                0 <= other < old(self).type_list().len() ==> final(self).type_list()[other] == old(
                    self,
                ).type_list()[other],
    {
        let ghost before = *self;
        let id = self.types.intern_string(part_type);
        proof {
            assert forall|other: int| 0 <= other < self.groups@.len() implies ({
                let known = #[trigger] self.group_ids@[other];
                &&& known.brand_id < self.brands@.len()
                &&& known.type_id < self.types@.len()
                &&& self.groups@[other].group() == self.group_of(known)
            }) by {
                assert(before.group_of(before.group_ids@[other]) == before.groups@[other].group());
            }
            assert(self.state().groups =~= before.state().groups);
            assert(self.state().parts =~= before.state().parts);
        }
        id
    }
}

/// Which parts are left out, and which sizes are wanted.
pub struct PartFilter<'a> {
    pub excluded_brand: &'a str,
    pub excluded_type_prefix: &'a str,
    pub sizes: &'a AdaptiveI64Set,
}

impl<'a> PartFilter<'a> {
    /// The part of a row and its group, where every value is there, the size is
    /// wanted and neither brand nor type is excluded.
    pub open spec fn part(
        self,
        numbers: Option<(i64, i64)>,
        brand: Option<Seq<char>>,
        part_type: Option<Seq<char>>,
    ) -> Option<(i64, PartGroup)> {
        match (numbers, brand, part_type) {
            (Some((partkey, size)), Some(brand), Some(part_type)) => if self.sizes@.contains(size)
                && brand != self.excluded_brand@ && !has_prefix(
                part_type,
                self.excluded_type_prefix@,
            ) {
                Some((partkey, PartGroup { brand, part_type, size }))
            } else {
                None
            },
            _ => None,
        }
    }

    /// The parts of the first `rows` rows, in order.
    pub open spec fn parts(
        self,
        numbers: Seq<Option<(i64, i64)>>,
        brands: Seq<Option<Seq<char>>>,
        types: Seq<Option<Seq<char>>>,
        rows: int,
    ) -> Seq<(i64, PartGroup)>
        decreases rows,
    {
        if rows <= 0 {
            Seq::empty()
        } else {
            match self.part(numbers[rows - 1], brands[rows - 1], types[rows - 1]) {
                Some(part) => self.parts(numbers, brands, types, rows - 1).push(part),
                None => self.parts(numbers, brands, types, rows - 1),
            }
        }
    }
}

/// Putting parts into groups in two goes is the same as doing it in one.
pub proof fn law_with_parts_concatenates(
    state: PartGroupState,
    first: Seq<(i64, PartGroup)>,
    second: Seq<(i64, PartGroup)>,
)
    ensures
        state.with_parts(first + second) == state.with_parts(first).with_parts(second),
    decreases second.len(),
{
    if second.len() == 0 {
        assert(first + second =~= first);
    } else {
        law_with_parts_concatenates(state, first, second.drop_last());
        assert((first + second).drop_last() =~= first + second.drop_last());
    }
}

/// The outcome of reading the parts of a batch by column name: the error of the
/// first column that is missing or of another type, or of the first row whose
/// numbers cannot be read.
pub open spec fn part_columns_error(batch: RecordBatch, error: SqlError) -> bool {
    if !batch.has_column("p_partkey"@) {
        error.is_unknown_column("p_partkey"@)
    } else if !batch.has_column("p_size"@) {
        error.is_unknown_column("p_size"@)
    } else if !batch.has_column("p_brand"@) {
        error.is_unknown_column("p_brand"@)
    } else if !(batch.column_named("p_brand"@).data is Utf8) {
        error.is_unsupported("p_brand"@ + " must be Utf8"@)
    } else if !batch.has_column("p_type"@) {
        error.is_unknown_column("p_type"@)
    } else if !(batch.column_named("p_type"@).data is Utf8) {
        error.is_unsupported("p_type"@ + " must be Utf8"@)
    } else {
        is_pair_error(batch.column_named("p_partkey"@), batch.column_named("p_size"@), error)
    }
}

/// Whether the parts of a batch can be read.
pub open spec fn part_columns_readable(batch: RecordBatch) -> bool {
    &&& batch.has_column("p_partkey"@)
    &&& batch.has_column("p_size"@)
    &&& batch.has_column("p_brand"@)
    &&& batch.column_named("p_brand"@).data is Utf8
    &&& batch.has_column("p_type"@)
    &&& batch.column_named("p_type"@).data is Utf8
    &&& all_readable(batch.column_named("p_partkey"@), batch.column_named("p_size"@))
}

/// The parts of a batch.
pub open spec fn batch_parts(batch: RecordBatch, filter: PartFilter) -> Seq<(i64, PartGroup)> {
    filter.parts(
        integer_pairs(batch.column_named("p_partkey"@), batch.column_named("p_size"@)),
        strings_of(batch.column_named("p_brand"@)),
        strings_of(batch.column_named("p_type"@)),
        batch.num_rows as int,
    )
}

/// The columns of a batch that parts are read from.
struct PartColumns<'a> {
    numbers: Vec<Option<(i64, i64)>>,
    brands: &'a Vector<String>,
    types: &'a Vector<String>,
}

/// Reads the columns of a batch that parts are read from.
fn read_part_columns(batch: &RecordBatch) -> (result: SqlResult<PartColumns<'_>>)
    requires
        batch.well_formed(),
    ensures
        match result {
            Ok(columns) => {
                &&& part_columns_readable(*batch)
                &&& columns.numbers@ == integer_pairs(
                    batch.column_named("p_partkey"@),
                    batch.column_named("p_size"@),
                )
                &&& columns.numbers@.len() == batch.num_rows
                &&& columns.brands.well_formed()
                &&& columns.brands@.len() == batch.num_rows
                &&& batch.column_named("p_brand"@).data == ColumnData::Utf8(*columns.brands)
                &&& columns.types.well_formed()
                &&& columns.types@.len() == batch.num_rows
                &&& batch.column_named("p_type"@).data == ColumnData::Utf8(*columns.types)
            },
            Err(error) => !part_columns_readable(*batch) && part_columns_error(*batch, error),
        },
{
    let partkeys = batch_column(batch, "p_partkey")?;
    let sizes = batch_column(batch, "p_size")?;
    let brands = batch_string_column(batch, "p_brand")?;
    let types = batch_string_column(batch, "p_type")?;
    let numbers = read_integer_pairs(partkeys, sizes, batch.num_rows)?;
    Ok(PartColumns { numbers, brands, types })
}

/// Puts the parts of a batch into their groups.
pub fn part_groups_batch(
    batch: &RecordBatch,
    filter: &PartFilter<'_>,
    groups: &mut PartGroups,
) -> (result:
    SqlResult<()>)
    requires
        batch.well_formed(),
        old(groups).well_formed(),
    ensures
        final(groups).well_formed(),
        match result {
            Ok(_) => part_columns_readable(*batch) && final(groups).state() == old(
                groups,
            ).state().with_parts(batch_parts(*batch, *filter)),
            Err(error) => !part_columns_readable(*batch) && part_columns_error(*batch, error)
                && final(groups).state() == old(groups).state(),
        },
{
    let columns = match read_part_columns(batch) {
        Ok(columns) => columns,
        Err(error) => {
            return Err(error);
        },
    };
    let ghost before = groups.state();
    let ghost brands = strings_of(batch.column_named("p_brand"@));
    let ghost types = strings_of(batch.column_named("p_type"@));
    let mut row: usize = 0;
    while row < batch.num_rows
        invariant
            groups.well_formed(),
            row <= batch.num_rows,
            columns.numbers@.len() == batch.num_rows,
            columns.brands.well_formed(),
            columns.types.well_formed(),
            columns.brands@.len() == batch.num_rows,
            columns.types@.len() == batch.num_rows,
            brands.len() == batch.num_rows,
            types.len() == batch.num_rows,
            forall|index: int|
                0 <= index < batch.num_rows ==> #[trigger] brands[index] == (
                if columns.brands.valid_at(index) {
                    Some(columns.brands.values@[index]@)
                } else {
                    None
                }),
            forall|index: int|
                0 <= index < batch.num_rows ==> #[trigger] types[index] == (
                if columns.types.valid_at(index) {
                    Some(columns.types.values@[index]@)
                } else {
                    None
                }),
            groups.state() == before.with_parts(
                filter.parts(columns.numbers@, brands, types, row as int),
            ),
        decreases batch.num_rows - row,
    {
        let ghost done = filter.parts(columns.numbers@, brands, types, row as int);
        match columns.numbers[row] {
            Some((partkey, size)) => {
                if filter.sizes.contains(size) && !columns.brands.is_null(row)
                    && !columns.types.is_null(row) {
                    groups.insert_part_group_row(
                        partkey,
                        size,
                        columns.brands.values[row].as_str(),
                        columns.types.values[row].as_str(),
                        filter.excluded_brand,
                        filter.excluded_type_prefix,
                    );
                }
            },
            None => {},
        }
        assert(filter.parts(columns.numbers@, brands, types, row + 1) == done || filter.parts(
            columns.numbers@,
            brands,
            types,
            row + 1,
        ).drop_last() =~= done);
        row += 1;
    }
    Ok(())
}

/// A string column that stores each row as a number into a list of strings.
pub struct DictionaryColumn {
    pub keys: Vec<i32>,
    pub strings: Vec<String>,
}

impl DictionaryColumn {
    /// The string of a row, `None` where its number names no string.
    pub open spec fn text(self, row: int) -> Option<Seq<char>> {
        if 0 <= self.keys@[row] < self.strings@.len() {
            Some(self.strings@[self.keys@[row] as int]@)
        } else {
            None
        }
    }

    /// The strings of the rows.
    pub open spec fn texts(self) -> Seq<Option<Seq<char>>> {
        Seq::new(self.keys@.len(), |row: int| self.text(row))
    }
}

/// What a list of numbers holds for a key.
pub open spec fn looked_up(lookup: Seq<Option<usize>>, key: i32) -> Option<usize> {
    if 0 <= key < lookup.len() {
        lookup[key as int]
    } else {
        None
    }
}

/// What a list of numbers holds for a key, `None` for a key that is not there.
pub fn dictionary_lookup_id(lookup: &[Option<usize>], key: i32) -> (id: Option<usize>)
    ensures
        id == looked_up(lookup@, key),
{
    if key < 0 {
        return None;
    }
    let index: usize = key as usize;
    if index < lookup.len() {
        lookup[index]
    } else {
        None
    }
}

/// Whether a dictionary string is left out.
pub open spec fn left_out(
    text: Seq<char>,
    excluded_exact: Option<&str>,
    excluded_prefix: Option<&str>,
) -> bool {
    ||| excluded_exact matches Some(excluded) && text == excluded@
    ||| excluded_prefix matches Some(prefix) && has_prefix(text, prefix@)
}

/// The numbers of the strings of a dictionary, `None` for those left out.
pub fn dictionary_group_string_ids(
    strings: &[String],
    excluded_exact: Option<&str>,
    excluded_prefix: Option<&str>,
    interner: &mut Interner,
) -> (lookup: Vec<Option<usize>>)
    requires
        old(interner).well_formed(),
    ensures
        final(interner).well_formed(),
        old(interner)@.len() <= final(interner)@.len(),
        forall|id: int|
            0 <= id < old(interner)@.len() ==> #[trigger] final(interner)@[id] == old(interner)@[id],
        lookup@.len() == strings@.len(),
        forall|index: int|
            0 <= index < strings@.len() ==> match #[trigger] lookup@[index] {
                Some(id) => !left_out(strings@[index]@, excluded_exact, excluded_prefix) && id
                    < final(interner)@.len() && final(interner)@[id as int] == strings@[index]@,
                None => left_out(strings@[index]@, excluded_exact, excluded_prefix),
            },
{
    let ghost before = interner@;
    let mut lookup: Vec<Option<usize>> = Vec::new();
    let mut index: usize = 0;
    while index < strings.len()
        invariant
            interner.well_formed(),
            before == old(interner)@,
            before.len() <= interner@.len(),
            forall|id: int| 0 <= id < before.len() ==> #[trigger] interner@[id] == before[id],
            index <= strings@.len(),
            lookup@.len() == index,
            forall|done: int|
                0 <= done < index ==> match #[trigger] lookup@[done] {
                    Some(id) => !left_out(strings@[done]@, excluded_exact, excluded_prefix) && id
                        < interner@.len() && interner@[id as int] == strings@[done]@,
                    None => left_out(strings@[done]@, excluded_exact, excluded_prefix),
                },
        decreases strings@.len() - index,
    {
        let text = strings[index].as_str();
        let exact = match excluded_exact {
            Some(excluded) => str_eq(text, excluded),
            None => false,
        };
        let prefixed = match excluded_prefix {
            Some(prefix) => starts_with(text, prefix),
            None => false,
        };
        if exact || prefixed {
            lookup.push(None);
        } else {
            let ghost known = interner@;
            let id: usize = interner.intern_string(text);
            assert(forall|other: int|
                0 <= other < known.len() ==> #[trigger] interner@[other] == known[other]);
            lookup.push(Some(id));
        }
        index += 1;
    }
    lookup
}

/// The columns of a batch of parts with brand and type stored as dictionaries, none
/// with nulls.
pub struct PartDictionaryRows {
    pub partkeys: Vec<i64>,
    pub sizes: Vec<i64>,
    pub brands: DictionaryColumn,
    pub types: DictionaryColumn,
}

impl PartDictionaryRows {
    /// Whether every column has every row.
    pub open spec fn aligned(self) -> bool {
        &&& self.sizes@.len() == self.partkeys@.len()
        &&& self.brands.keys@.len() == self.partkeys@.len()
        &&& self.types.keys@.len() == self.partkeys@.len()
    }

    /// The part keys and sizes.
    pub open spec fn numbers(self) -> Seq<Option<(i64, i64)>> {
        Seq::new(self.partkeys@.len(), |row: int| Some((self.partkeys@[row], self.sizes@[row])))
    }

    /// The parts of the first `rows` rows.
    pub open spec fn parts(self, filter: PartFilter, rows: int) -> Seq<(i64, PartGroup)> {
        filter.parts(self.numbers(), self.brands.texts(), self.types.texts(), rows)
    }
}

/// A part read through dictionary lookups is the part of the row.
proof fn lemma_dictionary_part(
    rows: PartDictionaryRows,
    filter: PartFilter,
    brands: Seq<Seq<char>>,
    types: Seq<Seq<char>>,
    brand_lookup: Seq<Option<usize>>,
    type_lookup: Seq<Option<usize>>,
    row: int,
)
    requires
        rows.aligned(),
        0 <= row < rows.partkeys@.len(),
        brand_lookup.len() == rows.brands.strings@.len(),
        type_lookup.len() == rows.types.strings@.len(),
        forall|index: int|
            0 <= index < brand_lookup.len() ==> match #[trigger] brand_lookup[index] {
                Some(id) => !left_out(
                    rows.brands.strings@[index]@,
                    Some(filter.excluded_brand),
                    None,
                ) && id < brands.len() && brands[id as int] == rows.brands.strings@[index]@,
                None => left_out(rows.brands.strings@[index]@, Some(filter.excluded_brand), None),
            },
        forall|index: int|
            0 <= index < type_lookup.len() ==> match #[trigger] type_lookup[index] {
                Some(id) => !left_out(
                    rows.types.strings@[index]@,
                    None,
                    Some(filter.excluded_type_prefix),
                ) && id < types.len() && types[id as int] == rows.types.strings@[index]@,
                None => left_out(
                    rows.types.strings@[index]@,
                    None,
                    Some(filter.excluded_type_prefix),
                ),
            },
    ensures
        filter.part(rows.numbers()[row], rows.brands.texts()[row], rows.types.texts()[row]) == (
        match (
            looked_up(brand_lookup, rows.brands.keys@[row]),
            looked_up(type_lookup, rows.types.keys@[row]),
        ) {
            (Some(brand_id), Some(type_id)) => if filter.sizes@.contains(rows.sizes@[row]) {
                Some(
                    (
                        rows.partkeys@[row],
                        PartGroup {
                            brand: brands[brand_id as int],
                            part_type: types[type_id as int],
                            size: rows.sizes@[row],
                        },
                    ),
                )
            } else {
                None
            },
            _ => None,
        }),
{
    let brand_key = rows.brands.keys@[row];
    let type_key = rows.types.keys@[row];
    if 0 <= brand_key < brand_lookup.len() {
        let found = brand_lookup[brand_key as int];
    }
    if 0 <= type_key < type_lookup.len() {
        let found = type_lookup[type_key as int];
    }
}

impl PartGroups {
    /// Puts the parts of a batch with dictionary columns into their groups.
    pub fn part_groups_dictionary_typed_batch(
        &mut self,
        rows: &PartDictionaryRows,
        filter: &PartFilter<'_>,
    )
        requires
            old(self).well_formed(),
            rows.aligned(),
        ensures
            final(self).well_formed(),
            final(self).state() == old(self).state().with_parts(
                rows.parts(*filter, rows.partkeys@.len() as int),
            ),
    {
        let ghost start = *self;
        let brand_lookup = dictionary_group_string_ids(
            rows.brands.strings.as_slice(),
            Some(filter.excluded_brand),
            None,
            &mut self.brands,
        );
        let type_lookup = dictionary_group_string_ids(
            rows.types.strings.as_slice(),
            None,
            Some(filter.excluded_type_prefix),
            &mut self.types,
        );
        proof {
            assert forall|other: int| 0 <= other < self.groups@.len() implies ({
                let known = #[trigger] self.group_ids@[other];
                &&& known.brand_id < self.brands@.len()
                &&& known.type_id < self.types@.len()
                &&& self.groups@[other].group() == self.group_of(known)
            }) by {
                assert(start.group_of(start.group_ids@[other]) == start.groups@[other].group());
            }
            assert(self.state().groups =~= start.state().groups);
            assert(self.state().parts =~= start.state().parts);
        }
        let ghost brands = self.brands@;
        let ghost types = self.types@;
        let mut row: usize = 0;
        while row < rows.partkeys.len()
            invariant
                rows.aligned(),
                self.well_formed(),
                self.brands@ == brands,
                self.types@ == types,
                row <= rows.partkeys@.len(),
                brand_lookup@.len() == rows.brands.strings@.len(),
                type_lookup@.len() == rows.types.strings@.len(),
                forall|index: int|
                    0 <= index < brand_lookup@.len() ==> match #[trigger] brand_lookup@[index] {
                        Some(id) => !left_out(
                            rows.brands.strings@[index]@,
                            Some(filter.excluded_brand),
                            None,
                        ) && id < brands.len() && brands[id as int] == rows.brands.strings@[index]@,
                        None => left_out(
                            rows.brands.strings@[index]@,
                            Some(filter.excluded_brand),
                            None,
                        ),
                    },
                forall|index: int|
                    0 <= index < type_lookup@.len() ==> match #[trigger] type_lookup@[index] {
                        Some(id) => !left_out(
                            rows.types.strings@[index]@,
                            None,
                            Some(filter.excluded_type_prefix),
                        ) && id < types.len() && types[id as int] == rows.types.strings@[index]@,
                        None => left_out(
                            rows.types.strings@[index]@,
                            None,
                            Some(filter.excluded_type_prefix),
                        ),
                    },
                self.state() == start.state().with_parts(rows.parts(*filter, row as int)),
            decreases rows.partkeys@.len() - row,
        {
            let ghost done = rows.parts(*filter, row as int);
            proof {
                lemma_dictionary_part(
                    *rows,
                    *filter,
                    brands,
                    types,
                    brand_lookup@,
                    type_lookup@,
                    row as int,
                );
            }
            let size: i64 = rows.sizes[row];
            if filter.sizes.contains(size) {
                match (
                    dictionary_lookup_id(brand_lookup.as_slice(), rows.brands.keys[row]),
                    dictionary_lookup_id(type_lookup.as_slice(), rows.types.keys[row]),
                ) {
                    (Some(brand_id), Some(type_id)) => {
                        self.insert_part_group_ids(rows.partkeys[row], size, brand_id, type_id);
                    },
                    _ => {},
                }
            }
            assert(rows.parts(*filter, row + 1) == done || rows.parts(*filter, row + 1).drop_last()
                =~= done);
            row += 1;
        }
    }
}

/// A part with the numbers of its brand and type.
#[derive(Clone, Copy)]
pub struct PartGroupPartialRow {
    pub partkey: i64,
    pub size: i64,
    pub brand_id: usize,
    pub type_id: usize,
}

/// The parts of some batches, with brands and types numbered among themselves.
pub struct PartGroupPartial {
    brands: Interner,
    types: Interner,
    rows: Vec<PartGroupPartialRow>,
}

impl PartGroupPartial {
    /// Whether each row names a brand and a type that are there.
    pub closed spec fn well_formed(self) -> bool {
        &&& self.brands.well_formed()
        &&& self.types.well_formed()
        &&& forall|row: int|
            0 <= row < self.rows@.len() ==> (#[trigger] self.rows@[row]).brand_id
                < self.brands@.len() && self.rows@[row].type_id < self.types@.len()
    }

    /// The part of a row and its group.
    closed spec fn part(self, row: PartGroupPartialRow) -> (i64, PartGroup) {
        (
            row.partkey,
            PartGroup {
                brand: self.brands@[row.brand_id as int],
                part_type: self.types@[row.type_id as int],
                size: row.size,
            },
        )
    }

    /// The parts, in order.
    pub closed spec fn parts(self) -> Seq<(i64, PartGroup)> {
        self.rows@.map_values(|row: PartGroupPartialRow| self.part(row))
    }

    /// No part yet.
    pub fn new() -> (partial: PartGroupPartial)
        ensures
            partial.well_formed(),
            partial.parts() == Seq::<(i64, PartGroup)>::empty(),
    {
        let partial = PartGroupPartial {
            brands: Interner::new(),
            types: Interner::new(),
            rows: Vec::new(),
        };
        assert(partial.parts() =~= Seq::<(i64, PartGroup)>::empty());
        partial
    }

    /// Adds a part.
    pub fn push_row(&mut self, partkey: i64, size: i64, brand: &str, part_type: &str)
        requires
            old(self).well_formed(),
        ensures
            final(self).well_formed(),
            final(self).parts() == old(self).parts().push(
                (partkey, PartGroup { brand: brand@, part_type: part_type@, size }),
            ),
    {
        let ghost before = *self;
        let brand_id: usize = self.brands.intern_string(brand);
        let type_id: usize = self.types.intern_string(part_type);
        self.rows.push(PartGroupPartialRow { partkey, size, brand_id, type_id });
        proof {
            assert forall|row: int| 0 <= row < self.rows@.len() implies (
            #[trigger] self.rows@[row]).brand_id < self.brands@.len() && self.rows@[row].type_id
                < self.types@.len() by {
                if row < before.rows@.len() {
                    assert(self.rows@[row] == before.rows@[row]);
                }
            }
            assert forall|row: int| 0 <= row < before.rows@.len() implies self.part(
                #[trigger] before.rows@[row],
            ) == before.part(before.rows@[row]) by {}
            assert(self.parts() =~= before.parts().push(
                (partkey, PartGroup { brand: brand@, part_type: part_type@, size }),
            ));
        }
    }

    /// Adds the parts of a batch.
    pub fn part_groups_partial_batch(
        &mut self,
        batch: &RecordBatch,
        filter: &PartFilter<'_>,
    ) -> (result:
        SqlResult<()>)
        requires
            batch.well_formed(),
            old(self).well_formed(),
        ensures
            final(self).well_formed(),
            match result {
                Ok(_) => part_columns_readable(*batch) && final(self).parts() == old(self).parts()
                    + batch_parts(*batch, *filter),
                Err(error) => !part_columns_readable(*batch) && part_columns_error(*batch, error)
                    && final(self).parts() == old(self).parts(),
            },
    {
        let columns = match read_part_columns(batch) {
            Ok(columns) => columns,
            Err(error) => {
                return Err(error);
            },
        };
        let ghost before = self.parts();
        let ghost brands = strings_of(batch.column_named("p_brand"@));
        let ghost types = strings_of(batch.column_named("p_type"@));
        let mut row: usize = 0;
        assert(self.parts() =~= before + filter.parts(columns.numbers@, brands, types, 0));
        while row < batch.num_rows
            invariant
                self.well_formed(),
                row <= batch.num_rows,
                columns.numbers@.len() == batch.num_rows,
                columns.brands.well_formed(),
                columns.types.well_formed(),
                columns.brands@.len() == batch.num_rows,
                columns.types@.len() == batch.num_rows,
                brands.len() == batch.num_rows,
                types.len() == batch.num_rows,
                forall|index: int|
                    0 <= index < batch.num_rows ==> #[trigger] brands[index] == (
                    if columns.brands.valid_at(index) {
                        Some(columns.brands.values@[index]@)
                    } else {
                        None
                    }),
                forall|index: int|
                    0 <= index < batch.num_rows ==> #[trigger] types[index] == (
                    if columns.types.valid_at(index) {
                        Some(columns.types.values@[index]@)
                    } else {
                        None
                    }),
                self.parts() == before + filter.parts(columns.numbers@, brands, types, row as int),
            decreases batch.num_rows - row,
        {
            match columns.numbers[row] {
                Some((partkey, size)) => {
                    if filter.sizes.contains(size) && !columns.brands.is_null(row)
                        && !columns.types.is_null(row) {
                        let brand = columns.brands.values[row].as_str();
                        let part_type = columns.types.values[row].as_str();
                        if !str_eq(brand, filter.excluded_brand) && !starts_with(
                            part_type,
                            filter.excluded_type_prefix,
                        ) {
                            self.push_row(partkey, size, brand, part_type);
                        }
                    }
                },
                None => {},
            }
            assert(self.parts() =~= before + filter.parts(
                columns.numbers@,
                brands,
                types,
                row + 1,
            ));
            row += 1;
        }
        Ok(())
    }

    /// Adds the parts of a batch with dictionary columns.
    pub fn part_groups_dictionary_partial_batch(
        &mut self,
        rows: &PartDictionaryRows,
        filter: &PartFilter<'_>,
    )
        requires
            old(self).well_formed(),
            rows.aligned(),
        ensures
            final(self).well_formed(),
            final(self).parts() == old(self).parts() + rows.parts(
                *filter,
                rows.partkeys@.len() as int,
            ),
    {
        let ghost start = *self;
        let brand_lookup = dictionary_group_string_ids(
            rows.brands.strings.as_slice(),
            Some(filter.excluded_brand),
            None,
            &mut self.brands,
        );
        let type_lookup = dictionary_group_string_ids(
            rows.types.strings.as_slice(),
            None,
            Some(filter.excluded_type_prefix),
            &mut self.types,
        );
        let ghost brands = self.brands@;
        let ghost types = self.types@;
        let mut row: usize = 0;
        proof {
            assert forall|index: int| 0 <= index < start.rows@.len() implies self.part(
                #[trigger] start.rows@[index],
            ) == start.part(start.rows@[index]) by {}
            assert(self.parts() =~= start.parts() + rows.parts(*filter, 0));
        }
        while row < rows.partkeys.len()
            invariant
                rows.aligned(),
                self.well_formed(),
                self.brands@ == brands,
                self.types@ == types,
                row <= rows.partkeys@.len(),
                brand_lookup@.len() == rows.brands.strings@.len(),
                type_lookup@.len() == rows.types.strings@.len(),
                forall|index: int|
                    0 <= index < brand_lookup@.len() ==> match #[trigger] brand_lookup@[index] {
                        Some(id) => !left_out(
                            rows.brands.strings@[index]@,
                            Some(filter.excluded_brand),
                            None,
                        ) && id < brands.len() && brands[id as int] == rows.brands.strings@[index]@,
                        None => left_out(
                            rows.brands.strings@[index]@,
                            Some(filter.excluded_brand),
                            None,
                        ),
                    },
                forall|index: int|
                    0 <= index < type_lookup@.len() ==> match #[trigger] type_lookup@[index] {
                        Some(id) => !left_out(
                            rows.types.strings@[index]@,
                            None,
                            Some(filter.excluded_type_prefix),
                        ) && id < types.len() && types[id as int] == rows.types.strings@[index]@,
                        None => left_out(
                            rows.types.strings@[index]@,
                            None,
                            Some(filter.excluded_type_prefix),
                        ),
                    },
                self.parts() == start.parts() + rows.parts(*filter, row as int),
            decreases rows.partkeys@.len() - row,
        {
            proof {
                lemma_dictionary_part(
                    *rows,
                    *filter,
                    brands,
                    types,
                    brand_lookup@,
                    type_lookup@,
                    row as int,
                );
            }
            let size: i64 = rows.sizes[row];
            if filter.sizes.contains(size) {
                match (
                    dictionary_lookup_id(brand_lookup.as_slice(), rows.brands.keys[row]),
                    dictionary_lookup_id(type_lookup.as_slice(), rows.types.keys[row]),
                ) {
                    (Some(brand_id), Some(type_id)) => {
                        self.push_ids(rows.partkeys[row], size, brand_id, type_id);
                    },
                    _ => {},
                }
            }
            assert(self.parts() =~= start.parts() + rows.parts(*filter, row + 1));
            row += 1;
        }
    }

    /// Adds a part by the numbers of its brand and type.
    fn push_ids(&mut self, partkey: i64, size: i64, brand_id: usize, type_id: usize)
        requires
            old(self).well_formed(),
            brand_id < old(self).brands@.len(),
            type_id < old(self).types@.len(),
        ensures
            final(self).well_formed(),
            final(self).brands@ == old(self).brands@,
            final(self).types@ == old(self).types@,
            final(self).parts() == old(self).parts().push(
                (
                    partkey,
                    PartGroup {
                        brand: old(self).brands@[brand_id as int],
                        part_type: old(self).types@[type_id as int],
                        size,
                    },
                ),
            ),
    {
        let ghost before = *self;
        self.rows.push(PartGroupPartialRow { partkey, size, brand_id, type_id });
        assert(self.parts() =~= before.parts().push(
            self.part(PartGroupPartialRow { partkey, size, brand_id, type_id }),
        ));
    }
}

/// The parts of several partial results, in order.
pub open spec fn joined_parts(partials: Seq<PartGroupPartial>) -> Seq<(i64, PartGroup)>
    decreases partials.len(),
{
    if partials.len() == 0 {
        Seq::empty()
    } else {
        joined_parts(partials.drop_last()) + partials.last().parts()
    }
}

/// The numbers that strings have in another list.
fn remap(strings: &Interner, target: &mut Interner) -> (ids: Vec<usize>)
    requires
        old(target).well_formed(),
    ensures
        final(target).well_formed(),
        old(target)@.len() <= final(target)@.len(),
        forall|id: int|
            0 <= id < old(target)@.len() ==> #[trigger] final(target)@[id] == old(target)@[id],
        ids@.len() == strings@.len(),
        forall|id: int|
            0 <= id < strings@.len() ==> (#[trigger] ids@[id]) < final(target)@.len() && final(target)@[ids@[id] as int] == strings@[id],
{
    let ghost before = target@;
    let mut ids: Vec<usize> = Vec::new();
    let mut index: usize = 0;
    while index < strings.len()
        invariant
            target.well_formed(),
            before == old(target)@,
            before.len() <= target@.len(),
            forall|id: int| 0 <= id < before.len() ==> #[trigger] target@[id] == before[id],
            index <= strings@.len(),
            ids@.len() == index,
            forall|id: int|
                0 <= id < index ==> (#[trigger] ids@[id]) < target@.len() && target@[ids@[id] as int]
                    == strings@[id],
        decreases strings@.len() - index,
    {
        let ghost known = target@;
        let id: usize = target.intern_string(strings.get(index).as_str());
        assert(forall|other: int|
            0 <= other < known.len() ==> #[trigger] target@[other] == known[other]);
        ids.push(id);
        index += 1;
    }
    ids
}

/// Puts the parts of a partial result into their groups.
fn merge_part_group_partial(partial: &PartGroupPartial, groups: &mut PartGroups)
    requires
        partial.well_formed(),
        old(groups).well_formed(),
    ensures
        final(groups).well_formed(),
        final(groups).state() == old(groups).state().with_parts(partial.parts()),
{
    let ghost start = *groups;
    let brand_ids = remap(&partial.brands, &mut groups.brands);
    let type_ids = remap(&partial.types, &mut groups.types);
    proof {
        assert forall|other: int| 0 <= other < groups.groups@.len() implies ({
            let known = #[trigger] groups.group_ids@[other];
            &&& known.brand_id < groups.brands@.len()
            &&& known.type_id < groups.types@.len()
            &&& groups.groups@[other].group() == groups.group_of(known)
        }) by {
            assert(start.group_of(start.group_ids@[other]) == start.groups@[other].group());
        }
        assert(groups.state().groups =~= start.state().groups);
        assert(groups.state().parts =~= start.state().parts);
    }
    let ghost brands = groups.brands@;
    let ghost types = groups.types@;
    let mut row: usize = 0;
    assert(partial.parts().take(0) =~= Seq::empty());
    while row < partial.rows.len()
        invariant
            partial.well_formed(),
            groups.well_formed(),
            groups.brands@ == brands,
            groups.types@ == types,
            row <= partial.rows@.len(),
            brand_ids@.len() == partial.brands@.len(),
            type_ids@.len() == partial.types@.len(),
            forall|id: int|
                0 <= id < brand_ids@.len() ==> (#[trigger] brand_ids@[id]) < brands.len()
                    && brands[brand_ids@[id] as int] == partial.brands@[id],
            forall|id: int|
                0 <= id < type_ids@.len() ==> (#[trigger] type_ids@[id]) < types.len()
                    && types[type_ids@[id] as int] == partial.types@[id],
            groups.state() == start.state().with_parts(partial.parts().take(row as int)),
        decreases partial.rows@.len() - row,
    {
        let part = partial.rows[row];
        assert(partial.rows@[row as int].brand_id < partial.brands@.len());
        groups.insert_part_group_ids(
            part.partkey,
            part.size,
            brand_ids[part.brand_id],
            type_ids[part.type_id],
        );
        proof {
            let longer = partial.parts().take(row + 1);
            assert(longer.drop_last() =~= partial.parts().take(row as int));
            assert(longer.last() == partial.part(part));
        }
        row += 1;
    }
    assert(partial.parts().take(row as int) =~= partial.parts());
}

/// The groups of the parts of several partial results, as if the parts had been put
/// into groups one by one.
pub fn merge_part_group_partials(partials: &[PartGroupPartial]) -> (groups: PartGroups)
    requires
        forall|index: int|
            0 <= index < partials@.len() ==> (#[trigger] partials@[index]).well_formed(),
    ensures
        groups.well_formed(),
        groups.state() == empty_groups().with_parts(joined_parts(partials@)),
{
    let mut groups = PartGroups::new();
    let mut index: usize = 0;
    assert(joined_parts(partials@.take(0)) =~= Seq::empty());
    while index < partials.len()
        invariant
            forall|index: int|
                0 <= index < partials@.len() ==> (#[trigger] partials@[index]).well_formed(),
            groups.well_formed(),
            index <= partials@.len(),
            groups.state() == empty_groups().with_parts(
                joined_parts(partials@.take(index as int)),
            ),
        decreases partials@.len() - index,
    {
        merge_part_group_partial(&partials[index], &mut groups);
        proof {
            let longer = partials@.take(index + 1);
            assert(longer.drop_last() =~= partials@.take(index as int));
            law_with_parts_concatenates(
                empty_groups(),
                joined_parts(partials@.take(index as int)),
                partials@[index as int].parts(),
            );
        }
        index += 1;
    }
    assert(partials@.take(index as int) =~= partials@);
    groups
}

} // verus!
