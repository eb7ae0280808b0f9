//! Ranges of keys, and when a scan filters by them.

use vstd::prelude::*;
use crate::plan::Projection;

verus! {

/// Whether a range goes from the least key to the greatest.
pub open spec fn is_extent(keys: Seq<i64>, range: (i64, i64)) -> bool {
    &&& keys.contains(range.0)
    &&& keys.contains(range.1)
    &&& forall|index: int| 0 <= index < keys.len() ==> range.0 <= #[trigger] keys[index] <= range.1
}

/// The least and the greatest key, `None` where there is none.
pub fn raw_i64_key_range(keys: &[i64]) -> (range: Option<(i64, i64)>)
    ensures
        range.is_some() == (keys@.len() > 0),
        range matches Some(range) ==> is_extent(keys@, range),
{
    if keys.len() == 0 {
        return None;
    }
    let mut min_key: i64 = keys[0];
    let mut max_key: i64 = keys[0];
    let mut index: usize = 1;
    assert(keys@[0] == min_key);
    while index < keys.len()
        invariant
            1 <= index <= keys@.len(),
            keys@.contains(min_key),
            keys@.contains(max_key),
            forall|earlier: int|
                0 <= earlier < index ==> min_key <= #[trigger] keys@[earlier] <= max_key,
        decreases keys@.len() - index,
    {
        let key: i64 = keys[index];
        assert(keys@[index as int] == key);
        if key < min_key {
            min_key = key;
        }
        if key > max_key {
            max_key = key;
        }
        index += 1;
    }
    Some((min_key, max_key))
}

/// How wide a range may be for so many keys: eight for each, and at least 1024.
pub open spec fn widest_range(len: int) -> int {
    let wanted = if 8 * len > usize::MAX {
        usize::MAX as int
    } else {
        8 * len
    };
    if wanted < 1024 {
        1024
    } else {
        wanted
    }
}

/// Whether a range of so many keys is worth filtering by.
pub open spec fn is_selective(min_key: i64, max_key: i64, len: int) -> bool {
    &&& len > 0
    &&& 0 <= min_key <= max_key
    &&& max_key - min_key + 1 <= i64::MAX
    &&& max_key - min_key + 1 <= usize::MAX
    &&& max_key - min_key + 1 <= widest_range(len)
}

/// The range, where it is worth filtering by.
pub fn selective_i64_range_from_parts(min_key: i64, max_key: i64, len: usize) -> (range: Option<
    (i64, i64),
>)
    ensures
        range == (if is_selective(min_key, max_key, len as int) {
            Some((min_key, max_key))
        } else {
            None
        }),
{
    if len == 0 || min_key < 0 || max_key < min_key {
        return None;
    }
    let gap: i64 = max_key - min_key;
    if gap == i64::MAX {
        return None;
    }
    let width: u64 = (gap + 1) as u64;
    let wanted: usize = if len > usize::MAX / 8 {
        usize::MAX
    } else {
        8 * len
    };
    let widest: usize = if wanted < 1024 {
        1024
    } else {
        wanted
    };
    if width <= widest as u64 {
        Some((min_key, max_key))
    } else {
        None
    }
}

/// The range of the keys, where none is negative and the range is worth filtering by.
pub fn selective_i64_key_range(keys: &[i64]) -> (range: Option<(i64, i64)>)
    ensures
        match range {
            Some(range) => is_extent(keys@, range) && is_selective(
                range.0,
                range.1,
                keys@.len() as int,
            ),
            None => forall|extent: (i64, i64)| #[trigger]
                is_extent(keys@, extent) ==> !is_selective(extent.0, extent.1, keys@.len() as int),
        },
{
    match raw_i64_key_range(keys) {
        Some((min_key, max_key)) => {
            proof {
                assert forall|extent: (i64, i64)| #[trigger] is_extent(keys@, extent) implies extent
                    == (min_key, max_key) by {
                    let first = choose|place: int|
                        0 <= place < keys@.len() && keys@[place] == extent.0;
                    let last = choose|place: int|
                        0 <= place < keys@.len() && keys@[place] == extent.1;
                    let least = choose|place: int|
                        0 <= place < keys@.len() && keys@[place] == min_key;
                    let greatest = choose|place: int|
                        0 <= place < keys@.len() && keys@[place] == max_key;
                    assert(min_key <= keys@[first] && extent.0 <= keys@[least]);
                    assert(keys@[last] <= max_key && keys@[greatest] <= extent.1);
                }
            }
            selective_i64_range_from_parts(min_key, max_key, keys.len())
        },
        None => None,
    }
}

/// The number of columns read, the largest number for all of them.
pub fn projection_column_count(projection: &Projection) -> (count: usize)
    ensures
        count == (match *projection {
            Projection::All => usize::MAX,
            Projection::Columns(columns) => columns@.len() as usize,
        }),
        *projection matches Projection::Columns(columns) ==> count == columns@.len(),
{
    match projection {
        Projection::All => usize::MAX,
        Projection::Columns(columns) => columns.len(),
    }
}

/// When a scan filters rows by a set of keys.
pub struct RowFilterLimits {
    pub max_keys: usize,
    pub min_projected_columns: usize,
    pub always_allow_keys: usize,
}

/// Whether a scan filters rows by a set of keys: by the share that the keys are of a
/// range of the given width, where nothing else decides.
#[derive(Clone, Copy, Debug, PartialEq, Eq, Structural)]
pub enum RowFilterChoice {
    No,
    Yes,
    ByDensity { width: usize },
}

/// Whether a scan filters rows by so many keys of a range.
pub open spec fn row_filter_choice(
    default_enabled: bool,
    key_count: int,
    min_key: i64,
    max_key: i64,
    projected_columns: int,
    limits: RowFilterLimits,
) -> RowFilterChoice {
    let width = max_key - min_key + 1;
    if !default_enabled || key_count == 0 || key_count > limits.max_keys || projected_columns
        < limits.min_projected_columns || width > i64::MAX || width > usize::MAX || width <= 0 {
        RowFilterChoice::No
    } else if key_count <= limits.always_allow_keys {
        RowFilterChoice::Yes
    } else {
        RowFilterChoice::ByDensity { width: width as usize }
    }
}

/// Whether a scan filters rows by so many keys of a range.
pub fn should_use_i64_set_row_filter_for_key_stats(
    default_enabled: bool,
    key_count: usize,
    min_key: i64,
    max_key: i64,
    projected_columns: usize,
    limits: &RowFilterLimits,
) -> (choice: RowFilterChoice)
    ensures
        choice == row_filter_choice(
            default_enabled,
            key_count as int,
            min_key,
            max_key,
            projected_columns as int,
            *limits,
        ),
{
    if !default_enabled || key_count == 0 || key_count > limits.max_keys || projected_columns
        < limits.min_projected_columns {
        return RowFilterChoice::No;
    }
    let width: i128 = max_key as i128 - min_key as i128 + 1;
    if width > i64::MAX as i128 || width > usize::MAX as i128 || width <= 0 {
        return RowFilterChoice::No;
    }
    if key_count <= limits.always_allow_keys {
        return RowFilterChoice::Yes;
    }
    RowFilterChoice::ByDensity { width: width as usize }
}

/// Whether a scan filters rows by the given keys.
pub fn should_use_i64_set_row_filter_for_keys_auto(
    default_enabled: bool,
    keys: &[i64],
    projected_columns: usize,
    limits: &RowFilterLimits,
) -> (choice: RowFilterChoice)
    ensures
        keys@.len() == 0 ==> choice == RowFilterChoice::No,
        forall|extent: (i64, i64)| #[trigger]
            is_extent(keys@, extent) ==> choice == row_filter_choice(
                default_enabled,
                keys@.len() as int,
                extent.0,
                extent.1,
                projected_columns as int,
                *limits,
            ),
{
    match raw_i64_key_range(keys) {
        Some((min_key, max_key)) => {
            proof {
                assert forall|extent: (i64, i64)| #[trigger] is_extent(keys@, extent) implies extent
                    == (min_key, max_key) by {
                    let first = choose|place: int|
                        0 <= place < keys@.len() && keys@[place] == extent.0;
                    let last = choose|place: int|
                        0 <= place < keys@.len() && keys@[place] == extent.1;
                    let least = choose|place: int|
                        0 <= place < keys@.len() && keys@[place] == min_key;
                    let greatest = choose|place: int|
                        0 <= place < keys@.len() && keys@[place] == max_key;
                    assert(min_key <= keys@[first] && extent.0 <= keys@[least]);
                    assert(keys@[last] <= max_key && keys@[greatest] <= extent.1);
                }
            }
            should_use_i64_set_row_filter_for_key_stats(
                default_enabled,
                keys.len(),
                min_key,
                max_key,
                projected_columns,
                limits,
            )
        },
        None => RowFilterChoice::No,
    }
}

} // verus!
