//! Settings, by the text that they are given as.
//!
//! A setting that is not given, or whose text is not understood, has its default.

use vstd::prelude::*;
use crate::text::{
    eq_ignore_ascii_case, is_truthy, parse_usize, same_ignoring_case, str_eq, truthy, usize_value,
};

verus! {

/// Whether a switch is given and on.
pub open spec fn switched_on(value: Option<&str>) -> bool {
    match value {
        Some(text) => is_truthy(text@),
        None => false,
    }
}

/// Whether a switch is given and on.
pub fn env_flag_enabled(value: Option<&str>) -> (on: bool)
    ensures
        on == switched_on(value),
{
    match value {
        Some(text) => truthy(text),
        None => false,
    }
}

/// Whether a feature is on that a switch turns off.
pub fn enabled_unless(value: Option<&str>) -> (on: bool)
    ensures
        on == !switched_on(value),
{
    !env_flag_enabled(value)
}

/// Whether a text means yes to the profile of rules, which also knows `on`.
pub open spec fn profiles_rules(value: Option<&str>) -> bool {
    match value {
        Some(text) => is_truthy(text@) || text@ == "on"@ || text@ == "ON"@,
        None => false,
    }
}

/// Whether the profile of rules is on.
pub fn sql_rule_profile_enabled(value: Option<&str>) -> (on: bool)
    ensures
        on == profiles_rules(value),
{
    match value {
        Some(text) => truthy(text) || str_eq(text, "on") || str_eq(text, "ON"),
        None => false,
    }
}

/// Whether a text is `1`, or `true` in any case.
pub open spec fn says_true(value: Option<&str>) -> bool {
    match value {
        Some(text) => text@ == "1"@ || same_ignoring_case(text@, "true"@),
        None => false,
    }
}

/// Whether a text is `1`, or `true` in any case: what turns a sort on.
pub fn sort_switch_on(value: Option<&str>) -> (on: bool)
    ensures
        on == says_true(value),
{
    match value {
        Some(text) => str_eq(text, "1") || eq_ignore_ascii_case(text, "true"),
        None => false,
    }
}

/// Whether top-k batches are pruned, which the same text turns off.
pub fn topk_batch_prune_enabled(value: Option<&str>) -> (on: bool)
    ensures
        on == !says_true(value),
{
    !sort_switch_on(value)
}

/// The count that a setting gives.
pub open spec fn given_count(value: Option<&str>) -> Option<int> {
    match value {
        Some(text) => usize_value(text@),
        None => None,
    }
}

/// The count that a setting gives, else the default.
pub open spec fn count_or(value: Option<&str>, default: int) -> int {
    match given_count(value) {
        Some(count) => count,
        None => default,
    }
}

/// The count above zero that a setting gives, else the default.
pub open spec fn positive_or(value: Option<&str>, default: int) -> int {
    match given_count(value) {
        Some(count) => if count > 0 {
            count
        } else {
            default
        },
        None => default,
    }
}

/// The count that a setting gives.
fn read_count(value: Option<&str>) -> (count: Option<usize>)
    ensures
        match given_count(value) {
            Some(expected) => count matches Some(count) && count == expected,
            None => count is None,
        },
{
    match value {
        Some(text) => parse_usize(text),
        None => None,
    }
}

/// The count that a setting gives, else the default.
pub fn count_setting(value: Option<&str>, default: usize) -> (count: usize)
    ensures
        count == count_or(value, default as int),
{
    match read_count(value) {
        Some(count) => count,
        None => default,
    }
}

/// The count above zero that a setting gives, else the default: a number of batches or
/// row groups, keys or bytes.
pub fn positive_setting(value: Option<&str>, default: usize) -> (count: usize)
    ensures
        count == positive_or(value, default as int),
        default > 0 ==> count > 0,
{
    match read_count(value) {
        Some(count) => {
            if count > 0 {
                count
            } else {
                default
            }
        },
        None => default,
    }
}

/// The setting that counts: the first where it is given, else the second.
pub open spec fn first_given<'a>(
    first: Option<&'a str>,
    second: Option<&'a str>,
) -> Option<&'a str> {
    match first {
        Some(text) => Some(text),
        None => second,
    }
}

/// How many row groups are mapped at a time: by the setting for all queries, else by the
/// one for this query, else the default.
pub fn row_group_map_chunk_size(
    general: Option<&str>,
    query: Option<&str>,
    default_chunk: usize,
) -> (chunk:
    usize)
    ensures
        chunk == positive_or(first_given(general, query), default_chunk as int),
{
    let value = match general {
        Some(text) => Some(text),
        None => query,
    };
    positive_setting(value, default_chunk)
}

/// How many entries of `size` bytes the bytes of a setting hold, where they hold any,
/// else how many the default bytes hold.
pub open spec fn entries_in(value: Option<&str>, default_bytes: int, size: int) -> int {
    match given_count(value) {
        Some(bytes) => if bytes / size > 0 {
            bytes / size
        } else {
            default_bytes / size
        },
        None => default_bytes / size,
    }
}

/// How many entries of `size` bytes a dense table may have.
pub fn dense_value_max_entries(value: Option<&str>, default_bytes: usize, size: usize) -> (entries:
    usize)
    requires
        size > 0,
    ensures
        entries == entries_in(value, default_bytes as int, size as int),
{
    match read_count(value) {
        Some(bytes) => {
            let entries: usize = bytes / size;
            if entries > 0 {
                entries
            } else {
                default_bytes / size
            }
        },
        None => default_bytes / size,
    }
}

/// The largest key of a table of bits in so many bytes, as far as a `usize` holds it.
pub open spec fn largest_bit(bytes: int) -> int {
    let bits = if 8 * bytes > usize::MAX {
        usize::MAX as int
    } else {
        8 * bytes
    };
    if bits == 0 {
        0
    } else {
        bits - 1
    }
}

/// The largest key that is probed densely: the one given, else the largest of a table of
/// bits in the bytes given.
pub fn dense_i64_probe_max_key(
    max_key: Option<&str>,
    bytes: Option<&str>,
    default_bytes: usize,
) -> (key:
    usize)
    ensures
        key == count_or(max_key, largest_bit(positive_or(bytes, default_bytes as int))),
{
    let bytes: usize = positive_setting(bytes, default_bytes);
    let bits: usize = if bytes > usize::MAX / 8 {
        usize::MAX
    } else {
        8 * bytes
    };
    let largest: usize = if bits == 0 {
        0
    } else {
        bits - 1
    };
    count_setting(max_key, largest)
}

/// How many entries the dense table of order years may have: what its bytes hold, but no
/// more than the rows and the given multiple of them.
pub fn order_year_max_dense_entries(
    byte_entries: usize,
    row_count: Option<usize>,
    amplified_rows: usize,
) -> (entries: usize)
    ensures
        entries == (match row_count {
            Some(rows) => {
                let wanted = if amplified_rows > rows {
                    amplified_rows
                } else {
                    rows
                };
                if byte_entries < wanted {
                    byte_entries
                } else {
                    wanted
                }
            },
            None => byte_entries,
        }),
{
    match row_count {
        Some(rows) => {
            let wanted: usize = if amplified_rows > rows {
                amplified_rows
            } else {
                rows
            };
            if byte_entries < wanted {
                byte_entries
            } else {
                wanted
            }
        },
        None => byte_entries,
    }
}

} // verus!
