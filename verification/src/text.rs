//! Text tests and conversions, stated over the characters of a string.

use vstd::prelude::*;

verus! {

/// `String::push` adds one character at the end.
pub assume_specification[ String::push ](text: &mut String, character: char)
    ensures
        final(text)@ == old(text)@.push(character),
;

/// Whether `prefix` starts `text`.
pub open spec fn has_prefix(text: Seq<char>, prefix: Seq<char>) -> bool {
    prefix.len() <= text.len() && text.take(prefix.len() as int) == prefix
}

/// Whether `needle` stands in `text` at `start`.
pub open spec fn occurs_at(text: Seq<char>, needle: Seq<char>, start: int) -> bool {
    0 <= start && start + needle.len() <= text.len() && text.subrange(start, start + needle.len())
        == needle
}

/// Whether `needle` stands anywhere in `text`.
pub open spec fn has_substring(text: Seq<char>, needle: Seq<char>) -> bool {
    exists|start: int| occurs_at(text, needle, start)
}

/// An ASCII capital as a small letter; any other character as it is.
pub open spec fn lower_char(character: char) -> char {
    if 'A' <= character && character <= 'Z' {
        ((character as u8 + 32) as u8) as char
    } else {
        character
    }
}

/// The text with its ASCII capitals as small letters.
pub open spec fn lowered(text: Seq<char>) -> Seq<char> {
    text.map_values(|character: char| lower_char(character))
}

/// Whether two texts are the same up to the case of ASCII letters.
pub open spec fn same_ignoring_case(left: Seq<char>, right: Seq<char>) -> bool {
    lowered(left) == lowered(right)
}

/// The characters of a string.
pub fn chars_of(text: &str) -> (characters: Vec<char>)
    ensures
        characters@ == text@,
{
    let mut characters: Vec<char> = Vec::new();
    for character in rest: text.chars()
        invariant
            rest.seq() == text@,
            characters@ == text@.take(rest.index() as int),
    {
        characters.push(character);
        assert(characters@ =~= text@.take(rest.index() + 1));
    }
    assert(text@.take(text@.len() as int) =~= text@);
    characters
}

/// The string with the given characters.
pub fn string_from(characters: &[char]) -> (text: String)
    ensures
        text@ == characters@,
{
    let mut text = String::new();
    let mut index: usize = 0;
    assert(text@ =~= characters@.take(0));
    while index < characters.len()
        invariant
            index <= characters@.len(),
            text@ == characters@.take(index as int),
        decreases characters@.len() - index,
    {
        text.push(characters[index]);
        index += 1;
        assert(text@ =~= characters@.take(index as int));
    }
    assert(characters@.take(index as int) =~= characters@);
    text
}

/// Whether `needle` stands in `text` at `start`.
pub fn characters_occur_at(text: &[char], needle: &[char], start: usize) -> (found: bool)
    requires
        start <= text@.len(),
    ensures
        found == occurs_at(text@, needle@, start as int),
{
    if needle.len() > text.len() - start {
        return false;
    }
    let mut index: usize = 0;
    while index < needle.len()
        invariant
            start + needle.len() <= text.len(),
            index <= needle@.len(),
            forall|earlier: int|
                0 <= earlier < index ==> text@[start + earlier] == #[trigger] needle@[earlier],
        decreases needle@.len() - index,
    {
        if text[start + index] != needle[index] {
            assert(text@.subrange(start as int, start + needle@.len())[index as int]
                != needle@[index as int]);
            return false;
        }
        index += 1;
    }
    assert(text@.subrange(start as int, start + needle@.len()) =~= needle@);
    true
}

/// Whether two strings are equal.
pub fn str_eq(left: &str, right: &str) -> (equal: bool)
    ensures
        equal == (left@ == right@),
{
    let left_chars = chars_of(left);
    let right_chars = chars_of(right);
    if left_chars.len() != right_chars.len() {
        return false;
    }
    let equal = characters_occur_at(left_chars.as_slice(), right_chars.as_slice(), 0);
    assert(left@.subrange(0, left@.len() as int) =~= left@);
    equal
}

/// Whether `prefix` starts `text`.
pub fn starts_with(text: &str, prefix: &str) -> (found: bool)
    ensures
        found == has_prefix(text@, prefix@),
{
    let characters = chars_of(text);
    let wanted = chars_of(prefix);
    let found = characters_occur_at(characters.as_slice(), wanted.as_slice(), 0);
    proof {
        if wanted@.len() <= characters@.len() {
            assert(text@.subrange(0, wanted@.len() as int) =~= text@.take(wanted@.len() as int));
        }
    }
    found
}

/// Whether `needle` stands anywhere in `text`.
pub fn contains(text: &str, needle: &str) -> (found: bool)
    ensures
        found == has_substring(text@, needle@),
{
    let characters = chars_of(text);
    let wanted = chars_of(needle);
    let mut start: usize = 0;
    while start <= characters.len()
        invariant
            characters@ == text@,
            wanted@ == needle@,
            start <= characters@.len() + 1,
            forall|earlier: int| 0 <= earlier < start ==> !#[trigger] occurs_at(
                text@,
                needle@,
                earlier,
            ),
        decreases characters@.len() + 1 - start,
    {
        if characters_occur_at(characters.as_slice(), wanted.as_slice(), start) {
            return true;
        }
        if start == characters.len() {
            return false;
        }
        start += 1;
    }
    false
}

/// Whether any character of `text` is `wanted`.
pub fn contains_char(text: &str, wanted: char) -> (found: bool)
    ensures
        found == text@.contains(wanted),
{
    let characters = chars_of(text);
    let mut index: usize = 0;
    while index < characters.len()
        invariant
            characters@ == text@,
            index <= characters@.len(),
            forall|earlier: int| 0 <= earlier < index ==> text@[earlier] != wanted,
        decreases characters@.len() - index,
    {
        if characters[index] == wanted {
            return true;
        }
        index += 1;
    }
    false
}

/// The text with its ASCII capitals as small letters.
pub fn to_ascii_lowercase(text: &str) -> (lower: String)
    ensures
        lower@ == lowered(text@),
{
    let characters = chars_of(text);
    let mut lower = String::new();
    let mut index: usize = 0;
    assert(lower@ =~= lowered(text@).take(0));
    while index < characters.len()
        invariant
            characters@ == text@,
            index <= characters@.len(),
            lower@ == lowered(text@).take(index as int),
        decreases characters@.len() - index,
    {
        let character: char = characters[index];
        let small: char = if 'A' <= character && character <= 'Z' {
            (character as u8 + 32) as char
        } else {
            character
        };
        lower.push(small);
        index += 1;
        assert(lower@ =~= lowered(text@).take(index as int));
    }
    assert(lowered(text@).take(index as int) =~= lowered(text@));
    lower
}

/// Whether two texts are the same up to the case of ASCII letters.
pub fn eq_ignore_ascii_case(left: &str, right: &str) -> (equal: bool)
    ensures
        equal == same_ignoring_case(left@, right@),
{
    let left_lower = to_ascii_lowercase(left);
    let right_lower = to_ascii_lowercase(right);
    str_eq(left_lower.as_str(), right_lower.as_str())
}

/// The part of `text` from `start` up to `end`.
pub fn substring(text: &str, start: usize, end: usize) -> (part: String)
    requires
        start <= end <= text@.len(),
    ensures
        part@ == text@.subrange(start as int, end as int),
{
    let characters = chars_of(text);
    let part = vstd::slice::slice_subrange(characters.as_slice(), start, end);
    string_from(part)
}

/// What is left of `text` behind a leading `mark`.
pub fn strip_prefix_char(text: &str, mark: char) -> (rest: Option<String>)
    ensures
        rest.is_some() == (text@.len() > 0 && text@[0] == mark),
        rest matches Some(rest) ==> rest@ == text@.skip(1),
{
    let characters = chars_of(text);
    if characters.len() > 0 && characters[0] == mark {
        let rest = substring(text, 1, characters.len());
        assert(rest@ =~= text@.skip(1));
        Some(rest)
    } else {
        None
    }
}

/// What is left of `text` before a trailing `mark`.
pub fn strip_suffix_char(text: &str, mark: char) -> (rest: Option<String>)
    ensures
        rest.is_some() == (text@.len() > 0 && text@.last() == mark),
        rest matches Some(rest) ==> rest@ == text@.drop_last(),
{
    let characters = chars_of(text);
    if characters.len() > 0 && characters[characters.len() - 1] == mark {
        let rest = substring(text, 0, characters.len() - 1);
        assert(rest@ =~= text@.drop_last());
        Some(rest)
    } else {
        None
    }
}

/// A copy of a string.
pub fn string_copy(string: &String) -> (copied: String)
    ensures
        copied@ == string@,
{
    string.clone()
}

/// The text with `tail` behind it.
pub fn joined(head: &str, tail: &str) -> (text: String)
    ensures
        text@ == head@ + tail@,
{
    let mut text = head.to_owned();
    text.append(tail);
    text
}

/// Whether the character is a decimal digit.
pub open spec fn is_digit(character: char) -> bool {
    '0' <= character && character <= '9'
}

/// The number that the digits write.
pub open spec fn digits_value(digits: Seq<char>) -> int
    decreases digits.len(),
{
    if digits.len() == 0 {
        0
    } else {
        digits_value(digits.drop_last()) * 10 + (digits.last() as int - '0' as int)
    }
}

/// The digits of a number text, without a leading plus sign.
pub open spec fn unsigned_digits(text: Seq<char>) -> Seq<char> {
    if text.len() > 0 && text[0] == '+' {
        text.skip(1)
    } else {
        text
    }
}

/// The number that a text writes: an optional plus sign and at least one digit,
/// with a value that a `usize` can hold.
pub open spec fn usize_value(text: Seq<char>) -> Option<int> {
    let digits = unsigned_digits(text);
    if digits.len() > 0 && (forall|index: int|
        0 <= index < digits.len() ==> is_digit(#[trigger] digits[index])) && digits_value(digits)
        <= usize::MAX {
        Some(digits_value(digits))
    } else {
        None
    }
}

/// Reading on never makes the number smaller.
pub proof fn lemma_digits_value_grows(digits: Seq<char>, len: int)
    requires
        0 <= len <= digits.len(),
        forall|index: int| 0 <= index < digits.len() ==> is_digit(#[trigger] digits[index]),
    ensures
        0 <= digits_value(digits.take(len)) <= digits_value(digits),
    decreases digits.len(),
{
    if len == digits.len() {
        assert(digits.take(len) =~= digits);
        if len > 0 {
            lemma_digits_value_grows(digits.drop_last(), len - 1);
        }
    } else {
        lemma_digits_value_grows(digits.drop_last(), len);
        assert(digits.drop_last().take(len) =~= digits.take(len));
        assert(is_digit(digits[digits.len() - 1]));
    }
}

/// Reads a number, `None` where the text does not write a `usize`.
pub fn parse_usize(text: &str) -> (value: Option<usize>)
    ensures
        match usize_value(text@) {
            Some(number) => value matches Some(value) && value == number,
            None => value.is_none(),
        },
{
    let characters = chars_of(text);
    let first: usize = if characters.len() > 0 && characters[0] == '+' {
        1
    } else {
        0
    };
    let ghost digits = unsigned_digits(text@);
    assert(digits =~= text@.skip(first as int));
    if first == characters.len() {
        return None;
    }
    let mut value: usize = 0;
    let mut index: usize = first;
    assert(digits.take(0) =~= Seq::empty());
    while index < characters.len()
        invariant
            characters@ == text@,
            first <= index <= characters@.len(),
            digits == text@.skip(first as int),
            digits == unsigned_digits(text@),
            forall|earlier: int| 0 <= earlier < index - first ==> is_digit(#[trigger] digits[earlier]),
            value == digits_value(digits.take(index - first)),
        decreases characters@.len() - index,
    {
        let character: char = characters[index];
        let ghost position = index - first;
        assert(digits[position] == character);
        if !('0' <= character && character <= '9') {
            assert(!is_digit(digits[position]));
            return None;
        }
        let digit: usize = (character as u32 - '0' as u32) as usize;
        assert(digits.take(position + 1).drop_last() =~= digits.take(position));
        assert(digits.take(position + 1).last() == character);
        assert(digits_value(digits.take(position + 1)) == value * 10 + digit);
        if value > (usize::MAX - digit) / 10 {
            proof {
                if forall|later: int| 0 <= later < digits.len() ==> is_digit(#[trigger] digits[later]) {
                    lemma_digits_value_grows(digits, position + 1);
                }
                assert(value * 10 + digit > usize::MAX);
            }
            return None;
        }
        value = value * 10 + digit;
        index += 1;
    }
    assert(digits.take(index - first) =~= digits);
    Some(value)
}

/// The number that a text of digits alone writes, where an `i64` can hold it.
pub open spec fn i64_value(text: Seq<char>) -> Option<int> {
    if text.len() > 0 && (forall|index: int|
        0 <= index < text.len() ==> is_digit(#[trigger] text[index])) && digits_value(text)
        <= i64::MAX {
        Some(digits_value(text))
    } else {
        None
    }
}

/// Reads a number, `None` where the text does not write an `i64` with digits alone.
pub fn parse_i64(text: &str) -> (value: Option<i64>)
    ensures
        match i64_value(text@) {
            Some(number) => value matches Some(value) && value == number && value >= 0,
            None => value.is_none(),
        },
{
    let characters = chars_of(text);
    let ghost digits = text@;
    if characters.len() == 0 {
        return None;
    }
    let mut value: i64 = 0;
    let mut index: usize = 0;
    assert(digits.take(0) =~= Seq::empty());
    while index < characters.len()
        invariant
            characters@ == digits,
            digits == text@,
            index <= characters@.len(),
            forall|earlier: int| 0 <= earlier < index ==> is_digit(#[trigger] digits[earlier]),
            value == digits_value(digits.take(index as int)),
            value >= 0,
        decreases characters@.len() - index,
    {
        let character: char = characters[index];
        let ghost position = index as int;
        assert(digits[position] == character);
        if !('0' <= character && character <= '9') {
            assert(!is_digit(digits[position]));
            return None;
        }
        let digit: i64 = (character as u32 - '0' as u32) as i64;
        assert(digits.take(position + 1).drop_last() =~= digits.take(position));
        assert(digits.take(position + 1).last() == character);
        assert(digits_value(digits.take(position + 1)) == value * 10 + digit);
        if value > (i64::MAX - digit) / 10 {
            proof {
                if forall|later: int| 0 <= later < digits.len() ==> is_digit(#[trigger] digits[later]) {
                    lemma_digits_value_grows(digits, position + 1);
                }
                assert(value * 10 + digit > i64::MAX);
            }
            return None;
        }
        value = value * 10 + digit;
        index += 1;
    }
    assert(digits.take(index as int) =~= digits);
    Some(value)
}

/// The decimal digits of a number.
pub open spec fn decimal_digits(number: nat) -> Seq<char>
    decreases number,
{
    if number < 10 {
        seq![digit_char(number)]
    } else {
        decimal_digits(number / 10).push(digit_char(number % 10))
    }
}

/// The character of a digit.
pub open spec fn digit_char(digit: nat) -> char {
    ((digit + 48) as u8) as char
}

/// Writes a number in decimal.
pub fn decimal_text(number: u64) -> (text: String)
    ensures
        text@ == decimal_digits(number as nat),
    decreases number,
{
    let digit: char = ((number % 10) as u8 + 48) as char;
    if number < 10 {
        let mut text = String::new();
        text.push(digit);
        assert(text@ =~= decimal_digits(number as nat));
        text
    } else {
        let mut text = decimal_text(number / 10);
        text.push(digit);
        text
    }
}

/// What is written is read back as the same number.
pub proof fn law_decimal_round_trip(number: nat)
    requires
        number <= usize::MAX,
    ensures
        usize_value(decimal_digits(number)) == Some(number as int),
{
    lemma_decimal_digits(number);
}

/// The digits of a number are digits and write it.
proof fn lemma_decimal_digits(number: nat)
    ensures
        decimal_digits(number).len() > 0,
        forall|index: int|
            0 <= index < decimal_digits(number).len() ==> is_digit(
                #[trigger] decimal_digits(number)[index],
            ),
        digits_value(decimal_digits(number)) == number,
    decreases number,
{
    assert(forall|digit: nat| digit < 10 ==> is_digit(#[trigger] digit_char(digit)));
    assert(forall|digit: nat| digit < 10 ==> #[trigger] digit_char(digit) as int - '0' as int == digit);
    let digits = decimal_digits(number);
    if number < 10 {
        assert(digits.drop_last() =~= Seq::empty());
        assert(digits_value(digits.drop_last()) == 0);
        assert(digits.last() == digit_char(number));
    } else {
        lemma_decimal_digits(number / 10);
        assert(digits.drop_last() =~= decimal_digits(number / 10));
        assert(digits.last() == digit_char(number % 10));
    }
}

/// Whether a text switches something on.
pub open spec fn is_truthy(text: Seq<char>) -> bool {
    text == "1"@ || text == "true"@ || text == "TRUE"@ || text == "yes"@ || text == "YES"@
}

/// Whether a text is `1`, `true`, `TRUE`, `yes` or `YES`.
pub fn truthy(text: &str) -> (on: bool)
    ensures
        on == is_truthy(text@),
{
    str_eq(text, "1") || str_eq(text, "true") || str_eq(text, "TRUE") || str_eq(text, "yes")
        || str_eq(text, "YES")
}

/// Whether `left` comes before `right` character by character, a text before any
/// longer text that it starts. Strings of one encoding order alike by bytes.
pub open spec fn comes_before(left: Seq<char>, right: Seq<char>) -> bool
    decreases left.len(),
{
    if right.len() == 0 {
        false
    } else if left.len() == 0 {
        true
    } else if left[0] != right[0] {
        (left[0] as u32) < (right[0] as u32)
    } else {
        comes_before(left.skip(1), right.skip(1))
    }
}

/// Comparing from a place on that both texts reach alike.
proof fn lemma_comes_before_from(left: Seq<char>, right: Seq<char>, place: int)
    requires
        0 <= place <= left.len(),
        place <= right.len(),
        left.take(place) == right.take(place),
    ensures
        comes_before(left, right) == comes_before(left.skip(place), right.skip(place)),
    decreases place,
{
    if place == 0 {
        assert(left.skip(0) =~= left);
        assert(right.skip(0) =~= right);
    } else {
        assert(left[0] == left.take(place)[0]);
        assert(right[0] == right.take(place)[0]);
        assert(left.skip(1).take(place - 1) =~= left.take(place).skip(1));
        assert(right.skip(1).take(place - 1) =~= right.take(place).skip(1));
        lemma_comes_before_from(left.skip(1), right.skip(1), place - 1);
        assert(left.skip(1).skip(place - 1) =~= left.skip(place));
        assert(right.skip(1).skip(place - 1) =~= right.skip(place));
    }
}

/// Whether `left` comes before `right`.
pub fn str_less(left: &str, right: &str) -> (less: bool)
    ensures
        less == comes_before(left@, right@),
{
    let left_chars = chars_of(left);
    let right_chars = chars_of(right);
    let mut place: usize = 0;
    while place < left_chars.len() && place < right_chars.len()
        invariant
            left_chars@ == left@,
            right_chars@ == right@,
            place <= left@.len(),
            place <= right@.len(),
            left@.take(place as int) == right@.take(place as int),
        decreases left@.len() - place,
    {
        if left_chars[place] != right_chars[place] {
            proof {
                lemma_comes_before_from(left@, right@, place as int);
                if left@[place as int] as u32 == right@[place as int] as u32 {
                    lemma_char_code_injective(left@[place as int], right@[place as int]);
                }
            }
            return (left_chars[place] as u32) < (right_chars[place] as u32);
        }
        assert(left@.take(place + 1) =~= left@.take(place as int).push(left@[place as int]));
        assert(right@.take(place + 1) =~= right@.take(place as int).push(right@[place as int]));
        place += 1;
    }
    proof {
        lemma_comes_before_from(left@, right@, place as int);
    }
    place < right_chars.len()
}

/// Different characters have different numbers.
pub proof fn lemma_char_code_injective(left: char, right: char)
    requires
        left as u32 == right as u32,
    ensures
        left == right,
{
}

/// No text comes before itself.
pub proof fn law_comes_before_irreflexive(text: Seq<char>)
    ensures
        !comes_before(text, text),
    decreases text.len(),
{
    if text.len() > 0 {
        law_comes_before_irreflexive(text.skip(1));
    }
}

/// Texts order transitively.
pub proof fn law_comes_before_transitive(first: Seq<char>, second: Seq<char>, third: Seq<char>)
    requires
        comes_before(first, second),
        comes_before(second, third),
    ensures
        comes_before(first, third),
    decreases first.len(),
{
    if first.len() > 0 && second.len() > 0 && third.len() > 0 {
        if first[0] == second[0] && second[0] == third[0] {
            law_comes_before_transitive(first.skip(1), second.skip(1), third.skip(1));
        }
    }
}

/// Of two different texts, one comes before the other.
pub proof fn law_comes_before_total(left: Seq<char>, right: Seq<char>)
    requires
        left != right,
    ensures
        comes_before(left, right) || comes_before(right, left),
    decreases left.len(),
{
    if left.len() == 0 {
        assert(left =~= Seq::empty());
        assert(right.len() > 0) by {
            if right.len() == 0 {
                assert(left =~= right);
            }
        }
    } else if right.len() > 0 {
        if left[0] == right[0] {
            if left.skip(1) == right.skip(1) {
                assert(left =~= seq![left[0]] + left.skip(1));
                assert(right =~= seq![right[0]] + right.skip(1));
            } else {
                law_comes_before_total(left.skip(1), right.skip(1));
            }
        } else if left[0] as u32 == right[0] as u32 {
            lemma_char_code_injective(left[0], right[0]);
        }
    }
}

/// The texts of strings.
pub open spec fn texts(strings: Seq<String>) -> Seq<Seq<char>> {
    strings.map_values(|string: String| string@)
}

/// The texts one after the other, with `separator` between them.
pub open spec fn joined_with(parts: Seq<Seq<char>>, separator: Seq<char>) -> Seq<char>
    decreases parts.len(),
{
    if parts.len() == 0 {
        Seq::empty()
    } else if parts.len() == 1 {
        parts[0]
    } else {
        joined_with(parts.drop_last(), separator) + separator + parts.last()
    }
}

/// Joins the strings, with `separator` between them.
pub fn join_with(parts: &[String], separator: &str) -> (text: String)
    ensures
        text@ == joined_with(texts(parts@), separator@),
{
    if parts.len() == 0 {
        let empty = String::new();
        assert(empty@ =~= joined_with(texts(parts@), separator@));
        return empty;
    }
    let mut text = joined(parts[0].as_str(), "");
    let mut index: usize = 1;
    proof {
        reveal_strlit("");
        assert(texts(parts@).take(1) =~= seq![parts@[0]@]);
        assert(text@ =~= joined_with(texts(parts@).take(1), separator@));
    }
    while index < parts.len()
        invariant
            1 <= index <= parts@.len(),
            text@ == joined_with(texts(parts@).take(index as int), separator@),
        decreases parts@.len() - index,
    {
        let separated = joined(text.as_str(), separator);
        text = joined(separated.as_str(), parts[index].as_str());
        index += 1;
        proof {
            let longer = texts(parts@).take(index as int);
            assert(longer.drop_last() =~= texts(parts@).take(index - 1));
            assert(longer.last() == parts@[index - 1]@);
        }
    }
    assert(texts(parts@).take(index as int) =~= texts(parts@));
    text
}

} // verus!
