//! Dates as days since the first day of 1970, by the Gregorian calendar.

use vstd::prelude::*;
use crate::error::{fails_unsupported, SqlError, SqlResult};
use crate::text::{chars_of, decimal_digits, decimal_text, digit_char, is_digit, joined};

verus! {

/// Whether a year has a leap day.
pub open spec fn is_leap(year: int) -> bool {
    year % 4 == 0 && (year % 100 != 0 || year % 400 == 0)
}

/// The days of a year.
pub open spec fn days_in_year(year: int) -> int {
    if is_leap(year) {
        366
    } else {
        365
    }
}

/// The leap days in the years before the given one, counted from year zero.
pub open spec fn leap_days_before(year: int) -> int {
    (year + 3) / 4 - (year + 99) / 100 + (year + 399) / 400
}

/// The first day of a year, in days since the first day of 1970.
pub open spec fn first_day_of_year(year: int) -> int {
    365 * (year - 1970) + leap_days_before(year) - leap_days_before(1970)
}

/// The days of a month.
pub open spec fn days_in_month(year: int, month: int) -> int {
    if month == 2 {
        if is_leap(year) {
            29
        } else {
            28
        }
    } else if month == 4 || month == 6 || month == 9 || month == 11 {
        30
    } else {
        31
    }
}

/// The days of a year before the given month.
pub open spec fn days_before_month(year: int, month: int) -> int
    decreases month,
{
    if month <= 1 {
        0
    } else {
        days_before_month(year, month - 1) + days_in_month(year, month - 1)
    }
}

/// Whether there is such a date.
pub open spec fn is_date(year: int, month: int, day: int) -> bool {
    1 <= month <= 12 && 1 <= day <= days_in_month(year, month)
}

/// A date in days since the first day of 1970.
pub open spec fn day_number(year: int, month: int, day: int) -> int {
    first_day_of_year(year) + days_before_month(year, month) + day - 1
}

/// A year has as many days as there are before the next.
pub proof fn law_years_follow(year: int)
    ensures
        first_day_of_year(year + 1) == first_day_of_year(year) + days_in_year(year),
{
    let quarters = (year + 4) / 4 - (year + 3) / 4;
    let centuries = (year + 100) / 100 - (year + 99) / 100;
    let fours = (year + 400) / 400 - (year + 399) / 400;
    assert(quarters == if year % 4 == 0 {
        1int
    } else {
        0
    });
    assert(centuries == if year % 100 == 0 {
        1int
    } else {
        0
    });
    assert(fours == if year % 400 == 0 {
        1int
    } else {
        0
    });
}

/// The months of a year make up its days.
pub proof fn law_months_make_a_year(year: int)
    ensures
        days_before_month(year, 13) == days_in_year(year),
{
    reveal_with_fuel(days_before_month, 14);
}

/// Later years start later.
proof fn lemma_years_ascend(earlier: int, later: int)
    requires
        earlier <= later,
    ensures
        first_day_of_year(earlier) + 365 * (later - earlier) <= first_day_of_year(later),
        first_day_of_year(later) <= first_day_of_year(earlier) + 366 * (later - earlier),
    decreases later - earlier,
{
    if earlier < later {
        lemma_years_ascend(earlier, later - 1);
        law_years_follow(later - 1);
    }
}

/// Later months start later.
proof fn lemma_months_ascend(year: int, earlier: int, later: int)
    requires
        1 <= earlier <= later,
    ensures
        0 <= days_before_month(year, earlier) <= days_before_month(year, later),
        earlier < later ==> days_before_month(year, earlier) + days_in_month(year, earlier)
            <= days_before_month(year, later),
    decreases later,
{
    if earlier < later {
        lemma_months_ascend(year, earlier, later - 1);
    } else if earlier > 1 {
        lemma_months_ascend(year, earlier - 1, earlier - 1);
    }
}

/// Different dates have different numbers, so a number names one date.
pub proof fn law_day_number_injective(
    left: (int, int, int),
    right: (int, int, int),
)
    requires
        is_date(left.0, left.1, left.2),
        is_date(right.0, right.1, right.2),
        day_number(left.0, left.1, left.2) == day_number(right.0, right.1, right.2),
    ensures
        left == right,
{
    lemma_within_year(left.0, left.1, left.2);
    lemma_within_year(right.0, right.1, right.2);
    if left.0 < right.0 {
        lemma_years_ascend(left.0 + 1, right.0);
        law_years_follow(left.0);
    } else if right.0 < left.0 {
        lemma_years_ascend(right.0 + 1, left.0);
        law_years_follow(right.0);
    } else if left.1 < right.1 {
        lemma_months_ascend(left.0, left.1, right.1);
    } else if right.1 < left.1 {
        lemma_months_ascend(left.0, right.1, left.1);
    }
}

/// A date lies within its year.
proof fn lemma_within_year(year: int, month: int, day: int)
    requires
        is_date(year, month, day),
    ensures
        0 <= days_before_month(year, month) + day - 1 < days_in_year(year),
        first_day_of_year(year) <= day_number(year, month, day) < first_day_of_year(year + 1),
{
    law_months_make_a_year(year);
    law_years_follow(year);
    lemma_months_ascend(year, 1, month);
    lemma_months_ascend(year, month, 13);
}

/// Whether a year has a leap day.
fn leap(year: i64) -> (is: bool)
    requires
        0 <= year,
    ensures
        is == is_leap(year as int),
{
    year % 4 == 0 && (year % 100 != 0 || year % 400 == 0)
}

/// The days of a month.
fn month_days(leap_year: bool, month: i64) -> (days: i64)
    ensures
        forall|year: int|
            is_leap(year) == leap_year ==> days == #[trigger] days_in_month(year, month as int),
        28 <= days <= 31,
{
    if month == 2 {
        if leap_year {
            29
        } else {
            28
        }
    } else if month == 4 || month == 6 || month == 9 || month == 11 {
        30
    } else {
        31
    }
}

/// A date in days since the first day of 1970, for years up to 9999.
///
/// A month or day that there is not is refused.
pub fn days_from_civil(year: i64, month: i64, day: i64) -> (result: SqlResult<i64>)
    requires
        0 <= year <= 9999,
    ensures
        if is_date(year as int, month as int, day as int) {
            result matches Ok(days) && days == day_number(year as int, month as int, day as int)
        } else {
            fails_unsupported(result, "invalid DATE literal"@)
        },
{
    if month < 1 || month > 12 {
        return Err(SqlError::unsupported("invalid DATE literal"));
    }
    let leap_year = leap(year);
    if day < 1 || day > month_days(leap_year, month) {
        return Err(SqlError::unsupported("invalid DATE literal"));
    }
    let mut before: i64 = 0;
    let mut passed: i64 = 1;
    while passed < month
        invariant
            1 <= passed <= month <= 12,
            leap_year == is_leap(year as int),
            before == days_before_month(year as int, passed as int),
            0 <= before <= 31 * (passed - 1),
        decreases month - passed,
    {
        before += month_days(leap_year, passed);
        passed += 1;
    }
    let leaps: i64 = (year + 3) / 4 - (year + 99) / 100 + (year + 399) / 400;
    let start: i64 = 365 * (year - 1970) + leaps - 478;
    assert(leap_days_before(1970) == 478);
    Ok(start + before + day - 1)
}

/// Whether a day lies in a year.
pub open spec fn day_in_year(days: int, year: int) -> bool {
    first_day_of_year(year) <= days < first_day_of_year(year + 1)
}

/// A day lies in one year only.
pub proof fn law_day_in_one_year(days: int, left: int, right: int)
    requires
        day_in_year(days, left),
        day_in_year(days, right),
    ensures
        left == right,
{
    if left < right {
        lemma_years_ascend(left + 1, right);
    } else if right < left {
        lemma_years_ascend(right + 1, left);
    }
}

/// The first day of a year, for years that keep it within 64 bits.
fn year_start(year: i64) -> (days: i64)
    requires
        -20_000_000 <= year <= 20_000_000,
    ensures
        days == first_day_of_year(year as int),
        -8_000_000_000 <= days <= 8_000_000_000,
{
    // Shifting by a whole number of 400-year cycles keeps every division on
    // numbers that are not negative.
    let shifted: i64 = year + 20_000_000;
    let leaps: i64 = (shifted + 3) / 4 - (shifted + 99) / 100 + (shifted + 399) / 400 - 4_850_000;
    assert((shifted + 3) / 4 == (year + 3) / 4 + 5_000_000);
    assert((shifted + 99) / 100 == (year + 99) / 100 + 200_000);
    assert((shifted + 399) / 400 == (year + 399) / 400 + 50_000);
    assert(leap_days_before(1970) == 478);
    365 * (year - 1970) + leaps - 478
}

/// The year that a day lies in.
pub fn year_of_day(days: i32) -> (year: i32)
    ensures
        day_in_year(days as int, year as int),
{
    // Counting 365 days a year is off by at most a few thousand years; from there it
    // is a walk to the right one.
    let mut year: i64 = 1970 + days as i64 / 365;
    assert(first_day_of_year(1970) == 0);
    while year_start(year) > days as i64
        invariant
            -6_100_000 <= year <= 6_100_000,
            first_day_of_year(1970) == 0,
        decreases year + 6_100_000,
    {
        proof {
            if year <= -6_000_000 {
                lemma_years_ascend(year as int, 1970);
            }
        }
        year -= 1;
    }
    while year_start(year + 1) <= days as i64
        invariant
            -6_100_000 <= year <= 6_100_000,
            first_day_of_year(year as int) <= days,
            first_day_of_year(1970) == 0,
        decreases 6_100_000 - year,
    {
        proof {
            if year >= 6_000_000 {
                lemma_years_ascend(1970, year + 1);
            }
        }
        year += 1;
    }
    proof {
        lemma_year_bounds(year as int, days as int);
    }
    year as i32
}

/// The year of a 32-bit day fits in 32 bits.
proof fn lemma_year_bounds(year: int, days: int)
    requires
        i32::MIN <= days <= i32::MAX,
        day_in_year(days, year),
    ensures
        -6_000_000 <= year <= 6_000_000,
{
    assert(first_day_of_year(1970) == 0);
    if year > 6_000_000 {
        lemma_years_ascend(1970, year);
    }
    if year < -6_000_000 {
        lemma_years_ascend(year + 1, 1970);
    }
}

/// The year, month and day that a day number names.
pub fn civil_from_days(days: i32) -> (date: (i32, i64, i64))
    ensures
        is_date(date.0 as int, date.1 as int, date.2 as int),
        day_number(date.0 as int, date.1 as int, date.2 as int) == days,
{
    let year: i32 = year_of_day(days);
    proof {
        lemma_year_bounds(year as int, days as int);
        law_years_follow(year as int);
        law_months_make_a_year(year as int);
    }
    let leap_year = year_start(year as i64 + 1) - year_start(year as i64) == 366;
    let mut rest: i64 = days as i64 - year_start(year as i64);
    let mut month: i64 = 1;
    let ghost start = first_day_of_year(year as int);
    let ghost whole = days - start;
    while month < 12
        invariant
            leap_year == is_leap(year as int),
            1 <= month <= 12,
            0 <= rest <= 366,
            whole == days_before_month(year as int, month as int) + rest,
        ensures
            1 <= month <= 12,
            0 <= rest <= 366,
            whole == days_before_month(year as int, month as int) + rest,
            month < 12 ==> rest < days_in_month(year as int, month as int),
        decreases 12 - month,
    {
        let length: i64 = month_days(leap_year, month);
        assert(length == days_in_month(year as int, month as int));
        if rest < length {
            break;
        }
        rest -= length;
        month += 1;
    }
    proof {
        if month == 12 {
            law_months_make_a_year(year as int);
            law_years_follow(year as int);
            assert(days_before_month(year as int, 13) == days_before_month(year as int, 12)
                + days_in_month(year as int, 12));
        }
    }
    (year, month, rest + 1)
}

/// Whether a text writes a date as four digits of the year, two of the month and two
/// of the day, with dashes between.
pub open spec fn is_ymd(text: Seq<char>) -> bool {
    &&& text.len() == 10
    &&& text[4] == '-'
    &&& text[7] == '-'
    &&& forall|index: int|
        0 <= index < 10 && index != 4 && index != 7 ==> is_digit(#[trigger] text[index])
}

/// The value of a digit.
pub open spec fn digit_of(character: char) -> int {
    character as int - '0' as int
}

/// The year that such a text writes.
pub open spec fn ymd_year(text: Seq<char>) -> int {
    1000 * digit_of(text[0]) + 100 * digit_of(text[1]) + 10 * digit_of(text[2]) + digit_of(text[3])
}

/// The month that such a text writes.
pub open spec fn ymd_month(text: Seq<char>) -> int {
    10 * digit_of(text[5]) + digit_of(text[6])
}

/// The day that such a text writes.
pub open spec fn ymd_day(text: Seq<char>) -> int {
    10 * digit_of(text[8]) + digit_of(text[9])
}

/// The value of a digit at a place of a text.
fn digit_at(characters: &[char], place: usize) -> (digit: i64)
    requires
        place < characters@.len(),
        is_digit(characters@[place as int]),
    ensures
        digit == digit_of(characters@[place as int]),
        0 <= digit <= 9,
{
    (characters[place] as u32 - '0' as u32) as i64
}

/// The year, month and day that a text writes.
pub fn parse_ymd(text: &str) -> (result: SqlResult<(i64, i64, i64)>)
    ensures
        if is_ymd(text@) {
            result matches Ok((year, month, day)) && year == ymd_year(text@) && month == ymd_month(
                text@,
            ) && day == ymd_day(text@) && 0 <= year <= 9999 && 0 <= month <= 99 && 0 <= day <= 99
        } else {
            fails_unsupported(result, "invalid DATE literal"@)
        },
{
    let characters = chars_of(text);
    if characters.len() != 10 || characters[4] != '-' || characters[7] != '-' {
        return Err(SqlError::unsupported("invalid DATE literal"));
    }
    let mut index: usize = 0;
    while index < 10
        invariant
            characters@ == text@,
            characters@.len() == 10,
            index <= 10,
            forall|earlier: int|
                0 <= earlier < index && earlier != 4 && earlier != 7 ==> is_digit(
                    #[trigger] text@[earlier],
                ),
        decreases 10 - index,
    {
        let character: char = characters[index];
        if index != 4 && index != 7 && !('0' <= character && character <= '9') {
            assert(!is_digit(text@[index as int]));
            return Err(SqlError::unsupported("invalid DATE literal"));
        }
        index += 1;
    }
    let digits = characters.as_slice();
    let year: i64 = 1000 * digit_at(digits, 0) + 100 * digit_at(digits, 1) + 10 * digit_at(
        digits,
        2,
    ) + digit_at(digits, 3);
    let month: i64 = 10 * digit_at(digits, 5) + digit_at(digits, 6);
    let day: i64 = 10 * digit_at(digits, 8) + digit_at(digits, 9);
    Ok((year, month, day))
}

/// The day number of a date text, `None` where it writes no date.
pub open spec fn date_text_days(text: Seq<char>) -> Option<int> {
    if is_ymd(text) && is_date(ymd_year(text), ymd_month(text), ymd_day(text)) {
        Some(day_number(ymd_year(text), ymd_month(text), ymd_day(text)))
    } else {
        None
    }
}

/// The day number of a date text.
pub fn date_days(text: &str) -> (result: SqlResult<i32>)
    ensures
        match date_text_days(text@) {
            Some(days) => result matches Ok(found) && found == days,
            None => fails_unsupported(result, "invalid DATE literal"@),
        },
{
    let (year, month, day): (i64, i64, i64) = parse_ymd(text)?;
    let days: i64 = days_from_civil(year, month, day)?;
    proof {
        lemma_within_year(year as int, month as int, day as int);
        assert(first_day_of_year(1970) == 0);
        if year >= 1970 {
            lemma_years_ascend(1970, year + 1);
        } else {
            lemma_years_ascend(year as int, 1970);
            lemma_years_ascend(year + 1, 1970);
        }
    }
    Ok(days as i32)
}

/// A number with at least the given digits.
pub open spec fn padded(number: nat, width: nat) -> Seq<char>
    decreases width,
{
    if width <= 1 {
        decimal_digits(number)
    } else {
        padded(number / 10, (width - 1) as nat).push(digit_char(number % 10))
    }
}

/// Writes a number with at least the given digits.
fn padded_text(number: u64, width: u64) -> (text: String)
    ensures
        text@ == padded(number as nat, width as nat),
    decreases width,
{
    if width <= 1 {
        decimal_text(number)
    } else {
        let digit: char = ((number % 10) as u8 + 48) as char;
        let mut text = padded_text(number / 10, width - 1);
        text.push(digit);
        text
    }
}

/// A date as it is written: the year with four places, the sign among them, then month
/// and day with two.
pub open spec fn ymd_text(year: int, month: int, day: int) -> Seq<char> {
    let years = if year < 0 {
        "-"@ + padded((-year) as nat, 3)
    } else {
        padded(year as nat, 4)
    };
    years + "-"@ + padded(month as nat, 2) + "-"@ + padded(day as nat, 2)
}

/// Writes the date of a day number.
pub fn date32_to_ymd_string(days: i32) -> (text: String)
    ensures
        exists|year: int, month: int, day: int|
            is_date(year, month, day) && day_number(year, month, day) == days && text@
                == #[trigger] ymd_text(year, month, day),
{
    let (year, month, day): (i32, i64, i64) = civil_from_days(days);
    proof {
        lemma_month_lengths(year as int, month as int);
    }
    let years = if year < 0 {
        let positive: i64 = -(year as i64);
        let digits = padded_text(positive as u64, 3);
        joined("-", digits.as_str())
    } else {
        padded_text(year as u64, 4)
    };
    let months = padded_text(month as u64, 2);
    let day_digits = padded_text(day as u64, 2);
    let first = joined(years.as_str(), "-");
    let second = joined(first.as_str(), months.as_str());
    let third = joined(second.as_str(), "-");
    let text = joined(third.as_str(), day_digits.as_str());
    assert(text@ == ymd_text(year as int, month as int, day as int));
    text
}

/// A month has from 28 to 31 days.
proof fn lemma_month_lengths(year: int, month: int)
    ensures
        0 <= days_in_month(year, month) <= 31,
{
}

proof fn lemma_padded_pair(number: nat)
    requires
        number < 100,
    ensures
        padded(number, 2).len() == 2,
        is_digit(padded(number, 2)[0]),
        is_digit(padded(number, 2)[1]),
        10 * digit_of(padded(number, 2)[0]) + digit_of(padded(number, 2)[1]) == number,
{
    reveal_with_fuel(padded, 2);
    assert(forall|digit: nat| digit < 10 ==> is_digit(#[trigger] digit_char(digit)));
    assert(forall|digit: nat| digit < 10 ==> #[trigger] digit_of(digit_char(digit)) == digit);
    assert(padded(number, 2) =~= seq![digit_char(number / 10), digit_char(number % 10)]);
}

proof fn lemma_padded_year(number: nat)
    requires
        number < 10_000,
    ensures
        ({
            let text = padded(number, 4);
            &&& text.len() == 4
            &&& forall|index: int| 0 <= index < 4 ==> is_digit(#[trigger] text[index])
            &&& 1000 * digit_of(text[0]) + 100 * digit_of(text[1]) + 10 * digit_of(text[2])
                + digit_of(text[3]) == number
        }),
{
    reveal_with_fuel(padded, 4);
    assert(forall|digit: nat| digit < 10 ==> is_digit(#[trigger] digit_char(digit)));
    assert(forall|digit: nat| digit < 10 ==> #[trigger] digit_of(digit_char(digit)) == digit);
    assert(padded(number, 4) =~= seq![
        digit_char(number / 10 / 10 / 10),
        digit_char((number / 10 / 10) % 10),
        digit_char((number / 10) % 10),
        digit_char(number % 10),
    ]);
}

/// A date that is written with a year of four digits is read back as the same day.
pub proof fn law_date_round_trip(year: int, month: int, day: int)
    requires
        is_date(year, month, day),
        0 <= year <= 9999,
    ensures
        date_text_days(ymd_text(year, month, day)) == Some(day_number(year, month, day)),
{
    lemma_month_lengths(year, month);
    lemma_padded_year(year as nat);
    lemma_padded_pair(month as nat);
    lemma_padded_pair(day as nat);
    reveal_strlit("-");
    let years = padded(year as nat, 4);
    let months = padded(month as nat, 2);
    let days = padded(day as nat, 2);
    let text = ymd_text(year, month, day);
    assert(text =~= years + seq!['-'] + months + seq!['-'] + days);
    assert(text.len() == 10);
    assert(text[0] == years[0] && text[1] == years[1] && text[2] == years[2] && text[3] == years[3]);
    assert(text[5] == months[0] && text[6] == months[1]);
    assert(text[8] == days[0] && text[9] == days[1]);
    assert forall|index: int| 0 <= index < 10 && index != 4 && index != 7 implies is_digit(
        #[trigger] text[index],
    ) by {
        if index < 4 {
            assert(text[index] == years[index]);
        }
    }
}

} // verus!
