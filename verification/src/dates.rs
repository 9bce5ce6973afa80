//! Publication dates: either a calendar date `YYYY-MM-DD` or an RFC 3339
//! date-time with an offset.

use vstd::prelude::*;

verus! {

/// Whether `time::OffsetDateTime::parse` accepts `text` as an RFC 3339 date-time.
pub uninterp spec fn is_rfc3339_date_time(text: Seq<char>) -> bool;

/// Calls `time::OffsetDateTime::parse` with the RFC 3339 description and
/// reports whether it succeeded; the contract claims no more than that the
/// answer depends on the text alone.
#[verifier::external_body]
fn parses_as_rfc3339(text: &str) -> (accepted: bool)
    ensures
        accepted == is_rfc3339_date_time(text@),
{
    time::OffsetDateTime::parse(text, &time::format_description::well_known::Rfc3339).is_ok()
}

pub open spec fn is_ascii_digit(c: char) -> bool {
    '0' <= c <= '9'
}

pub open spec fn digit_value(c: char) -> int {
    (c as int) - ('0' as int)
}

/// The value of a non-empty run of decimal digits.
pub open spec fn digits_value(digits: Seq<char>) -> int
    decreases digits.len(),
{
    if digits.len() == 0 {
        0
    } else {
        digits_value(digits.drop_last()) * 10 + digit_value(digits.last())
    }
}

pub open spec fn all_digits(digits: Seq<char>) -> bool {
    forall|i: int| 0 <= i < digits.len() ==> is_ascii_digit(#[trigger] digits[i])
}

/// What `str::parse` gives for an integer without overflow: an optional `+`
/// (or `-` when `signed`) followed by at least one decimal digit.
pub open spec fn parsed_integer(text: Seq<char>, signed: bool) -> Option<int> {
    if text.len() == 0 {
        None
    } else {
        let negative = signed && text[0] == '-';
        let digits = if text[0] == '+' || negative {
            text.drop_first()
        } else {
            text
        };
        if digits.len() == 0 || !all_digits(digits) {
            None
        } else if negative {
            Some(-digits_value(digits))
        } else {
            Some(digits_value(digits))
        }
    }
}

/// Leap years of the proleptic Gregorian calendar.
pub open spec fn is_leap_year(year: int) -> bool {
    year % 4 == 0 && (year % 100 != 0 || year % 400 == 0)
}

pub open spec fn days_in_month(year: int, month: int) -> int {
    if month == 2 {
        if is_leap_year(year) {
            29
        } else {
            28
        }
    } else if month == 4 || month == 6 || month == 9 || month == 11 {
        30
    } else {
        31
    }
}

/// Whether `time::Date::from_calendar_date` accepts the components: a year
/// within -9999..=9999, a month from 1 to 12 and a day within the month.
pub open spec fn is_calendar_date(year: int, month: int, day: int) -> bool {
    &&& -9999 <= year <= 9999
    &&& 1 <= month <= 12
    &&& 1 <= day <= days_in_month(year, month)
}

/// A date written `YYYY-MM-DD` (ten ASCII characters) that names an existing day.
pub open spec fn is_plain_calendar_date(text: Seq<char>) -> bool {
    &&& text.len() == 10
    &&& vstd::utf8::is_ascii_chars(text)
    &&& text[4] == '-'
    &&& text[7] == '-'
    &&& parsed_integer(text.subrange(0, 4), true) is Some
    &&& parsed_integer(text.subrange(5, 7), false) is Some
    &&& parsed_integer(text.subrange(8, 10), false) is Some
    &&& is_calendar_date(
        parsed_integer(text.subrange(0, 4), true).unwrap(),
        parsed_integer(text.subrange(5, 7), false).unwrap(),
        parsed_integer(text.subrange(8, 10), false).unwrap(),
    )
}

/// The publication dates the library accepts.
pub open spec fn is_publication_date(text: Seq<char>) -> bool {
    is_rfc3339_date_time(text) || is_plain_calendar_date(text)
}

/// Parses the characters `text[start..end]` as `str::parse` would parse an
/// integer of at most four characters.
fn parse_short_integer(text: &str, start: usize, end: usize, signed: bool) -> (value: Option<i32>)
    requires
        start < end <= text@.len(),
        end - start <= 4,
    ensures
        match value {
            Some(v) => parsed_integer(text@.subrange(start as int, end as int), signed) == Some(
                v as int,
            ),
            None => parsed_integer(text@.subrange(start as int, end as int), signed) is None,
        },
{
    let ghost part = text@.subrange(start as int, end as int);
    let first = text.get_char(start);
    let negative = signed && first == '-';
    let mut position = start;
    if first == '+' || negative {
        position = start + 1;
    }
    let ghost digits = text@.subrange(position as int, end as int);
    proof {
        if first == '+' || negative {
            assert(digits =~= part.drop_first());
        } else {
            assert(digits =~= part);
        }
    }
    if position == end {
        return None;
    }
    let mut total: i32 = 0;
    let mut index = position;
    while index < end
        invariant
            start <= position <= index <= end <= text@.len(),
            end - start <= 4,
            part == text@.subrange(start as int, end as int),
            first == part[0],
            negative == (signed && first == '-'),
            (first == '+' || negative) ==> digits == part.drop_first(),
            !(first == '+' || negative) ==> digits == part,
            digits == text@.subrange(position as int, end as int),
            all_digits(text@.subrange(position as int, index as int)),
            total as int == digits_value(text@.subrange(position as int, index as int)),
            0 <= total < 10000,
            total < pow10((index - position) as nat),
        decreases end - index,
    {
        let c = text.get_char(index);
        if !('0' <= c && c <= '9') {
            proof {
                assert(digits[index - position] == c);
            }
            return None;
        }
        proof {
            let before = text@.subrange(position as int, index as int);
            let after = text@.subrange(position as int, index + 1);
            assert(after.drop_last() =~= before);
            assert(after.last() == c);
            assert(pow10((index + 1 - position) as nat) == 10 * pow10((index - position) as nat));
            assert(index + 1 - position <= 4);
            lemma_pow10_bound((index + 1 - position) as nat);
        }
        let d = (c as u32 - '0' as u32) as i32;
        total = total * 10 + d;
        index = index + 1;
    }
    if negative {
        Some(-total)
    } else {
        Some(total)
    }
}

pub open spec fn pow10(n: nat) -> int
    decreases n,
{
    if n == 0 {
        1
    } else {
        10 * pow10((n - 1) as nat)
    }
}

proof fn lemma_pow10_bound(n: nat)
    requires
        n <= 4,
    ensures
        pow10(n) <= 10000,
{
    reveal_with_fuel(pow10, 5);
}

/// Whether the Gregorian calendar has the given day.
fn calendar_date_exists(year: i32, month: i32, day: i32) -> (exists: bool)
    ensures
        exists == is_calendar_date(year as int, month as int, day as int),
{
    if year < -9999 || year > 9999 || month < 1 || month > 12 || day < 1 {
        return false;
    }
    let leap = year % 4 == 0 && (year % 100 != 0 || year % 400 == 0);
    proof {
        assert(leap == is_leap_year(year as int)) by (nonlinear_arith)
            requires
                -9999 <= year <= 9999,
                leap == (year % 4 == 0 && (year % 100 != 0 || year % 400 == 0)),
        {
        }
    }
    let days = if month == 2 {
        if leap {
            29
        } else {
            28
        }
    } else if month == 4 || month == 6 || month == 9 || month == 11 {
        30
    } else {
        31
    };
    day <= days
}

/// Decides whether a publication date is accepted, given whether `time`
/// parses it as an RFC 3339 date-time: it is, or it is a `YYYY-MM-DD` date
/// that the Gregorian calendar has.
pub fn accepts_publication_date(value: &str, rfc3339: bool) -> (valid: bool)
    ensures
        valid == (rfc3339 || is_plain_calendar_date(value@)),
{
    if rfc3339 {
        return true;
    }
    if !value.is_ascii() {
        return false;
    }
    // For ASCII text the byte length that `str::len` reports is the number of characters.
    if value.unicode_len() != 10 {
        return false;
    }
    if value.get_char(4) != '-' || value.get_char(7) != '-' {
        return false;
    }
    let year = match parse_short_integer(value, 0, 4, true) {
        Some(year) => year,
        None => return false,
    };
    let month = match parse_short_integer(value, 5, 7, false) {
        Some(month) => month,
        None => return false,
    };
    let day = match parse_short_integer(value, 8, 10, false) {
        Some(day) => day,
        None => return false,
    };
    calendar_date_exists(year, month, day)
}

/// Checks that a publication date is `YYYY-MM-DD` or an RFC 3339 date-time.
pub fn is_valid_date(value: &str) -> (valid: bool)
    ensures
        valid == is_publication_date(value@),
{
    let rfc3339 = parses_as_rfc3339(value);
    accepts_publication_date(value, rfc3339)
}

/// The Gregorian calendar: a day exists exactly when its year is within
/// -9999..=9999,
/// its month is one of the twelve and the day is at most 31 in January,
/// March, May, July, August, October and December, at most 30 in April, June,
/// September and November, and at most 28 in February, or 29 in a year that
/// is divisible by 4 but not by 100, unless by 400.
pub proof fn law_days_of_the_gregorian_calendar(year: int, month: int, day: int)
    ensures
        is_calendar_date(year, month, day) <==> {
            &&& -9999 <= year <= 9999
            &&& 1 <= month <= 12
            &&& 1 <= day
            &&& {
                ||| day <= 28
                ||| day == 29 && (month != 2 || (year % 4 == 0 && (year % 100 != 0 || year % 400
                    == 0)))
                ||| day == 30 && month != 2
                ||| day == 31 && (month == 1 || month == 3 || month == 5 || month == 7 || month == 8
                    || month == 10 || month == 12)
            }
        },
{
}

} // verus!
