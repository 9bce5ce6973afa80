//! The display locale of user-facing messages.

use vstd::prelude::*;

use crate::images::{ascii_lowercase, equal_ignoring_ascii_case, lowercase_ascii};

verus! {

/// Languages of the messages shown to the user.
#[derive(Clone, Copy, Debug, PartialEq, Eq, Structural)]
pub enum Locale {
    En,
    Ja,
}

pub open spec fn is_locale_separator(c: char) -> bool {
    c == '-' || c == '_' || c == '.' || c == '@'
}

/// The language part of a locale name: everything before the first `-`,
/// `_`, `.` or `@`.
pub open spec fn language_part(locale: Seq<char>) -> Seq<char> {
    if exists|i: int| 0 <= i < locale.len() && is_locale_separator(#[trigger] locale[i]) {
        let first = choose|i: int|
            0 <= i < locale.len() && is_locale_separator(#[trigger] locale[i]) && forall|j: int|
                0 <= j < i ==> !is_locale_separator(#[trigger] locale[j]);
        locale.take(first)
    } else {
        locale
    }
}

/// The supported locale that a system locale name designates, whatever the
/// case of its letters.
pub open spec fn system_locale_of(locale: Seq<char>) -> Option<Locale> {
    if equal_ignoring_ascii_case(language_part(locale), "ja"@) {
        Some(Locale::Ja)
    } else if equal_ignoring_ascii_case(language_part(locale), "en"@) {
        Some(Locale::En)
    } else {
        None
    }
}

impl Locale {
    /// The name of the locale in the message catalogues.
    pub fn as_str(self) -> (name: &'static str)
        ensures
            name@ == (match self {
                Locale::En => "en"@,
                Locale::Ja => "ja"@,
            }),
    {
        match self {
            Self::En => "en",
            Self::Ja => "ja",
        }
    }

    /// The supported locale of a system locale name such as `ja_JP.UTF-8`.
    pub fn from_system_locale(locale: &str) -> (found: Option<Self>)
        ensures
            found == system_locale_of(locale@),
    {
        let length = locale.unicode_len();
        let mut end: usize = 0;
        while end < length && !is_separator(locale.get_char(end))
            invariant
                length == locale@.len(),
                end <= length,
                forall|j: int| 0 <= j < end ==> !is_locale_separator(#[trigger] locale@[j]),
            decreases length - end,
        {
            end = end + 1;
        }
        proof {
            if end < length {
                let first = choose|i: int|
                    0 <= i < locale@.len() && is_locale_separator(#[trigger] locale@[i])
                        && forall|j: int| 0 <= j < i ==> !is_locale_separator(#[trigger] locale@[j]);
                assert(is_locale_separator(locale@[end as int]));
                if first < end {
                    assert(!is_locale_separator(locale@[first]));
                }
                if first > end {
                    assert(!is_locale_separator(locale@[end as int]));
                }
                assert(language_part(locale@) == locale@.take(end as int));
            } else {
                assert(locale@.take(end as int) =~= locale@);
            }
        }
        proof {
            reveal_strlit("ja");
            reveal_strlit("en");
        }
        if prefix_equals_ignoring_ascii_case(locale, end, "ja") {
            Some(Self::Ja)
        } else if prefix_equals_ignoring_ascii_case(locale, end, "en") {
            Some(Self::En)
        } else {
            None
        }
    }
}

fn is_separator(c: char) -> (separator: bool)
    ensures
        separator == is_locale_separator(c),
{
    c == '-' || c == '_' || c == '.' || c == '@'
}

/// Compares the first `length` characters of `text` with the lowercase ASCII
/// word `word`, ignoring ASCII case.
fn prefix_equals_ignoring_ascii_case(text: &str, length: usize, word: &str) -> (equal: bool)
    requires
        length <= text@.len(),
        forall|i: int| 0 <= i < word@.len() ==> ascii_lowercase(#[trigger] word@[i]) == word@[i],
    ensures
        equal == equal_ignoring_ascii_case(text@.take(length as int), word@),
{
    if length != word.unicode_len() {
        return false;
    }
    let mut index: usize = 0;
    while index < length
        invariant
            length <= text@.len(),
            length == word@.len(),
            index <= length,
            forall|i: int| 0 <= i < word@.len() ==> ascii_lowercase(#[trigger] word@[i]) == word@[i],
            forall|i: int|
                0 <= i < index ==> ascii_lowercase(#[trigger] text@[i]) == ascii_lowercase(
                    word@[i],
                ),
        decreases length - index,
    {
        let c = text.get_char(index);
        let lower = lowercase_ascii(c);
        if lower != word.get_char(index) {
            assert(text@.take(length as int)[index as int] == c);
            return false;
        }
        index = index + 1;
    }
    true
}

/// Chooses the display locale: the one the user asked for, else the system
/// locale when it is supported, else English.
pub fn resolve_locale(explicit: Option<Locale>, system_locale: Option<&str>) -> (locale: Locale)
    ensures
        locale == match explicit {
            Some(asked) => asked,
            None => match system_locale {
                Some(name) => match system_locale_of(name@) {
                    Some(found) => found,
                    None => Locale::En,
                },
                None => Locale::En,
            },
        },
{
    match explicit {
        Some(asked) => asked,
        None => match system_locale {
            Some(name) => match Locale::from_system_locale(name) {
                Some(found) => found,
                None => Locale::En,
            },
            None => Locale::En,
        },
    }
}

} // verus!
