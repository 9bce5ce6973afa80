//! Entries of the navigation document's table of contents.

use vstd::prelude::*;

use crate::format::{decimal, push_decimal};
use crate::text::{is_blank, is_blank_text};

verus! {

/// One entry of the table of contents.
#[derive(Clone, Debug, PartialEq, Eq)]
pub struct TocEntry {
    /// The text that viewers show for the entry.
    pub label: String,
    /// The page the entry links to, numbered from 1 after the images are ordered.
    pub page_number: usize,
}

/// Why a table of contents was refused.
#[derive(Clone, Copy, Debug, PartialEq, Eq, Structural)]
pub enum TocError {
    EmptyLabel,
    PageNumberMustBePositive,
    PageOutOfRange { page_number: usize, page_count: usize },
}

/// The English description of an error, for callers that do not localize.
pub open spec fn toc_error_text(error: TocError) -> Seq<char> {
    match error {
        TocError::EmptyLabel => "table of contents label must not be empty"@,
        TocError::PageNumberMustBePositive => "table of contents page number must be at least 1"@,
        TocError::PageOutOfRange { page_number, page_count } => "table of contents page number "@
            + decimal(page_number as nat) + " exceeds page count "@ + decimal(page_count as nat),
    }
}

impl TocError {
    /// Describes the error in English.
    pub fn message(&self) -> (text: String)
        ensures
            text@ == toc_error_text(*self),
    {
        match *self {
            TocError::EmptyLabel => "table of contents label must not be empty".to_owned(),
            TocError::PageNumberMustBePositive => {
                "table of contents page number must be at least 1".to_owned()
            },
            TocError::PageOutOfRange { page_number, page_count } => {
                let mut text = "table of contents page number ".to_owned();
                push_decimal(&mut text, page_number);
                text.append(" exceeds page count ");
                push_decimal(&mut text, page_count);
                text
            },
        }
    }
}

/// The error that a single entry raises for a book of `page_count` pages.
pub open spec fn toc_entry_error(page_count: int, entry: TocEntry) -> Option<TocError> {
    if is_blank(entry.label@) {
        Some(TocError::EmptyLabel)
    } else if entry.page_number == 0 {
        Some(TocError::PageNumberMustBePositive)
    } else if entry.page_number > page_count {
        Some(
            TocError::PageOutOfRange {
                page_number: entry.page_number,
                page_count: page_count as usize,
            },
        )
    } else {
        None
    }
}

/// The error of the first entry, in order, that raises one.
pub open spec fn first_toc_error(page_count: int, entries: Seq<TocEntry>) -> Option<TocError>
    decreases entries.len(),
{
    if entries.len() == 0 {
        None
    } else {
        match toc_entry_error(page_count, entries[0]) {
            Some(error) => Some(error),
            None => first_toc_error(page_count, entries.drop_first()),
        }
    }
}

/// A table of contents is accepted exactly when no entry raises an error.
pub proof fn lemma_toc_accepted_iff_every_entry_valid(page_count: int, entries: Seq<TocEntry>)
    ensures
        first_toc_error(page_count, entries) is None <==> forall|i: int|
            0 <= i < entries.len() ==> toc_entry_error(page_count, #[trigger] entries[i]) is None,
    decreases entries.len(),
{
    if entries.len() > 0 {
        lemma_toc_accepted_iff_every_entry_valid(page_count, entries.drop_first());
        if first_toc_error(page_count, entries) is None {
            assert forall|i: int| 0 <= i < entries.len() implies toc_entry_error(
                page_count,
                #[trigger] entries[i],
            ) is None by {
                if i > 0 {
                    assert(entries[i] == entries.drop_first()[i - 1]);
                }
            }
        }
        if forall|i: int|
            0 <= i < entries.len() ==> toc_entry_error(page_count, #[trigger] entries[i]) is None {
            assert(toc_entry_error(page_count, entries[0]) is None);
            assert forall|i: int| 0 <= i < entries.drop_first().len() implies toc_entry_error(
                page_count,
                #[trigger] entries.drop_first()[i],
            ) is None by {
                assert(entries.drop_first()[i] == entries[i + 1]);
            }
        }
    }
}

/// Checks that every entry has a label and links to an existing page.
///
/// Repeated labels and several entries for one page are accepted.
pub fn validate_toc_entries(page_count: usize, entries: &[TocEntry]) -> (result: Result<
    (),
    TocError,
>)
    ensures
        match result {
            Ok(()) => first_toc_error(page_count as int, entries@) is None,
            Err(error) => first_toc_error(page_count as int, entries@) == Some(error),
        },
{
    let mut index: usize = 0;
    assert(entries@.skip(0) =~= entries@);
    while index < entries.len()
        invariant
            index <= entries.len(),
            first_toc_error(page_count as int, entries@) == first_toc_error(
                page_count as int,
                entries@.skip(index as int),
            ),
        decreases entries.len() - index,
    {
        let entry = &entries[index];
        proof {
            let rest = entries@.skip(index as int);
            assert(rest[0] == entries@[index as int]);
            assert(rest.drop_first() =~= entries@.skip(index + 1));
        }
        if is_blank_text(entry.label.as_str()) {
            return Err(TocError::EmptyLabel);
        }
        if entry.page_number == 0 {
            return Err(TocError::PageNumberMustBePositive);
        }
        if entry.page_number > page_count {
            return Err(
                TocError::PageOutOfRange { page_number: entry.page_number, page_count: page_count },
            );
        }
        index = index + 1;
    }
    proof {
        assert(entries@.skip(index as int).len() == 0);
    }
    Ok(())
}

} // verus!
