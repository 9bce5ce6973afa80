//! Placement of pages in synthetic spreads.

use vstd::prelude::*;

use crate::format::{decimal, push_decimal};

verus! {

/// The position a viewer gives a page when it shows a synthetic spread.
///
/// Each value maps to one `rendition:page-spread-*` property of the spine.
#[derive(Clone, Copy, Debug, PartialEq, Eq, Structural)]
pub enum PagePlacement {
    Left,
    Right,
    Center,
}

/// A placement requested by the user for one page, numbered from 1.
#[derive(Clone, Copy, Debug, PartialEq, Eq, Structural)]
pub struct PageOverride {
    pub page_number: usize,
    pub placement: PagePlacement,
}

/// Why a list of placement overrides was refused.
#[derive(Clone, Copy, Debug, PartialEq, Eq, Structural)]
pub enum PageOverrideError {
    PageNumberMustBePositive,
    PageOutOfRange { page_number: usize, page_count: usize },
    DuplicatePageNumber { page_number: usize },
}

/// The English description of an error, for callers that do not localize.
pub open spec fn page_override_error_text(error: PageOverrideError) -> Seq<char> {
    match error {
        PageOverrideError::PageNumberMustBePositive => "page override numbers must be at least 1"@,
        PageOverrideError::PageOutOfRange { page_number, page_count } => "page override "@
            + decimal(page_number as nat) + " is outside the available page range 1..="@ + decimal(
            page_count as nat,
        ),
        PageOverrideError::DuplicatePageNumber { page_number } => "page override "@ + decimal(
            page_number as nat,
        ) + " is specified more than once"@,
    }
}

impl PageOverrideError {
    /// Describes the error in English.
    pub fn message(&self) -> (text: String)
        ensures
            text@ == page_override_error_text(*self),
    {
        match *self {
            PageOverrideError::PageNumberMustBePositive => {
                "page override numbers must be at least 1".to_owned()
            },
            PageOverrideError::PageOutOfRange { page_number, page_count } => {
                let mut text = "page override ".to_owned();
                push_decimal(&mut text, page_number);
                text.append(" is outside the available page range 1..=");
                push_decimal(&mut text, page_count);
                text
            },
            PageOverrideError::DuplicatePageNumber { page_number } => {
                let mut text = "page override ".to_owned();
                push_decimal(&mut text, page_number);
                text.append(" is specified more than once");
                text
            },
        }
    }
}

/// Placement of the page at `page_index` (from 0) when nothing is overridden:
/// the cover is centered, then right and left alternate.
pub open spec fn default_placement(page_index: int) -> PagePlacement {
    if page_index == 0 {
        PagePlacement::Center
    } else if page_index % 2 == 1 {
        PagePlacement::Right
    } else {
        PagePlacement::Left
    }
}

/// The other side of a spread; a center placement continues on the right.
pub open spec fn opposite_placement(placement: PagePlacement) -> PagePlacement {
    match placement {
        PagePlacement::Left => PagePlacement::Right,
        PagePlacement::Right => PagePlacement::Left,
        PagePlacement::Center => PagePlacement::Right,
    }
}

/// The error that override `k` raises, given the overrides before it.
pub open spec fn override_error_at(
    page_count: int,
    overrides: Seq<PageOverride>,
    k: int,
) -> Option<PageOverrideError> {
    let page_number = overrides[k].page_number;
    if page_number == 0 {
        Some(PageOverrideError::PageNumberMustBePositive)
    } else if page_number > page_count {
        Some(
            PageOverrideError::PageOutOfRange {
                page_number: page_number,
                page_count: page_count as usize,
            },
        )
    } else if exists|j: int| 0 <= j < k && overrides[j].page_number == page_number {
        Some(PageOverrideError::DuplicatePageNumber { page_number: page_number })
    } else {
        None
    }
}

/// The first error met when the overrides are checked in the given order.
pub open spec fn first_override_error(
    page_count: int,
    overrides: Seq<PageOverride>,
) -> Option<PageOverrideError>
    decreases overrides.len(),
{
    if overrides.len() == 0 {
        None
    } else {
        match first_override_error(page_count, overrides.drop_last()) {
            Some(error) => Some(error),
            None => override_error_at(page_count, overrides, overrides.len() - 1),
        }
    }
}

/// The placement requested for the page at `page_index`, if any override names it.
pub open spec fn requested_placement(
    overrides: Seq<PageOverride>,
    page_index: int,
) -> Option<PagePlacement> {
    if exists|k: int| 0 <= k < overrides.len() && overrides[k].page_number == page_index + 1 {
        let k = choose|k: int|
            0 <= k < overrides.len() && overrides[k].page_number == page_index + 1;
        Some(overrides[k].placement)
    } else {
        None
    }
}

/// The automatic placement that page `page_index` (at least 1) receives when it
/// is not overridden: right after the cover, then alternating, and right again
/// after every page that ends up centered.
pub open spec fn automatic_placement(
    requested: spec_fn(int) -> Option<PagePlacement>,
    page_index: int,
) -> PagePlacement
    decreases page_index,
{
    if page_index <= 1 {
        PagePlacement::Right
    } else {
        let previous = page_index - 1;
        let previous_default = automatic_placement(requested, previous);
        let previous_final = match requested(previous) {
            Some(placement) => placement,
            None => previous_default,
        };
        if previous_final == PagePlacement::Center {
            PagePlacement::Right
        } else {
            opposite_placement(previous_default)
        }
    }
}

/// The final placement of page `page_index` given the requested placements.
pub open spec fn resolved_placement(
    requested: spec_fn(int) -> Option<PagePlacement>,
    page_index: int,
) -> PagePlacement {
    match requested(page_index) {
        Some(placement) => placement,
        None => if page_index == 0 {
            PagePlacement::Center
        } else {
            automatic_placement(requested, page_index)
        },
    }
}

/// The requested placements of a list of overrides, as a function of the page index.
pub open spec fn requests_of(overrides: Seq<PageOverride>) -> spec_fn(int) -> Option<PagePlacement> {
    |page_index: int| requested_placement(overrides, page_index)
}

/// Returns the default placement of the page at `page_index`, counted from 0.
pub fn default_page_placement(page_index: usize) -> (placement: PagePlacement)
    ensures
        placement == default_placement(page_index as int),
{
    if page_index == 0 {
        PagePlacement::Center
    } else if page_index % 2 == 1 {
        PagePlacement::Right
    } else {
        PagePlacement::Left
    }
}

/// Switches the automatic placement between right and left.
fn opposite_page_placement(placement: PagePlacement) -> (opposite: PagePlacement)
    ensures
        opposite == opposite_placement(placement),
{
    match placement {
        PagePlacement::Left => PagePlacement::Right,
        PagePlacement::Right => PagePlacement::Left,
        PagePlacement::Center => PagePlacement::Right,
    }
}


/// An error of an earlier part of the overrides is the error of the whole list.
proof fn lemma_prefix_error(page_count: int, overrides: Seq<PageOverride>, m: int)
    requires
        0 <= m <= overrides.len(),
        first_override_error(page_count, overrides.take(m)) is Some,
    ensures
        first_override_error(page_count, overrides) == first_override_error(
            page_count,
            overrides.take(m),
        ),
    decreases overrides.len() - m,
{
    if m == overrides.len() {
        assert(overrides.take(m) =~= overrides);
    } else {
        let shorter = overrides.drop_last();
        assert(shorter.take(m) =~= overrides.take(m));
        lemma_prefix_error(page_count, shorter, m);
    }
}

/// Checking override `k` looks only at the overrides up to `k`.
proof fn lemma_error_at_prefix(page_count: int, overrides: Seq<PageOverride>, k: int)
    requires
        0 <= k < overrides.len(),
    ensures
        override_error_at(page_count, overrides.take(k + 1), k) == override_error_at(
            page_count,
            overrides,
            k,
        ),
{
    let prefix = overrides.take(k + 1);
    assert forall|j: int| 0 <= j <= k implies prefix[j] == overrides[j] by {}
}

/// Applies the user's overrides to the default placements and returns the
/// final placement of every page.
///
/// A page that ends up centered makes the next automatic page a right page;
/// left and right overrides do not shift the following automatic placements.
pub fn resolve_page_placements(page_count: usize, overrides: &[PageOverride]) -> (result: Result<
    Vec<PagePlacement>,
    PageOverrideError,
>)
    ensures
        match result {
            Ok(placements) => {
                &&& first_override_error(page_count as int, overrides@) is None
                &&& placements@.len() == page_count
                &&& forall|i: int|
                    0 <= i < page_count ==> placements@[i] == resolved_placement(
                        requests_of(overrides@),
                        i,
                    )
            },
            Err(error) => first_override_error(page_count as int, overrides@) == Some(error),
        },
{
    let ghost all = overrides@;
    let mut override_placements: Vec<Option<PagePlacement>> = Vec::new();
    let mut n: usize = 0;
    while n < page_count
        invariant
            n <= page_count,
            override_placements@.len() == n,
            forall|i: int| 0 <= i < n ==> override_placements@[i] is None,
        decreases page_count - n,
    {
        override_placements.push(None);
        n = n + 1;
    }

    let mut k: usize = 0;
    while k < overrides.len()
        invariant
            k <= overrides.len(),
            all == overrides@,
            override_placements@.len() == page_count,
            first_override_error(page_count as int, all.take(k as int)) is None,
            forall|j: int| 0 <= j < k ==> 1 <= #[trigger] all[j].page_number <= page_count,
            forall|i: int|
                0 <= i < page_count ==> ((#[trigger] override_placements@[i]) is Some <==> exists|
                    j: int,
                | 0 <= j < k && all[j].page_number == i + 1),
            forall|i: int, j: int|
                0 <= i < page_count && 0 <= j < k && #[trigger] all[j].page_number == i + 1
                    ==> #[trigger] override_placements@[i] == Some(all[j].placement),
        decreases overrides.len() - k,
    {
        let page_override = overrides[k];
        let page_number = page_override.page_number;
        proof {
            let prefix = all.take(k + 1);
            assert(prefix.drop_last() =~= all.take(k as int));
            lemma_error_at_prefix(page_count as int, all, k as int);
            assert forall|j: int| 0 <= j < k implies prefix[j] == all[j] by {}
        }
        if page_number == 0 {
            proof {
                lemma_prefix_error(page_count as int, all, k + 1);
            }
            return Err(PageOverrideError::PageNumberMustBePositive);
        }
        let page_index = page_number - 1;
        if page_index >= page_count {
            proof {
                lemma_prefix_error(page_count as int, all, k + 1);
            }
            return Err(
                PageOverrideError::PageOutOfRange { page_number: page_number, page_count: page_count },
            );
        }
        if override_placements[page_index].is_some() {
            proof {
                lemma_prefix_error(page_count as int, all, k + 1);
            }
            return Err(PageOverrideError::DuplicatePageNumber { page_number: page_number });
        }
        proof {
            assert(!exists|j: int| 0 <= j < k && all[j].page_number == page_number);
        }
        override_placements.set(page_index, Some(page_override.placement));
        k = k + 1;
    }
    proof {
        assert(all.take(k as int) =~= all);
    }

    let ghost requested = requests_of(all);
    assert forall|i: int| 0 <= i < page_count implies #[trigger] override_placements@[i]
        == requested(i) by {
        if exists|j: int| 0 <= j < all.len() && all[j].page_number == i + 1 {
            let j = choose|j: int| 0 <= j < all.len() && all[j].page_number == i + 1;
            assert(override_placements@[i] == Some(all[j].placement));
        }
    }

    let mut placements: Vec<PagePlacement> = Vec::new();
    let mut next_automatic_placement = PagePlacement::Right;
    let mut page_index: usize = 0;
    while page_index < page_count
        invariant
            page_index <= page_count,
            override_placements@.len() == page_count,
            forall|i: int| 0 <= i < page_count ==> #[trigger] override_placements@[i] == requested(i),
            placements@.len() == page_index,
            forall|i: int|
                0 <= i < page_index ==> #[trigger] placements@[i] == resolved_placement(requested, i),
            next_automatic_placement == automatic_placement(requested, page_index as int),
        decreases page_count - page_index,
    {
        let default_placement = if page_index == 0 {
            PagePlacement::Center
        } else {
            next_automatic_placement
        };
        let placement = match override_placements[page_index] {
            Some(requested_placement) => requested_placement,
            None => default_placement,
        };
        if page_index != 0 {
            next_automatic_placement = if placement == PagePlacement::Center {
                PagePlacement::Right
            } else {
                opposite_page_placement(default_placement)
            };
        }
        placements.push(placement);
        page_index = page_index + 1;
    }
    Ok(placements)
}


/// Overrides that raise no error name pages within range, each at most once.
pub proof fn lemma_accepted_overrides_are_distinct(page_count: int, overrides: Seq<PageOverride>)
    requires
        first_override_error(page_count, overrides) is None,
    ensures
        forall|k: int|
            0 <= k < overrides.len() ==> 1 <= #[trigger] overrides[k].page_number <= page_count,
        forall|j: int, k: int|
            0 <= j < k < overrides.len() ==> #[trigger] overrides[j].page_number
                != #[trigger] overrides[k].page_number,
    decreases overrides.len(),
{
    if overrides.len() > 0 {
        let shorter = overrides.drop_last();
        lemma_accepted_overrides_are_distinct(page_count, shorter);
        let last = overrides.len() - 1;
        assert(override_error_at(page_count, overrides, last) is None);
        assert forall|j: int| 0 <= j < last implies overrides[j] == shorter[j] by {}
    }
}

/// Without overrides, every page keeps its default placement: the cover in
/// the center, then right and left in turn.
pub proof fn law_no_overrides_keeps_defaults(page_index: int)
    requires
        0 <= page_index,
    ensures
        resolved_placement(requests_of(Seq::<PageOverride>::empty()), page_index)
            == default_placement(page_index),
{
    let requested = requests_of(Seq::<PageOverride>::empty());
    assert forall|i: int| #![trigger requested(i)] requested(i) is None by {}
    if page_index > 0 {
        lemma_automatic_follows_defaults(requested, page_index);
    }
}

/// When no page from 1 on is centered before `page_index`, the automatic
/// placement of `page_index` is its default placement.
proof fn lemma_automatic_follows_defaults(
    requested: spec_fn(int) -> Option<PagePlacement>,
    page_index: int,
)
    requires
        1 <= page_index,
        forall|j: int|
            1 <= j < page_index ==> resolved_placement(requested, j) != PagePlacement::Center,
    ensures
        automatic_placement(requested, page_index) == default_placement(page_index),
    decreases page_index,
{
    if page_index > 1 {
        lemma_automatic_follows_defaults(requested, page_index - 1);
        assert(resolved_placement(requested, page_index - 1) != PagePlacement::Center);
    }
}

/// A page that an accepted override names gets exactly the requested placement;
/// overriding every page therefore gives a fully manual layout.
pub proof fn law_override_is_applied(page_count: int, overrides: Seq<PageOverride>, k: int)
    requires
        first_override_error(page_count, overrides) is None,
        0 <= k < overrides.len(),
    ensures
        resolved_placement(requests_of(overrides), overrides[k].page_number - 1)
            == overrides[k].placement,
{
    lemma_accepted_overrides_are_distinct(page_count, overrides);
    let i = overrides[k].page_number - 1;
    assert(overrides[k].page_number == i + 1);
    let chosen = choose|c: int| 0 <= c < overrides.len() && overrides[c].page_number == i + 1;
    assert(chosen == k);
}

/// The first page after a centered page that the user did not override is a
/// right page.
pub proof fn law_center_restarts_on_the_right(overrides: Seq<PageOverride>, page_index: int)
    requires
        0 <= page_index,
        resolved_placement(requests_of(overrides), page_index) == PagePlacement::Center,
        requested_placement(overrides, page_index + 1) is None,
    ensures
        resolved_placement(requests_of(overrides), page_index + 1) == PagePlacement::Right,
{
}

/// Left and right overrides do not shift the automatic placement of the pages
/// after them: while no page after the cover is centered, every page that the
/// user did not override keeps its default placement.
pub proof fn law_side_overrides_do_not_shift_defaults(overrides: Seq<PageOverride>, page_index: int)
    requires
        1 <= page_index,
        forall|k: int|
            0 <= k < overrides.len() && overrides[k].page_number >= 2 ==> #[trigger] overrides[k].placement
                != PagePlacement::Center,
        requested_placement(overrides, page_index) is None,
    ensures
        resolved_placement(requests_of(overrides), page_index) == default_placement(page_index),
{
    let requested = requests_of(overrides);
    assert forall|j: int| 1 <= j < page_index implies resolved_placement(requested, j)
        != PagePlacement::Center by {
        lemma_no_center_after_cover(overrides, j);
    }
    lemma_automatic_follows_defaults(requested, page_index);
}

/// The automatic placement is always a side of a spread.
proof fn lemma_automatic_is_a_side(requested: spec_fn(int) -> Option<PagePlacement>, page_index: int)
    ensures
        automatic_placement(requested, page_index) != PagePlacement::Center,
{
}

/// Two requests that differ at most on one page, where neither centers it,
/// give every page the same automatic placement.
proof fn lemma_automatic_ignores_side_requests(
    first: spec_fn(int) -> Option<PagePlacement>,
    second: spec_fn(int) -> Option<PagePlacement>,
    changed: int,
    page_index: int,
)
    requires
        forall|j: int| j != changed ==> #[trigger] first(j) == second(j),
        first(changed) != Some(PagePlacement::Center),
        second(changed) != Some(PagePlacement::Center),
    ensures
        automatic_placement(first, page_index) == automatic_placement(second, page_index),
    decreases page_index,
{
    if page_index > 1 {
        let previous = page_index - 1;
        lemma_automatic_ignores_side_requests(first, second, changed, previous);
        lemma_automatic_is_a_side(first, previous);
        lemma_automatic_is_a_side(second, previous);
        if previous != changed {
            assert(first(previous) == second(previous));
        }
    }
}

/// What an accepted list of overrides requests once one more override, for a
/// page that no override names, is added at its end.
proof fn lemma_requests_after_adding(
    page_count: int,
    overrides: Seq<PageOverride>,
    added: PageOverride,
    page_index: int,
)
    requires
        first_override_error(page_count, overrides) is None,
        1 <= added.page_number <= page_count,
        forall|k: int| 0 <= k < overrides.len() ==> #[trigger] overrides[k].page_number != added.page_number,
    ensures
        first_override_error(page_count, overrides.push(added)) is None,
        requested_placement(overrides.push(added), page_index) == if page_index
            == added.page_number - 1 {
            Some(added.placement)
        } else {
            requested_placement(overrides, page_index)
        },
{
    let all = overrides.push(added);
    let last = overrides.len() as int;
    assert(all.drop_last() =~= overrides);
    assert forall|j: int| 0 <= j < last implies all[j] == overrides[j] by {}
    assert(override_error_at(page_count, all, last) is None);
    lemma_accepted_overrides_are_distinct(page_count, all);
    if page_index == added.page_number - 1 {
        assert(all[last].page_number == page_index + 1);
        let k = choose|k: int| 0 <= k < all.len() && all[k].page_number == page_index + 1;
        assert(k == last);
    } else if exists|k: int| 0 <= k < overrides.len() && overrides[k].page_number == page_index + 1 {
        let old_k = choose|k: int|
            0 <= k < overrides.len() && overrides[k].page_number == page_index + 1;
        assert(all[old_k].page_number == page_index + 1);
        let new_k = choose|k: int| 0 <= k < all.len() && all[k].page_number == page_index + 1;
        assert(new_k == old_k);
    } else {
        assert forall|k: int| 0 <= k < all.len() implies all[k].page_number != page_index + 1 by {
            if k < last {
                assert(all[k] == overrides[k]);
            }
        }
    }
}

/// Adding a left or right override for a page that no override names changes
/// that page alone: it gets the requested placement and every other page
/// keeps the placement it had.
pub proof fn law_side_override_changes_only_its_page(
    page_count: int,
    overrides: Seq<PageOverride>,
    added: PageOverride,
    page_index: int,
)
    requires
        first_override_error(page_count, overrides) is None,
        1 <= added.page_number <= page_count,
        forall|k: int| 0 <= k < overrides.len() ==> #[trigger] overrides[k].page_number != added.page_number,
        added.placement != PagePlacement::Center,
        0 <= page_index < page_count,
    ensures
        first_override_error(page_count, overrides.push(added)) is None,
        resolved_placement(requests_of(overrides.push(added)), page_index) == if page_index
            == added.page_number - 1 {
            added.placement
        } else {
            resolved_placement(requests_of(overrides), page_index)
        },
{
    let before = requests_of(overrides);
    let after = requests_of(overrides.push(added));
    let changed = added.page_number - 1;
    assert forall|j: int| j != changed implies #[trigger] before(j) == after(j) by {
        lemma_requests_after_adding(page_count, overrides, added, j);
    }
    lemma_requests_after_adding(page_count, overrides, added, changed);
    lemma_requests_after_adding(page_count, overrides, added, page_index);
    lemma_automatic_ignores_side_requests(before, after, changed, page_index);
}

/// Helper of the law above: pages after the cover are never centered when no
/// override after the cover asks for it.
proof fn lemma_no_center_after_cover(overrides: Seq<PageOverride>, page_index: int)
    requires
        1 <= page_index,
        forall|k: int|
            0 <= k < overrides.len() && overrides[k].page_number >= 2 ==> #[trigger] overrides[k].placement
                != PagePlacement::Center,
    ensures
        resolved_placement(requests_of(overrides), page_index) != PagePlacement::Center,
    decreases page_index,
{
    let requested = requests_of(overrides);
    if requested(page_index) is Some {
        let k = choose|k: int|
            0 <= k < overrides.len() && overrides[k].page_number == page_index + 1;
        assert(overrides[k].placement != PagePlacement::Center);
    } else if page_index > 1 {
        lemma_no_center_after_cover(overrides, page_index - 1);
    }
}

} // verus!
