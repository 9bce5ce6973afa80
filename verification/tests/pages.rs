use manga2epub::{
    default_page_placement, resolve_page_placements, PageOverride, PageOverrideError,
    PagePlacement,
};

#[test]
fn places_the_cover_in_the_center() {
    assert_eq!(default_page_placement(0), PagePlacement::Center);
}

#[test]
fn alternates_right_and_left_after_the_cover() {
    let placements = (0..4).map(default_page_placement).collect::<Vec<_>>();

    assert_eq!(
        placements,
        vec![
            PagePlacement::Center,
            PagePlacement::Right,
            PagePlacement::Left,
            PagePlacement::Right,
        ]
    );
}

#[test]
fn restarts_automatic_page_placement_after_a_center_override() {
    let placements = resolve_page_placements(
        6,
        &[PageOverride {
            page_number: 4,
            placement: PagePlacement::Center,
        }],
    )
    .unwrap();

    assert_eq!(
        placements,
        vec![
            PagePlacement::Center,
            PagePlacement::Right,
            PagePlacement::Left,
            PagePlacement::Center,
            PagePlacement::Right,
            PagePlacement::Left,
        ]
    );
}

#[test]
fn does_not_shift_following_page_placements_after_a_left_or_right_override() {
    let placements = resolve_page_placements(
        6,
        &[
            PageOverride {
                page_number: 2,
                placement: PagePlacement::Left,
            },
            PageOverride {
                page_number: 3,
                placement: PagePlacement::Right,
            },
        ],
    )
    .unwrap();

    assert_eq!(
        placements,
        vec![
            PagePlacement::Center,
            PagePlacement::Left,
            PagePlacement::Right,
            PagePlacement::Right,
            PagePlacement::Left,
            PagePlacement::Right,
        ]
    );
}

#[test]
fn applies_overrides_for_every_page() {
    let placements = resolve_page_placements(
        3,
        &[
            PageOverride {
                page_number: 1,
                placement: PagePlacement::Left,
            },
            PageOverride {
                page_number: 2,
                placement: PagePlacement::Center,
            },
            PageOverride {
                page_number: 3,
                placement: PagePlacement::Right,
            },
        ],
    )
    .unwrap();

    assert_eq!(
        placements,
        vec![
            PagePlacement::Left,
            PagePlacement::Center,
            PagePlacement::Right,
        ]
    );
}

#[test]
fn pages_rejects_page_number_zero() {
    let error = resolve_page_placements(
        3,
        &[PageOverride {
            page_number: 0,
            placement: PagePlacement::Center,
        }],
    )
    .unwrap_err();

    assert_eq!(error, PageOverrideError::PageNumberMustBePositive);
}

#[test]
fn rejects_a_page_number_outside_the_available_range() {
    let error = resolve_page_placements(
        3,
        &[PageOverride {
            page_number: 4,
            placement: PagePlacement::Center,
        }],
    )
    .unwrap_err();

    assert_eq!(
        error,
        PageOverrideError::PageOutOfRange {
            page_number: 4,
            page_count: 3,
        }
    );
}

#[test]
fn rejects_duplicate_page_overrides() {
    let error = resolve_page_placements(
        3,
        &[
            PageOverride {
                page_number: 2,
                placement: PagePlacement::Left,
            },
            PageOverride {
                page_number: 2,
                placement: PagePlacement::Center,
            },
        ],
    )
    .unwrap_err();

    assert_eq!(
        error,
        PageOverrideError::DuplicatePageNumber { page_number: 2 }
    );
}

#[test]
fn no_overrides_give_the_default_placement_of_every_page() {
    let placements = resolve_page_placements(9, &[]).unwrap();
    let defaults = (0..9).map(default_page_placement).collect::<Vec<_>>();
    assert_eq!(placements, defaults);
}

#[test]
fn an_empty_book_has_no_placements() {
    assert_eq!(resolve_page_placements(0, &[]).unwrap(), Vec::new());
}

#[test]
fn a_center_cover_override_keeps_the_right_page_next() {
    let placements = resolve_page_placements(
        3,
        &[PageOverride {
            page_number: 1,
            placement: PagePlacement::Center,
        }],
    )
    .unwrap();
    assert_eq!(
        placements,
        vec![
            PagePlacement::Center,
            PagePlacement::Right,
            PagePlacement::Left
        ]
    );
}

#[test]
fn the_first_invalid_override_decides_the_error() {
    let error = resolve_page_placements(
        3,
        &[
            PageOverride {
                page_number: 5,
                placement: PagePlacement::Left,
            },
            PageOverride {
                page_number: 0,
                placement: PagePlacement::Left,
            },
        ],
    )
    .unwrap_err();
    assert_eq!(
        error,
        PageOverrideError::PageOutOfRange {
            page_number: 5,
            page_count: 3
        }
    );
}

#[test]
fn consecutive_center_pages_each_restart_on_the_right() {
    let placements = resolve_page_placements(
        6,
        &[
            PageOverride {
                page_number: 2,
                placement: PagePlacement::Center,
            },
            PageOverride {
                page_number: 3,
                placement: PagePlacement::Center,
            },
        ],
    )
    .unwrap();
    assert_eq!(
        placements,
        vec![
            PagePlacement::Center,
            PagePlacement::Center,
            PagePlacement::Center,
            PagePlacement::Right,
            PagePlacement::Left,
            PagePlacement::Right,
        ]
    );
}

#[test]
fn adding_a_side_override_changes_only_its_page() {
    let base = vec![
        PageOverride {
            page_number: 3,
            placement: PagePlacement::Center,
        },
        PageOverride {
            page_number: 6,
            placement: PagePlacement::Right,
        },
    ];
    let before = resolve_page_placements(8, &base).unwrap();
    for page_number in [1, 2, 4, 5, 7, 8] {
        for placement in [PagePlacement::Left, PagePlacement::Right] {
            let mut overrides = base.clone();
            overrides.push(PageOverride {
                page_number,
                placement,
            });
            let after = resolve_page_placements(8, &overrides).unwrap();
            for index in 0..8 {
                if index == page_number - 1 {
                    assert_eq!(after[index], placement);
                } else {
                    assert_eq!(after[index], before[index]);
                }
            }
        }
    }
}
