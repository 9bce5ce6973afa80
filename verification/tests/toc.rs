use manga2epub::{validate_toc_entries, TocEntry, TocError};

#[test]
fn accepts_an_empty_table_of_contents() {
    assert_eq!(validate_toc_entries(3, &[]), Ok(()));
}

#[test]
fn accepts_duplicate_labels_and_page_numbers() {
    let entries = vec![
        TocEntry {
            label: "本編".to_owned(),
            page_number: 2,
        },
        TocEntry {
            label: "本編".to_owned(),
            page_number: 2,
        },
    ];

    assert_eq!(validate_toc_entries(3, &entries), Ok(()));
}

#[test]
fn rejects_an_empty_label() {
    let entries = vec![TocEntry {
        label: " \n\t".to_owned(),
        page_number: 1,
    }];

    assert_eq!(validate_toc_entries(1, &entries), Err(TocError::EmptyLabel));
}

#[test]
fn toc_rejects_page_number_zero() {
    let entries = vec![TocEntry {
        label: "表紙".to_owned(),
        page_number: 0,
    }];

    assert_eq!(
        validate_toc_entries(1, &entries),
        Err(TocError::PageNumberMustBePositive)
    );
}

#[test]
fn rejects_a_page_number_out_of_range() {
    let entries = vec![TocEntry {
        label: "本編".to_owned(),
        page_number: 4,
    }];

    assert_eq!(
        validate_toc_entries(3, &entries),
        Err(TocError::PageOutOfRange {
            page_number: 4,
            page_count: 3,
        })
    );
}

#[test]
fn reports_the_error_of_the_first_invalid_entry() {
    let entries = vec![
        TocEntry {
            label: "本編".to_owned(),
            page_number: 9,
        },
        TocEntry {
            label: "".to_owned(),
            page_number: 1,
        },
    ];
    assert_eq!(
        validate_toc_entries(3, &entries),
        Err(TocError::PageOutOfRange {
            page_number: 9,
            page_count: 3
        })
    );
}

#[test]
fn accepts_a_label_with_an_ideographic_space_around_text() {
    let entries = vec![TocEntry {
        label: "\u{3000}第1話\u{3000}".to_owned(),
        page_number: 3,
    }];
    assert_eq!(validate_toc_entries(3, &entries), Ok(()));
}

#[test]
fn refuses_a_label_of_ideographic_spaces_only() {
    let entries = vec![TocEntry {
        label: "\u{3000}\u{3000}".to_owned(),
        page_number: 1,
    }];
    assert_eq!(validate_toc_entries(3, &entries), Err(TocError::EmptyLabel));
}
