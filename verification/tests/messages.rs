use manga2epub::{DocumentError, InvalidImageReason, MetadataError, PageOverrideError, TocError};

#[test]
fn describes_metadata_errors_in_english() {
    assert_eq!(MetadataError::EmptyTitle.message(), "title must not be empty");
    assert_eq!(
        MetadataError::EmptyCreatorAlternateScriptLanguage.message(),
        "creator alternate-script language must not be empty"
    );
    assert_eq!(
        MetadataError::InvalidDate.message(),
        "date must use YYYY-MM-DD or an RFC 3339 date-time"
    );
}

#[test]
fn describes_page_override_errors_with_their_numbers() {
    assert_eq!(
        PageOverrideError::PageNumberMustBePositive.message(),
        "page override numbers must be at least 1"
    );
    assert_eq!(
        PageOverrideError::PageOutOfRange {
            page_number: 12,
            page_count: 3
        }
        .message(),
        "page override 12 is outside the available page range 1..=3"
    );
    assert_eq!(
        PageOverrideError::DuplicatePageNumber { page_number: 0 }.message(),
        "page override 0 is specified more than once"
    );
}

#[test]
fn describes_table_of_contents_and_document_errors() {
    assert_eq!(
        TocError::PageOutOfRange {
            page_number: 7,
            page_count: 150
        }
        .message(),
        "table of contents page number 7 exceeds page count 150"
    );
    assert_eq!(
        TocError::EmptyLabel.message(),
        "table of contents label must not be empty"
    );
    assert_eq!(
        DocumentError::PagePlacementCountMismatch {
            image_count: 2,
            placement_count: 10
        }
        .message(),
        "cannot generate documents for 2 images with 10 page placements"
    );
    assert_eq!(
        DocumentError::InvalidToc(TocError::PageNumberMustBePositive).message(),
        "table of contents page number must be at least 1"
    );
    assert_eq!(
        DocumentError::NoPages.message(),
        "cannot generate EPUB documents without pages"
    );
    assert_eq!(
        InvalidImageReason::InvalidDimensions.message(),
        "image dimensions must be greater than zero"
    );
}
