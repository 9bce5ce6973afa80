use manga2epub::dates::{accepts_publication_date, is_valid_date};
use manga2epub::{AlternateScript, CreatorMetadata, MetadataError, PublicationMetadata};

#[test]
fn creates_metadata_with_japanese_as_the_default_language() {
    let metadata = PublicationMetadata::new("書籍のタイトル".to_owned());

    assert_eq!(metadata.language, "ja");
    assert!(metadata.creators.is_empty());
    assert!(metadata.validate().is_ok());
}

#[test]
fn rejects_an_empty_required_or_specified_value() {
    let cases = [
        (metadata_with_empty_title(), MetadataError::EmptyTitle),
        (
            metadata_with_empty_title_file_as(),
            MetadataError::EmptyTitleFileAs,
        ),
        (metadata_with_empty_language(), MetadataError::EmptyLanguage),
        (
            metadata_with_empty_identifier(),
            MetadataError::EmptyIdentifier,
        ),
        (
            metadata_with_empty_description(),
            MetadataError::EmptyDescription,
        ),
        (
            metadata_with_empty_publisher(),
            MetadataError::EmptyPublisher,
        ),
        (metadata_with_empty_date(), MetadataError::EmptyDate),
        (metadata_with_empty_type(), MetadataError::EmptyType),
        (metadata_with_empty_subject(), MetadataError::EmptySubject),
    ];

    for (metadata, expected_error) in cases {
        assert_eq!(metadata.validate(), Err(expected_error));
    }
}

#[test]
fn accepts_supported_publication_date_formats() {
    for date in [
        "2026-08-31",
        "2026-08-31T15:00:00Z",
        "2026-09-01T00:00:00+09:00",
        "2026-08-31T08:00:00-07:00",
    ] {
        let mut metadata = PublicationMetadata::new("書籍のタイトル".to_owned());
        metadata.date = Some(date.to_owned());

        assert!(metadata.validate().is_ok());
    }
}

#[test]
fn rejects_an_invalid_publication_date() {
    for date in [
        "2026-02-30",
        "2026-13-32",
        "0000-00-00",
        "2026-3-1",
        "２０２６－０４－０２",
        "2025/11/02",
        "2026-08-30T15:00:00",
        "2026-08-30T78:00:00Z",
        "2026-08-30T22:75:90Z",
        "2026-09-02T02:00:00+50:00",
    ] {
        let mut metadata = PublicationMetadata::new("書籍のタイトル".to_owned());
        metadata.date = Some(date.to_owned());

        assert_eq!(metadata.validate(), Err(MetadataError::InvalidDate));
    }
}

#[test]
fn rejects_empty_values_in_creator_metadata() {
    let cases = [
        (creator_with_empty_name(), MetadataError::EmptyCreatorName),
        (
            creator_with_empty_file_as(),
            MetadataError::EmptyCreatorFileAs,
        ),
        (creator_with_empty_role(), MetadataError::EmptyCreatorRole),
        (
            creator_with_empty_alternate_script(),
            MetadataError::EmptyCreatorAlternateScript,
        ),
        (
            creator_with_empty_alternate_script_language(),
            MetadataError::EmptyCreatorAlternateScriptLanguage,
        ),
    ];

    for (creator, expected_error) in cases {
        let mut metadata = PublicationMetadata::new("書籍のタイトル".to_owned());
        metadata.creators = vec![creator];

        assert_eq!(metadata.validate(), Err(expected_error));
    }
}

#[test]
fn checks_fields_in_a_fixed_order() {
    let mut metadata = PublicationMetadata::new(" ".to_owned());
    metadata.language = String::new();
    metadata.creators = vec![creator_with_empty_name()];
    assert_eq!(metadata.validate(), Err(MetadataError::EmptyTitle));

    let mut metadata = PublicationMetadata::new("題名".to_owned());
    metadata.date = Some("not a date".to_owned());
    metadata.types = vec![" ".to_owned()];
    assert_eq!(metadata.validate(), Err(MetadataError::InvalidDate));
}

#[test]
fn reports_the_first_creator_with_an_error() {
    let mut metadata = PublicationMetadata::new("題名".to_owned());
    metadata.creators = vec![
        creator_with_empty_role(),
        creator_with_empty_name(),
    ];
    assert_eq!(metadata.validate(), Err(MetadataError::EmptyCreatorRole));
}

#[test]
fn accepts_dates_with_explicit_signs_as_the_standard_parser_does() {
    // `str::parse` accepts a leading `+` on every field, so this is day 4 of March 202.
    assert!(is_valid_date("+202-+3-+4"));
    assert!(is_valid_date("2024-02-29"));
    assert!(!is_valid_date("2023-02-29"));
    assert!(is_valid_date("2000-02-29"));
    assert!(!is_valid_date("1900-02-29"));
    assert!(!is_valid_date("2026-04-31"));
    assert!(!is_valid_date("2026-04-00"));
    assert!(!is_valid_date(""));
}

#[test]
fn keeps_values_untrimmed() {
    let mut metadata = PublicationMetadata::new("  題名  ".to_owned());
    metadata.publisher = Some(" 発行元 ".to_owned());
    assert!(metadata.validate().is_ok());
    assert_eq!(metadata.title, "  題名  ");
}

fn metadata_with_empty_title() -> PublicationMetadata {
    PublicationMetadata::new("  ".to_owned())
}

fn metadata_with_empty_title_file_as() -> PublicationMetadata {
    let mut metadata = PublicationMetadata::new("書籍のタイトル".to_owned());
    metadata.title_file_as = Some("\n".to_owned());
    metadata
}

fn metadata_with_empty_language() -> PublicationMetadata {
    let mut metadata = PublicationMetadata::new("書籍のタイトル".to_owned());
    metadata.language = String::new();
    metadata
}

fn metadata_with_empty_identifier() -> PublicationMetadata {
    let mut metadata = PublicationMetadata::new("書籍のタイトル".to_owned());
    metadata.identifier = Some(" ".to_owned());
    metadata
}

fn metadata_with_empty_description() -> PublicationMetadata {
    let mut metadata = PublicationMetadata::new("書籍のタイトル".to_owned());
    metadata.description = Some("  ".to_owned());
    metadata
}

fn metadata_with_empty_publisher() -> PublicationMetadata {
    let mut metadata = PublicationMetadata::new("書籍のタイトル".to_owned());
    metadata.publisher = Some("  ".to_owned());
    metadata
}

fn metadata_with_empty_date() -> PublicationMetadata {
    let mut metadata = PublicationMetadata::new("書籍のタイトル".to_owned());
    metadata.date = Some("  ".to_owned());
    metadata
}

fn metadata_with_empty_type() -> PublicationMetadata {
    let mut metadata = PublicationMetadata::new("書籍のタイトル".to_owned());
    metadata.types = vec!["\t".to_owned()];
    metadata
}

fn metadata_with_empty_subject() -> PublicationMetadata {
    let mut metadata = PublicationMetadata::new("書籍のタイトル".to_owned());
    metadata.subjects = vec!["\n".to_owned()];
    metadata
}

fn creator_with_empty_name() -> CreatorMetadata {
    CreatorMetadata {
        name: String::new(),
        file_as: None,
        roles: Vec::new(),
        alternate_scripts: Vec::new(),
    }
}

fn creator_with_empty_file_as() -> CreatorMetadata {
    CreatorMetadata {
        name: "著者名".to_owned(),
        file_as: Some(" ".to_owned()),
        roles: Vec::new(),
        alternate_scripts: Vec::new(),
    }
}

fn creator_with_empty_role() -> CreatorMetadata {
    CreatorMetadata {
        name: "著者名".to_owned(),
        file_as: None,
        roles: vec!["\t".to_owned()],
        alternate_scripts: Vec::new(),
    }
}

fn creator_with_empty_alternate_script() -> CreatorMetadata {
    CreatorMetadata {
        name: "著者名".to_owned(),
        file_as: None,
        roles: Vec::new(),
        alternate_scripts: vec![AlternateScript {
            value: String::new(),
            language: "ja-Kana".to_owned(),
        }],
    }
}

fn creator_with_empty_alternate_script_language() -> CreatorMetadata {
    CreatorMetadata {
        name: "著者名".to_owned(),
        file_as: None,
        roles: Vec::new(),
        alternate_scripts: vec![AlternateScript {
            value: "チョシャメイ".to_owned(),
            language: " ".to_owned(),
        }],
    }
}

#[test]
fn decides_dates_from_the_rfc3339_answer_and_the_calendar() {
    assert!(accepts_publication_date("not a date", true));
    assert!(accepts_publication_date("2024-02-29", false));
    assert!(!accepts_publication_date("2023-02-29", false));
    assert!(!accepts_publication_date("2026-08-31T15:00:00Z", false));
    assert!(accepts_publication_date("-001-12-31", false));
    assert!(!accepts_publication_date("2026-00-10", false));
}
