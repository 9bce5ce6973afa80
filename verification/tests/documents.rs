use std::path::PathBuf;

use manga2epub::{
    default_page_placement, generate_documents, AlternateScript, CreatorMetadata, DocumentError,
    ImageDimensions, ImageFormat, MinimalMetadata, PagePlacement, PublicationMetadata, SourceImage,
    TocEntry, TocError,
};

#[test]
fn generates_expected_fixed_layout_documents() {
    let documents =
        generate_documents(&images(), &metadata(), &default_placements(3), &[]).unwrap();

    assert!(
        documents
            .container_xml
            .contains("full-path=\"EPUB/package.opf\"")
    );
    assert!(
        documents
            .package_opf
            .contains("unique-identifier=\"pub-id\"")
    );
    assert!(
        documents
            .package_opf
            .contains("<meta property=\"rendition:layout\">pre-paginated</meta>")
    );
    assert!(
        documents
            .package_opf
            .contains("<meta property=\"rendition:spread\">landscape</meta>")
    );
    assert!(
        documents
            .package_opf
            .contains("page-progression-direction=\"rtl\"")
    );
    assert!(documents.package_opf.contains("properties=\"cover-image\""));
    assert!(
        documents
            .package_opf
            .contains("<meta name=\"cover\" content=\"image-0000\"/>")
    );
    assert!(documents.package_opf.contains(
        "<itemref idref=\"page-0000\" properties=\"rendition:page-spread-center\"/>"
    ));
    assert!(
        documents.package_opf.contains(
            "<itemref idref=\"page-0001\" properties=\"rendition:page-spread-right\"/>"
        )
    );
    assert!(
        documents.package_opf.contains(
            "<itemref idref=\"page-0002\" properties=\"rendition:page-spread-left\"/>"
        )
    );
    assert!(
        documents
            .package_opf
            .contains("<item id=\"page-0000\" href=\"pages/page-0000.xhtml\" media-type=\"application/xhtml+xml\"/>")
    );
    assert!(documents.navigation_xhtml.contains("epub:type=\"toc\""));
    assert!(
        documents
            .navigation_xhtml
            .contains("<a href=\"pages/page-0000.xhtml\">Untitled</a>"),
        "{}",
        documents.navigation_xhtml
    );
    assert_eq!(documents.pages.len(), 3);
    assert!(
        documents.pages[0]
            .contents
            .contains("width=1200, height=1759")
    );
    assert!(
        documents.pages[0]
            .contents
            .contains("../images/image-0000.jpg")
    );
}

#[test]
fn escapes_metadata_text() {
    let mut metadata = metadata();
    metadata.title = "A & B < C".to_owned();

    let documents =
        generate_documents(&images(), &metadata, &default_placements(3), &[]).unwrap();

    assert!(documents.package_opf.contains("A &amp; B &lt; C"));
    assert!(documents.navigation_xhtml.contains("A &amp; B &lt; C"));
}

#[test]
// 指定順を維持し、各ページ番号を正規化された XHTML パスへ変換する
fn generates_requested_navigation_entries() {
    let entries = vec![
        TocEntry {
            label: "導入".to_owned(),
            page_number: 2,
        },
        TocEntry {
            label: "本編 & おまけ".to_owned(),
            page_number: 3,
        },
    ];

    let documents =
        generate_documents(&images(), &metadata(), &default_placements(3), &entries).unwrap();

    let first_entry = documents
        .navigation_xhtml
        .find("<a href=\"pages/page-0001.xhtml\">導入</a>")
        .unwrap();
    let second_entry = documents
        .navigation_xhtml
        .find("<a href=\"pages/page-0002.xhtml\">本編 &amp; おまけ</a>")
        .unwrap();

    assert!(first_entry < second_entry);
    assert!(!documents.navigation_xhtml.contains(">Untitled</a>"));
}

#[test]
// 入力画像の範囲を超えるリンクを持つ Navigation Document は生成しない
fn rejects_a_navigation_entry_out_of_range() {
    let entries = vec![TocEntry {
        label: "本編".to_owned(),
        page_number: 4,
    }];

    let error = generate_documents(&images(), &metadata(), &default_placements(3), &entries)
        .unwrap_err();

    assert!(matches!(
        error,
        DocumentError::InvalidToc(TocError::PageOutOfRange {
            page_number: 4,
            page_count: 3,
        })
    ));
}

#[test]
// 画像ごとに拡張子と MIME type を出し分け、XHTML の参照先も一致させる
fn uses_each_image_format_in_the_manifest_and_page_document() {
    let mut images = images();
    images[0].format = ImageFormat::Png;

    let documents =
        generate_documents(&images, &metadata(), &default_placements(images.len()), &[])
            .unwrap();

    assert!(documents.package_opf.contains(
        "<item id=\"image-0000\" href=\"images/image-0000.png\" media-type=\"image/png\" properties=\"cover-image\"/>"
    ));
    assert!(
        documents.pages[0]
            .contents
            .contains("../images/image-0000.png")
    );
    assert!(documents.package_opf.contains(
        "<item id=\"image-0001\" href=\"images/image-0001.jpg\" media-type=\"image/jpeg\"/>"
    ));
}

#[test]
// 指定した書誌情報を、OPF の基本要素と refinement 要素へ分けて出力する
fn generates_requested_publication_metadata() {
    let metadata = MinimalMetadata::from_publication(
        &publication_metadata(),
        "https://example.com/books/123".to_owned(),
        "2026-08-27T00:00:00Z".to_owned(),
    );

    let documents =
        generate_documents(&images(), &metadata, &default_placements(3), &[]).unwrap();

    assert!(documents.package_opf.contains(
        "<dc:identifier id=\"pub-id\">https://example.com/books/123</dc:identifier>"
    ));
    assert!(
        documents
            .package_opf
            .contains("<dc:title id=\"title\">書籍のタイトル</dc:title>")
    );
    assert!(
        documents.package_opf.contains(
            "<meta property=\"file-as\" refines=\"#title\">ショセキノタイトル</meta>"
        )
    );
    assert!(
        documents
            .package_opf
            .contains("<dc:creator id=\"creator-0000\">著者名</dc:creator>")
    );
    assert!(
        documents.package_opf.contains(
            "<meta property=\"file-as\" refines=\"#creator-0000\">チョシャメイ</meta>"
        )
    );
    assert!(documents.package_opf.contains(
        "<meta property=\"role\" refines=\"#creator-0000\" scheme=\"marc:relators\">aut</meta>"
    ));
    assert!(documents.package_opf.contains(
        "<meta property=\"role\" refines=\"#creator-0000\" scheme=\"marc:relators\">edt</meta>"
    ));
    assert!(documents.package_opf.contains(
        "<meta property=\"alternate-script\" refines=\"#creator-0000\" xml:lang=\"ja-Kana\">チョシャメイ</meta>"
    ));
    assert!(documents.package_opf.contains(
        "<meta property=\"alternate-script\" refines=\"#creator-0000\" xml:lang=\"ja-Latn\">Choshamei</meta>"
    ));
    assert!(
        documents
            .package_opf
            .contains("<dc:creator id=\"creator-0001\">編集者名</dc:creator>")
    );
    assert!(documents.package_opf.contains(
        "<meta property=\"role\" refines=\"#creator-0001\" scheme=\"marc:relators\">aut</meta>"
    ));
    assert!(
        documents
            .package_opf
            .contains("<dc:description>説明文</dc:description>")
    );
    assert!(
        documents
            .package_opf
            .contains("<dc:publisher>発行元</dc:publisher>")
    );
    assert!(
        documents
            .package_opf
            .contains("<dc:date>2026-08-31T15:00:00Z</dc:date>")
    );
    assert_eq!(documents.package_opf.matches("<dc:type>").count(), 2);
    assert!(documents.package_opf.contains("<dc:type>comic</dc:type>"));
    assert!(documents.package_opf.contains("<dc:type>image</dc:type>"));
    assert_eq!(documents.package_opf.matches("<dc:subject>").count(), 2);
    assert!(
        documents
            .package_opf
            .contains("<dc:subject>Illustration</dc:subject>")
    );
    assert!(
        documents
            .package_opf
            .contains("<dc:subject>Fiction</dc:subject>")
    );
    assert!(
        documents
            .package_opf
            .contains("<dc:language>ja</dc:language>")
    );
}

#[test]
fn rejects_an_empty_image_list() {
    let error = generate_documents(&[], &metadata(), &[], &[]).unwrap_err();

    assert!(matches!(error, DocumentError::NoPages));
}

#[test]
// 画像数と配置数が異なる場合は、不完全な spine を生成せずに拒否する
fn rejects_page_placement_count_mismatches() {
    let error = generate_documents(&images(), &metadata(), &[], &[]).unwrap_err();

    assert!(matches!(
        error,
        DocumentError::PagePlacementCountMismatch {
            image_count: 3,
            placement_count: 0,
        }
    ));
}

/// 既定配置を使用する文書生成テスト用のページ配置一覧を作る
fn default_placements(page_count: usize) -> Vec<PagePlacement> {
    (0..page_count).map(default_page_placement).collect()
}

fn metadata() -> MinimalMetadata {
    // 固定メタデータを使用することで、文書テストを将来の入力処理から独立させる
    MinimalMetadata {
        title: "Untitled".to_owned(),
        title_file_as: None,
        creators: Vec::new(),
        description: None,
        publisher: None,
        date: None,
        types: Vec::new(),
        subjects: Vec::new(),
        identifier: "urn:uuid:00000000-0000-0000-0000-000000000000".to_owned(),
        language: "ja".to_owned(),
        modified: "2026-08-26T00:00:00Z".to_owned(),
    }
}

/// 任意項目をすべて含む書誌情報を作る
fn publication_metadata() -> PublicationMetadata {
    PublicationMetadata {
        title: "書籍のタイトル".to_owned(),
        title_file_as: Some("ショセキノタイトル".to_owned()),
        creators: vec![
            CreatorMetadata {
                name: "著者名".to_owned(),
                file_as: Some("チョシャメイ".to_owned()),
                roles: vec!["aut".to_owned(), "edt".to_owned()],
                alternate_scripts: vec![
                    AlternateScript {
                        value: "チョシャメイ".to_owned(),
                        language: "ja-Kana".to_owned(),
                    },
                    AlternateScript {
                        value: "Choshamei".to_owned(),
                        language: "ja-Latn".to_owned(),
                    },
                ],
            },
            CreatorMetadata {
                name: "編集者名".to_owned(),
                file_as: None,
                roles: Vec::new(),
                alternate_scripts: Vec::new(),
            },
        ],
        description: Some("説明文".to_owned()),
        publisher: Some("発行元".to_owned()),
        date: Some("2026-08-31T15:00:00Z".to_owned()),
        types: vec!["comic".to_owned(), "image".to_owned()],
        subjects: vec!["Illustration".to_owned(), "Fiction".to_owned()],
        language: "ja".to_owned(),
        identifier: Some("https://example.com/books/123".to_owned()),
    }
}

fn images() -> Vec<SourceImage> {
    // 生成する名前はページ番号を使用するため、入力パスは意図的に任意の値にしている
    (0..3)
        .map(|index| SourceImage {
            path: PathBuf::from(format!("source-{index}.jpg")),
            format: ImageFormat::Jpeg,
            dimensions: ImageDimensions {
                width: 1200,
                height: 1759,
            },
        })
        .collect()
}
