//! The library's steps chained as the program chains them, on files held in
//! memory: ordering, header reading, placements, documents and archive.

use std::path::PathBuf;

use manga2epub::documents::resolve_metadata;
use manga2epub::images::{
    order_directory_images, plan_image_order, source_image, DirectoryEntry, RequestedImage,
};
use manga2epub::package::archive_entries;
use manga2epub::{
    generate_documents, resolve_page_placements, GeneratedDocuments, ImageCollectionError,
    ImageDimensions, ImageFormat, MetadataError, PageOverride, PagePlacement,
    PublicationMetadata, SourceImage, TocEntry,
};
use uuid::Uuid;

fn jpeg(width: u16, height: u16) -> Vec<u8> {
    let mut bytes = vec![0xff, 0xd8, 0xff, 0xc0, 0x00, 0x11, 0x08];
    bytes.extend_from_slice(&height.to_be_bytes());
    bytes.extend_from_slice(&width.to_be_bytes());
    bytes.extend_from_slice(&[
        0x03, 0x01, 0x11, 0x00, 0x02, 0x11, 0x00, 0x03, 0x11, 0x00, 0xff, 0xd9,
    ]);
    bytes
}

fn png(width: u32, height: u32) -> Vec<u8> {
    let mut bytes = vec![
        0x89, b'P', b'N', b'G', 0x0d, 0x0a, 0x1a, 0x0a, 0, 0, 0, 13, b'I', b'H', b'D', b'R',
    ];
    bytes.extend_from_slice(&width.to_be_bytes());
    bytes.extend_from_slice(&height.to_be_bytes());
    bytes
}

/// A directory held in memory: file names and contents.
struct Directory {
    files: Vec<(String, Vec<u8>)>,
}

impl Directory {
    fn new(files: Vec<(&str, Vec<u8>)>) -> Self {
        Directory {
            files: files
                .into_iter()
                .map(|(name, bytes)| (name.to_owned(), bytes))
                .collect(),
        }
    }

    fn contents(&self, path: &PathBuf) -> &[u8] {
        let name = path.file_name().unwrap().to_str().unwrap();
        &self
            .files
            .iter()
            .find(|(file, _)| file == name)
            .unwrap()
            .1
    }

    fn collect_images(&self) -> Result<Vec<SourceImage>, ImageCollectionError> {
        let entries = self
            .files
            .iter()
            .map(|(name, _)| DirectoryEntry {
                path: PathBuf::from("dir").join(name),
                is_file: true,
                name: name.clone(),
                name_bytes: name.as_bytes().to_vec(),
                extension: name.rsplit_once('.').map(|(_, e)| e.to_owned()),
            })
            .collect();
        order_directory_images(PathBuf::from("dir"), entries)?
            .into_iter()
            .map(|(entry, format)| {
                let contents = self.contents(&entry.path).to_vec();
                source_image(entry.path, format, &contents)
            })
            .collect()
    }

    fn collect_images_in_order(
        &self,
        order: &[&str],
    ) -> Result<Vec<SourceImage>, ImageCollectionError> {
        let requests = order
            .iter()
            .map(|name| RequestedImage {
                path: PathBuf::from("dir").join(name),
                identity: format!("dir/{name}").into_bytes(),
                extension: name.rsplit_once('.').map(|(_, e)| e.to_owned()),
            })
            .collect();
        plan_image_order(requests)?
            .into_iter()
            .map(|outcome| {
                let (path, format) = outcome?;
                let contents = self.contents(&path).to_vec();
                source_image(path, format, &contents)
            })
            .collect()
    }
}

/// Runs the steps of a build and returns the generated documents.
fn build(
    directory: &Directory,
    order: Option<&[&str]>,
    metadata: &PublicationMetadata,
    overrides: &[PageOverride],
    toc: &[TocEntry],
) -> GeneratedDocuments {
    let uuid = Uuid::new_v4().to_string();
    let minimal = resolve_metadata(metadata, &uuid, "2026-01-02T03:04:05Z".to_owned()).unwrap();
    let images = match order {
        Some(order) => directory.collect_images_in_order(order),
        None => directory.collect_images(),
    }
    .unwrap();
    let placements = resolve_page_placements(images.len(), overrides).unwrap();
    let documents = generate_documents(&images, &minimal, &placements, toc).unwrap();
    let entries = archive_entries(&images, &documents).unwrap();
    assert_eq!(entries.len(), 5 + 2 * images.len());
    documents
}

#[test]
fn collects_jpeg_and_png_in_natural_order() {
    let directory = Directory::new(vec![
        ("page-10.PNG", png(1200, 1800)),
        ("page-2.JPG", jpeg(1200, 1800)),
        ("page-1.png", png(1200, 1759)),
    ]);
    let images = directory.collect_images().unwrap();
    assert_eq!(
        images
            .iter()
            .map(|image| image
                .path
                .file_name()
                .unwrap()
                .to_string_lossy()
                .into_owned())
            .collect::<Vec<_>>(),
        ["page-1.png", "page-2.JPG", "page-10.PNG"]
    );
    assert_eq!(images[0].format, ImageFormat::Png);
    assert_eq!(images[1].format, ImageFormat::Jpeg);
    assert_eq!(
        images[1].dimensions,
        ImageDimensions {
            width: 1200,
            height: 1800
        }
    );
    assert_eq!(
        images[0].dimensions,
        ImageDimensions {
            width: 1200,
            height: 1759
        }
    );
}

#[test]
fn rejects_an_image_extension_with_an_invalid_header() {
    let directory = Directory::new(vec![("page-1.png", vec![0; 24])]);
    assert!(directory.collect_images().is_err());
}

#[test]
fn collects_jpeg_and_png_in_the_explicit_order() {
    let directory = Directory::new(vec![
        ("page-1.png", png(1200, 1759)),
        ("page-2.jpg", jpeg(1200, 1800)),
    ]);
    let images = directory
        .collect_images_in_order(&["page-2.jpg", "page-1.png"])
        .unwrap();
    assert_eq!(
        images
            .iter()
            .map(|image| image.path.file_name().unwrap())
            .collect::<Vec<_>>(),
        ["page-2.jpg", "page-1.png"]
    );
    assert_eq!(images[0].format, ImageFormat::Jpeg);
    assert_eq!(images[1].format, ImageFormat::Png);
}

#[test]
fn rejects_a_duplicate_image_in_the_explicit_order() {
    let directory = Directory::new(vec![("page.jpg", jpeg(1200, 1800))]);
    let error = directory
        .collect_images_in_order(&["page.jpg", "page.jpg"])
        .unwrap_err();
    assert!(matches!(error, ImageCollectionError::DuplicateImage { .. }));
}

#[test]
fn rejects_an_empty_explicit_image_order() {
    let directory = Directory::new(Vec::new());
    let error = directory.collect_images_in_order(&[]).unwrap_err();
    assert!(matches!(error, ImageCollectionError::EmptyImageOrder));
}

#[test]
fn rejects_an_unsupported_file_in_the_explicit_order() {
    let directory = Directory::new(vec![("notes.txt", b"not an image".to_vec())]);
    let error = directory.collect_images_in_order(&["notes.txt"]).unwrap_err();
    assert!(matches!(
        error,
        ImageCollectionError::UnsupportedImage { .. }
    ));
}

#[test]
fn builds_an_epub_with_generated_identifier() {
    let directory = Directory::new(vec![("page-1.jpg", jpeg(1759, 1200))]);
    let documents = build(
        &directory,
        None,
        &PublicationMetadata::new("書籍のタイトル".to_owned()),
        &[],
        &[],
    );
    let package = &documents.package_opf;
    assert!(package.contains("<dc:title id=\"title\">書籍のタイトル</dc:title>"));
    assert!(package.contains("<dc:language>ja</dc:language>"));
    assert!(!package.contains("<dc:date>"));
    assert!(!package.contains("<dc:type>"));
    assert!(!package.contains("<dc:subject>"));
    let marker = "<meta property=\"dcterms:modified\">";
    let start = package.find(marker).unwrap() + marker.len();
    let end = package[start..].find('<').unwrap() + start;
    assert_eq!(&package[start..end], "2026-01-02T03:04:05Z");
    let identifier_start = package.find(">urn:uuid:").unwrap() + 1;
    let identifier_end = package[identifier_start..].find('<').unwrap() + identifier_start;
    let uuid = package[identifier_start..identifier_end]
        .strip_prefix("urn:uuid:")
        .unwrap();
    assert!(Uuid::parse_str(uuid).is_ok());
    assert!(documents
        .navigation_xhtml
        .contains("<a href=\"pages/page-0000.xhtml\">書籍のタイトル</a>"));
}

#[test]
fn builds_an_epub_with_the_specified_identifier() {
    let directory = Directory::new(vec![("page-1.jpg", jpeg(1759, 1200))]);
    let mut metadata = PublicationMetadata::new("書籍のタイトル".to_owned());
    metadata.identifier = Some("https://example.com/books/123".to_owned());
    let documents = build(&directory, None, &metadata, &[], &[]);
    assert!(documents.package_opf.contains(
        "<dc:identifier id=\"pub-id\">https://example.com/books/123</dc:identifier>"
    ));
}

#[test]
fn builds_an_epub_with_a_png_input() {
    let directory = Directory::new(vec![("page-1.png", png(1200, 1759))]);
    let documents = build(
        &directory,
        None,
        &PublicationMetadata::new("書籍のタイトル".to_owned()),
        &[],
        &[],
    );
    assert!(documents.package_opf.contains(
        "<item id=\"image-0000\" href=\"images/image-0000.png\" media-type=\"image/png\" properties=\"cover-image\"/>"
    ));
}

#[test]
fn rejects_invalid_metadata_before_collecting_images() {
    let metadata = PublicationMetadata::new(" ".to_owned());
    let error = resolve_metadata(&metadata, "uuid", "modified".to_owned()).unwrap_err();
    assert!(matches!(error, MetadataError::EmptyTitle));
}

#[test]
fn builds_an_epub_with_page_placement_overrides() {
    let directory = Directory {
        files: (1..=6)
            .map(|page| (format!("page-{page}.jpg"), jpeg(1759, 1200)))
            .collect(),
    };
    let documents = build(
        &directory,
        None,
        &PublicationMetadata::new("書籍のタイトル".to_owned()),
        &[PageOverride {
            page_number: 4,
            placement: PagePlacement::Center,
        }],
        &[],
    );
    let package = &documents.package_opf;
    assert!(package
        .contains("<itemref idref=\"page-0003\" properties=\"rendition:page-spread-center\"/>"));
    assert!(package
        .contains("<itemref idref=\"page-0004\" properties=\"rendition:page-spread-right\"/>"));
    assert!(package
        .contains("<itemref idref=\"page-0005\" properties=\"rendition:page-spread-left\"/>"));
}

#[test]
fn builds_an_epub_with_an_explicit_image_order() {
    let directory = Directory::new(vec![
        ("page-1.jpg", jpeg(1759, 1200)),
        ("page-2.png", png(1200, 1759)),
    ]);
    let documents = build(
        &directory,
        Some(&["page-2.png", "page-1.jpg"]),
        &PublicationMetadata::new("書籍のタイトル".to_owned()),
        &[PageOverride {
            page_number: 2,
            placement: PagePlacement::Center,
        }],
        &[],
    );
    let package = &documents.package_opf;
    assert!(package.contains(
        "<item id=\"image-0000\" href=\"images/image-0000.png\" media-type=\"image/png\" properties=\"cover-image\"/>"
    ));
    assert!(package.contains(
        "<item id=\"image-0001\" href=\"images/image-0001.jpg\" media-type=\"image/jpeg\"/>"
    ));
    assert!(package
        .contains("<itemref idref=\"page-0001\" properties=\"rendition:page-spread-center\"/>"));
}

#[test]
fn builds_an_epub_with_toc_entries() {
    let directory = Directory::new(vec![
        ("page-1.jpg", jpeg(1759, 1200)),
        ("page-2.jpg", jpeg(1759, 1200)),
        ("page-3.jpg", jpeg(1759, 1200)),
    ]);
    let documents = build(
        &directory,
        None,
        &PublicationMetadata::new("書籍のタイトル".to_owned()),
        &[],
        &[
            TocEntry {
                label: "本編".to_owned(),
                page_number: 2,
            },
            TocEntry {
                label: "おまけ".to_owned(),
                page_number: 3,
            },
            TocEntry {
                label: "あとがき".to_owned(),
                page_number: 3,
            },
        ],
    );
    let navigation = &documents.navigation_xhtml;
    let main_entry = navigation
        .find("<a href=\"pages/page-0001.xhtml\">本編</a>")
        .unwrap();
    let bonus_entry = navigation
        .find("<a href=\"pages/page-0002.xhtml\">おまけ</a>")
        .unwrap();
    let afterword_entry = navigation
        .find("<a href=\"pages/page-0002.xhtml\">あとがき</a>")
        .unwrap();
    assert!(main_entry < bonus_entry);
    assert!(bonus_entry < afterword_entry);
    assert!(!navigation.contains(">書籍のタイトル</a>"));
}
