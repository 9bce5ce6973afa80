use std::path::PathBuf;

use manga2epub::documents::{page_css, resolve_metadata};
use manga2epub::names::{creator_id, image_id, image_path, page_id, page_path, placement_property};
use manga2epub::package::{archive_entries, mimetype, Compression, EntrySource};
use manga2epub::{
    default_page_placement, generate_documents, ImageDimensions, ImageFormat, MetadataError,
    MinimalMetadata, PackageError, PagePlacement, PublicationMetadata, SourceImage,
};

fn two_images() -> Vec<SourceImage> {
    vec![
        SourceImage {
            path: PathBuf::from("cover.png"),
            format: ImageFormat::Png,
            dimensions: ImageDimensions {
                width: 800,
                height: 1200,
            },
        },
        SourceImage {
            path: PathBuf::from("page.jpg"),
            format: ImageFormat::Jpeg,
            dimensions: ImageDimensions {
                width: 800,
                height: 1200,
            },
        },
    ]
}

fn plain_metadata() -> MinimalMetadata {
    let publication = PublicationMetadata::new("題名".to_owned());
    resolve_metadata(&publication, "0000", "2026-01-01T00:00:00Z".to_owned()).unwrap()
}

#[test]
fn lays_out_the_archive_with_an_uncompressed_mimetype_first() {
    let images = two_images();
    let placements = (0..2).map(default_page_placement).collect::<Vec<_>>();
    let documents = generate_documents(&images, &plain_metadata(), &placements, &[]).unwrap();
    let entries = archive_entries(&images, &documents).unwrap();
    let layout = entries
        .iter()
        .map(|entry| (entry.path.as_str(), entry.source, entry.compression))
        .collect::<Vec<_>>();
    assert_eq!(
        layout,
        vec![
            ("mimetype", EntrySource::Mimetype, Compression::Stored),
            ("META-INF/container.xml", EntrySource::ContainerXml, Compression::Deflated),
            ("EPUB/package.opf", EntrySource::PackageOpf, Compression::Deflated),
            ("EPUB/nav.xhtml", EntrySource::NavigationXhtml, Compression::Deflated),
            ("EPUB/styles/page.css", EntrySource::PageCss, Compression::Deflated),
            ("EPUB/pages/page-0000.xhtml", EntrySource::Page(0), Compression::Deflated),
            ("EPUB/pages/page-0001.xhtml", EntrySource::Page(1), Compression::Deflated),
            ("EPUB/images/image-0000.png", EntrySource::Image(0), Compression::Deflated),
            ("EPUB/images/image-0001.jpg", EntrySource::Image(1), Compression::Deflated),
        ]
    );
    assert_eq!(mimetype(), "application/epub+zip");
    // Every image entry is where the manifest says it is.
    for index in 0..images.len() {
        let href = format!("href=\"{}\"", image_path(index, images[index].format));
        assert!(documents.package_opf.contains(&href));
    }
}

#[test]
fn refuses_to_package_pages_that_do_not_match_the_images() {
    let images = two_images();
    let placements = (0..2).map(default_page_placement).collect::<Vec<_>>();
    let documents = generate_documents(&images, &plain_metadata(), &placements, &[]).unwrap();
    let error = archive_entries(&images[..1], &documents).unwrap_err();
    assert!(matches!(
        error,
        PackageError::PageCountMismatch {
            image_count: 1,
            page_count: 2
        }
    ));
}

#[test]
fn writes_normalized_names_with_four_digits_at_least() {
    assert_eq!(page_id(0), "page-0000");
    assert_eq!(image_id(42), "image-0042");
    assert_eq!(creator_id(7), "creator-0007");
    assert_eq!(page_path(12345), "pages/page-12345.xhtml");
    assert_eq!(image_path(3, ImageFormat::Png), "images/image-0003.png");
    assert_eq!(image_path(9999, ImageFormat::Jpeg), "images/image-9999.jpg");
    assert_eq!(
        placement_property(PagePlacement::Center),
        "rendition:page-spread-center"
    );
}

#[test]
fn generates_an_identifier_only_when_none_is_given() {
    let publication = PublicationMetadata::new("題名".to_owned());
    let resolved = resolve_metadata(&publication, "abc", "t".to_owned()).unwrap();
    assert_eq!(resolved.identifier, "urn:uuid:abc");
    assert_eq!(resolved.modified, "t");
    assert_eq!(resolved.language, "ja");

    let mut given = PublicationMetadata::new("題名".to_owned());
    given.identifier = Some("https://example.com/books/123".to_owned());
    let resolved = resolve_metadata(&given, "abc", "t".to_owned()).unwrap();
    assert_eq!(resolved.identifier, "https://example.com/books/123");

    let invalid = PublicationMetadata::new(" ".to_owned());
    assert_eq!(
        resolve_metadata(&invalid, "abc", "t".to_owned()).unwrap_err(),
        MetadataError::EmptyTitle
    );
}

#[test]
fn writes_the_page_style_sheet() {
    let css = page_css();
    assert!(css.starts_with("html, body {\n  width: 100%;"));
    assert!(css.contains("img {\n  display: block;"));
    assert!(css.ends_with("}\n"));
}

#[test]
fn writes_the_viewport_of_the_first_image_on_every_page() {
    let mut images = two_images();
    images[1].dimensions = ImageDimensions {
        width: 1,
        height: 2,
    };
    let placements = (0..2).map(default_page_placement).collect::<Vec<_>>();
    let documents = generate_documents(&images, &plain_metadata(), &placements, &[]).unwrap();
    for page in &documents.pages {
        assert!(page.contents.contains("width=800, height=1200"));
    }
    assert_eq!(documents.pages[1].path, "pages/page-0001.xhtml");
    assert!(documents.pages[1].contents.contains("../images/image-0001.jpg"));
}

#[test]
fn stores_every_resource_under_its_own_path() {
    let images = (0..12)
        .map(|index| SourceImage {
            path: PathBuf::from(format!("{index}.png")),
            format: if index % 2 == 0 {
                ImageFormat::Png
            } else {
                ImageFormat::Jpeg
            },
            dimensions: ImageDimensions {
                width: 10,
                height: 20,
            },
        })
        .collect::<Vec<_>>();
    let placements = (0..images.len())
        .map(default_page_placement)
        .collect::<Vec<_>>();
    let documents = generate_documents(&images, &plain_metadata(), &placements, &[]).unwrap();
    let entries = archive_entries(&images, &documents).unwrap();
    assert_eq!(entries.len(), 5 + 2 * images.len());
    for (position, entry) in entries.iter().enumerate() {
        for other in &entries[position + 1..] {
            assert_ne!(entry.path, other.path);
        }
    }
    // The manifest points at the same places, relative to `EPUB/`.
    for index in 0..images.len() {
        assert_eq!(
            entries[5 + index].path,
            format!("EPUB/{}", page_path(index))
        );
        assert_eq!(
            entries[5 + images.len() + index].path,
            format!("EPUB/{}", image_path(index, images[index].format))
        );
        let page_href = format!("href=\"{}\"", page_path(index));
        assert!(documents.package_opf.contains(&page_href));
    }
}

#[test]
fn tells_pages_apart_by_their_names() {
    assert_ne!(page_id(9999), page_id(99999));
    assert_ne!(page_path(1), page_path(10));
    assert_ne!(image_path(5, ImageFormat::Png), image_path(5, ImageFormat::Jpeg));
    assert_eq!(page_path(10000), "pages/page-10000.xhtml");
    assert_ne!(image_id(100), page_id(100));
}

#[test]
fn lists_every_page_in_the_spine_with_its_placement() {
    let images = (0..4)
        .map(|index| SourceImage {
            path: PathBuf::from(format!("{index}.jpg")),
            format: ImageFormat::Jpeg,
            dimensions: ImageDimensions {
                width: 10,
                height: 20,
            },
        })
        .collect::<Vec<_>>();
    let placements = vec![
        PagePlacement::Left,
        PagePlacement::Center,
        PagePlacement::Right,
        PagePlacement::Left,
    ];
    let documents = generate_documents(&images, &plain_metadata(), &placements, &[]).unwrap();
    let mut previous = 0;
    for (index, placement) in placements.iter().enumerate() {
        let itemref = format!(
            "<itemref idref=\"{}\" properties=\"{}\"/>",
            page_id(index),
            placement_property(*placement)
        );
        let position = documents.package_opf.find(&itemref).unwrap();
        assert!(position > previous);
        previous = position;
    }
    assert_eq!(documents.package_opf.matches("cover-image").count(), 1);
    assert!(documents.package_opf.contains(
        "<item id=\"image-0000\" href=\"images/image-0000.jpg\" media-type=\"image/jpeg\" properties=\"cover-image\"/>"
    ));
}
