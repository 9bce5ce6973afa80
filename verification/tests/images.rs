use std::path::PathBuf;

use manga2epub::headers::{read_jpeg_dimensions, read_png_dimensions, HeaderError};
use manga2epub::images::{
    image_format_from_extension, order_directory_images, plan_image_order, source_image,
    DirectoryEntry, RequestedImage,
};
use manga2epub::natural::{natural_compare_bytes, NaturalOrder};
use manga2epub::{
    natural_compare, ImageCollectionError, ImageDimensions, ImageFormat, InvalidImageReason,
};

#[test]
fn compares_equal_numbers_with_shorter_zero_padding_first() {
    assert!(natural_compare("page-1.png", "page-01.jpg").is_lt());
}

#[test]
fn compares_digit_runs_by_value() {
    assert!(natural_compare("page-2.png", "page-10.png").is_lt());
    assert!(natural_compare("page-10.png", "page-2.png").is_gt());
    assert!(natural_compare("page-007", "page-7").is_gt());
    assert!(natural_compare("a", "a").is_eq());
    assert!(natural_compare("a", "ab").is_lt());
    assert!(natural_compare("0000", "0").is_gt());
    assert!(natural_compare("x9y", "x10a").is_lt());
    assert!(natural_compare("B", "a").is_lt());
}

#[test]
fn natural_order_is_antisymmetric_on_examples() {
    let names: [&[u8]; 6] = [b"p1", b"p01", b"p10", b"q", b"", b"p1a"];
    for left in names {
        for right in names {
            let forward = natural_compare_bytes(left, right);
            let backward = natural_compare_bytes(right, left);
            let expected = match forward {
                NaturalOrder::Less => NaturalOrder::Greater,
                NaturalOrder::Equal => NaturalOrder::Equal,
                NaturalOrder::Greater => NaturalOrder::Less,
            };
            assert_eq!(backward, expected);
            assert_eq!(forward == NaturalOrder::Equal, left == right);
        }
    }
}

#[test]
fn natural_order_is_transitive_on_examples() {
    let names: [&[u8]; 9] = [
        b"p1", b"p01", b"p10", b"p2", b"q", b"", b"p1a", b"0", b"p",
    ];
    for a in names {
        for b in names {
            for c in names {
                if natural_compare_bytes(a, b) == NaturalOrder::Less
                    && natural_compare_bytes(b, c) == NaturalOrder::Less
                {
                    assert_eq!(natural_compare_bytes(a, c), NaturalOrder::Less);
                }
            }
        }
    }
}

#[test]
fn sorts_every_pair_of_directory_images() {
    let names = ["10.png", "2.jpg", "02.jpg", "1.png", "b.png", "a10.png", "a9.png"];
    let entries = names.iter().map(|name| entry(name, true)).collect::<Vec<_>>();
    let ordered = order_directory_images(PathBuf::from("images"), entries).unwrap();
    let ordered_names = ordered
        .iter()
        .map(|(entry, _)| entry.name.as_str())
        .collect::<Vec<_>>();
    assert_eq!(
        ordered_names,
        vec!["1.png", "2.jpg", "02.jpg", "10.png", "a9.png", "a10.png", "b.png"]
    );
    for (position, (left, _)) in ordered.iter().enumerate() {
        for (right, _) in &ordered[position + 1..] {
            assert!(natural_compare(&left.name, &right.name).is_le());
        }
    }
}

#[test]
fn detects_formats_from_extensions_ignoring_case() {
    assert_eq!(image_format_from_extension("jpg"), Some(ImageFormat::Jpeg));
    assert_eq!(image_format_from_extension("JPEG"), Some(ImageFormat::Jpeg));
    assert_eq!(image_format_from_extension("Png"), Some(ImageFormat::Png));
    assert_eq!(image_format_from_extension("gif"), None);
    assert_eq!(image_format_from_extension("jpgx"), None);
    assert_eq!(image_format_from_extension(""), None);
    assert_eq!(ImageFormat::Jpeg.extension(), "jpg");
    assert_eq!(ImageFormat::Png.media_type(), "image/png");
    assert_eq!(ImageFormat::Jpeg.media_type(), "image/jpeg");
}

fn entry(name: &str, is_file: bool) -> DirectoryEntry {
    DirectoryEntry {
        path: PathBuf::from("images").join(name),
        is_file,
        name: name.to_owned(),
        name_bytes: name.as_bytes().to_vec(),
        extension: name.rsplit_once('.').map(|(_, extension)| extension.to_owned()),
    }
}

#[test]
fn orders_directory_images_naturally_and_skips_other_entries() {
    let entries = vec![
        entry("page-10.PNG", true),
        entry("notes.txt", true),
        entry("page-2.JPG", true),
        entry("folder.png", false),
        entry("page-1.png", true),
    ];
    let images = order_directory_images(PathBuf::from("images"), entries).unwrap();
    let names = images
        .iter()
        .map(|(entry, _)| entry.name.clone())
        .collect::<Vec<_>>();
    assert_eq!(names, ["page-1.png", "page-2.JPG", "page-10.PNG"]);
    assert_eq!(images[0].1, ImageFormat::Png);
    assert_eq!(images[1].1, ImageFormat::Jpeg);
}

#[test]
fn refuses_a_directory_without_images() {
    let error =
        order_directory_images(PathBuf::from("empty"), vec![entry("a.txt", true)]).unwrap_err();
    assert!(matches!(
        error,
        ImageCollectionError::NoImages { directory } if directory == PathBuf::from("empty")
    ));
}

fn request(name: &str) -> RequestedImage {
    RequestedImage {
        path: PathBuf::from("images").join(name),
        identity: name.as_bytes().to_vec(),
        extension: name.rsplit_once('.').map(|(_, extension)| extension.to_owned()),
    }
}

#[test]
fn keeps_an_explicit_order_and_marks_unsupported_files() {
    let outcomes =
        plan_image_order(vec![request("b.jpg"), request("a.png"), request("c.txt")]).unwrap();
    assert_eq!(outcomes.len(), 3);
    assert!(matches!(&outcomes[0], Ok((path, ImageFormat::Jpeg)) if path.ends_with("b.jpg")));
    assert!(matches!(&outcomes[1], Ok((path, ImageFormat::Png)) if path.ends_with("a.png")));
    assert!(matches!(
        &outcomes[2],
        Err(ImageCollectionError::UnsupportedImage { path }) if path.ends_with("c.txt")
    ));
}

#[test]
fn refuses_an_empty_or_repeated_explicit_order() {
    assert!(matches!(
        plan_image_order(Vec::new()),
        Err(ImageCollectionError::EmptyImageOrder)
    ));
    let error =
        plan_image_order(vec![request("a.jpg"), request("b.jpg"), request("a.jpg")]).unwrap_err();
    assert!(matches!(
        error,
        ImageCollectionError::DuplicateImage { path } if path == PathBuf::from("images").join("a.jpg")
    ));
}

fn png(width: u32, height: u32) -> Vec<u8> {
    let mut bytes = vec![
        0x89, b'P', b'N', b'G', 0x0d, 0x0a, 0x1a, 0x0a, 0, 0, 0, 13, b'I', b'H', b'D', b'R',
    ];
    bytes.extend_from_slice(&width.to_be_bytes());
    bytes.extend_from_slice(&height.to_be_bytes());
    bytes
}

fn jpeg(width: u16, height: u16) -> Vec<u8> {
    let mut bytes = vec![0xff, 0xd8, 0xff, 0xe0, 0x00, 0x04, 0x4a, 0x46];
    bytes.extend_from_slice(&[0xff, 0xff, 0xc0, 0x00, 0x11, 0x08]);
    bytes.extend_from_slice(&height.to_be_bytes());
    bytes.extend_from_slice(&width.to_be_bytes());
    bytes.extend_from_slice(&[0x03, 0x01, 0x11, 0x00, 0x02, 0x11, 0x00, 0x03, 0x11, 0x00, 0xff, 0xd9]);
    bytes
}

#[test]
fn reads_png_dimensions_from_the_header() {
    assert_eq!(
        read_png_dimensions(&png(1200, 1759)),
        Ok(ImageDimensions {
            width: 1200,
            height: 1759
        })
    );
    assert_eq!(
        read_png_dimensions(&png(0, 10)),
        Err(HeaderError::Invalid(InvalidImageReason::InvalidDimensions))
    );
    assert_eq!(
        read_png_dimensions(&[0; 24]),
        Err(HeaderError::Invalid(InvalidImageReason::InvalidHeader))
    );
    assert_eq!(read_png_dimensions(&png(1, 1)[..23]), Err(HeaderError::EndOfFile));
    assert_eq!(
        read_png_dimensions(&png(0x0102_0304, 7)),
        Ok(ImageDimensions {
            width: 0x0102_0304,
            height: 7
        })
    );
}

#[test]
fn reads_jpeg_dimensions_after_other_segments() {
    assert_eq!(
        read_jpeg_dimensions(&jpeg(1200, 1800)),
        Ok(ImageDimensions {
            width: 1200,
            height: 1800
        })
    );
    assert_eq!(
        read_jpeg_dimensions(&[0xff, 0xd9]),
        Err(HeaderError::Invalid(InvalidImageReason::InvalidHeader))
    );
    assert_eq!(read_jpeg_dimensions(&[0xff]), Err(HeaderError::EndOfFile));
    assert_eq!(
        read_jpeg_dimensions(&[0xff, 0xd8, 0xff, 0xd9]),
        Err(HeaderError::Invalid(InvalidImageReason::InvalidStructure))
    );
    assert_eq!(
        read_jpeg_dimensions(&[0xff, 0xd8, 0xff, 0xc0, 0x00, 0x05]),
        Err(HeaderError::Invalid(InvalidImageReason::InvalidStructure))
    );
    assert_eq!(
        read_jpeg_dimensions(&[0xff, 0xd8, 0xff, 0xe1, 0x00, 0x10, 0x00]),
        Err(HeaderError::EndOfFile)
    );
    assert_eq!(
        read_jpeg_dimensions(&[0xff, 0xd8, 0xff, 0xe1, 0x00, 0x01]),
        Err(HeaderError::Invalid(InvalidImageReason::InvalidStructure))
    );
    // A stuffed `0xff 0x00` pair and restart markers are skipped.
    let mut stuffed = vec![0xff, 0xd8, 0x12, 0xff, 0x00, 0xff, 0xd0];
    stuffed.extend_from_slice(&jpeg(3, 4)[2..]);
    assert_eq!(
        read_jpeg_dimensions(&stuffed),
        Ok(ImageDimensions {
            width: 3,
            height: 4
        })
    );
    assert_eq!(
        read_jpeg_dimensions(&jpeg(0, 4)),
        Err(HeaderError::Invalid(InvalidImageReason::InvalidDimensions))
    );
}

#[test]
fn describes_a_source_image_or_reports_why_it_cannot() {
    let image = source_image(PathBuf::from("p.png"), ImageFormat::Png, &png(10, 20)).unwrap();
    assert_eq!(image.path, PathBuf::from("p.png"));
    assert_eq!(image.format, ImageFormat::Png);
    assert_eq!(
        image.dimensions,
        ImageDimensions {
            width: 10,
            height: 20
        }
    );
    let short = source_image(PathBuf::from("p.png"), ImageFormat::Png, &[0x89]).unwrap_err();
    assert!(matches!(short, ImageCollectionError::ReadImage { .. }));
    let invalid = source_image(PathBuf::from("p.jpg"), ImageFormat::Jpeg, &[0, 0]).unwrap_err();
    assert!(matches!(
        invalid,
        ImageCollectionError::InvalidImage {
            reason: InvalidImageReason::InvalidHeader,
            ..
        }
    ));
}
