//! Input images: their formats, their order and their pixel dimensions.

use vstd::prelude::*;
use vstd::string::StringSliceAdditionalSpecFns;
use vstd::utf8::encode_utf8;

use crate::headers::{
    jpeg_dimensions_of, png_dimensions_of, read_jpeg_dimensions, read_png_dimensions, HeaderError,
};
use crate::natural::{
    compare_bytes, law_natural_order_antisymmetric, law_natural_order_transitive,
    lemma_lexicographic_laws, lemma_lexicographic_transitive, lexicographic,
    natural_compare_bytes, natural_order, reversed, then_order, NaturalOrder,
};

verus! {

#[verifier::external_type_specification]
#[verifier::external_body]
pub struct ExPathBuf(std::path::PathBuf);

#[verifier::external_type_specification]
#[verifier::external_body]
pub struct ExIoError(std::io::Error);

/// `Clone for PathBuf`: the copy is the same path.
pub assume_specification[ <std::path::PathBuf as Clone>::clone ](path: &std::path::PathBuf) -> (copy: std::path::PathBuf)
    ensures
        copy == *path,
;

/// Raster formats that an EPUB of this library can hold.
#[derive(Clone, Copy, Debug, PartialEq, Eq, Structural)]
pub enum ImageFormat {
    Jpeg,
    Png,
}

pub open spec fn format_extension(format: ImageFormat) -> Seq<char> {
    match format {
        ImageFormat::Jpeg => "jpg"@,
        ImageFormat::Png => "png"@,
    }
}

pub open spec fn format_media_type(format: ImageFormat) -> Seq<char> {
    match format {
        ImageFormat::Jpeg => "image/jpeg"@,
        ImageFormat::Png => "image/png"@,
    }
}

impl ImageFormat {
    /// The normalized file extension used inside the EPUB.
    pub fn extension(self) -> (extension: &'static str)
        ensures
            extension@ == format_extension(self),
    {
        match self {
            Self::Jpeg => "jpg",
            Self::Png => "png",
        }
    }

    /// The MIME type written to the OPF manifest.
    pub fn media_type(self) -> (media_type: &'static str)
        ensures
            media_type@ == format_media_type(self),
    {
        match self {
            Self::Jpeg => "image/jpeg",
            Self::Png => "image/png",
        }
    }
}

/// Pixel dimensions read from an image file.
#[derive(Clone, Copy, Debug, PartialEq, Eq, Structural)]
pub struct ImageDimensions {
    pub width: u32,
    pub height: u32,
}

/// An input image that goes into the EPUB.
#[derive(Clone, Debug, PartialEq, Eq)]
pub struct SourceImage {
    pub path: std::path::PathBuf,
    pub format: ImageFormat,
    pub dimensions: ImageDimensions,
}

/// Why the structure of an image could not be accepted.
#[derive(Clone, Copy, Debug, PartialEq, Eq, Structural)]
pub enum InvalidImageReason {
    InvalidHeader,
    InvalidDimensions,
    InvalidStructure,
}

/// The English description of a reason, for callers that do not localize.
pub open spec fn invalid_image_reason_text(reason: InvalidImageReason) -> Seq<char> {
    match reason {
        InvalidImageReason::InvalidHeader => "invalid image header"@,
        InvalidImageReason::InvalidDimensions => "image dimensions must be greater than zero"@,
        InvalidImageReason::InvalidStructure => "invalid image structure"@,
    }
}

impl InvalidImageReason {
    /// Describes the reason in English.
    pub fn message(&self) -> (text: &'static str)
        ensures
            text@ == invalid_image_reason_text(*self),
    {
        match self {
            InvalidImageReason::InvalidHeader => "invalid image header",
            InvalidImageReason::InvalidDimensions => "image dimensions must be greater than zero",
            InvalidImageReason::InvalidStructure => "invalid image structure",
        }
    }
}

/// Errors met while collecting the input images.
#[derive(Debug)]
pub enum ImageCollectionError {
    ReadDirectory { path: std::path::PathBuf, source: std::io::Error },
    ReadDirectoryEntry { path: std::path::PathBuf, source: std::io::Error },
    ReadImage { path: std::path::PathBuf, source: std::io::Error },
    InvalidImage { path: std::path::PathBuf, reason: InvalidImageReason },
    EmptyImageOrder,
    DuplicateImage { path: std::path::PathBuf },
    UnsupportedImage { path: std::path::PathBuf },
    NoImages { directory: std::path::PathBuf },
}

pub open spec fn ascii_lowercase(c: char) -> char {
    if 'A' <= c <= 'Z' {
        ((c as u32) + 32) as char
    } else {
        c
    }
}

/// Equality of two texts when ASCII letters are compared without their case.
pub open spec fn equal_ignoring_ascii_case(a: Seq<char>, b: Seq<char>) -> bool {
    &&& a.len() == b.len()
    &&& forall|i: int| 0 <= i < a.len() ==> ascii_lowercase(#[trigger] a[i]) == ascii_lowercase(b[i])
}

/// The format named by a file extension, whatever the case of its letters.
pub open spec fn extension_format(extension: Seq<char>) -> Option<ImageFormat> {
    if equal_ignoring_ascii_case(extension, "jpg"@) || equal_ignoring_ascii_case(
        extension,
        "jpeg"@,
    ) {
        Some(ImageFormat::Jpeg)
    } else if equal_ignoring_ascii_case(extension, "png"@) {
        Some(ImageFormat::Png)
    } else {
        None
    }
}

/// The ASCII lowercase of a character; other characters are unchanged.
pub fn lowercase_ascii(c: char) -> (lower: char)
    ensures
        lower == ascii_lowercase(c),
{
    if 'A' <= c && c <= 'Z' {
        ((c as u8) + 32) as char
    } else {
        c
    }
}

/// Compares `text` with the lowercase ASCII word `word`, ignoring ASCII case.
fn eq_ignore_ascii_case(text: &str, word: &str) -> (equal: bool)
    requires
        forall|i: int| 0 <= i < word@.len() ==> ascii_lowercase(#[trigger] word@[i]) == word@[i],
    ensures
        equal == equal_ignoring_ascii_case(text@, word@),
{
    let length = text.unicode_len();
    if length != word.unicode_len() {
        return false;
    }
    let mut index: usize = 0;
    while index < length
        invariant
            length == text@.len() == word@.len(),
            index <= length,
            forall|i: int| 0 <= i < word@.len() ==> ascii_lowercase(#[trigger] word@[i]) == word@[i],
            forall|i: int|
                0 <= i < index ==> ascii_lowercase(#[trigger] text@[i]) == ascii_lowercase(
                    word@[i],
                ),
        decreases length - index,
    {
        if lowercase_ascii(text.get_char(index)) != word.get_char(index) {
            return false;
        }
        index = index + 1;
    }
    true
}

/// Returns the format that a file extension names, ignoring ASCII case:
/// `jpg` and `jpeg` name JPEG, `png` names PNG.
pub fn image_format_from_extension(extension: &str) -> (format: Option<ImageFormat>)
    ensures
        format == extension_format(extension@),
{
    proof {
        reveal_strlit("jpg");
        reveal_strlit("jpeg");
        reveal_strlit("png");
    }
    if eq_ignore_ascii_case(extension, "jpg") || eq_ignore_ascii_case(extension, "jpeg") {
        Some(ImageFormat::Jpeg)
    } else if eq_ignore_ascii_case(extension, "png") {
        Some(ImageFormat::Png)
    } else {
        None
    }
}

/// What a caller reads about one entry of an image directory.
#[derive(Debug)]
pub struct DirectoryEntry {
    /// The entry's path.
    pub path: std::path::PathBuf,
    /// Whether the path is a regular file.
    pub is_file: bool,
    /// The file name, made valid UTF-8 by replacing invalid sequences.
    pub name: String,
    /// The file name as the operating system stores it.
    pub name_bytes: Vec<u8>,
    /// The extension of the file name, when it has one that is valid UTF-8.
    pub extension: Option<String>,
}

/// The format of an entry that is an image file the library can use.
pub open spec fn entry_format(entry: DirectoryEntry) -> Option<ImageFormat> {
    if !entry.is_file {
        None
    } else {
        match entry.extension {
            Some(extension) => extension_format(extension@),
            None => None,
        }
    }
}

/// The usable images among the entries, in their order, with their formats.
pub open spec fn image_candidates(entries: Seq<DirectoryEntry>) -> Seq<(DirectoryEntry, ImageFormat)>
    decreases entries.len(),
{
    if entries.len() == 0 {
        Seq::empty()
    } else {
        let earlier = image_candidates(entries.drop_last());
        match entry_format(entries.last()) {
            Some(format) => earlier.push((entries.last(), format)),
            None => earlier,
        }
    }
}

/// The order of directory entries: natural order of their names, and the
/// order of the names' bytes when two names read the same.
#[verifier::opaque]
pub open spec fn entry_order(a: DirectoryEntry, b: DirectoryEntry) -> NaturalOrder {
    then_order(
        natural_order(encode_utf8(a.name@), encode_utf8(b.name@)),
        lexicographic(a.name_bytes@, b.name_bytes@),
    )
}


/// The entry order is antisymmetric.
pub proof fn lemma_entry_order_antisymmetric(a: DirectoryEntry, b: DirectoryEntry)
    ensures
        entry_order(a, b) == reversed(entry_order(b, a)),
{
    reveal(entry_order);
    law_natural_order_antisymmetric(encode_utf8(a.name@), encode_utf8(b.name@));
    lemma_lexicographic_laws(a.name_bytes@, b.name_bytes@);
}

fn compare_entries(a: &DirectoryEntry, b: &DirectoryEntry) -> (order: NaturalOrder)
    ensures
        order == entry_order(*a, *b),
{
    reveal(entry_order);
    let by_name = natural_compare_bytes(a.name.as_str().as_bytes(), b.name.as_str().as_bytes());
    if by_name != NaturalOrder::Equal {
        return by_name;
    }
    assert(a.name_bytes@.subrange(0, a.name_bytes@.len() as int) =~= a.name_bytes@);
    assert(b.name_bytes@.subrange(0, b.name_bytes@.len() as int) =~= b.name_bytes@);
    compare_bytes(
        a.name_bytes.as_slice(),
        0,
        a.name_bytes.len(),
        b.name_bytes.as_slice(),
        0,
        b.name_bytes.len(),
    )
}

/// The entry order is transitive.
pub proof fn lemma_entry_order_transitive(a: DirectoryEntry, b: DirectoryEntry, c: DirectoryEntry)
    requires
        entry_order(a, b) != NaturalOrder::Greater,
        entry_order(b, c) != NaturalOrder::Greater,
    ensures
        entry_order(a, c) != NaturalOrder::Greater,
{
    reveal(entry_order);
    let (na, nb, nc) = (encode_utf8(a.name@), encode_utf8(b.name@), encode_utf8(c.name@));
    let (ba, bb, bc) = (a.name_bytes@, b.name_bytes@, c.name_bytes@);
    law_natural_order_antisymmetric(na, nb);
    law_natural_order_antisymmetric(nb, nc);
    law_natural_order_antisymmetric(na, nc);
    lemma_lexicographic_laws(ba, bb);
    lemma_lexicographic_laws(bb, bc);
    lemma_lexicographic_laws(ba, bc);
    law_natural_order_antisymmetric(na, na);
    if natural_order(na, nb) == NaturalOrder::Less && natural_order(nb, nc) == NaturalOrder::Less {
        law_natural_order_transitive(na, nb, nc);
    }
    if lexicographic(ba, bb) == NaturalOrder::Less && lexicographic(bb, bc) == NaturalOrder::Less {
        lemma_lexicographic_transitive(ba, bb, bc);
    }
    if ba == bc {
        lemma_lexicographic_laws(ba, ba);
    }
}

/// Sequences in which no image comes after a later one in the entry order.
pub open spec fn is_sorted(images: Seq<(DirectoryEntry, ImageFormat)>) -> bool {
    forall|i: int, j: int|
        0 <= i < j < images.len() ==> entry_order(#[trigger] images[i].0, #[trigger] images[j].0)
            != NaturalOrder::Greater
}

proof fn lemma_ordered_is_sorted(images: Seq<(DirectoryEntry, ImageFormat)>)
    requires
        is_ordered(images),
    ensures
        is_sorted(images),
    decreases images.len(),
{
    if images.len() > 1 {
        let earlier = images.drop_last();
        assert forall|i: int, j: int|
            #![trigger earlier[i], earlier[j]]
            0 <= i && j == i + 1 && j < earlier.len() implies entry_order(earlier[i].0, earlier[j].0)
                != NaturalOrder::Greater by {
            assert(earlier[i] == images[i] && earlier[j] == images[j]);
        }
        lemma_ordered_is_sorted(earlier);
        let last = images.len() - 1;
        assert forall|i: int, j: int| 0 <= i < j < images.len() implies entry_order(
            #[trigger] images[i].0,
            #[trigger] images[j].0,
        ) != NaturalOrder::Greater by {
            if j < last {
                assert(earlier[i] == images[i] && earlier[j] == images[j]);
            } else if i < last - 1 {
                assert(earlier[i] == images[i] && earlier[last - 1] == images[last - 1]);
                assert(entry_order(images[last - 1].0, images[last].0) != NaturalOrder::Greater);
                lemma_entry_order_transitive(images[i].0, images[last - 1].0, images[last].0);
            } else {
                assert(entry_order(images[last - 1].0, images[last].0) != NaturalOrder::Greater);
            }
        }
    }
}

/// Sequences whose neighbours never step down in the entry order.
spec fn is_ordered(images: Seq<(DirectoryEntry, ImageFormat)>) -> bool {
    forall|i: int, j: int|
        #![trigger images[i], images[j]]
        0 <= i && j == i + 1 && j < images.len() ==> entry_order(images[i].0, images[j].0)
            != NaturalOrder::Greater
}

/// Inserting an image after every image that does not come after it, and
/// before every image that does, keeps the sequence ordered.
proof fn lemma_insert_keeps_order(
    before: Seq<(DirectoryEntry, ImageFormat)>,
    position: int,
    image: (DirectoryEntry, ImageFormat),
)
    requires
        is_ordered(before),
        0 <= position <= before.len(),
        position > 0 ==> entry_order(before[position - 1].0, image.0) != NaturalOrder::Greater,
        forall|k: int|
            position <= k < before.len() ==> entry_order(#[trigger] before[k].0, image.0)
                == NaturalOrder::Greater,
    ensures
        is_ordered(before.insert(position, image)),
{
    let after = before.insert(position, image);
    assert forall|i: int, j: int|
        #![trigger after[i], after[j]]
        0 <= i && j == i + 1 && j < after.len() implies entry_order(after[i].0, after[j].0)
            != NaturalOrder::Greater by {
        if i + 1 < position {
            assert(after[i] == before[i] && after[i + 1] == before[i + 1]);
        } else if i + 1 == position {
            assert(after[i] == before[i]);
        } else if i == position {
            assert(after[i + 1] == before[i]);
            lemma_entry_order_antisymmetric(before[i].0, image.0);
        } else {
            assert(after[i] == before[i - 1] && after[i + 1] == before[i]);
        }
    }
}

/// Selects the regular files of a directory listing that have a JPEG or PNG
/// extension and puts them in natural order of their names.
///
/// The result holds exactly the usable entries, each once, with its format;
/// a listing without any usable entry is refused with `NoImages`.
pub fn order_directory_images(directory: std::path::PathBuf, entries: Vec<DirectoryEntry>) -> (result:
    Result<Vec<(DirectoryEntry, ImageFormat)>, ImageCollectionError>)
    ensures
        match result {
            Ok(images) => {
                &&& images@.len() > 0
                &&& images@.to_multiset() == image_candidates(entries@).to_multiset()
                &&& is_sorted(images@)
            },
            Err(error) => {
                &&& image_candidates(entries@).len() == 0
                &&& error matches ImageCollectionError::NoImages { directory: d } && d == directory
            },
        },
{
    let ghost all = entries@;
    let mut rest = entries;
    let mut images: Vec<(DirectoryEntry, ImageFormat)> = Vec::new();
    let ghost mut taken: int = 0;
    assert(all.skip(0) =~= all);
    while rest.len() > 0
        invariant
            0 <= taken <= all.len(),
            rest@ == all.skip(taken),
            images@.to_multiset() == image_candidates(all.take(taken)).to_multiset(),
            images@.len() == image_candidates(all.take(taken)).len(),
            is_ordered(images@),
        decreases rest@.len(),
    {
        let entry = rest.remove(0);
        proof {
            assert(all.take(taken + 1).drop_last() =~= all.take(taken));
            assert(all.take(taken + 1).last() == entry);
            assert(rest@ =~= all.skip(taken + 1));
        }
        let format = if entry.is_file {
            match &entry.extension {
                Some(extension) => image_format_from_extension(extension.as_str()),
                None => None,
            }
        } else {
            None
        };
        if let Some(format) = format {
            let mut position = images.len();
            while position > 0 && compare_entries(&images[position - 1].0, &entry)
                == NaturalOrder::Greater
                invariant
                    position <= images@.len(),
                    forall|k: int|
                        position <= k < images@.len() ==> entry_order(#[trigger] images@[k].0, entry)
                            == NaturalOrder::Greater,
                decreases position,
            {
                position = position - 1;
            }
            let ghost before = images@;
            let ghost earlier = image_candidates(all.take(taken));
            proof {
                lemma_insert_keeps_order(before, position as int, (entry, format));
                vstd::seq_lib::to_multiset_insert(before, position as int, (entry, format));
                vstd::seq_lib::to_multiset_build(earlier, (entry, format));
            }
            images.insert(position, (entry, format));
        }
        proof {
            taken = taken + 1;
        }
    }
    proof {
        assert(all.take(taken) =~= all);
        lemma_ordered_is_sorted(images@);
    }
    if images.len() == 0 {
        return Err(ImageCollectionError::NoImages { directory });
    }
    Ok(images)
}


/// Calls `Read::read_exact` to fill one byte from an empty slice and gives
/// its error: the error that reading a file too short for its header reports.
/// `read_exact` is documented to fail, with `UnexpectedEof`, when the input
/// ends before the buffer is full, so the call cannot succeed; nothing is
/// claimed about the value.
#[verifier::external_body]
fn unexpected_end_of_file() -> std::io::Error {
    let mut empty: &[u8] = &[];
    std::io::Read::read_exact(&mut empty, &mut [0u8; 1]).unwrap_err()
}

/// The outcome of reading the dimensions of an image of the given format.
pub open spec fn header_dimensions(format: ImageFormat, contents: Seq<u8>) -> Result<
    ImageDimensions,
    HeaderError,
> {
    match format {
        ImageFormat::Jpeg => jpeg_dimensions_of(contents),
        ImageFormat::Png => png_dimensions_of(contents),
    }
}

/// Reads the dimensions of one image from the contents of its file and
/// describes it as an image of the EPUB.
///
/// A file too short to hold the dimensions is reported as a failed read, as
/// reading it would fail; malformed headers are reported as invalid images.
pub fn source_image(path: std::path::PathBuf, format: ImageFormat, contents: &[u8]) -> (result:
    Result<SourceImage, ImageCollectionError>)
    ensures
        match result {
            Ok(image) => {
                &&& header_dimensions(format, contents@) == Ok::<
                    ImageDimensions,
                    HeaderError,
                >(image.dimensions)
                &&& image.path == path
                &&& image.format == format
            },
            Err(ImageCollectionError::ReadImage { path: error_path, .. }) => {
                &&& header_dimensions(format, contents@) == Err::<ImageDimensions, HeaderError>(
                    HeaderError::EndOfFile,
                )
                &&& error_path == path
            },
            Err(ImageCollectionError::InvalidImage { path: error_path, reason }) => {
                &&& header_dimensions(format, contents@) == Err::<ImageDimensions, HeaderError>(
                    HeaderError::Invalid(reason),
                )
                &&& error_path == path
            },
            Err(_) => false,
        },
{
    let dimensions = match format {
        ImageFormat::Jpeg => read_jpeg_dimensions(contents),
        ImageFormat::Png => read_png_dimensions(contents),
    };
    match dimensions {
        Ok(dimensions) => Ok(SourceImage { path, format, dimensions }),
        Err(HeaderError::EndOfFile) => Err(
            ImageCollectionError::ReadImage { path, source: unexpected_end_of_file() },
        ),
        Err(HeaderError::Invalid(reason)) => Err(ImageCollectionError::InvalidImage { path, reason }),
    }
}

/// An image that the user listed explicitly, as the caller resolved it.
#[derive(Debug)]
pub struct RequestedImage {
    /// The path, relative paths already joined to the image directory.
    pub path: std::path::PathBuf,
    /// Bytes that are equal for two requests exactly when their paths are
    /// equal as paths, that is component by component.
    pub identity: Vec<u8>,
    /// The extension of the path, when it has one that is valid UTF-8.
    pub extension: Option<String>,
}

/// Whether request `k` names a path that an earlier request already named.
pub open spec fn repeats_earlier(requests: Seq<RequestedImage>, k: int) -> bool {
    exists|j: int| 0 <= j < k && #[trigger] requests[j].identity@ == requests[k].identity@
}

/// The first request whose path an earlier request already named.
pub open spec fn first_repeated(requests: Seq<RequestedImage>) -> Option<int> {
    if exists|k: int| 0 <= k < requests.len() && #[trigger] repeats_earlier(requests, k) {
        Some(
            choose|k: int|
                0 <= k < requests.len() && #[trigger] repeats_earlier(requests, k) && forall|m: int|
                    0 <= m < k ==> !#[trigger] repeats_earlier(requests, m),
        )
    } else {
        None
    }
}

proof fn lemma_first_repeated_is(requests: Seq<RequestedImage>, k: int)
    requires
        0 <= k < requests.len(),
        repeats_earlier(requests, k),
        forall|m: int| 0 <= m < k ==> !#[trigger] repeats_earlier(requests, m),
    ensures
        first_repeated(requests) == Some(k),
{
    let chosen = choose|c: int|
        0 <= c < requests.len() && #[trigger] repeats_earlier(requests, c) && forall|m: int|
            0 <= m < c ==> !#[trigger] repeats_earlier(requests, m);
    assert(0 <= k < requests.len() && repeats_earlier(requests, k));
    if chosen > k {
        assert(!repeats_earlier(requests, k));
    }
}

/// The format of a requested image, from its extension.
pub open spec fn requested_format(request: RequestedImage) -> Option<ImageFormat> {
    match request.extension {
        Some(extension) => extension_format(extension@),
        None => None,
    }
}

/// What becomes of one requested image: its path and format, or the error
/// that an unsupported extension raises.
pub open spec fn requested_outcome(
    request: RequestedImage,
    outcome: Result<(std::path::PathBuf, ImageFormat), ImageCollectionError>,
) -> bool {
    match requested_format(request) {
        Some(format) => outcome == Ok::<(std::path::PathBuf, ImageFormat), ImageCollectionError>(
            (request.path, format),
        ),
        None => outcome matches Err(ImageCollectionError::UnsupportedImage { path }) && path
            == request.path,
    }
}

fn same_identity(a: &Vec<u8>, b: &Vec<u8>) -> (same: bool)
    ensures
        same == (a@ == b@),
{
    proof {
        lemma_lexicographic_laws(a@, b@);
        assert(a@.subrange(0, a@.len() as int) =~= a@);
        assert(b@.subrange(0, b@.len() as int) =~= b@);
        if a@ == b@ {
            lemma_lexicographic_equal(a@);
        }
    }
    compare_bytes(a.as_slice(), 0, a.len(), b.as_slice(), 0, b.len()) == NaturalOrder::Equal
}

proof fn lemma_lexicographic_equal(a: Seq<u8>)
    ensures
        lexicographic(a, a) == NaturalOrder::Equal,
    decreases a.len(),
{
    if a.len() > 0 {
        lemma_lexicographic_equal(a.drop_first());
    }
}

/// Checks an explicit image order before any file is read: the list may not
/// be empty and may not name a path twice. The result keeps the order of the
/// list and gives, for each image, its path and format, or the error of an
/// unsupported extension, which the caller reports when it reaches it.
pub fn plan_image_order(requests: Vec<RequestedImage>) -> (result: Result<
    Vec<Result<(std::path::PathBuf, ImageFormat), ImageCollectionError>>,
    ImageCollectionError,
>)
    ensures
        match result {
            Ok(outcomes) => {
                &&& requests@.len() > 0
                &&& first_repeated(requests@) is None
                &&& outcomes@.len() == requests@.len()
                &&& forall|i: int|
                    0 <= i < requests@.len() ==> requested_outcome(
                        #[trigger] requests@[i],
                        outcomes@[i],
                    )
            },
            Err(ImageCollectionError::EmptyImageOrder) => requests@.len() == 0,
            Err(ImageCollectionError::DuplicateImage { path }) => {
                &&& requests@.len() > 0
                &&& first_repeated(requests@) matches Some(k) && path == requests@[k].path
            },
            Err(_) => false,
        },
{
    if requests.len() == 0 {
        return Err(ImageCollectionError::EmptyImageOrder);
    }
    let ghost all = requests@;
    let mut k: usize = 0;
    while k < requests.len()
        invariant
            all == requests@,
            k <= requests@.len(),
            forall|m: int| 0 <= m < k ==> !#[trigger] repeats_earlier(all, m),
        decreases requests@.len() - k,
    {
        let mut j: usize = 0;
        while j < k
            invariant
                all == requests@,
                j <= k < requests@.len(),
                forall|m: int| 0 <= m < k ==> !#[trigger] repeats_earlier(all, m),
                forall|i: int| 0 <= i < j ==> all[i].identity@ != all[k as int].identity@,
            decreases k - j,
        {
            if same_identity(&requests[j].identity, &requests[k].identity) {
                proof {
                    assert(all[j as int].identity@ == all[k as int].identity@);
                    lemma_first_repeated_is(all, k as int);
                }
                let path = requests[k].path.clone();
                return Err(ImageCollectionError::DuplicateImage { path });
            }
            j = j + 1;
        }
        proof {
            assert(!repeats_earlier(all, k as int));
        }
        k = k + 1;
    }
    let mut rest = requests;
    let mut outcomes: Vec<Result<(std::path::PathBuf, ImageFormat), ImageCollectionError>> =
        Vec::new();
    assert(all.skip(0) =~= all);
    while rest.len() > 0
        invariant
            outcomes@.len() + rest@.len() == all.len(),
            rest@ == all.skip(outcomes@.len() as int),
            forall|i: int| 0 <= i < outcomes@.len() ==> requested_outcome(all[i], outcomes@[i]),
        decreases rest@.len(),
    {
        let request = rest.remove(0);
        proof {
            assert(request == all[outcomes@.len() as int]);
            assert(rest@ =~= all.skip(outcomes@.len() as int + 1));
        }
        let format = match &request.extension {
            Some(extension) => image_format_from_extension(extension.as_str()),
            None => None,
        };
        let outcome = match format {
            Some(format) => Ok((request.path, format)),
            None => Err(ImageCollectionError::UnsupportedImage { path: request.path }),
        };
        outcomes.push(outcome);
    }
    Ok(outcomes)
}

} // verus!
