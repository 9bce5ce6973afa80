//! Pixel dimensions from the headers of JPEG and PNG files.
//!
//! Only the bytes needed to find the width and the height are examined; the
//! image data itself is never decoded.

use vstd::prelude::*;

use crate::images::{ImageDimensions, InvalidImageReason};

verus! {

/// Why no dimensions could be read from the start of a file.
#[derive(Clone, Copy, Debug, PartialEq, Eq, Structural)]
pub enum HeaderError {
    /// The file ended before the dimensions were found.
    EndOfFile,
    /// The bytes do not have the structure of the format.
    Invalid(InvalidImageReason),
}

pub open spec fn be16(bytes: Seq<u8>, at: int) -> int {
    bytes[at] * 256 + bytes[at + 1]
}

pub open spec fn be32(bytes: Seq<u8>, at: int) -> int {
    bytes[at] * 16777216 + bytes[at + 1] * 65536 + bytes[at + 2] * 256 + bytes[at + 3]
}

/// Dimensions are usable when neither of them is zero.
pub open spec fn dimensions_result(width: int, height: int) -> Result<ImageDimensions, HeaderError> {
    if width == 0 || height == 0 {
        Err(HeaderError::Invalid(InvalidImageReason::InvalidDimensions))
    } else {
        Ok(ImageDimensions { width: width as u32, height: height as u32 })
    }
}

pub open spec fn png_signature() -> Seq<u8> {
    seq![0x89u8, 0x50u8, 0x4eu8, 0x47u8, 0x0du8, 0x0au8, 0x1au8, 0x0au8]
}

/// The length and the type of the IHDR chunk, which must come first.
pub open spec fn png_header_chunk() -> Seq<u8> {
    seq![0u8, 0u8, 0u8, 13u8, 0x49u8, 0x48u8, 0x44u8, 0x52u8]
}

/// The outcome of reading the first 24 bytes of a PNG file: the signature,
/// then the IHDR chunk whose data starts with the width and the height.
pub open spec fn png_dimensions_of(bytes: Seq<u8>) -> Result<ImageDimensions, HeaderError> {
    if bytes.len() < 24 {
        Err(HeaderError::EndOfFile)
    } else if bytes.subrange(0, 8) != png_signature() || bytes.subrange(8, 16)
        != png_header_chunk() {
        Err(HeaderError::Invalid(InvalidImageReason::InvalidHeader))
    } else {
        dimensions_result(be32(bytes, 16), be32(bytes, 20))
    }
}

/// Markers of the JPEG start-of-frame segments, which give the dimensions.
pub open spec fn is_start_of_frame_marker(marker: u8) -> bool {
    (0xc0 <= marker <= 0xc3) || (0xc5 <= marker <= 0xc7) || (0xc9 <= marker <= 0xcb) || (0xcd
        <= marker <= 0xcf)
}

/// The next JPEG marker at or after `at`, and where the data after it starts.
/// Bytes other than `0xff` before a marker are skipped, `0xff` fill bytes are
/// skipped, and `0xff 0x00` is not a marker. `None` when the bytes run out.
pub open spec fn next_marker(bytes: Seq<u8>, at: int) -> Option<(u8, int)>
    decreases bytes.len() - at, 1int,
{
    if at < 0 || at >= bytes.len() {
        None
    } else if bytes[at] != 0xff {
        next_marker(bytes, at + 1)
    } else {
        marker_after_prefix(bytes, at + 1)
    }
}

/// The marker that follows a `0xff` byte, the byte at `at` being the next one.
pub open spec fn marker_after_prefix(bytes: Seq<u8>, at: int) -> Option<(u8, int)>
    decreases bytes.len() - at, 0int,
{
    if at < 0 || at >= bytes.len() {
        None
    } else if bytes[at] == 0xff {
        marker_after_prefix(bytes, at + 1)
    } else if bytes[at] == 0 {
        next_marker(bytes, at + 1)
    } else {
        Some((bytes[at], at + 1))
    }
}

pub proof fn lemma_next_marker_advances(bytes: Seq<u8>, at: int)
    ensures
        next_marker(bytes, at) matches Some((marker, after)) ==> at < after <= bytes.len(),
        marker_after_prefix(bytes, at) matches Some((marker, after)) ==> at < after
            <= bytes.len(),
    decreases bytes.len() - at,
{
    if 0 <= at < bytes.len() {
        lemma_next_marker_advances(bytes, at + 1);
    }
}

/// The outcome of reading JPEG segments from `at` on until a start-of-frame
/// segment gives the dimensions.
pub open spec fn jpeg_segments(bytes: Seq<u8>, at: int) -> Result<ImageDimensions, HeaderError>
    decreases bytes.len() - at,
{
    match next_marker(bytes, at) {
        None => Err(HeaderError::EndOfFile),
        Some((marker, after)) => {
            if is_start_of_frame_marker(marker) {
                if after + 2 > bytes.len() {
                    Err(HeaderError::EndOfFile)
                } else if be16(bytes, after) < 8 {
                    Err(HeaderError::Invalid(InvalidImageReason::InvalidStructure))
                } else if after + 7 > bytes.len() {
                    Err(HeaderError::EndOfFile)
                } else {
                    // The frame header holds the precision, then the height, then the width.
                    dimensions_result(be16(bytes, after + 5), be16(bytes, after + 3))
                }
            } else if marker == 0xd9 || marker == 0xda {
                Err(HeaderError::Invalid(InvalidImageReason::InvalidStructure))
            } else if marker == 0xd8 || marker == 0x01 || (0xd0 <= marker <= 0xd7) {
                proof {
                    lemma_next_marker_advances(bytes, at);
                }
                jpeg_segments(bytes, after)
            } else if after + 2 > bytes.len() {
                Err(HeaderError::EndOfFile)
            } else if be16(bytes, after) < 2 {
                Err(HeaderError::Invalid(InvalidImageReason::InvalidStructure))
            } else if after + be16(bytes, after) > bytes.len() {
                Err(HeaderError::EndOfFile)
            } else {
                proof {
                    lemma_next_marker_advances(bytes, at);
                }
                jpeg_segments(bytes, after + be16(bytes, after))
            }
        },
    }
}

/// The outcome of reading a JPEG file: the start-of-image marker `0xff 0xd8`,
/// then segments until a start-of-frame segment.
pub open spec fn jpeg_dimensions_of(bytes: Seq<u8>) -> Result<ImageDimensions, HeaderError> {
    if bytes.len() < 2 {
        Err(HeaderError::EndOfFile)
    } else if bytes[0] != 0xff || bytes[1] != 0xd8 {
        Err(HeaderError::Invalid(InvalidImageReason::InvalidHeader))
    } else {
        jpeg_segments(bytes, 2)
    }
}

/// A JPEG whose first segment after the start of image is a start-of-frame
/// segment (markers `0xc0` to `0xc3`, `0xc5` to `0xc7`, `0xc9` to `0xcb` and
/// `0xcd` to `0xcf`: baseline, extended, progressive and lossless frames,
/// Huffman or arithmetic coded) of length at least 8 has the height that
/// follows the sample precision and then the width; the markers `0xc4`
/// (Huffman tables), `0xc8` (reserved) and `0xcc` (arithmetic coding
/// conditioning), though they lie in that range, start ordinary segments that
/// are skipped by their length.
pub proof fn law_jpeg_frame_gives_dimensions(bytes: Seq<u8>)
    requires
        bytes.len() >= 11,
        bytes[0] == 0xff && bytes[1] == 0xd8 && bytes[2] == 0xff,
        bytes[4] * 256 + bytes[5] >= 8,
    ensures
        ({
            let marker = bytes[3];
            let height = bytes[7] * 256 + bytes[8];
            let width = bytes[9] * 256 + bytes[10];
            (0xc0 <= marker <= 0xc3 || 0xc5 <= marker <= 0xc7 || 0xc9 <= marker <= 0xcb || 0xcd
                <= marker <= 0xcf) && width > 0 && height > 0 ==> jpeg_dimensions_of(bytes) == Ok::<
                ImageDimensions,
                HeaderError,
            >(ImageDimensions { width: width as u32, height: height as u32 })
        }),
        ({
            let marker = bytes[3];
            let length = bytes[4] * 256 + bytes[5];
            (marker == 0xc4 || marker == 0xc8 || marker == 0xcc) && 4 + length <= bytes.len()
                ==> jpeg_dimensions_of(bytes) == jpeg_segments(bytes, 4 + length)
        }),
{
    assert(marker_after_prefix(bytes, 3) == if bytes[3] == 0xff || bytes[3] == 0 {
        marker_after_prefix(bytes, 3)
    } else {
        Some((bytes[3], 4int))
    });
}

/// Checks that both dimensions are greater than zero.
fn dimensions_or_error(width: u32, height: u32) -> (result: Result<ImageDimensions, HeaderError>)
    ensures
        result == dimensions_result(width as int, height as int),
{
    if width == 0 || height == 0 {
        Err(HeaderError::Invalid(InvalidImageReason::InvalidDimensions))
    } else {
        Ok(ImageDimensions { width, height })
    }
}

fn read_be16(bytes: &[u8], at: usize) -> (value: u32)
    requires
        at + 2 <= bytes@.len(),
    ensures
        value as int == be16(bytes@, at as int),
        value < 65536,
{
    (bytes[at] as u32) * 256 + (bytes[at + 1] as u32)
}

fn read_be32(bytes: &[u8], at: usize) -> (value: u32)
    requires
        at + 4 <= bytes@.len(),
    ensures
        value as int == be32(bytes@, at as int),
{
    (bytes[at] as u32) * 16777216 + (bytes[at + 1] as u32) * 65536 + (bytes[at + 2] as u32) * 256
        + (bytes[at + 3] as u32)
}

/// Reads the width and the height from the start of a PNG file.
pub fn read_png_dimensions(bytes: &[u8]) -> (result: Result<ImageDimensions, HeaderError>)
    ensures
        result == png_dimensions_of(bytes@),
{
    if bytes.len() < 24 {
        return Err(HeaderError::EndOfFile);
    }
    let signature: [u8; 8] = [0x89, 0x50, 0x4e, 0x47, 0x0d, 0x0a, 0x1a, 0x0a];
    let chunk: [u8; 8] = [0, 0, 0, 13, 0x49, 0x48, 0x44, 0x52];
    let ghost expected_signature = png_signature();
    let ghost expected_chunk = png_header_chunk();
    assert(signature@ =~= expected_signature);
    assert(chunk@ =~= expected_chunk);
    let mut index: usize = 0;
    while index < 8
        invariant
            bytes@.len() >= 24,
            signature@ == png_signature(),
            chunk@ == png_header_chunk(),
            index <= 8,
            forall|i: int| 0 <= i < index ==> bytes@[i] == signature@[i],
            forall|i: int| 0 <= i < index ==> bytes@[8 + i] == chunk@[i],
        decreases 8 - index,
    {
        if bytes[index] != signature[index] || bytes[8 + index] != chunk[index] {
            proof {
                if bytes@[index as int] != signature@[index as int] {
                    assert(bytes@.subrange(0, 8)[index as int] != png_signature()[index as int]);
                } else {
                    assert(bytes@.subrange(8, 16)[index as int] != png_header_chunk()[index as int]);
                }
            }
            return Err(HeaderError::Invalid(InvalidImageReason::InvalidHeader));
        }
        index = index + 1;
    }
    assert(bytes@.subrange(0, 8) =~= png_signature());
    assert(bytes@.subrange(8, 16) =~= png_header_chunk());
    dimensions_or_error(read_be32(bytes, 16), read_be32(bytes, 20))
}

/// Whether a JPEG marker starts a frame.
fn is_start_of_frame(marker: u8) -> (result: bool)
    ensures
        result == is_start_of_frame_marker(marker),
{
    (0xc0 <= marker && marker <= 0xc3) || (0xc5 <= marker && marker <= 0xc7) || (0xc9 <= marker
        && marker <= 0xcb) || (0xcd <= marker && marker <= 0xcf)
}

/// Finds the next JPEG marker at or after `at`.
fn next_jpeg_marker(bytes: &[u8], at: usize) -> (found: Option<(u8, usize)>)
    requires
        at <= bytes@.len(),
    ensures
        match found {
            Some((marker, after)) => next_marker(bytes@, at as int) == Some(
                (marker, after as int),
            ),
            None => next_marker(bytes@, at as int) is None,
        },
{
    let mut position = at;
    loop
        invariant
            at <= position <= bytes@.len(),
            next_marker(bytes@, at as int) == next_marker(bytes@, position as int),
        decreases bytes@.len() - position,
    {
        if position >= bytes.len() {
            return None;
        }
        let ghost start = position as int;
        let byte = bytes[position];
        position = position + 1;
        if byte == 0xff {
            assert(next_marker(bytes@, start) == marker_after_prefix(bytes@, start + 1));
            if position >= bytes.len() {
                return None;
            }
            let mut marker = bytes[position];
            position = position + 1;
            while marker == 0xff
                invariant
                    at <= start < position <= bytes@.len(),
                    marker == bytes@[position - 1],
                    next_marker(bytes@, at as int) == marker_after_prefix(
                        bytes@,
                        position - 1,
                    ),
                decreases bytes@.len() - position,
            {
                assert(marker_after_prefix(bytes@, position - 1) == marker_after_prefix(
                    bytes@,
                    position as int,
                ));
                if position >= bytes.len() {
                    return None;
                }
                marker = bytes[position];
                position = position + 1;
            }
            if marker != 0 {
                return Some((marker, position));
            }
            assert(marker_after_prefix(bytes@, position - 1) == next_marker(
                bytes@,
                position as int,
            ));
        } else {
            assert(next_marker(bytes@, start) == next_marker(bytes@, start + 1));
        }
    }
}

/// Reads the width and the height from the start-of-frame segment of a JPEG file.
pub fn read_jpeg_dimensions(bytes: &[u8]) -> (result: Result<ImageDimensions, HeaderError>)
    ensures
        result == jpeg_dimensions_of(bytes@),
{
    if bytes.len() < 2 {
        return Err(HeaderError::EndOfFile);
    }
    if read_be16(bytes, 0) != 0xffd8 {
        return Err(HeaderError::Invalid(InvalidImageReason::InvalidHeader));
    }
    let mut position: usize = 2;
    loop
        invariant
            2 <= position <= bytes@.len(),
            jpeg_dimensions_of(bytes@) == jpeg_segments(bytes@, position as int),
        decreases bytes@.len() - position,
    {
        let (marker, after) = match next_jpeg_marker(bytes, position) {
            Some(found) => found,
            None => return Err(HeaderError::EndOfFile),
        };
        proof {
            lemma_next_marker_advances(bytes@, position as int);
        }
        if is_start_of_frame(marker) {
            if bytes.len() - after < 2 {
                return Err(HeaderError::EndOfFile);
            }
            if read_be16(bytes, after) < 8 {
                return Err(HeaderError::Invalid(InvalidImageReason::InvalidStructure));
            }
            if bytes.len() - after < 7 {
                return Err(HeaderError::EndOfFile);
            }
            let height = read_be16(bytes, after + 3);
            let width = read_be16(bytes, after + 5);
            return dimensions_or_error(width, height);
        }
        if marker == 0xd9 || marker == 0xda {
            return Err(HeaderError::Invalid(InvalidImageReason::InvalidStructure));
        }
        if marker == 0xd8 || marker == 0x01 || (0xd0 <= marker && marker <= 0xd7) {
            position = after;
        } else {
            if bytes.len() - after < 2 {
                return Err(HeaderError::EndOfFile);
            }
            let length = read_be16(bytes, after) as usize;
            if length < 2 {
                return Err(HeaderError::Invalid(InvalidImageReason::InvalidStructure));
            }
            if bytes.len() - after < length {
                return Err(HeaderError::EndOfFile);
            }
            position = after + length;
        }
    }
}

} // verus!
