//! Normalized names of the resources inside the EPUB.
//!
//! Names depend only on the position of a page, never on the input file
//! names, so nothing about the user's files leaks into the package.

use vstd::prelude::*;

use crate::format::{lemma_padded_decimal_value, padded_decimal, push_padded_decimal};
use crate::images::{format_extension, ImageFormat};
use crate::pages::PagePlacement;

verus! {

/// The page number as written in names: four digits at least.
pub open spec fn number(index: nat) -> Seq<char> {
    padded_decimal(index, 4)
}

pub open spec fn page_id_of(index: nat) -> Seq<char> {
    "page-"@ + number(index)
}

pub open spec fn image_id_of(index: nat) -> Seq<char> {
    "image-"@ + number(index)
}

pub open spec fn creator_id_of(index: nat) -> Seq<char> {
    "creator-"@ + number(index)
}

pub open spec fn page_path_of(index: nat) -> Seq<char> {
    "pages/page-"@ + number(index) + ".xhtml"@
}

pub open spec fn image_path_of(index: nat, format: ImageFormat) -> Seq<char> {
    "images/image-"@ + number(index) + "."@ + format_extension(format)
}

/// The spine property of a placement.
pub open spec fn placement_property_of(placement: PagePlacement) -> Seq<char> {
    match placement {
        PagePlacement::Left => "rendition:page-spread-left"@,
        PagePlacement::Right => "rendition:page-spread-right"@,
        PagePlacement::Center => "rendition:page-spread-center"@,
    }
}

proof fn lemma_same_middle(prefix: Seq<char>, a: Seq<char>, b: Seq<char>, suffix_a: Seq<char>, suffix_b: Seq<char>)
    requires
        prefix + a + suffix_a == prefix + b + suffix_b,
        suffix_a.len() == suffix_b.len(),
    ensures
        a == b,
        suffix_a == suffix_b,
{
    let whole_a = prefix + a + suffix_a;
    let whole_b = prefix + b + suffix_b;
    assert(whole_a.len() == prefix.len() + a.len() + suffix_a.len());
    assert(whole_b.len() == prefix.len() + b.len() + suffix_b.len());
    assert(a.len() == b.len());
    assert(a =~= whole_a.subrange(prefix.len() as int, (prefix.len() + a.len()) as int));
    assert(b =~= whole_b.subrange(prefix.len() as int, (prefix.len() + b.len()) as int));
    assert(suffix_a =~= whole_a.subrange((prefix.len() + a.len()) as int, whole_a.len() as int));
    assert(suffix_b =~= whole_b.subrange((prefix.len() + b.len()) as int, whole_b.len() as int));
}

proof fn lemma_numbers_tell_pages_apart(i: nat, j: nat)
    requires
        number(i) == number(j),
    ensures
        i == j,
{
    lemma_padded_decimal_value(i, 4);
}

/// The suffix of an image path: a dot and the extension of the format.
spec fn image_suffix(format: ImageFormat) -> Seq<char> {
    "."@ + format_extension(format)
}

proof fn lemma_image_suffix(f: ImageFormat, g: ImageFormat)
    ensures
        image_suffix(f).len() == 4,
        image_suffix(f) == image_suffix(g) ==> f == g,
{
    reveal_strlit(".");
    reveal_strlit("jpg");
    reveal_strlit("png");
    if image_suffix(f) == image_suffix(g) {
        assert(image_suffix(f)[1] == image_suffix(g)[1]);
    }
}

/// Names are made from page numbers alone and tell pages apart: two pages
/// have the same id, document path or image path only when they are the same
/// page, and an image path also fixes the format of the image.
pub proof fn lemma_names_tell_pages_apart(i: nat, j: nat, f: ImageFormat, g: ImageFormat)
    ensures
        page_id_of(i) == page_id_of(j) ==> i == j,
        image_id_of(i) == image_id_of(j) ==> i == j,
        page_path_of(i) == page_path_of(j) ==> i == j,
        image_path_of(i, f) == image_path_of(j, g) ==> i == j && f == g,
{
    if page_id_of(i) == page_id_of(j) {
        assert(page_id_of(i) =~= "page-"@ + number(i) + seq![]);
        assert(page_id_of(j) =~= "page-"@ + number(j) + seq![]);
        lemma_same_middle("page-"@, number(i), number(j), seq![], seq![]);
        lemma_numbers_tell_pages_apart(i, j);
    }
    if image_id_of(i) == image_id_of(j) {
        assert(image_id_of(i) =~= "image-"@ + number(i) + seq![]);
        assert(image_id_of(j) =~= "image-"@ + number(j) + seq![]);
        lemma_same_middle("image-"@, number(i), number(j), seq![], seq![]);
        lemma_numbers_tell_pages_apart(i, j);
    }
    if page_path_of(i) == page_path_of(j) {
        lemma_same_middle("pages/page-"@, number(i), number(j), ".xhtml"@, ".xhtml"@);
        lemma_numbers_tell_pages_apart(i, j);
    }
    if image_path_of(i, f) == image_path_of(j, g) {
        assert(image_path_of(i, f) =~= "images/image-"@ + number(i) + image_suffix(f));
        assert(image_path_of(j, g) =~= "images/image-"@ + number(j) + image_suffix(g));
        lemma_image_suffix(f, g);
        lemma_image_suffix(g, f);
        lemma_same_middle("images/image-"@, number(i), number(j), image_suffix(f), image_suffix(g));
        lemma_numbers_tell_pages_apart(i, j);
    }
}

/// `prefix` followed by the number of `index`.
fn numbered(prefix: &str, index: usize) -> (name: String)
    ensures
        name@ == prefix@ + number(index as nat),
{
    let mut name = prefix.to_owned();
    push_padded_decimal(&mut name, index, 4);
    name
}

/// The manifest id of the XHTML document of a page.
pub fn page_id(index: usize) -> (id: String)
    ensures
        id@ == page_id_of(index as nat),
{
    numbered("page-", index)
}

/// The manifest id of the image of a page; it differs from the page ids.
pub fn image_id(index: usize) -> (id: String)
    ensures
        id@ == image_id_of(index as nat),
{
    numbered("image-", index)
}

/// The id of the `dc:creator` element of a creator.
pub fn creator_id(index: usize) -> (id: String)
    ensures
        id@ == creator_id_of(index as nat),
{
    numbered("creator-", index)
}

/// The path of the XHTML document of a page, relative to the package directory.
pub fn page_path(index: usize) -> (path: String)
    ensures
        path@ == page_path_of(index as nat),
{
    let mut path = numbered("pages/page-", index);
    path.append(".xhtml");
    path
}

/// The path of the image of a page, with the normalized extension of its format.
pub fn image_path(index: usize, format: ImageFormat) -> (path: String)
    ensures
        path@ == image_path_of(index as nat, format),
{
    let mut path = numbered("images/image-", index);
    path.append(".");
    path.append(format.extension());
    path
}

/// The EPUB vocabulary for a placement, written on the spine's `itemref`.
pub fn placement_property(placement: PagePlacement) -> (property: &'static str)
    ensures
        property@ == placement_property_of(placement),
{
    match placement {
        PagePlacement::Left => "rendition:page-spread-left",
        PagePlacement::Right => "rendition:page-spread-right",
        PagePlacement::Center => "rendition:page-spread-center",
    }
}

} // verus!
