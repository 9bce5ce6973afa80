//! The layout of the OCF container (the ZIP archive) of an EPUB.

use vstd::prelude::*;

use crate::documents::{documents_match, page_events, GeneratedDocuments, MinimalMetadata};
use crate::format::lemma_padded_decimal_digits;
use crate::xml::XmlEventView;
use crate::images::{format_extension, ImageDimensions, ImageFormat, SourceImage};
use crate::names::{image_path, image_path_of, lemma_names_tell_pages_apart, number, page_path_of};
use crate::pages::PagePlacement;
use crate::toc::TocEntry;

verus! {

#[verifier::external_type_specification]
#[verifier::external_body]
pub struct ExZipError(zip::result::ZipError);

/// Errors met while writing the OCF archive.
#[derive(Debug)]
pub enum PackageError {
    CreateOutput { path: std::path::PathBuf, source: std::io::Error },
    ReadImage { path: std::path::PathBuf, source: std::io::Error },
    WriteArchive(std::io::Error),
    Zip(zip::result::ZipError),
    PageCountMismatch { image_count: usize, page_count: usize },
}

/// How the bytes of an entry are stored in the archive.
#[derive(Clone, Copy, Debug, PartialEq, Eq, Structural)]
pub enum Compression {
    Stored,
    Deflated,
}

/// Where the bytes of an entry come from.
#[derive(Clone, Copy, Debug, PartialEq, Eq, Structural)]
pub enum EntrySource {
    /// The media type of EPUB, `application/epub+zip`, alone.
    Mimetype,
    ContainerXml,
    PackageOpf,
    NavigationXhtml,
    PageCss,
    /// The XHTML document of the page at this index.
    Page(usize),
    /// The unchanged bytes of the source image at this index.
    Image(usize),
}

/// One entry of the archive.
#[derive(Debug)]
pub struct ArchiveEntry {
    pub path: String,
    pub source: EntrySource,
    pub compression: Compression,
}

pub open spec fn mimetype_text() -> Seq<char> {
    "application/epub+zip"@
}

/// The content of the `mimetype` entry, with no line break or space.
pub fn mimetype() -> (text: &'static str)
    ensures
        text@ == mimetype_text(),
{
    "application/epub+zip"
}

/// The entries of an EPUB for `page_count` pages, in order: `mimetype` first
/// and stored, then the container file, the package document, the navigation
/// document, the style sheet, every page and every image, all deflated.
pub open spec fn archive_layout(
    images: Seq<SourceImage>,
    page_paths: Seq<Seq<char>>,
) -> Seq<(Seq<char>, EntrySource, Compression)> {
    seq![
        ("mimetype"@, EntrySource::Mimetype, Compression::Stored),
        ("META-INF/container.xml"@, EntrySource::ContainerXml, Compression::Deflated),
        ("EPUB/package.opf"@, EntrySource::PackageOpf, Compression::Deflated),
        ("EPUB/nav.xhtml"@, EntrySource::NavigationXhtml, Compression::Deflated),
        ("EPUB/styles/page.css"@, EntrySource::PageCss, Compression::Deflated),
    ] + Seq::new(
        page_paths.len(),
        |i: int| ("EPUB/"@ + page_paths[i], EntrySource::Page(i as usize), Compression::Deflated),
    ) + Seq::new(
        images.len(),
        |i: int|
            (
                "EPUB/"@ + image_path_of(i as nat, images[i].format),
                EntrySource::Image(i as usize),
                Compression::Deflated,
            ),
    )
}

pub open spec fn entries_view(entries: Seq<ArchiveEntry>) -> Seq<(Seq<char>, EntrySource, Compression)> {
    entries.map_values(|entry: ArchiveEntry| (entry.path@, entry.source, entry.compression))
}

pub open spec fn page_paths_of(documents: GeneratedDocuments) -> Seq<Seq<char>> {
    documents.pages@.map_values(|page: crate::documents::PageDocument| page.path@)
}

proof fn lemma_page_entry_path(i: nat)
    ensures
        ("EPUB/"@ + page_path_of(i)).len() > 7,
        ("EPUB/"@ + page_path_of(i))[0] == 'E',
        ("EPUB/"@ + page_path_of(i))[5] == 'p',
        ("EPUB/"@ + page_path_of(i))[7] == 'g',
{
    reveal_strlit("EPUB/");
    reveal_strlit("pages/page-");
    assert(page_path_of(i)[0] == 'p' && page_path_of(i)[2] == 'g');
}

proof fn lemma_image_entry_path(i: nat, format: crate::images::ImageFormat)
    ensures
        ("EPUB/"@ + image_path_of(i, format)).len() > 7,
        ("EPUB/"@ + image_path_of(i, format))[0] == 'E',
        ("EPUB/"@ + image_path_of(i, format))[5] == 'i',
{
    reveal_strlit("EPUB/");
    reveal_strlit("images/image-");
    assert(image_path_of(i, format)[0] == 'i');
}

proof fn lemma_under_package_directory(a: Seq<char>, b: Seq<char>)
    requires
        "EPUB/"@ + a == "EPUB/"@ + b,
    ensures
        a == b,
{
    reveal_strlit("EPUB/");
    assert(a =~= ("EPUB/"@ + a).subrange(5, ("EPUB/"@ + a).len() as int));
    assert(b =~= ("EPUB/"@ + b).subrange(5, ("EPUB/"@ + b).len() as int));
}

proof fn lemma_fixed_entry_paths()
    ensures
        "mimetype"@.len() == 8 && "mimetype"@[0] == 'm',
        "META-INF/container.xml"@.len() == 22 && "META-INF/container.xml"@[0] == 'M',
        "EPUB/package.opf"@.len() == 16 && "EPUB/package.opf"@[5] == 'p'
            && "EPUB/package.opf"@[7] == 'c',
        "EPUB/nav.xhtml"@.len() == 14 && "EPUB/nav.xhtml"@[5] == 'n',
        "EPUB/styles/page.css"@.len() == 20 && "EPUB/styles/page.css"@[5] == 's',
{
    reveal_strlit("mimetype");
    reveal_strlit("META-INF/container.xml");
    reveal_strlit("EPUB/package.opf");
    reveal_strlit("EPUB/nav.xhtml");
    reveal_strlit("EPUB/styles/page.css");
}

/// For the documents of an accepted book, the archive stores the document of
/// page `i` and the image of page `i` under `EPUB/` followed by exactly the
/// `href` that the manifest gives them (see
/// `law_manifest_lists_every_page_and_image`), and no two entries of the
/// archive share a path.
pub proof fn law_archive_stores_each_resource_once(
    documents: GeneratedDocuments,
    images: Seq<SourceImage>,
    metadata: MinimalMetadata,
    placements: Seq<PagePlacement>,
    toc_entries: Seq<TocEntry>,
)
    requires
        documents_match(documents, images, metadata, placements, toc_entries),
    ensures
        archive_layout(images, page_paths_of(documents)).len() == 5 + 2 * images.len(),
        forall|i: int|
            0 <= i < images.len() ==> (#[trigger] archive_layout(images, page_paths_of(documents))[5
                + i]).0 == "EPUB/"@ + page_path_of(i as nat),
        forall|i: int|
            0 <= i < images.len() ==> (#[trigger] archive_layout(images, page_paths_of(documents))[5
                + images.len() + i]).0 == "EPUB/"@ + image_path_of(i as nat, images[i].format),
        forall|a: int, b: int|
            0 <= a < b < archive_layout(images, page_paths_of(documents)).len() ==> (
            #[trigger] archive_layout(images, page_paths_of(documents))[a]).0 != (
            #[trigger] archive_layout(images, page_paths_of(documents))[b]).0,
{
    let n = images.len() as int;
    let paths = page_paths_of(documents);
    let layout = archive_layout(images, paths);
    assert(paths.len() == n);
    assert forall|i: int| 0 <= i < n implies #[trigger] paths[i] == page_path_of(i as nat) by {
        assert(documents.pages@[i].path@ == page_path_of(i as nat));
    }
    assert forall|i: int| 0 <= i < n implies (#[trigger] layout[5 + i]).0 == "EPUB/"@ + page_path_of(
        i as nat,
    ) by {
        assert(paths[i] == page_path_of(i as nat));
    }
    lemma_fixed_entry_paths();
    assert forall|a: int, b: int| 0 <= a < b < layout.len() implies (#[trigger] layout[a]).0 != (
    #[trigger] layout[b]).0 by {
        if b < 5 {
            assert(layout[a].0.len() != layout[b].0.len());
        } else if b < 5 + n {
            let j = b - 5;
            assert(paths[j] == page_path_of(j as nat));
            lemma_page_entry_path(j as nat);
            if a >= 5 {
                let i = a - 5;
                assert(paths[i] == page_path_of(i as nat));
                if layout[a].0 == layout[b].0 {
                    lemma_under_package_directory(page_path_of(i as nat), page_path_of(j as nat));
                    lemma_names_tell_pages_apart(i as nat, j as nat, images[i].format, images[j].format);
                }
            } else if a == 0 || a == 1 {
                assert(layout[a].0[0] != layout[b].0[0]);
            } else if a == 2 {
                assert(layout[a].0[7] != layout[b].0[7]);
            } else {
                assert(layout[a].0[5] != layout[b].0[5]);
            }
        } else {
            let j = b - 5 - n;
            lemma_image_entry_path(j as nat, images[j].format);
            if a >= 5 + n {
                let i = a - 5 - n;
                if layout[a].0 == layout[b].0 {
                    lemma_under_package_directory(
                        image_path_of(i as nat, images[i].format),
                        image_path_of(j as nat, images[j].format),
                    );
                    lemma_names_tell_pages_apart(i as nat, j as nat, images[i].format, images[j].format);
                }
            } else if a >= 5 {
                let i = a - 5;
                assert(paths[i] == page_path_of(i as nat));
                lemma_page_entry_path(i as nat);
                assert(layout[a].0[5] != layout[b].0[5]);
            } else if a == 0 || a == 1 {
                assert(layout[a].0[0] != layout[b].0[0]);
            } else {
                assert(layout[a].0[5] != layout[b].0[5]);
            }
        }
    }
}

/// The directory part of a path inside the archive: everything up to and
/// including its last `/`.
pub open spec fn directory_of(path: Seq<char>) -> Seq<char>
    decreases path.len(),
{
    if path.len() == 0 {
        path
    } else if path.last() == '/' {
        path
    } else {
        directory_of(path.drop_last())
    }
}

/// The archive path that a relative reference made in the document at
/// `document` designates: each leading `../` leaves one directory, and the
/// rest is appended to the directory reached.
pub open spec fn resolve_reference(document: Seq<char>, reference: Seq<char>) -> Seq<char>
    decreases reference.len(),
{
    if reference.len() >= 3 && reference.take(3) == "../"@ {
        resolve_reference(directory_of(document).drop_last(), reference.skip(3))
    } else {
        directory_of(document) + reference
    }
}

/// Whether an event is an element without content of the given name.
pub open spec fn is_empty_element(event: XmlEventView, element: Seq<char>) -> bool {
    event matches XmlEventView::Empty(name, _) && name == element
}

/// Whether every reference that an event makes, the `href` of a `link` and
/// the `src` of an `img`, designates `target` from the document at `document`.
pub open spec fn references_resolve_to(
    document: Seq<char>,
    event: XmlEventView,
    element: Seq<char>,
    attribute: Seq<char>,
    target: Seq<char>,
) -> bool {
    match event {
        XmlEventView::Empty(name, attributes) => name == element ==> forall|j: int|
            0 <= j < attributes.len() && (#[trigger] attributes[j]).0 == attribute
                ==> resolve_reference(document, attributes[j].1) == target,
        _ => true,
    }
}

proof fn lemma_directory_of_file(directory: Seq<char>, name: Seq<char>)
    requires
        directory.len() > 0,
        directory.last() == '/',
        forall|k: int| 0 <= k < name.len() ==> #[trigger] name[k] != '/',
    ensures
        directory_of(directory + name) == directory,
    decreases name.len(),
{
    if name.len() == 0 {
        assert(directory + name =~= directory);
    } else {
        lemma_directory_of_file(directory, name.drop_last());
        assert((directory + name).drop_last() =~= directory + name.drop_last());
    }
}

/// From the document of a page, `../` followed by a path of the package
/// directory designates that path under `EPUB/`.
proof fn lemma_reference_from_a_page(index: nat, path: Seq<char>)
    requires
        path.len() >= 3,
        path[0] != '.',
    ensures
        resolve_reference("EPUB/"@ + page_path_of(index), "../"@ + path) == "EPUB/"@ + path,
{
    reveal_strlit("EPUB/");
    reveal_strlit("pages/page-");
    reveal_strlit(".xhtml");
    reveal_strlit("../");
    lemma_padded_decimal_digits(index, 4);
    let name = "page-"@ + number(index) + ".xhtml"@;
    reveal_strlit("page-");
    assert forall|k: int| 0 <= k < name.len() implies #[trigger] name[k] != '/' by {
        if 5 <= k < 5 + number(index).len() {
            assert(name[k] == number(index)[k - 5]);
        }
    }
    let pages = "EPUB/"@ + seq!['p', 'a', 'g', 'e', 's', '/'];
    assert("EPUB/"@ + page_path_of(index) =~= pages + name);
    lemma_directory_of_file(pages, name);
    let reference = "../"@ + path;
    assert(reference.take(3) =~= "../"@);
    assert(reference.skip(3) =~= path);
    assert(pages.drop_last() =~= "EPUB/"@ + seq!['p', 'a', 'g', 'e', 's']);
    lemma_directory_of_file("EPUB/"@, seq!['p', 'a', 'g', 'e', 's']);
    assert(path.take(3) != "../"@) by {
        assert(path.take(3)[0] != "../"@[0]);
    }
    let document = "EPUB/"@ + page_path_of(index);
    let up = "EPUB/"@ + seq!['p', 'a', 'g', 'e', 's'];
    assert(directory_of(document) == pages);
    assert(resolve_reference(document, reference) == resolve_reference(up, path));
    assert(directory_of(up) == "EPUB/"@);
    assert(resolve_reference(up, path) == "EPUB/"@ + path);
}

/// The references of every page document reach entries of the archive: from
/// the page's own path, the style sheet it links designates the archive entry
/// of the style sheet, and the image it shows designates the archive entry of
/// that page's image.
pub proof fn law_page_references_reach_archive_entries(
    images: Seq<SourceImage>,
    page_paths: Seq<Seq<char>>,
    index: int,
    viewport: ImageDimensions,
    title: Seq<char>,
    language: Seq<char>,
)
    requires
        0 <= index < images.len(),
    ensures
        ({
            let document = "EPUB/"@ + page_path_of(index as nat);
            let events = page_events(index as nat, viewport, title, language, images[index].format);
            let layout = archive_layout(images, page_paths);
            &&& layout[4].1 == EntrySource::PageCss
            &&& layout[5 + page_paths.len() + index].1 == EntrySource::Image(index as usize)
            &&& exists|k: int| 0 <= k < events.len() && is_empty_element(#[trigger] events[k], "link"@)
            &&& exists|k: int| 0 <= k < events.len() && is_empty_element(#[trigger] events[k], "img"@)
            &&& forall|k: int|
                0 <= k < events.len() ==> references_resolve_to(
                    document,
                    #[trigger] events[k],
                    "link"@,
                    "href"@,
                    layout[4].0,
                )
            &&& forall|k: int|
                0 <= k < events.len() ==> references_resolve_to(
                    document,
                    #[trigger] events[k],
                    "img"@,
                    "src"@,
                    layout[5 + page_paths.len() + index].0,
                )
        }),
{
    let format = images[index].format;
    let document = "EPUB/"@ + page_path_of(index as nat);
    let events = page_events(index as nat, viewport, title, language, format);
    let layout = archive_layout(images, page_paths);
    let css = "styles/page.css"@;
    reveal_strlit("styles/page.css");
    reveal_strlit("../styles/page.css");
    reveal_strlit("EPUB/styles/page.css");
    reveal_strlit("../");
    reveal_strlit("EPUB/");
    reveal_strlit("images/image-");
    assert("../styles/page.css"@ =~= "../"@ + css);
    lemma_reference_from_a_page(index as nat, css);
    assert("EPUB/styles/page.css"@ =~= "EPUB/"@ + css);
    let image = image_path_of(index as nat, format);
    assert(image[0] == 'i');
    lemma_reference_from_a_page(index as nat, image);
    reveal_strlit("link");
    reveal_strlit("img");
    reveal_strlit("meta");
    reveal_strlit("href");
    reveal_strlit("src");
    reveal_strlit("rel");
    reveal_strlit("type");
    reveal_strlit("alt");
    assert(is_empty_element(events[8], "link"@));
    assert(is_empty_element(events[11], "img"@));
    assert forall|k: int| 0 <= k < events.len() implies references_resolve_to(
        document,
        #[trigger] events[k],
        "link"@,
        "href"@,
        layout[4].0,
    ) && references_resolve_to(
        document,
        events[k],
        "img"@,
        "src"@,
        layout[5 + page_paths.len() + index].0,
    ) by {
        if k == 8 {
            let attributes = seq![
                ("rel"@, "stylesheet"@),
                ("type"@, "text/css"@),
                ("href"@, "../styles/page.css"@),
            ];
            assert(events[8] == XmlEventView::Empty("link"@, attributes));
            assert forall|j: int| 0 <= j < attributes.len() && (#[trigger] attributes[j]).0 == "href"@
                implies resolve_reference(document, attributes[j].1) == layout[4].0 by {
                if j < 2 {
                    assert(attributes[j].0[0] != 'h');
                }
            }
        } else if k == 11 {
            let attributes = seq![("src"@, "../"@ + image), ("alt"@, ""@)];
            assert(events[11] == XmlEventView::Empty("img"@, attributes));
            assert forall|j: int| 0 <= j < attributes.len() && (#[trigger] attributes[j]).0 == "src"@
                implies resolve_reference(document, attributes[j].1) == layout[5 + page_paths.len() + index].0 by {
                if j == 1 {
                    assert(attributes[j].0[0] != "src"@[0]);
                }
            }
        } else if k == 7 {
            assert(events[7] matches XmlEventView::Empty(name, _) && name == "meta"@);
            assert("meta"@[0] != "link"@[0] && "meta"@.len() != "img"@.len());
        }
    }
}

fn entry(path: String, source: EntrySource, compression: Compression) -> (entry: ArchiveEntry)
    ensures
        entry.path@ == path@,
        entry.source == source,
        entry.compression == compression,
{
    ArchiveEntry { path, source, compression }
}

fn under_package_directory(path: &str) -> (full: String)
    ensures
        full@ == "EPUB/"@ + path@,
{
    let mut full = "EPUB/".to_owned();
    full.append(path);
    full
}

/// Lists the entries of the archive for the generated documents and the
/// images; there must be exactly one page document per image.
pub fn archive_entries(images: &[SourceImage], documents: &GeneratedDocuments) -> (result: Result<
    Vec<ArchiveEntry>,
    PackageError,
>)
    ensures
        match result {
            Ok(entries) => {
                &&& images@.len() == documents.pages@.len()
                &&& entries_view(entries@) == archive_layout(images@, page_paths_of(*documents))
            },
            Err(PackageError::PageCountMismatch { image_count, page_count }) => {
                &&& images@.len() != documents.pages@.len()
                &&& image_count == images@.len()
                &&& page_count == documents.pages@.len()
            },
            Err(_) => false,
        },
{
    if images.len() != documents.pages.len() {
        return Err(
            PackageError::PageCountMismatch {
                image_count: images.len(),
                page_count: documents.pages.len(),
            },
        );
    }
    let mut entries: Vec<ArchiveEntry> = Vec::new();
    entries.push(entry("mimetype".to_owned(), EntrySource::Mimetype, Compression::Stored));
    entries.push(
        entry(
            "META-INF/container.xml".to_owned(),
            EntrySource::ContainerXml,
            Compression::Deflated,
        ),
    );
    entries.push(
        entry("EPUB/package.opf".to_owned(), EntrySource::PackageOpf, Compression::Deflated),
    );
    entries.push(
        entry("EPUB/nav.xhtml".to_owned(), EntrySource::NavigationXhtml, Compression::Deflated),
    );
    entries.push(
        entry("EPUB/styles/page.css".to_owned(), EntrySource::PageCss, Compression::Deflated),
    );
    let ghost fixed = entries_view(entries@);
    let ghost paths = page_paths_of(*documents);
    let ghost pages_part = Seq::new(
        paths.len(),
        |i: int| ("EPUB/"@ + paths[i], EntrySource::Page(i as usize), Compression::Deflated),
    );
    let ghost images_part = Seq::new(
        images@.len(),
        |i: int|
            (
                "EPUB/"@ + image_path_of(i as nat, images@[i].format),
                EntrySource::Image(i as usize),
                Compression::Deflated,
            ),
    );
    let mut index: usize = 0;
    while index < documents.pages.len()
        invariant
            index <= documents.pages@.len(),
            paths == page_paths_of(*documents),
            paths.len() == documents.pages@.len(),
            pages_part.len() == paths.len(),
            forall|i: int| 0 <= i < paths.len() ==> #[trigger] pages_part[i] == (
                "EPUB/"@ + paths[i],
                EntrySource::Page(i as usize),
                Compression::Deflated,
            ),
            entries_view(entries@) == fixed + pages_part.take(index as int),
        decreases documents.pages@.len() - index,
    {
        let ghost before = entries@;
        let new_entry = entry(
            under_package_directory(documents.pages[index].path.as_str()),
            EntrySource::Page(index),
            Compression::Deflated,
        );
        assert(paths[index as int] == documents.pages@[index as int].path@);
        assert(pages_part[index as int] == (new_entry.path@, new_entry.source, new_entry.compression));
        entries.push(new_entry);
        assert(entries_view(entries@) =~= entries_view(before).push(pages_part[index as int]));
        assert(pages_part.take(index + 1) =~= pages_part.take(index as int).push(pages_part[index as int]));
        assert(entries_view(entries@) =~= fixed + pages_part.take(index + 1));
        index = index + 1;
    }
    assert(pages_part.take(paths.len() as int) =~= pages_part);
    let ghost with_pages = entries_view(entries@);
    let mut index: usize = 0;
    while index < images.len()
        invariant
            index <= images@.len(),
            images_part.len() == images@.len(),
            forall|i: int| 0 <= i < images@.len() ==> #[trigger] images_part[i] == (
                "EPUB/"@ + image_path_of(i as nat, images@[i].format),
                EntrySource::Image(i as usize),
                Compression::Deflated,
            ),
            entries_view(entries@) == with_pages + images_part.take(index as int),
        decreases images@.len() - index,
    {
        let path = image_path(index, images[index].format);
        let ghost before = entries@;
        let new_entry = entry(
            under_package_directory(path.as_str()),
            EntrySource::Image(index),
            Compression::Deflated,
        );
        assert(images_part[index as int] == (new_entry.path@, new_entry.source, new_entry.compression));
        entries.push(new_entry);
        assert(entries_view(entries@) =~= entries_view(before).push(images_part[index as int]));
        assert(images_part.take(index + 1) =~= images_part.take(index as int).push(images_part[index as int]));
        assert(entries_view(entries@) =~= with_pages + images_part.take(index + 1));
        index = index + 1;
    }
    assert(images_part.take(images@.len() as int) =~= images_part);
    assert(entries_view(entries@) =~= archive_layout(images@, paths));
    Ok(entries)
}

} // verus!
