//! The text resources of the EPUB: container, package document, navigation
//! document, style sheet and one XHTML document per page.

use vstd::prelude::*;

use crate::build_events::{
    attributes1, attributes2, attributes3, declaration, new_document, no_attributes, push_declaration, push_empty, push_end, push_attribute, push_event, push_start,
    push_text_element, text_element,
};
use crate::images::{format_media_type, ImageDimensions, ImageFormat, SourceImage};
use crate::metadata::{
    metadata_error, AlternateScript, CreatorMetadata, MetadataError, PublicationMetadata,
};
use crate::names::{
    creator_id, creator_id_of, image_id, image_id_of, image_path, image_path_of, page_id, page_id_of,
    page_path, page_path_of, placement_property, placement_property_of,
};
use crate::pages::PagePlacement;
use crate::toc::{
    first_toc_error, lemma_toc_accepted_iff_every_entry_valid, toc_entry_error, toc_error_text,
    validate_toc_entries, TocEntry, TocError,
};
use crate::xml::{
    attributes_view as attributes_view_of, events_view, render_xml, xml_text, XmlEvent, XmlEventView,
    XmlWriteError,
};
use crate::format::{decimal, push_decimal};

verus! {

/// The bibliographic data written to the package document.
#[derive(Clone, Debug, PartialEq, Eq)]
pub struct MinimalMetadata {
    pub title: String,
    pub title_file_as: Option<String>,
    pub creators: Vec<CreatorMetadata>,
    pub description: Option<String>,
    pub publisher: Option<String>,
    pub date: Option<String>,
    pub types: Vec<String>,
    pub subjects: Vec<String>,
    pub identifier: String,
    pub language: String,
    pub modified: String,
}

/// One XHTML content document and its path inside the package directory.
#[derive(Clone, Debug, PartialEq, Eq)]
pub struct PageDocument {
    pub path: String,
    pub contents: String,
}

/// The text resources of an EPUB, before they go into the OCF container.
#[derive(Clone, Debug, PartialEq, Eq)]
pub struct GeneratedDocuments {
    pub container_xml: String,
    pub package_opf: String,
    pub navigation_xhtml: String,
    pub page_css: String,
    pub pages: Vec<PageDocument>,
}

/// Why the text resources could not be generated.
#[derive(Debug)]
pub enum DocumentError {
    NoPages,
    PagePlacementCountMismatch { image_count: usize, placement_count: usize },
    InvalidToc(TocError),
    WriteXml(std::io::Error),
    InvalidUtf8(std::string::FromUtf8Error),
}

/// The English description of an error, for callers that do not localize.
pub open spec fn document_error_text(error: DocumentError) -> Seq<char> {
    match error {
        DocumentError::NoPages => "cannot generate EPUB documents without pages"@,
        DocumentError::PagePlacementCountMismatch { image_count, placement_count } =>
            "cannot generate documents for "@ + decimal(image_count as nat) + " images with "@
            + decimal(placement_count as nat) + " page placements"@,
        DocumentError::InvalidToc(error) => toc_error_text(error),
        DocumentError::WriteXml(_) => "could not write an EPUB XML document"@,
        DocumentError::InvalidUtf8(_) => "generated XML was not valid UTF-8"@,
    }
}

impl DocumentError {
    /// Describes the error in English.
    pub fn message(&self) -> (text: String)
        ensures
            text@ == document_error_text(*self),
    {
        match self {
            DocumentError::NoPages => "cannot generate EPUB documents without pages".to_owned(),
            DocumentError::PagePlacementCountMismatch { image_count, placement_count } => {
                let mut text = "cannot generate documents for ".to_owned();
                push_decimal(&mut text, *image_count);
                text.append(" images with ");
                push_decimal(&mut text, *placement_count);
                text.append(" page placements");
                text
            },
            DocumentError::InvalidToc(error) => error.message(),
            DocumentError::WriteXml(_) => "could not write an EPUB XML document".to_owned(),
            DocumentError::InvalidUtf8(_) => "generated XML was not valid UTF-8".to_owned(),
        }
    }
}

pub open spec fn option_view(value: Option<String>) -> Option<Seq<char>> {
    match value {
        Some(text) => Some(text@),
        None => None,
    }
}

pub open spec fn strings_view(values: Seq<String>) -> Seq<Seq<char>> {
    values.map_values(|value: String| value@)
}

/// A creator as values: name, file-as, roles and (value, language) pairs.
pub type CreatorView = (Seq<char>, Option<Seq<char>>, Seq<Seq<char>>, Seq<(Seq<char>, Seq<char>)>);

pub open spec fn scripts_view(scripts: Seq<AlternateScript>) -> Seq<(Seq<char>, Seq<char>)> {
    scripts.map_values(|script: AlternateScript| (script.value@, script.language@))
}

pub open spec fn creator_view(creator: CreatorMetadata) -> CreatorView {
    (
        creator.name@,
        option_view(creator.file_as),
        strings_view(creator.roles@),
        scripts_view(creator.alternate_scripts@),
    )
}

pub open spec fn creators_view(creators: Seq<CreatorMetadata>) -> Seq<CreatorView> {
    creators.map_values(|creator: CreatorMetadata| creator_view(creator))
}

fn copy_optional(value: &Option<String>) -> (copy: Option<String>)
    ensures
        option_view(copy) == option_view(*value),
{
    match value {
        Some(text) => Some(text.clone()),
        None => None,
    }
}

fn copy_strings(values: &Vec<String>) -> (copy: Vec<String>)
    ensures
        strings_view(copy@) == strings_view(values@),
{
    let mut copy: Vec<String> = Vec::new();
    let mut index: usize = 0;
    while index < values.len()
        invariant
            index <= values@.len(),
            strings_view(copy@) == strings_view(values@.take(index as int)),
        decreases values@.len() - index,
    {
        let ghost before = copy@;
        copy.push(values[index].clone());
        assert(values@.take(index + 1) =~= values@.take(index as int).push(values@[index as int]));
        assert(strings_view(copy@) =~= strings_view(before).push(values@[index as int]@));
        assert(strings_view(values@.take(index + 1)) =~= strings_view(
            values@.take(index as int),
        ).push(values@[index as int]@));
        index = index + 1;
    }
    assert(values@.take(values@.len() as int) =~= values@);
    copy
}

fn copy_creators(creators: &Vec<CreatorMetadata>) -> (copy: Vec<CreatorMetadata>)
    ensures
        creators_view(copy@) == creators_view(creators@),
{
    let mut copy: Vec<CreatorMetadata> = Vec::new();
    let mut index: usize = 0;
    while index < creators.len()
        invariant
            index <= creators@.len(),
            creators_view(copy@) == creators_view(creators@.take(index as int)),
        decreases creators@.len() - index,
    {
        let creator = &creators[index];
        let mut scripts: Vec<AlternateScript> = Vec::new();
        let mut k: usize = 0;
        while k < creator.alternate_scripts.len()
            invariant
                k <= creator.alternate_scripts@.len(),
                scripts_view(scripts@) == scripts_view(creator.alternate_scripts@.take(k as int)),
            decreases creator.alternate_scripts@.len() - k,
        {
            let script = &creator.alternate_scripts[k];
            let ghost before = scripts@;
            let ghost all = creator.alternate_scripts@;
            scripts.push(
                AlternateScript { value: script.value.clone(), language: script.language.clone() },
            );
            assert(all.take(k + 1) =~= all.take(k as int).push(all[k as int]));
            assert(scripts_view(scripts@) =~= scripts_view(before).push(
                (script.value@, script.language@),
            ));
            assert(scripts_view(all.take(k + 1)) =~= scripts_view(all.take(k as int)).push(
                (script.value@, script.language@),
            ));
            k = k + 1;
        }
        assert(creator.alternate_scripts@.take(creator.alternate_scripts@.len() as int)
            =~= creator.alternate_scripts@);
        let copied = CreatorMetadata {
            name: creator.name.clone(),
            file_as: copy_optional(&creator.file_as),
            roles: copy_strings(&creator.roles),
            alternate_scripts: scripts,
        };
        assert(creator_view(copied) == creator_view(*creator));
        let ghost before = copy@;
        copy.push(copied);
        assert(creators@.take(index + 1) =~= creators@.take(index as int).push(*creator));
        assert(creators_view(copy@) =~= creators_view(before).push(creator_view(*creator)));
        assert(creators_view(creators@.take(index + 1)) =~= creators_view(
            creators@.take(index as int),
        ).push(creator_view(*creator)));
        index = index + 1;
    }
    assert(creators@.take(creators@.len() as int) =~= creators@);
    copy
}

impl MinimalMetadata {
    /// Combines the user's data with the values decided at build time: the
    /// identifier (given or generated) and the modification time.
    pub fn from_publication(
        metadata: &PublicationMetadata,
        identifier: String,
        modified: String,
    ) -> (minimal: Self)
        ensures
            minimal.title@ == metadata.title@,
            option_view(minimal.title_file_as) == option_view(metadata.title_file_as),
            creators_view(minimal.creators@) == creators_view(metadata.creators@),
            option_view(minimal.description) == option_view(metadata.description),
            option_view(minimal.publisher) == option_view(metadata.publisher),
            option_view(minimal.date) == option_view(metadata.date),
            strings_view(minimal.types@) == strings_view(metadata.types@),
            strings_view(minimal.subjects@) == strings_view(metadata.subjects@),
            minimal.identifier == identifier,
            minimal.language@ == metadata.language@,
            minimal.modified == modified,
    {
        Self {
            title: metadata.title.clone(),
            title_file_as: copy_optional(&metadata.title_file_as),
            creators: copy_creators(&metadata.creators),
            description: copy_optional(&metadata.description),
            publisher: copy_optional(&metadata.publisher),
            date: copy_optional(&metadata.date),
            types: copy_strings(&metadata.types),
            subjects: copy_strings(&metadata.subjects),
            identifier,
            language: metadata.language.clone(),
            modified,
        }
    }
}


/// The primary identifier of a book: the one the user gave, unchanged, or
/// else a URN made from a generated UUID.
pub open spec fn chosen_identifier(given: Option<String>, generated_uuid: Seq<char>) -> Seq<char> {
    match given {
        Some(identifier) => identifier@,
        None => "urn:uuid:"@ + generated_uuid,
    }
}

/// Validates the user's data and adds the values decided for this build:
/// the identifier, from `generated_uuid` when the user gave none, and the
/// modification time.
pub fn resolve_metadata(
    metadata: &PublicationMetadata,
    generated_uuid: &str,
    modified: String,
) -> (result: Result<MinimalMetadata, MetadataError>)
    ensures
        match result {
            Ok(minimal) => {
                &&& metadata_error(*metadata) is None
                &&& minimal.title@ == metadata.title@
                &&& option_view(minimal.title_file_as) == option_view(metadata.title_file_as)
                &&& creators_view(minimal.creators@) == creators_view(metadata.creators@)
                &&& option_view(minimal.description) == option_view(metadata.description)
                &&& option_view(minimal.publisher) == option_view(metadata.publisher)
                &&& option_view(minimal.date) == option_view(metadata.date)
                &&& strings_view(minimal.types@) == strings_view(metadata.types@)
                &&& strings_view(minimal.subjects@) == strings_view(metadata.subjects@)
                &&& minimal.identifier@ == chosen_identifier(metadata.identifier, generated_uuid@)
                &&& minimal.language@ == metadata.language@
                &&& minimal.modified == modified
            },
            Err(error) => metadata_error(*metadata) == Some(error),
        },
{
    metadata.validate()?;
    let identifier = match &metadata.identifier {
        Some(identifier) => identifier.clone(),
        None => {
            let mut urn = "urn:uuid:".to_owned();
            urn.append(generated_uuid);
            urn
        },
    };
    Ok(MinimalMetadata::from_publication(metadata, identifier, modified))
}

/// `container.xml` tells reading systems where the package document is.
pub open spec fn container_events() -> Seq<XmlEventView> {
    seq![
        declaration(),
        XmlEventView::Start(
            "container"@,
            seq![
                ("xmlns"@, "urn:oasis:names:tc:opendocument:xmlns:container"@),
                ("version"@, "1.0"@),
            ],
        ),
        XmlEventView::Start("rootfiles"@, seq![]),
        XmlEventView::Empty(
            "rootfile"@,
            seq![
                ("full-path"@, "EPUB/package.opf"@),
                ("media-type"@, "application/oebps-package+xml"@),
            ],
        ),
        XmlEventView::End("rootfiles"@),
        XmlEventView::End("container"@),
    ]
}

/// The events of `META-INF/container.xml`.
pub fn container_document_events() -> (events: Vec<XmlEvent>)
    ensures
        events_view(events@) == container_events(),
{
    let mut events = new_document();
    push_declaration(&mut events);
    push_start(
        &mut events,
        "container",
        attributes2("xmlns", "urn:oasis:names:tc:opendocument:xmlns:container", "version", "1.0"),
    );
    push_start(&mut events, "rootfiles", no_attributes());
    push_empty(
        &mut events,
        "rootfile",
        attributes2("full-path", "EPUB/package.opf", "media-type", "application/oebps-package+xml"),
    );
    push_end(&mut events, "rootfiles");
    push_end(&mut events, "container");
    assert(events_view(events@) =~= container_events());
    events
}

/// The `content` of a page's viewport: the common logical page size.
pub open spec fn viewport_content(viewport: ImageDimensions) -> Seq<char> {
    "width="@ + decimal(viewport.width as nat) + ", height="@ + decimal(viewport.height as nat)
}

/// The XHTML document of a page: the common viewport, the style sheet and
/// the page's image, which fills the page.
pub open spec fn page_events(
    index: nat,
    viewport: ImageDimensions,
    title: Seq<char>,
    language: Seq<char>,
    format: ImageFormat,
) -> Seq<XmlEventView> {
    seq![
        declaration(),
        XmlEventView::Doctype("html"@),
        XmlEventView::Start(
            "html"@,
            seq![("xmlns"@, "http://www.w3.org/1999/xhtml"@), ("xml:lang"@, language)],
        ),
        XmlEventView::Start("head"@, seq![]),
    ] + text_element("title"@, seq![], title) + seq![
        XmlEventView::Empty(
            "meta"@,
            seq![("name"@, "viewport"@), ("content"@, viewport_content(viewport))],
        ),
        XmlEventView::Empty(
            "link"@,
            seq![
                ("rel"@, "stylesheet"@),
                ("type"@, "text/css"@),
                ("href"@, "../styles/page.css"@),
            ],
        ),
        XmlEventView::End("head"@),
        XmlEventView::Start("body"@, seq![]),
        XmlEventView::Empty(
            "img"@,
            seq![("src"@, "../"@ + image_path_of(index, format)), ("alt"@, ""@)],
        ),
        XmlEventView::End("body"@),
        XmlEventView::End("html"@),
    ]
}

fn viewport_text(viewport: ImageDimensions) -> (text: String)
    ensures
        text@ == viewport_content(viewport),
{
    let mut text = "width=".to_owned();
    push_decimal(&mut text, viewport.width as usize);
    text.append(", height=");
    push_decimal(&mut text, viewport.height as usize);
    text
}

fn push_doctype(events: &mut Vec<XmlEvent>)
    ensures
        events_view(final(events)@) == events_view(old(events)@).push(
            XmlEventView::Doctype("html"@),
        ),
{
    push_event(events, XmlEvent::Doctype("html".to_owned()));
}

/// The events of the XHTML document of the page at `index`.
pub fn page_document_events(
    index: usize,
    viewport: ImageDimensions,
    title: &str,
    language: &str,
    format: ImageFormat,
) -> (events: Vec<XmlEvent>)
    ensures
        events_view(events@) == page_events(index as nat, viewport, title@, language@, format),
{
    let mut events = new_document();
    push_declaration(&mut events);
    push_doctype(&mut events);
    push_start(
        &mut events,
        "html",
        attributes2("xmlns", "http://www.w3.org/1999/xhtml", "xml:lang", language),
    );
    push_start(&mut events, "head", no_attributes());
    push_text_element(&mut events, "title", no_attributes(), title);
    let content = viewport_text(viewport);
    push_empty(
        &mut events,
        "meta",
        attributes2("name", "viewport", "content", content.as_str()),
    );
    push_empty(
        &mut events,
        "link",
        attributes3("rel", "stylesheet", "type", "text/css", "href", "../styles/page.css"),
    );
    push_end(&mut events, "head");
    push_start(&mut events, "body", no_attributes());
    let mut source = "../".to_owned();
    let path = image_path(index, format);
    source.append(path.as_str());
    push_empty(&mut events, "img", attributes2("src", source.as_str(), "alt", ""));
    push_end(&mut events, "body");
    push_end(&mut events, "html");
    assert(events_view(events@) =~= page_events(
        index as nat,
        viewport,
        title@,
        language@,
        format,
    ));
    events
}


/// One entry of the table of contents: a link to a page's document.
pub open spec fn navigation_entry(label: Seq<char>, page_index: nat) -> Seq<XmlEventView> {
    seq![XmlEventView::Start("li"@, seq![])] + text_element(
        "a"@,
        seq![("href"@, page_path_of(page_index))],
        label,
    ) + seq![XmlEventView::End("li"@)]
}

/// The entries in their order, each linking to its page (numbered from 1).
pub open spec fn navigation_entries(entries: Seq<TocEntry>) -> Seq<XmlEventView>
    decreases entries.len(),
{
    if entries.len() == 0 {
        seq![]
    } else {
        navigation_entries(entries.drop_last()) + navigation_entry(
            entries.last().label@,
            (entries.last().page_number - 1) as nat,
        )
    }
}

/// The navigation document; without entries it links the title to the first page.
pub open spec fn navigation_events(
    title: Seq<char>,
    language: Seq<char>,
    entries: Seq<TocEntry>,
) -> Seq<XmlEventView> {
    seq![
        declaration(),
        XmlEventView::Doctype("html"@),
        XmlEventView::Start(
            "html"@,
            seq![
                ("xmlns"@, "http://www.w3.org/1999/xhtml"@),
                ("xmlns:epub"@, "http://www.idpf.org/2007/ops"@),
                ("xml:lang"@, language),
            ],
        ),
        XmlEventView::Start("head"@, seq![]),
    ] + text_element("title"@, seq![], title) + seq![
        XmlEventView::End("head"@),
        XmlEventView::Start("body"@, seq![]),
        XmlEventView::Start("nav"@, seq![("epub:type"@, "toc"@)]),
        XmlEventView::Start("ol"@, seq![]),
    ] + (if entries.len() == 0 {
        navigation_entry(title, 0)
    } else {
        navigation_entries(entries)
    }) + seq![
        XmlEventView::End("ol"@),
        XmlEventView::End("nav"@),
        XmlEventView::End("body"@),
        XmlEventView::End("html"@),
    ]
}

/// Appends one entry of the table of contents.
fn push_navigation_entry(events: &mut Vec<XmlEvent>, label: &str, page_index: usize)
    ensures
        events_view(final(events)@) == events_view(old(events)@) + navigation_entry(
            label@,
            page_index as nat,
        ),
{
    let ghost start = events_view(events@);
    let path = page_path(page_index);
    push_start(events, "li", no_attributes());
    push_text_element(events, "a", attributes1("href", path.as_str()), label);
    push_end(events, "li");
    assert(events_view(events@) =~= start + navigation_entry(label@, page_index as nat));
}

/// The events of `nav.xhtml`.
pub fn navigation_document_events(title: &str, language: &str, entries: &[TocEntry]) -> (events:
    Vec<XmlEvent>)
    requires
        forall|i: int| 0 <= i < entries@.len() ==> #[trigger] entries@[i].page_number >= 1,
    ensures
        events_view(events@) == navigation_events(title@, language@, entries@),
{
    let mut events = new_document();
    push_declaration(&mut events);
    push_doctype(&mut events);
    push_start(
        &mut events,
        "html",
        attributes3(
            "xmlns",
            "http://www.w3.org/1999/xhtml",
            "xmlns:epub",
            "http://www.idpf.org/2007/ops",
            "xml:lang",
            language,
        ),
    );
    push_start(&mut events, "head", no_attributes());
    push_text_element(&mut events, "title", no_attributes(), title);
    push_end(&mut events, "head");
    push_start(&mut events, "body", no_attributes());
    push_start(&mut events, "nav", attributes1("epub:type", "toc"));
    push_start(&mut events, "ol", no_attributes());
    let ghost before_entries = events_view(events@);
    if entries.len() == 0 {
        push_navigation_entry(&mut events, title, 0);
    } else {
        let mut index: usize = 0;
        while index < entries.len()
            invariant
                index <= entries@.len(),
                forall|i: int| 0 <= i < entries@.len() ==> #[trigger] entries@[i].page_number >= 1,
                events_view(events@) == before_entries + navigation_entries(
                    entries@.take(index as int),
                ),
            decreases entries@.len() - index,
        {
            let entry = &entries[index];
            let ghost before = events_view(events@);
            push_navigation_entry(&mut events, entry.label.as_str(), entry.page_number - 1);
            proof {
                let taken = entries@.take(index + 1);
                assert(taken.drop_last() =~= entries@.take(index as int));
                assert(taken.last() == *entry);
                assert(events_view(events@) =~= before_entries + navigation_entries(taken));
            }
            index = index + 1;
        }
        assert(entries@.take(entries@.len() as int) =~= entries@);
    }
    push_end(&mut events, "ol");
    push_end(&mut events, "nav");
    push_end(&mut events, "body");
    push_end(&mut events, "html");
    assert(events_view(events@) =~= navigation_events(title@, language@, entries@));
    events
}


/// A `meta` refining the element `refines` with a property, when a value is given.
pub open spec fn optional_refinement(
    refines: Seq<char>,
    property: Seq<char>,
    value: Option<Seq<char>>,
) -> Seq<XmlEventView> {
    match value {
        Some(text) => text_element(
            "meta"@,
            seq![("property"@, property), ("refines"@, refines)],
            text,
        ),
        None => seq![],
    }
}

/// A Dublin Core element, when a value is given.
pub open spec fn optional_element(name: Seq<char>, value: Option<Seq<char>>) -> Seq<XmlEventView> {
    match value {
        Some(text) => text_element(name, seq![], text),
        None => seq![],
    }
}

/// One element per value, in order.
pub open spec fn repeated_elements(name: Seq<char>, values: Seq<Seq<char>>) -> Seq<XmlEventView>
    decreases values.len(),
{
    if values.len() == 0 {
        seq![]
    } else {
        repeated_elements(name, values.drop_last()) + text_element(name, seq![], values.last())
    }
}

/// The role of a creator, in the MARC relators vocabulary.
pub open spec fn role_element(reference: Seq<char>, role: Seq<char>) -> Seq<XmlEventView> {
    text_element(
        "meta"@,
        seq![("property"@, "role"@), ("refines"@, reference), ("scheme"@, "marc:relators"@)],
        role,
    )
}

pub open spec fn role_elements(reference: Seq<char>, roles: Seq<Seq<char>>) -> Seq<XmlEventView>
    decreases roles.len(),
{
    if roles.len() == 0 {
        seq![]
    } else {
        role_elements(reference, roles.drop_last()) + role_element(reference, roles.last())
    }
}

/// The creator's roles; a creator without roles is an author (`aut`).
pub open spec fn creator_roles(reference: Seq<char>, roles: Seq<Seq<char>>) -> Seq<XmlEventView> {
    if roles.len() == 0 {
        role_element(reference, "aut"@)
    } else {
        role_elements(reference, roles)
    }
}

/// The role metadata of a creator refine the creator: a creator with roles
/// gets exactly its roles, one `meta` element each in the given order, and
/// only a creator without roles is declared an author (`aut`).
pub proof fn law_creator_roles_are_the_given_roles(reference: Seq<char>, roles: Seq<Seq<char>>)
    ensures
        ({
            let attributes = seq![
                ("property"@, "role"@),
                ("refines"@, reference),
                ("scheme"@, "marc:relators"@),
            ];
            &&& roles.len() == 0 ==> creator_roles(reference, roles) == seq![
                XmlEventView::Start("meta"@, attributes),
                XmlEventView::Text("aut"@),
                XmlEventView::End("meta"@),
            ]
            &&& roles.len() > 0 ==> creator_roles(reference, roles).len() == 3 * roles.len()
            &&& roles.len() > 0 ==> forall|k: int|
                0 <= k < roles.len() ==> {
                    &&& #[trigger] creator_roles(reference, roles)[3 * k] == XmlEventView::Start(
                        "meta"@,
                        attributes,
                    )
                    &&& creator_roles(reference, roles)[3 * k + 1] == XmlEventView::Text(roles[k])
                    &&& creator_roles(reference, roles)[3 * k + 2] == XmlEventView::End("meta"@)
                }
        }),
{
    lemma_role_elements_layout(reference, roles);
}

proof fn lemma_role_elements_layout(reference: Seq<char>, roles: Seq<Seq<char>>)
    ensures
        role_elements(reference, roles).len() == 3 * roles.len(),
        forall|k: int|
            0 <= k < roles.len() ==> {
                &&& #[trigger] role_elements(reference, roles)[3 * k] == XmlEventView::Start(
                    "meta"@,
                    seq![
                        ("property"@, "role"@),
                        ("refines"@, reference),
                        ("scheme"@, "marc:relators"@),
                    ],
                )
                &&& role_elements(reference, roles)[3 * k + 1] == XmlEventView::Text(roles[k])
                &&& role_elements(reference, roles)[3 * k + 2] == XmlEventView::End("meta"@)
            },
    decreases roles.len(),
{
    if roles.len() > 0 {
        let earlier = roles.drop_last();
        lemma_role_elements_layout(reference, earlier);
        let all = role_elements(reference, roles);
        assert forall|k: int| 0 <= k < roles.len() implies {
            &&& #[trigger] all[3 * k] == XmlEventView::Start(
                "meta"@,
                seq![
                    ("property"@, "role"@),
                    ("refines"@, reference),
                    ("scheme"@, "marc:relators"@),
                ],
            )
            &&& all[3 * k + 1] == XmlEventView::Text(roles[k])
            &&& all[3 * k + 2] == XmlEventView::End("meta"@)
        } by {
            if k < earlier.len() {
                assert(earlier[k] == roles[k]);
                assert(all[3 * k] == role_elements(reference, earlier)[3 * k]);
                assert(all[3 * k + 1] == role_elements(reference, earlier)[3 * k + 1]);
                assert(all[3 * k + 2] == role_elements(reference, earlier)[3 * k + 2]);
            }
        }
    }
}

/// The creator's name in other scripts, each with its language.
pub open spec fn alternate_script_elements(
    reference: Seq<char>,
    scripts: Seq<(Seq<char>, Seq<char>)>,
) -> Seq<XmlEventView>
    decreases scripts.len(),
{
    if scripts.len() == 0 {
        seq![]
    } else {
        alternate_script_elements(reference, scripts.drop_last()) + text_element(
            "meta"@,
            seq![
                ("property"@, "alternate-script"@),
                ("refines"@, reference),
                ("xml:lang"@, scripts.last().1),
            ],
            scripts.last().0,
        )
    }
}

/// A creator: its `dc:creator` element, then the refinements that target it.
pub open spec fn creator_elements(index: nat, creator: CreatorView) -> Seq<XmlEventView> {
    let reference = "#"@ + creator_id_of(index);
    text_element("dc:creator"@, seq![("id"@, creator_id_of(index))], creator.0)
        + optional_refinement(reference, "file-as"@, creator.1) + creator_roles(
        reference,
        creator.2,
    ) + alternate_script_elements(reference, creator.3)
}

pub open spec fn creators_elements(creators: Seq<CreatorView>) -> Seq<XmlEventView>
    decreases creators.len(),
{
    if creators.len() == 0 {
        seq![]
    } else {
        creators_elements(creators.drop_last()) + creator_elements(
            (creators.len() - 1) as nat,
            creators.last(),
        )
    }
}

fn push_optional_refinement(
    events: &mut Vec<XmlEvent>,
    refines: &str,
    property: &str,
    value: &Option<String>,
)
    ensures
        events_view(final(events)@) == events_view(old(events)@) + optional_refinement(
            refines@,
            property@,
            option_view(*value),
        ),
{
    match value {
        Some(text) => push_text_element(
            events,
            "meta",
            attributes2("property", property, "refines", refines),
            text.as_str(),
        ),
        None => {
            assert(events_view(events@) =~= events_view(old(events)@) + seq![]);
        },
    }
}

fn push_optional_element(events: &mut Vec<XmlEvent>, name: &str, value: &Option<String>)
    ensures
        events_view(final(events)@) == events_view(old(events)@) + optional_element(
            name@,
            option_view(*value),
        ),
{
    match value {
        Some(text) => push_text_element(events, name, no_attributes(), text.as_str()),
        None => {
            assert(events_view(events@) =~= events_view(old(events)@) + seq![]);
        },
    }
}

fn push_repeated_elements(events: &mut Vec<XmlEvent>, name: &str, values: &Vec<String>)
    ensures
        events_view(final(events)@) == events_view(old(events)@) + repeated_elements(
            name@,
            strings_view(values@),
        ),
{
    let ghost start = events_view(events@);
    let mut index: usize = 0;
    assert(strings_view(values@.take(0)) =~= Seq::<Seq<char>>::empty());
    assert(events_view(events@) =~= start + repeated_elements(name@, seq![]));
    while index < values.len()
        invariant
            index <= values@.len(),
            events_view(events@) == start + repeated_elements(
                name@,
                strings_view(values@.take(index as int)),
            ),
        decreases values@.len() - index,
    {
        push_text_element(events, name, no_attributes(), values[index].as_str());
        proof {
            let taken = strings_view(values@.take(index + 1));
            assert(taken.drop_last() =~= strings_view(values@.take(index as int)));
            assert(taken.last() == values@[index as int]@);
            assert(events_view(events@) =~= start + repeated_elements(name@, taken));
        }
        index = index + 1;
    }
    assert(values@.take(values@.len() as int) =~= values@);
}

fn push_role(events: &mut Vec<XmlEvent>, reference: &str, role: &str)
    ensures
        events_view(final(events)@) == events_view(old(events)@) + role_element(
            reference@,
            role@,
        ),
{
    push_text_element(
        events,
        "meta",
        attributes3("property", "role", "refines", reference, "scheme", "marc:relators"),
        role,
    );
}

fn push_creator(events: &mut Vec<XmlEvent>, index: usize, creator: &CreatorMetadata)
    ensures
        events_view(final(events)@) == events_view(old(events)@) + creator_elements(
            index as nat,
            creator_view(*creator),
        ),
{
    let ghost start = events_view(events@);
    let id = creator_id(index);
    let mut reference = "#".to_owned();
    reference.append(id.as_str());
    push_text_element(events, "dc:creator", attributes1("id", id.as_str()), creator.name.as_str());
    push_optional_refinement(events, reference.as_str(), "file-as", &creator.file_as);
    let ghost after_name = events_view(events@);
    let roles = &creator.roles;
    if roles.len() == 0 {
        push_role(events, reference.as_str(), "aut");
    } else {
        let mut k: usize = 0;
        assert(strings_view(roles@.take(0)) =~= Seq::<Seq<char>>::empty());
        assert(events_view(events@) =~= after_name + role_elements(reference@, seq![]));
        while k < roles.len()
            invariant
                k <= roles@.len(),
                events_view(events@) == after_name + role_elements(
                    reference@,
                    strings_view(roles@.take(k as int)),
                ),
            decreases roles@.len() - k,
        {
            push_role(events, reference.as_str(), roles[k].as_str());
            proof {
                let taken = strings_view(roles@.take(k + 1));
                assert(taken.drop_last() =~= strings_view(roles@.take(k as int)));
                assert(taken.last() == roles@[k as int]@);
                assert(events_view(events@) =~= after_name + role_elements(reference@, taken));
            }
            k = k + 1;
        }
        assert(roles@.take(roles@.len() as int) =~= roles@);
    }
    let ghost after_roles = events_view(events@);
    let scripts = &creator.alternate_scripts;
    let mut k: usize = 0;
    assert(scripts_view(scripts@.take(0)) =~= Seq::<(Seq<char>, Seq<char>)>::empty());
    assert(events_view(events@) =~= after_roles + alternate_script_elements(reference@, seq![]));
    while k < scripts.len()
        invariant
            k <= scripts@.len(),
            events_view(events@) == after_roles + alternate_script_elements(
                reference@,
                scripts_view(scripts@.take(k as int)),
            ),
        decreases scripts@.len() - k,
    {
        let script = &scripts[k];
        push_text_element(
            events,
            "meta",
            attributes3(
                "property",
                "alternate-script",
                "refines",
                reference.as_str(),
                "xml:lang",
                script.language.as_str(),
            ),
            script.value.as_str(),
        );
        proof {
            let taken = scripts_view(scripts@.take(k + 1));
            assert(taken.drop_last() =~= scripts_view(scripts@.take(k as int)));
            assert(taken.last() == (script.value@, script.language@));
            assert(events_view(events@) =~= after_roles + alternate_script_elements(
                reference@,
                taken,
            ));
        }
        k = k + 1;
    }
    assert(scripts@.take(scripts@.len() as int) =~= scripts@);
    assert(events_view(events@) =~= start + creator_elements(
        index as nat,
        creator_view(*creator),
    ));
}

fn push_creators(events: &mut Vec<XmlEvent>, creators: &Vec<CreatorMetadata>)
    ensures
        events_view(final(events)@) == events_view(old(events)@) + creators_elements(
            creators_view(creators@),
        ),
{
    let ghost start = events_view(events@);
    let mut index: usize = 0;
    assert(creators_view(creators@.take(0)) =~= Seq::<CreatorView>::empty());
    assert(events_view(events@) =~= start + creators_elements(seq![]));
    while index < creators.len()
        invariant
            index <= creators@.len(),
            events_view(events@) == start + creators_elements(
                creators_view(creators@.take(index as int)),
            ),
        decreases creators@.len() - index,
    {
        push_creator(events, index, &creators[index]);
        proof {
            let taken = creators_view(creators@.take(index + 1));
            assert(taken.drop_last() =~= creators_view(creators@.take(index as int)));
            assert(taken.last() == creator_view(creators@[index as int]));
            assert(events_view(events@) =~= start + creators_elements(taken));
        }
        index = index + 1;
    }
    assert(creators@.take(creators@.len() as int) =~= creators@);
}


/// The `metadata` element of the package document.
pub open spec fn metadata_events(metadata: MinimalMetadata) -> Seq<XmlEventView> {
    seq![XmlEventView::Start("metadata"@, seq![])] + text_element(
        "dc:identifier"@,
        seq![("id"@, "pub-id"@)],
        metadata.identifier@,
    ) + text_element("dc:title"@, seq![("id"@, "title"@)], metadata.title@) + optional_refinement(
        "#title"@,
        "file-as"@,
        option_view(metadata.title_file_as),
    ) + creators_elements(creators_view(metadata.creators@)) + optional_element(
        "dc:description"@,
        option_view(metadata.description),
    ) + optional_element("dc:publisher"@, option_view(metadata.publisher)) + optional_element(
        "dc:date"@,
        option_view(metadata.date),
    ) + repeated_elements("dc:type"@, strings_view(metadata.types@)) + repeated_elements(
        "dc:subject"@,
        strings_view(metadata.subjects@),
    ) + text_element("dc:language"@, seq![], metadata.language@) + text_element(
        "meta"@,
        seq![("property"@, "dcterms:modified"@)],
        metadata.modified@,
    ) + text_element("meta"@, seq![("property"@, "rendition:layout"@)], "pre-paginated"@)
        + text_element("meta"@, seq![("property"@, "rendition:spread"@)], "landscape"@) + seq![
        XmlEventView::Empty("meta"@, seq![("name"@, "cover"@), ("content"@, image_id_of(0))]),
        XmlEventView::End("metadata"@),
    ]
}

#[verifier::spinoff_prover]
#[verifier::rlimit(40)]
fn push_metadata(events: &mut Vec<XmlEvent>, metadata: &MinimalMetadata)
    ensures
        events_view(final(events)@) == events_view(old(events)@) + metadata_events(*metadata),
{
    let ghost start = events_view(events@);
    push_start(events, "metadata", no_attributes());
    push_text_element(
        events,
        "dc:identifier",
        attributes1("id", "pub-id"),
        metadata.identifier.as_str(),
    );
    push_text_element(events, "dc:title", attributes1("id", "title"), metadata.title.as_str());
    push_optional_refinement(events, "#title", "file-as", &metadata.title_file_as);
    push_creators(events, &metadata.creators);
    push_optional_element(events, "dc:description", &metadata.description);
    push_optional_element(events, "dc:publisher", &metadata.publisher);
    push_optional_element(events, "dc:date", &metadata.date);
    push_repeated_elements(events, "dc:type", &metadata.types);
    push_repeated_elements(events, "dc:subject", &metadata.subjects);
    push_text_element(events, "dc:language", no_attributes(), metadata.language.as_str());
    push_text_element(
        events,
        "meta",
        attributes1("property", "dcterms:modified"),
        metadata.modified.as_str(),
    );
    push_text_element(
        events,
        "meta",
        attributes1("property", "rendition:layout"),
        "pre-paginated",
    );
    push_text_element(events, "meta", attributes1("property", "rendition:spread"), "landscape");
    let cover_image_id = image_id(0);
    push_empty(events, "meta", attributes2("name", "cover", "content", cover_image_id.as_str()));
    push_end(events, "metadata");
    assert(events_view(events@) =~= start + metadata_events(*metadata));
}

/// The attributes of an image's manifest item; the first image is the cover.
pub open spec fn image_item_attributes(index: nat, format: ImageFormat) -> Seq<
    (Seq<char>, Seq<char>),
> {
    seq![
        ("id"@, image_id_of(index)),
        ("href"@, image_path_of(index, format)),
        ("media-type"@, format_media_type(format)),
    ] + if index == 0 {
        seq![("properties"@, "cover-image"@)]
    } else {
        seq![]
    }
}

/// The manifest items of a page: its XHTML document, then its image.
pub open spec fn page_items(index: nat, format: ImageFormat) -> Seq<XmlEventView> {
    seq![
        XmlEventView::Empty(
            "item"@,
            seq![
                ("id"@, page_id_of(index)),
                ("href"@, page_path_of(index)),
                ("media-type"@, "application/xhtml+xml"@),
            ],
        ),
        XmlEventView::Empty("item"@, image_item_attributes(index, format)),
    ]
}

pub open spec fn pages_items(images: Seq<SourceImage>) -> Seq<XmlEventView>
    decreases images.len(),
{
    if images.len() == 0 {
        seq![]
    } else {
        pages_items(images.drop_last()) + page_items(
            (images.len() - 1) as nat,
            images.last().format,
        )
    }
}

/// The manifest: the navigation document, the style sheet, then each page.
pub open spec fn manifest_events(images: Seq<SourceImage>) -> Seq<XmlEventView> {
    seq![
        XmlEventView::Start("manifest"@, seq![]),
        XmlEventView::Empty(
            "item"@,
            seq![
                ("id"@, "nav"@),
                ("href"@, "nav.xhtml"@),
                ("media-type"@, "application/xhtml+xml"@),
                ("properties"@, "nav"@),
            ],
        ),
        XmlEventView::Empty(
            "item"@,
            seq![("id"@, "page-css"@), ("href"@, "styles/page.css"@), ("media-type"@, "text/css"@)],
        ),
    ] + pages_items(images) + seq![XmlEventView::End("manifest"@)]
}

fn push_page_items(events: &mut Vec<XmlEvent>, index: usize, format: ImageFormat)
    ensures
        events_view(final(events)@) == events_view(old(events)@) + page_items(
            index as nat,
            format,
        ),
{
    let ghost start = events_view(events@);
    let id = page_id(index);
    let path = page_path(index);
    push_empty(
        events,
        "item",
        attributes3(
            "id",
            id.as_str(),
            "href",
            path.as_str(),
            "media-type",
            "application/xhtml+xml",
        ),
    );
    let image = image_id(index);
    let image_href = image_path(index, format);
    let mut image_attributes = attributes3(
        "id",
        image.as_str(),
        "href",
        image_href.as_str(),
        "media-type",
        format.media_type(),
    );
    let ghost three = attributes_view_of(image_attributes@);
    if index == 0 {
        push_attribute(&mut image_attributes, "properties", "cover-image");
        assert(attributes_view_of(image_attributes@) =~= three + seq![
            ("properties"@, "cover-image"@),
        ]);
    } else {
        assert(attributes_view_of(image_attributes@) =~= three + seq![]);
    }
    push_empty(events, "item", image_attributes);
    assert(events_view(events@) =~= start + page_items(index as nat, format));
}

/// The spine: every page in reading order, right to left, each with its placement.
pub open spec fn spine_items(placements: Seq<PagePlacement>) -> Seq<XmlEventView>
    decreases placements.len(),
{
    if placements.len() == 0 {
        seq![]
    } else {
        spine_items(placements.drop_last()) + seq![
            XmlEventView::Empty(
                "itemref"@,
                seq![
                    ("idref"@, page_id_of((placements.len() - 1) as nat)),
                    ("properties"@, placement_property_of(placements.last())),
                ],
            ),
        ]
    }
}

pub open spec fn spine_events(placements: Seq<PagePlacement>) -> Seq<XmlEventView> {
    seq![XmlEventView::Start("spine"@, seq![("page-progression-direction"@, "rtl"@)])]
        + spine_items(placements) + seq![XmlEventView::End("spine"@)]
}

/// The spine lists every page once, in reading order: the item at position
/// `i` refers to the XHTML document of page `i` and carries the spread
/// property of the placement resolved for that page.
pub proof fn law_spine_lists_every_page_with_its_placement(placements: Seq<PagePlacement>)
    ensures
        spine_items(placements).len() == placements.len(),
        forall|i: int|
            0 <= i < placements.len() ==> #[trigger] spine_items(placements)[i]
                == XmlEventView::Empty(
                "itemref"@,
                seq![
                    ("idref"@, page_id_of(i as nat)),
                    ("properties"@, placement_property_of(placements[i])),
                ],
            ),
    decreases placements.len(),
{
    if placements.len() > 0 {
        let earlier = placements.drop_last();
        law_spine_lists_every_page_with_its_placement(earlier);
        assert forall|i: int| 0 <= i < earlier.len() implies earlier[i] == placements[i] by {}
    }
}

/// The manifest lists, for every page `i` in order, the XHTML document of the
/// page and then its image, with the image's own media type; only the image
/// of the first page is marked as the cover.
pub proof fn law_manifest_lists_every_page_and_image(images: Seq<SourceImage>)
    ensures
        pages_items(images).len() == 2 * images.len(),
        forall|i: int|
            0 <= i < images.len() ==> #[trigger] pages_items(images)[2 * i] == XmlEventView::Empty(
                "item"@,
                seq![
                    ("id"@, page_id_of(i as nat)),
                    ("href"@, page_path_of(i as nat)),
                    ("media-type"@, "application/xhtml+xml"@),
                ],
            ),
        forall|i: int|
            0 <= i < images.len() ==> #[trigger] pages_items(images)[2 * i + 1]
                == XmlEventView::Empty("item"@, image_item_attributes(i as nat, images[i].format)),
        forall|i: int|
            0 <= i < images.len() ==> (#[trigger] image_item_attributes(
                i as nat,
                images[i].format,
            ).contains(("properties"@, "cover-image"@)) <==> i == 0),
    decreases images.len(),
{
    if images.len() > 0 {
        let earlier = images.drop_last();
        let last = (images.len() - 1) as nat;
        law_manifest_lists_every_page_and_image(earlier);
        let items = pages_items(images);
        assert(items == pages_items(earlier) + page_items(last, images.last().format));
        assert forall|i: int| 0 <= i < images.len() implies #[trigger] items[2 * i]
            == XmlEventView::Empty(
            "item"@,
            seq![
                ("id"@, page_id_of(i as nat)),
                ("href"@, page_path_of(i as nat)),
                ("media-type"@, "application/xhtml+xml"@),
            ],
        ) by {
            if i < earlier.len() {
                assert(pages_items(earlier)[2 * i] == items[2 * i]);
            }
        }
        assert forall|i: int| 0 <= i < images.len() implies #[trigger] items[2 * i + 1]
            == XmlEventView::Empty("item"@, image_item_attributes(i as nat, images[i].format)) by {
            if i < earlier.len() {
                assert(earlier[i] == images[i]);
                assert(pages_items(earlier)[2 * i + 1] == items[2 * i + 1]);
            }
        }
    }
    assert forall|i: int| 0 <= i < images.len() implies (#[trigger] image_item_attributes(
        i as nat,
        images[i].format,
    ).contains(("properties"@, "cover-image"@)) <==> i == 0) by {
        let attributes = image_item_attributes(i as nat, images[i].format);
        reveal_strlit("properties");
        reveal_strlit("id");
        reveal_strlit("href");
        reveal_strlit("media-type");
        if i == 0 {
            assert(attributes[3] == ("properties"@, "cover-image"@));
        } else {
            assert(attributes.len() == 3);
            assert forall|k: int| 0 <= k < 3 implies attributes[k].0 != "properties"@ by {
                assert(attributes[k].0.len() != "properties"@.len() || attributes[k].0[0] != 'p');
            }
        }
    }
}

/// The package document: metadata, manifest and spine.
pub open spec fn package_events(
    images: Seq<SourceImage>,
    metadata: MinimalMetadata,
    placements: Seq<PagePlacement>,
) -> Seq<XmlEventView> {
    seq![
        declaration(),
        XmlEventView::Start(
            "package"@,
            seq![
                ("xmlns"@, "http://www.idpf.org/2007/opf"@),
                ("xmlns:dc"@, "http://purl.org/dc/elements/1.1/"@),
                ("version"@, "3.0"@),
                ("unique-identifier"@, "pub-id"@),
                ("prefix"@, "rendition: http://www.idpf.org/vocab/rendition/#"@),
            ],
        ),
    ] + metadata_events(metadata) + manifest_events(images) + spine_events(placements) + seq![
        XmlEventView::End("package"@),
    ]
}

/// The events of `EPUB/package.opf`.
pub fn package_document_events(
    images: &[SourceImage],
    metadata: &MinimalMetadata,
    placements: &[PagePlacement],
) -> (events: Vec<XmlEvent>)
    ensures
        events_view(events@) == package_events(images@, *metadata, placements@),
{
    let mut events = new_document();
    push_declaration(&mut events);
    let mut package_attributes = attributes3(
        "xmlns",
        "http://www.idpf.org/2007/opf",
        "xmlns:dc",
        "http://purl.org/dc/elements/1.1/",
        "version",
        "3.0",
    );
    push_attribute(&mut package_attributes, "unique-identifier", "pub-id");
    push_attribute(
        &mut package_attributes,
        "prefix",
        "rendition: http://www.idpf.org/vocab/rendition/#",
    );
    assert(attributes_view_of(package_attributes@) =~= seq![
        ("xmlns"@, "http://www.idpf.org/2007/opf"@),
        ("xmlns:dc"@, "http://purl.org/dc/elements/1.1/"@),
        ("version"@, "3.0"@),
        ("unique-identifier"@, "pub-id"@),
        ("prefix"@, "rendition: http://www.idpf.org/vocab/rendition/#"@),
    ]);
    push_start(&mut events, "package", package_attributes);
    push_metadata(&mut events, metadata);

    let ghost before_manifest = events_view(events@);
    push_start(&mut events, "manifest", no_attributes());
    let mut navigation_attributes = attributes3(
        "id",
        "nav",
        "href",
        "nav.xhtml",
        "media-type",
        "application/xhtml+xml",
    );
    push_attribute(&mut navigation_attributes, "properties", "nav");
    assert(attributes_view_of(navigation_attributes@) =~= seq![
        ("id"@, "nav"@),
        ("href"@, "nav.xhtml"@),
        ("media-type"@, "application/xhtml+xml"@),
        ("properties"@, "nav"@),
    ]);
    push_empty(&mut events, "item", navigation_attributes);
    push_empty(
        &mut events,
        "item",
        attributes3("id", "page-css", "href", "styles/page.css", "media-type", "text/css"),
    );
    let ghost before_pages = events_view(events@);
    let mut index: usize = 0;
    assert(events_view(events@) =~= before_pages + pages_items(images@.take(0)));
    while index < images.len()
        invariant
            index <= images@.len(),
            events_view(events@) == before_pages + pages_items(images@.take(index as int)),
        decreases images@.len() - index,
    {
        push_page_items(&mut events, index, images[index].format);
        proof {
            let taken = images@.take(index + 1);
            assert(taken.drop_last() =~= images@.take(index as int));
            assert(taken.last() == images@[index as int]);
            assert(events_view(events@) =~= before_pages + pages_items(taken));
        }
        index = index + 1;
    }
    assert(images@.take(images@.len() as int) =~= images@);
    push_end(&mut events, "manifest");
    assert(events_view(events@) =~= before_manifest + manifest_events(images@));

    let ghost before_spine = events_view(events@);
    push_start(&mut events, "spine", attributes1("page-progression-direction", "rtl"));
    let ghost before_items = events_view(events@);
    let mut index: usize = 0;
    assert(events_view(events@) =~= before_items + spine_items(placements@.take(0)));
    while index < placements.len()
        invariant
            index <= placements@.len(),
            events_view(events@) == before_items + spine_items(placements@.take(index as int)),
        decreases placements@.len() - index,
    {
        let id = page_id(index);
        push_empty(
            &mut events,
            "itemref",
            attributes2("idref", id.as_str(), "properties", placement_property(placements[index])),
        );
        proof {
            let taken = placements@.take(index + 1);
            assert(taken.drop_last() =~= placements@.take(index as int));
            assert(taken.last() == placements@[index as int]);
            assert(events_view(events@) =~= before_items + spine_items(taken));
        }
        index = index + 1;
    }
    assert(placements@.take(placements@.len() as int) =~= placements@);
    push_end(&mut events, "spine");
    assert(events_view(events@) =~= before_spine + spine_events(placements@));
    push_end(&mut events, "package");
    assert(events_view(events@) =~= package_events(images@, *metadata, placements@));
    events
}


/// The style sheet: no margins or padding, and the image fills the viewport.
pub open spec fn page_css_text() -> Seq<char> {
    "html, body {\n  width: 100%;\n  height: 100%;\n  margin: 0;\n  padding: 0;\n  overflow: hidden;\n}\n\nimg {\n  display: block;\n  width: 100%;\n  height: 100%;\n}\n"@
}

/// The style sheet shared by every page.
pub fn page_css() -> (css: String)
    ensures
        css@ == page_css_text(),
{
    "html, body {\n  width: 100%;\n  height: 100%;\n  margin: 0;\n  padding: 0;\n  overflow: hidden;\n}\n\nimg {\n  display: block;\n  width: 100%;\n  height: 100%;\n}\n".to_owned()
}

fn render(events: &Vec<XmlEvent>) -> (result: Result<String, DocumentError>)
    ensures
        result matches Ok(text) && text@ == xml_text(events_view(events@)),
{
    match render_xml(events) {
        Ok(text) => Ok(text),
        Err(XmlWriteError::Write(error)) => Err(DocumentError::WriteXml(error)),
        Err(XmlWriteError::InvalidUtf8(error)) => Err(DocumentError::InvalidUtf8(error)),
    }
}

/// The documents of a book whose inputs were accepted.
pub open spec fn documents_match(
    documents: GeneratedDocuments,
    images: Seq<SourceImage>,
    metadata: MinimalMetadata,
    placements: Seq<PagePlacement>,
    toc_entries: Seq<TocEntry>,
) -> bool {
    &&& documents.container_xml@ == xml_text(container_events())
    &&& documents.package_opf@ == xml_text(package_events(images, metadata, placements))
    &&& documents.navigation_xhtml@ == xml_text(
        navigation_events(metadata.title@, metadata.language@, toc_entries),
    )
    &&& documents.page_css@ == page_css_text()
    &&& documents.pages@.len() == images.len()
    &&& forall|i: int|
        0 <= i < images.len() ==> {
            &&& (#[trigger] documents.pages@[i]).path@ == page_path_of(i as nat)
            &&& documents.pages@[i].contents@ == xml_text(
                page_events(
                    i as nat,
                    images[0].dimensions,
                    metadata.title@,
                    metadata.language@,
                    images[i].format,
                ),
            )
        }
}

/// Generates the XHTML pages, the style sheet, the package document, the
/// navigation document and `container.xml` for an ordered list of images.
///
/// The first image gives every page its viewport. Names inside the EPUB are
/// normalized from page numbers, never taken from the input paths. There must
/// be one placement per image, and the table of contents may only link to
/// existing pages, numbered from 1; on such inputs generation succeeds.
pub fn generate_documents(
    images: &[SourceImage],
    metadata: &MinimalMetadata,
    placements: &[PagePlacement],
    toc_entries: &[TocEntry],
) -> (result: Result<GeneratedDocuments, DocumentError>)
    ensures
        match result {
            Ok(documents) => {
                &&& images@.len() > 0
                &&& images@.len() == placements@.len()
                &&& first_toc_error(images@.len() as int, toc_entries@) is None
                &&& documents_match(documents, images@, *metadata, placements@, toc_entries@)
            },
            Err(DocumentError::NoPages) => images@.len() == 0,
            Err(DocumentError::PagePlacementCountMismatch { image_count, placement_count }) => {
                &&& images@.len() > 0
                &&& images@.len() != placements@.len()
                &&& image_count == images@.len()
                &&& placement_count == placements@.len()
            },
            Err(DocumentError::InvalidToc(error)) => {
                &&& images@.len() > 0
                &&& images@.len() == placements@.len()
                &&& first_toc_error(images@.len() as int, toc_entries@) == Some(error)
            },
            Err(DocumentError::InvalidUtf8(_)) => false,
            Err(DocumentError::WriteXml(_)) => false,
        },
{
    if images.len() == 0 {
        return Err(DocumentError::NoPages);
    }
    let viewport = images[0].dimensions;
    if images.len() != placements.len() {
        return Err(
            DocumentError::PagePlacementCountMismatch {
                image_count: images.len(),
                placement_count: placements.len(),
            },
        );
    }
    match validate_toc_entries(images.len(), toc_entries) {
        Ok(()) => {},
        Err(error) => return Err(DocumentError::InvalidToc(error)),
    }
    proof {
        lemma_toc_accepted_iff_every_entry_valid(images@.len() as int, toc_entries@);
        assert forall|i: int| 0 <= i < toc_entries@.len() implies #[trigger] toc_entries@[i].page_number
            >= 1 by {
            assert(toc_entry_error(images@.len() as int, toc_entries@[i]) is None);
        }
    }

    let mut pages: Vec<PageDocument> = Vec::new();
    let mut index: usize = 0;
    while index < images.len()
        invariant
            index <= images@.len(),
            images@.len() > 0,
            images@.len() == placements@.len(),
            first_toc_error(images@.len() as int, toc_entries@) is None,
            viewport == images@[0].dimensions,
            pages@.len() == index,
            forall|i: int|
                0 <= i < index ==> {
                    &&& (#[trigger] pages@[i]).path@ == page_path_of(i as nat)
                    &&& pages@[i].contents@ == xml_text(
                        page_events(
                            i as nat,
                            viewport,
                            metadata.title@,
                            metadata.language@,
                            images@[i].format,
                        ),
                    )
                },
        decreases images@.len() - index,
    {
        let events = page_document_events(
            index,
            viewport,
            metadata.title.as_str(),
            metadata.language.as_str(),
            images[index].format,
        );
        let contents = render(&events)?;
        pages.push(PageDocument { path: page_path(index), contents });
        index = index + 1;
    }

    let container_xml = render(&container_document_events())?;
    let package_opf = render(&package_document_events(images, metadata, placements))?;
    let navigation_xhtml = render(
        &navigation_document_events(
            metadata.title.as_str(),
            metadata.language.as_str(),
            toc_entries,
        ),
    )?;
    Ok(GeneratedDocuments { container_xml, package_opf, navigation_xhtml, page_css: page_css(), pages })
}

} // verus!
