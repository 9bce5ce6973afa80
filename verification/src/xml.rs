//! XML documents as sequences of events, written out by `quick-xml`.
//!
//! The library decides which elements, attributes and texts a document
//! holds, in which order; `quick-xml` escapes the texts and attribute values
//! and lays the events out with indentation.

use quick_xml::events::{BytesDecl, BytesEnd, BytesStart, BytesText, Event};
use vstd::prelude::*;
use vstd::utf8::{decode_utf8, valid_utf8};

verus! {

#[verifier::external_type_specification]
#[verifier::external_body]
#[verifier::reject_recursive_types(W)]
pub struct ExXmlWriter<W>(quick_xml::Writer<W>);

#[verifier::external_type_specification]
#[verifier::external_body]
pub struct ExFromUtf8Error(std::string::FromUtf8Error);

/// An element's name and its attributes, in order, with unescaped values.
#[derive(Clone, Debug)]
pub struct XmlElement {
    pub name: String,
    pub attributes: Vec<(String, String)>,
}

/// One event of an XML document.
#[derive(Clone, Debug)]
pub enum XmlEvent {
    /// The XML declaration with its version and encoding.
    Declaration { version: String, encoding: String },
    /// A document type declaration with its content.
    Doctype(String),
    /// An opening tag.
    Start(XmlElement),
    /// An element without content.
    Empty(XmlElement),
    /// Character data, unescaped.
    Text(String),
    /// A closing tag with the element's name.
    End(String),
}

/// The mathematical value of an XML event.
#[verifier::ext_equal]
pub enum XmlEventView {
    Declaration(Seq<char>, Seq<char>),
    Doctype(Seq<char>),
    Start(Seq<char>, Seq<(Seq<char>, Seq<char>)>),
    Empty(Seq<char>, Seq<(Seq<char>, Seq<char>)>),
    Text(Seq<char>),
    End(Seq<char>),
}

pub open spec fn attributes_view(attributes: Seq<(String, String)>) -> Seq<(Seq<char>, Seq<char>)> {
    attributes.map_values(|attribute: (String, String)| (attribute.0@, attribute.1@))
}

impl View for XmlEvent {
    type V = XmlEventView;

    open spec fn view(&self) -> XmlEventView {
        match self {
            XmlEvent::Declaration { version, encoding } => XmlEventView::Declaration(
                version@,
                encoding@,
            ),
            XmlEvent::Doctype(content) => XmlEventView::Doctype(content@),
            XmlEvent::Start(element) => XmlEventView::Start(
                element.name@,
                attributes_view(element.attributes@),
            ),
            XmlEvent::Empty(element) => XmlEventView::Empty(
                element.name@,
                attributes_view(element.attributes@),
            ),
            XmlEvent::Text(text) => XmlEventView::Text(text@),
            XmlEvent::End(name) => XmlEventView::End(name@),
        }
    }
}

pub open spec fn events_view(events: Seq<XmlEvent>) -> Seq<XmlEventView> {
    events.map_values(|event: XmlEvent| event@)
}

/// The events written so far to a `quick_xml::Writer`, in order.
pub uninterp spec fn written_events(writer: quick_xml::Writer<Vec<u8>>) -> Seq<XmlEventView>;

/// The indentation character and width that a `quick_xml::Writer` was made with.
pub uninterp spec fn writer_indentation(writer: quick_xml::Writer<Vec<u8>>) -> (u8, usize);

/// The bytes that a `quick_xml::Writer` made with the given indentation over
/// an empty buffer holds after writing the given events.
pub uninterp spec fn written_xml(indent_char: u8, indent_size: usize, events: Seq<XmlEventView>) -> Seq<u8>;

/// Calls `quick_xml::Writer::new_with_indent` over an empty buffer. The new
/// writer has written nothing and keeps the indentation it was given.
///
/// The indentation character must be ASCII: `quick-xml` turns the byte into a
/// `char` and later cuts its indentation string by byte count, which splits a
/// character of two bytes. A small indentation size keeps the indentation of
/// nested elements from overflowing.
#[verifier::external_body]
fn new_xml_writer(indent_char: u8, indent_size: usize) -> (writer: quick_xml::Writer<Vec<u8>>)
    requires
        indent_char < 128,
        indent_size <= 16,
    ensures
        written_events(writer) == Seq::<XmlEventView>::empty(),
        writer_indentation(writer) == (indent_char, indent_size),
{
    quick_xml::Writer::new_with_indent(Vec::new(), indent_char, indent_size)
}

/// Calls `quick_xml::Writer::write_event` with the `quick-xml` form of the
/// event: the writer has written one more event, and the indentation never
/// changes. `write_event` fails only when the underlying writer's `write_all`
/// fails, and writing into a `Vec<u8>` appends to it and never fails, so the
/// call succeeds. The writer's indentation must be as `new_xml_writer` asks.
#[verifier::external_body]
fn write_xml_event(writer: &mut quick_xml::Writer<Vec<u8>>, event: &XmlEvent) -> (result: Result<
    (),
    std::io::Error,
>)
    requires
        writer_indentation(*old(writer)).0 < 128,
        writer_indentation(*old(writer)).1 <= 16,
    ensures
        result is Ok,
        writer_indentation(*final(writer)) == writer_indentation(*old(writer)),
        written_events(*final(writer)) == written_events(*old(writer)).push(event@),
{
    writer.write_event(match event {
        XmlEvent::Declaration { version, encoding } => Event::Decl(
            BytesDecl::new(version, Some(encoding), None),
        ),
        XmlEvent::Doctype(content) => Event::DocType(BytesText::new(content)),
        XmlEvent::Start(e) | XmlEvent::Empty(e) => {
            let tag = BytesStart::new(e.name.as_str()).with_attributes(
                e.attributes.iter().map(|(k, v)| (k.as_str(), v.as_str())),
            );
            if let XmlEvent::Start(_) = event { Event::Start(tag) } else { Event::Empty(tag) }
        },
        XmlEvent::Text(text) => Event::Text(BytesText::new(text)),
        XmlEvent::End(name) => Event::End(BytesEnd::new(name.as_str())),
    })
}

/// Calls `quick_xml::Writer::into_inner`: the buffer holds the XML of the
/// events written, laid out with the writer's indentation. The buffer started
/// empty and `quick-xml` writes into it only the bytes of `&str` values (the
/// texts of the events, already escaped, ASCII markup and the indentation
/// string), so it holds valid UTF-8.
#[verifier::external_body]
fn finish_xml(writer: quick_xml::Writer<Vec<u8>>) -> (bytes: Vec<u8>)
    ensures
        valid_utf8(bytes@),
        bytes@ == written_xml(
            writer_indentation(writer).0,
            writer_indentation(writer).1,
            written_events(writer),
        ),
{
    writer.into_inner()
}

/// Calls `String::from_utf8`, which succeeds exactly on valid UTF-8 and then
/// holds the decoded characters.
#[verifier::external_body]
fn string_from_utf8(bytes: Vec<u8>) -> (result: Result<String, std::string::FromUtf8Error>)
    ensures
        match result {
            Ok(text) => valid_utf8(bytes@) && text@ == decode_utf8(bytes@),
            Err(_) => !valid_utf8(bytes@),
        },
{
    String::from_utf8(bytes)
}

/// The text of a document made of the given events, indented by two spaces.
pub open spec fn xml_text(events: Seq<XmlEventView>) -> Seq<char> {
    decode_utf8(written_xml(32u8, 2usize, events))
}

/// Why an XML document could not be written.
#[derive(Debug)]
pub enum XmlWriteError {
    Write(std::io::Error),
    InvalidUtf8(std::string::FromUtf8Error),
}

/// Writes the events as a document indented by two spaces; this always
/// succeeds.
pub fn render_xml(events: &Vec<XmlEvent>) -> (result: Result<String, XmlWriteError>)
    ensures
        result matches Ok(text) && text@ == xml_text(events_view(events@)),
{
    // Indent nested elements by two spaces (ASCII 32).
    let mut writer = new_xml_writer(32u8, 2);
    let mut index: usize = 0;
    while index < events.len()
        invariant
            index <= events@.len(),
            writer_indentation(writer) == (32u8, 2usize),
            written_events(writer) == events_view(events@.take(index as int)),
        decreases events@.len() - index,
    {
        match write_xml_event(&mut writer, &events[index]) {
            Ok(()) => {},
            Err(error) => return Err(XmlWriteError::Write(error)),
        }
        proof {
            assert(events_view(events@.take(index + 1)) =~= events_view(
                events@.take(index as int),
            ).push(events@[index as int]@));
        }
        index = index + 1;
    }
    proof {
        assert(events@.take(events@.len() as int) =~= events@);
    }
    match string_from_utf8(finish_xml(writer)) {
        Ok(text) => Ok(text),
        Err(error) => Err(XmlWriteError::InvalidUtf8(error)),
    }
}

} // verus!
