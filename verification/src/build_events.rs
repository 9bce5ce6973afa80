//! Appending XML events to a document under construction.

use vstd::prelude::*;

use crate::xml::{attributes_view, events_view, XmlElement, XmlEvent, XmlEventView};

verus! {

pub type AttributesView = Seq<(Seq<char>, Seq<char>)>;

/// An element with its content given as text.
pub open spec fn text_element(name: Seq<char>, attributes: AttributesView, text: Seq<char>) -> Seq<
    XmlEventView,
> {
    seq![
        XmlEventView::Start(name, attributes),
        XmlEventView::Text(text),
        XmlEventView::End(name),
    ]
}

/// The declaration every document starts with: XML 1.0 in UTF-8.
pub open spec fn declaration() -> XmlEventView {
    XmlEventView::Declaration("1.0"@, "UTF-8"@)
}

/// An attribute with the given name and value.
pub fn attribute(name: &str, value: &str) -> (pair: (String, String))
    ensures
        pair.0@ == name@,
        pair.1@ == value@,
{
    (name.to_owned(), value.to_owned())
}

/// No attributes.
pub fn no_attributes() -> (list: Vec<(String, String)>)
    ensures
        attributes_view(list@) == Seq::<(Seq<char>, Seq<char>)>::empty(),
{
    let list = Vec::new();
    assert(attributes_view(list@) =~= Seq::<(Seq<char>, Seq<char>)>::empty());
    list
}

/// A document with no events yet.
pub fn new_document() -> (events: Vec<XmlEvent>)
    ensures
        events_view(events@) == Seq::<XmlEventView>::empty(),
{
    let events = Vec::new();
    assert(events_view(events@) =~= Seq::<XmlEventView>::empty());
    events
}

/// One attribute.
pub fn attributes1(name: &str, value: &str) -> (list: Vec<(String, String)>)
    ensures
        attributes_view(list@) == seq![(name@, value@)],
{
    let mut list = Vec::new();
    list.push(attribute(name, value));
    assert(attributes_view(list@) =~= seq![(name@, value@)]);
    list
}

/// Two attributes, in order.
pub fn attributes2(name1: &str, value1: &str, name2: &str, value2: &str) -> (list: Vec<
    (String, String),
>)
    ensures
        attributes_view(list@) == seq![(name1@, value1@), (name2@, value2@)],
{
    let mut list = Vec::new();
    list.push(attribute(name1, value1));
    list.push(attribute(name2, value2));
    assert(attributes_view(list@) =~= seq![(name1@, value1@), (name2@, value2@)]);
    list
}

/// Three attributes, in order.
pub fn attributes3(
    name1: &str,
    value1: &str,
    name2: &str,
    value2: &str,
    name3: &str,
    value3: &str,
) -> (list: Vec<(String, String)>)
    ensures
        attributes_view(list@) == seq![(name1@, value1@), (name2@, value2@), (name3@, value3@)],
{
    let mut list = Vec::new();
    list.push(attribute(name1, value1));
    list.push(attribute(name2, value2));
    list.push(attribute(name3, value3));
    assert(attributes_view(list@) =~= seq![
        (name1@, value1@),
        (name2@, value2@),
        (name3@, value3@),
    ]);
    list
}

/// Appends one more attribute to a list.
pub fn push_attribute(list: &mut Vec<(String, String)>, name: &str, value: &str)
    ensures
        attributes_view(final(list)@) == attributes_view(old(list)@).push((name@, value@)),
{
    list.push(attribute(name, value));
    assert(attributes_view(list@) =~= attributes_view(old(list)@).push((name@, value@)));
}

/// Appends one event.
pub fn push_event(events: &mut Vec<XmlEvent>, event: XmlEvent)
    ensures
        events_view(final(events)@) == events_view(old(events)@).push(event@),
{
    events.push(event);
    assert(events_view(events@) =~= events_view(old(events)@).push(event@));
}

/// Appends an opening tag.
pub fn push_start(events: &mut Vec<XmlEvent>, name: &str, attributes: Vec<(String, String)>)
    ensures
        events_view(final(events)@) == events_view(old(events)@).push(
            XmlEventView::Start(name@, attributes_view(attributes@)),
        ),
{
    push_event(events, XmlEvent::Start(XmlElement { name: name.to_owned(), attributes }));
}

/// Appends an element without content.
pub fn push_empty(events: &mut Vec<XmlEvent>, name: &str, attributes: Vec<(String, String)>)
    ensures
        events_view(final(events)@) == events_view(old(events)@).push(
            XmlEventView::Empty(name@, attributes_view(attributes@)),
        ),
{
    push_event(events, XmlEvent::Empty(XmlElement { name: name.to_owned(), attributes }));
}

/// Appends a closing tag.
pub fn push_end(events: &mut Vec<XmlEvent>, name: &str)
    ensures
        events_view(final(events)@) == events_view(old(events)@).push(XmlEventView::End(name@)),
{
    push_event(events, XmlEvent::End(name.to_owned()));
}

/// Appends an element whose content is the given text.
pub fn push_text_element(
    events: &mut Vec<XmlEvent>,
    name: &str,
    attributes: Vec<(String, String)>,
    text: &str,
)
    ensures
        events_view(final(events)@) == events_view(old(events)@) + text_element(
            name@,
            attributes_view(attributes@),
            text@,
        ),
{
    let ghost start = events_view(events@);
    let ghost attributes_seq = attributes_view(attributes@);
    push_start(events, name, attributes);
    push_event(events, XmlEvent::Text(text.to_owned()));
    push_end(events, name);
    assert(events_view(events@) =~= start + text_element(name@, attributes_seq, text@));
}

/// Appends the XML declaration.
pub fn push_declaration(events: &mut Vec<XmlEvent>)
    ensures
        events_view(final(events)@) == events_view(old(events)@).push(declaration()),
{
    push_event(
        events,
        XmlEvent::Declaration { version: "1.0".to_owned(), encoding: "UTF-8".to_owned() },
    );
}

} // verus!
