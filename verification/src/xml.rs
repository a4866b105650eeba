//! XML read as a run of events.
//!
//! The events are those of quick-xml, cut down to what the table of contents of an installer
//! needs: local names, attributes with their unescaped values, and unescaped text.

use vstd::prelude::*;

use anyhow::Error;
use quick_xml::events::Event;

verus! {

/// One attribute of a tag.
pub struct XmlAttr {
    /// Local name.
    pub key: Vec<u8>,
    /// Value with its escapes resolved, or nothing where they cannot be.
    pub value: Option<String>,
}

/// The name and the attributes of an opening or self-closing tag.
pub struct XmlTag {
    /// Local name.
    pub name: Vec<u8>,
    /// The attributes in order, with nothing in the place of a malformed one.
    pub attrs: Vec<Option<XmlAttr>>,
}

/// One event of a document.
pub enum XmlEvent {
    /// `<name ..>`
    Start(XmlTag),
    /// `<name ../>`
    Empty(XmlTag),
    /// `</name>`
    End(Vec<u8>),
    /// Text with its escapes resolved, or nothing where they cannot be.
    Text(Option<String>),
    /// Comments, declarations, character data and processing instructions.
    Other,
}

/// What an attribute holds.
pub ghost struct AttrView {
    pub key: Seq<u8>,
    pub value: Option<Seq<char>>,
}

/// What a tag holds.
pub ghost struct TagView {
    pub name: Seq<u8>,
    pub attrs: Seq<Option<AttrView>>,
}

/// What an event holds.
pub ghost enum EventView {
    Start(TagView),
    Empty(TagView),
    End(Seq<u8>),
    Text(Option<Seq<char>>),
    Other,
}

/// The characters of an optional string.
pub open spec fn text_view(text: Option<String>) -> Option<Seq<char>> {
    match text {
        Some(t) => Some(t@),
        None => None,
    }
}

impl View for XmlAttr {
    type V = AttrView;

    open spec fn view(&self) -> AttrView {
        AttrView { key: self.key@, value: text_view(self.value) }
    }
}

/// What an optional attribute holds.
pub open spec fn attr_view(attr: Option<XmlAttr>) -> Option<AttrView> {
    match attr {
        Some(a) => Some(a@),
        None => None,
    }
}

impl View for XmlTag {
    type V = TagView;

    open spec fn view(&self) -> TagView {
        TagView {
            name: self.name@,
            attrs: Seq::new(self.attrs@.len(), |i: int| attr_view(self.attrs@[i])),
        }
    }
}

impl View for XmlEvent {
    type V = EventView;

    open spec fn view(&self) -> EventView {
        match self {
            XmlEvent::Start(tag) => EventView::Start(tag@),
            XmlEvent::Empty(tag) => EventView::Empty(tag@),
            XmlEvent::End(name) => EventView::End(name@),
            XmlEvent::Text(text) => EventView::Text(text_view(*text)),
            XmlEvent::Other => EventView::Other,
        }
    }
}

/// A run of events, and how it stops: with the end of the document, or with an error, given by
/// its message.
pub ghost struct EventRun {
    pub events: Seq<EventView>,
    pub error: Option<Seq<char>>,
}

impl EventRun {
    /// The run without its first event.
    pub open spec fn advanced(self) -> EventRun {
        EventRun { events: self.events.drop_first(), error: self.error }
    }

    /// No event is left, and the run stops with `error`.
    pub open spec fn ended(self, error: Option<Seq<char>>) -> bool {
        self.events.len() == 0 && self.error == error
    }
}

/// quick-xml's event reader.
#[verifier::external_type_specification]
#[verifier::external_body]
#[verifier::reject_recursive_types(R)]
pub struct ExXmlReader<R>(quick_xml::Reader<R>);

/// quick-xml's opening tag.
#[verifier::external_type_specification]
#[verifier::external_body]
pub struct ExBytesStart<'a>(quick_xml::events::BytesStart<'a>);

/// The events that a quick-xml reader on the document `xml`, with text trimmed, hands out.
pub uninterp spec fn document_events(xml: Seq<char>) -> EventRun;

/// The events that `reader` has still to hand out, up to the end of its document or its first
/// error.
pub uninterp spec fn pending_events(reader: quick_xml::Reader<&[u8]>) -> EventRun;

/// The name and the attributes that quick-xml reads in an opening tag.
pub uninterp spec fn tag_content(tag: quick_xml::events::BytesStart<'_>) -> TagView;

/// `quick_xml::Reader::from_str`, with `Config::trim_text(true)`: the reader stands before
/// the events of the whole document.
#[verifier::external_body]
pub(crate) fn read_document(xml: &str) -> (reader: quick_xml::Reader<&[u8]>)
    ensures
        pending_events(reader) == document_events(xml@),
{
    let mut reader = quick_xml::Reader::from_str(xml);
    reader.config_mut().trim_text(true);
    reader
}

/// An event as quick-xml hands it out, with its tag still closed.
enum RawEvent {
    Start(quick_xml::events::BytesStart<'static>),
    Empty(quick_xml::events::BytesStart<'static>),
    End(Vec<u8>),
    Text(Option<String>),
    Other,
}

impl RawEvent {
    /// What the event holds once its tag is read.
    spec fn content(self) -> EventView {
        match self {
            RawEvent::Start(tag) => EventView::Start(tag_content(tag)),
            RawEvent::Empty(tag) => EventView::Empty(tag_content(tag)),
            RawEvent::End(name) => EventView::End(name@),
            RawEvent::Text(text) => EventView::Text(text_view(text)),
            RawEvent::Other => EventView::Other,
        }
    }
}

/// `BytesStart::local_name` and `BytesStart::attributes`: the local name, and for each
/// attribute its local name and unescaped value. The content is named [`tag_content`].
#[verifier::external_body]
fn tag_of(tag: &quick_xml::events::BytesStart<'static>) -> (out: XmlTag)
    ensures
        out@ == tag_content(*tag),
{
    XmlTag {
        name: tag.local_name().as_ref().to_vec(),
        attrs: tag
            .attributes()
            .map(|attr| attr.ok().map(|a| XmlAttr {
                key: a.key.local_name().as_ref().to_vec(),
                value: a.unescape_value().ok().map(|v| v.into_owned()),
            }))
            .collect(),
    }
}

/// `quick_xml::Reader::read_event_into`: hands out the next event, nothing at the end of the
/// document, or the message of an error with its causes, as `anyhow::Error` writes them out.
#[verifier::external_body]
fn next_raw_event(reader: &mut quick_xml::Reader<&[u8]>) -> (event: Result<
    Option<RawEvent>,
    String,
>)
    ensures
        match event {
            Ok(Some(e)) => {
                &&& pending_events(*old(reader)).events.len() > 0
                &&& e.content() == pending_events(*old(reader)).events[0]
                &&& pending_events(*final(reader)) == pending_events(*old(reader)).advanced()
            },
            Ok(None) => pending_events(*old(reader)).ended(None),
            Err(message) => pending_events(*old(reader)).ended(Some(message@)),
        },
{
    let mut buf = Vec::new();
    match reader.read_event_into(&mut buf) {
        Ok(Event::Start(tag)) => Ok(Some(RawEvent::Start(tag.into_owned()))),
        Ok(Event::Empty(tag)) => Ok(Some(RawEvent::Empty(tag.into_owned()))),
        Ok(Event::End(tag)) => Ok(Some(RawEvent::End(tag.local_name().as_ref().to_vec()))),
        Ok(Event::Text(text)) => Ok(Some(RawEvent::Text(text.unescape().ok().map(String::from)))),
        Ok(Event::Eof) => Ok(None),
        Ok(_) => Ok(Some(RawEvent::Other)),
        Err(e) => Err(format!("{:#}", Error::new(e))),
    }
}

/// Hands out the next event of `reader`, nothing at the end of the document, or the message of
/// an error.
pub(crate) fn next_event(reader: &mut quick_xml::Reader<&[u8]>) -> (event: Result<
    Option<XmlEvent>,
    String,
>)
    ensures
        match event {
            Ok(Some(e)) => {
                &&& pending_events(*old(reader)).events.len() > 0
                &&& e@ == pending_events(*old(reader)).events[0]
                &&& pending_events(*final(reader)) == pending_events(*old(reader)).advanced()
            },
            Ok(None) => pending_events(*old(reader)).ended(None),
            Err(message) => pending_events(*old(reader)).ended(Some(message@)),
        },
{
    match next_raw_event(reader) {
        Ok(Some(RawEvent::Start(tag))) => Ok(Some(XmlEvent::Start(tag_of(&tag)))),
        Ok(Some(RawEvent::Empty(tag))) => Ok(Some(XmlEvent::Empty(tag_of(&tag)))),
        Ok(Some(RawEvent::End(name))) => Ok(Some(XmlEvent::End(name))),
        Ok(Some(RawEvent::Text(text))) => Ok(Some(XmlEvent::Text(text))),
        Ok(Some(RawEvent::Other)) => Ok(Some(XmlEvent::Other)),
        Ok(None) => Ok(None),
        Err(message) => Err(message),
    }
}

} // verus!
