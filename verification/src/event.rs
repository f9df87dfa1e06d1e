//! The events that the transcoder reads and writes.
//!
//! A document is read as a sequence of [`ParseEvent`]s and written as a
//! sequence of [`WriteEvent`]s. Each type has a view in which texts are
//! sequences of characters; the contracts of this crate speak of the views.

use vstd::prelude::*;
use crate::text::same_text;

verus! {

/// The version of XML that a written document declares.
#[derive(Clone, Copy, Debug, PartialEq, Eq, Structural)]
pub enum XmlVersion {
    /// XML 1.0.
    Version10,
    /// XML 1.1.
    Version11,
}

/// The name of an element or attribute: `media:title` has the prefix `media`
/// and the local name `title`.
#[derive(Clone, Debug, PartialEq, Eq)]
pub struct QualifiedName {
    pub prefix: Option<String>,
    pub local_name: String,
}

/// An attribute of an element that was read.
#[derive(Clone, Debug, PartialEq, Eq)]
pub struct Attribute {
    pub name: QualifiedName,
    pub value: String,
}

/// One step of reading a document.
#[derive(Clone, Debug, PartialEq, Eq)]
pub enum ParseEvent {
    /// The start of the document, with the version and the encoding that
    /// its declaration names.
    StartDocument { version: String, encoding: String },
    /// An opening tag, with its attributes in document order.
    StartElement { name: QualifiedName, attributes: Vec<Attribute> },
    /// A closing tag.
    EndElement,
    /// Character data between tags, blank or not.
    Text(String),
    /// The end of the document.
    EndDocument,
    /// Anything else a parser may report, such as a processing instruction.
    Other,
}

/// What a parser reported of one document: the events in document order
/// and, where it gave up, its complaint. A log that holds no end of document
/// and no complaint ends where its events end.
#[derive(Clone, Debug, PartialEq, Eq)]
pub struct EventLog {
    pub events: Vec<ParseEvent>,
    pub failure: Option<String>,
}

/// An attribute of an element to write. The name is written as it stands,
/// prefix included.
#[derive(Clone, Debug, PartialEq, Eq)]
pub struct OutputAttribute {
    pub name: String,
    pub value: String,
}

/// One step of writing a document.
#[derive(Clone, Debug, PartialEq, Eq)]
pub enum WriteEvent {
    /// The XML declaration.
    StartDocument { version: XmlVersion, encoding: String, standalone: bool },
    /// An opening tag. The name is written as it stands, prefix included.
    StartElement { name: String, attributes: Vec<OutputAttribute> },
    /// Character data; the writer escapes what XML reserves.
    Text(String),
    /// Layout between elements, such as a line break. The writer takes it
    /// as character data, and escapes it as it does [`WriteEvent::Text`].
    RawText(String),
    /// The closing tag of the innermost open element.
    EndElement,
}

/// The view of a [`QualifiedName`].
pub struct QualifiedNameView {
    pub prefix: Option<Seq<char>>,
    pub local_name: Seq<char>,
}

/// The view of an [`Attribute`].
pub struct AttributeView {
    pub name: QualifiedNameView,
    pub value: Seq<char>,
}

/// The view of a [`ParseEvent`].
pub enum ParseEventView {
    StartDocument { version: Seq<char>, encoding: Seq<char> },
    StartElement { name: QualifiedNameView, attributes: Seq<AttributeView> },
    EndElement,
    Text(Seq<char>),
    EndDocument,
    Other,
}

/// The view of an [`EventLog`].
pub struct EventLogView {
    pub events: Seq<ParseEventView>,
    pub failure: Option<Seq<char>>,
}

/// The view of an [`OutputAttribute`].
pub struct OutputAttributeView {
    pub name: Seq<char>,
    pub value: Seq<char>,
}

/// The view of a [`WriteEvent`].
pub enum WriteEventView {
    StartDocument { version: XmlVersion, encoding: Seq<char>, standalone: bool },
    StartElement { name: Seq<char>, attributes: Seq<OutputAttributeView> },
    Text(Seq<char>),
    RawText(Seq<char>),
    EndElement,
}

impl View for QualifiedName {
    type V = QualifiedNameView;

    open spec fn view(&self) -> QualifiedNameView {
        QualifiedNameView {
            prefix: match self.prefix {
                Some(p) => Some(p@),
                None => None,
            },
            local_name: self.local_name@,
        }
    }
}

impl View for Attribute {
    type V = AttributeView;

    open spec fn view(&self) -> AttributeView {
        AttributeView { name: self.name@, value: self.value@ }
    }
}

impl View for ParseEvent {
    type V = ParseEventView;

    open spec fn view(&self) -> ParseEventView {
        match *self {
            ParseEvent::StartDocument { version, encoding } => ParseEventView::StartDocument {
                version: version@,
                encoding: encoding@,
            },
            ParseEvent::StartElement { name, attributes } => ParseEventView::StartElement {
                name: name@,
                attributes: attribute_views(attributes@),
            },
            ParseEvent::EndElement => ParseEventView::EndElement,
            ParseEvent::Text(text) => ParseEventView::Text(text@),
            ParseEvent::EndDocument => ParseEventView::EndDocument,
            ParseEvent::Other => ParseEventView::Other,
        }
    }
}

impl View for EventLog {
    type V = EventLogView;

    open spec fn view(&self) -> EventLogView {
        EventLogView {
            events: parse_event_views(self.events@),
            failure: match self.failure {
                Some(message) => Some(message@),
                None => None,
            },
        }
    }
}

impl View for OutputAttribute {
    type V = OutputAttributeView;

    open spec fn view(&self) -> OutputAttributeView {
        OutputAttributeView { name: self.name@, value: self.value@ }
    }
}

impl View for WriteEvent {
    type V = WriteEventView;

    open spec fn view(&self) -> WriteEventView {
        match *self {
            WriteEvent::StartDocument { version, encoding, standalone } => {
                WriteEventView::StartDocument { version, encoding: encoding@, standalone }
            },
            WriteEvent::StartElement { name, attributes } => WriteEventView::StartElement {
                name: name@,
                attributes: output_attribute_views(attributes@),
            },
            WriteEvent::Text(text) => WriteEventView::Text(text@),
            WriteEvent::RawText(text) => WriteEventView::RawText(text@),
            WriteEvent::EndElement => WriteEventView::EndElement,
        }
    }
}

/// The views of a sequence of attributes, in order.
pub open spec fn attribute_views(attributes: Seq<Attribute>) -> Seq<AttributeView> {
    attributes.map_values(|a: Attribute| a@)
}

/// The views of a sequence of output attributes, in order.
pub open spec fn output_attribute_views(attributes: Seq<OutputAttribute>) -> Seq<
    OutputAttributeView,
> {
    attributes.map_values(|a: OutputAttribute| a@)
}

/// The views of a sequence of parse events, in order.
pub open spec fn parse_event_views(events: Seq<ParseEvent>) -> Seq<ParseEventView> {
    events.map_values(|e: ParseEvent| e@)
}

/// The views of a sequence of write events, in order.
pub open spec fn write_event_views(events: Seq<WriteEvent>) -> Seq<WriteEventView> {
    events.map_values(|e: WriteEvent| e@)
}

/// The value of the first attribute whose local name is `local_name`.
pub open spec fn first_value(attributes: Seq<AttributeView>, local_name: Seq<char>) -> Option<
    Seq<char>,
>
    decreases attributes.len(),
{
    if attributes.len() == 0 {
        None
    } else if attributes[0].name.local_name == local_name {
        Some(attributes[0].value)
    } else {
        first_value(attributes.drop_first(), local_name)
    }
}

/// Looks up an attribute by its local name, whatever its prefix; the first
/// one counts.
pub fn find_attribute<'a>(attributes: &'a Vec<Attribute>, local_name: &str) -> (value: Option<
    &'a str,
>)
    ensures
        match value {
            Some(v) => first_value(attribute_views(attributes@), local_name@) == Some(v@),
            None => first_value(attribute_views(attributes@), local_name@) is None,
        },
{
    let ghost all = attribute_views(attributes@);
    let mut i: usize = 0;
    assert(all.skip(0) == all);
    while i < attributes.len()
        invariant
            i <= attributes.len(),
            all == attribute_views(attributes@),
            first_value(all, local_name@) == first_value(all.skip(i as int), local_name@),
        decreases attributes.len() - i,
    {
        assert(all.skip(i as int)[0] == attributes[i as int]@);
        assert(all.skip(i as int).drop_first() == all.skip(i + 1));
        if same_text(attributes[i].name.local_name.as_str(), local_name) {
            return Some(attributes[i].value.as_str());
        }
        i = i + 1;
    }
    assert(all.skip(i as int).len() == 0);
    None
}

} // verus!
