//! Reading a document as parse events, with the pull parser of the `xml`
//! crate.

use vstd::prelude::*;
use xml::reader::XmlEvent::{
    CData, Characters, Comment, EndDocument, EndElement, ProcessingInstruction, StartDocument,
    StartElement, Whitespace,
};
use xml::reader::{EventReader, ParserConfig};
use crate::event::{
    attribute_views, parse_event_views, Attribute, AttributeView, EventLog, EventLogView,
    ParseEvent, ParseEventView, QualifiedName, QualifiedNameView,
};

verus! {

/// A document under the pull parser of the `xml` crate.
///
/// Verus does not look inside: what is known of a source is what
/// [`pending`] names.
#[verifier::external_body]
pub struct EventSource<'a> {
    reader: EventReader<&'a [u8]>,
}

/// One item of the parser's report, as the parser tells them apart: it
/// keeps text that holds nothing but blanks apart from other text.
#[derive(Clone, Debug, PartialEq, Eq)]
pub enum Reported {
    /// The start of the document, with the version and the encoding that
    /// its declaration names.
    StartDocument { version: String, encoding: String },
    /// An opening tag, with its attributes in document order.
    StartElement { name: QualifiedName, attributes: Vec<Attribute> },
    /// A closing tag.
    EndElement,
    /// Character data that is not blank.
    Characters(String),
    /// Character data that holds nothing but blanks.
    Whitespace(String),
    /// The end of the document.
    EndDocument,
    /// A processing instruction, without what it holds.
    ProcessingInstruction,
    /// A CDATA section that the parser was asked to keep apart from text,
    /// without what it holds.
    CData,
    /// A comment that the parser was asked to report, without what it
    /// holds.
    Comment,
}

/// The view of a [`Reported`].
pub enum ReportedView {
    StartDocument { version: Seq<char>, encoding: Seq<char> },
    StartElement { name: QualifiedNameView, attributes: Seq<AttributeView> },
    EndElement,
    Characters(Seq<char>),
    Whitespace(Seq<char>),
    EndDocument,
    ProcessingInstruction,
    CData,
    Comment,
}

impl View for Reported {
    type V = ReportedView;

    open spec fn view(&self) -> ReportedView {
        match *self {
            Reported::StartDocument { version, encoding } => ReportedView::StartDocument {
                version: version@,
                encoding: encoding@,
            },
            Reported::StartElement { name, attributes } => ReportedView::StartElement {
                name: name@,
                attributes: attribute_views(attributes@),
            },
            Reported::EndElement => ReportedView::EndElement,
            Reported::Characters(text) => ReportedView::Characters(text@),
            Reported::Whitespace(text) => ReportedView::Whitespace(text@),
            Reported::EndDocument => ReportedView::EndDocument,
            Reported::ProcessingInstruction => ReportedView::ProcessingInstruction,
            Reported::CData => ReportedView::CData,
            Reported::Comment => ReportedView::Comment,
        }
    }
}

/// The event that the transcoder reads for an item of the report: blank
/// text is text to it like any other, and what is neither a tag nor text
/// nor a start or an end of the document is something else that it passes
/// over.
pub open spec fn settled(item: ReportedView) -> ParseEventView {
    match item {
        ReportedView::StartDocument { version, encoding } => ParseEventView::StartDocument {
            version,
            encoding,
        },
        ReportedView::StartElement { name, attributes } => ParseEventView::StartElement {
            name,
            attributes,
        },
        ReportedView::EndElement => ParseEventView::EndElement,
        ReportedView::Characters(text) => ParseEventView::Text(text),
        ReportedView::Whitespace(text) => ParseEventView::Text(text),
        ReportedView::EndDocument => ParseEventView::EndDocument,
        _ => ParseEventView::Other,
    }
}

/// What the parser has still to report of its document, next first: events,
/// and last of all the end of the document or the parser's complaint.
pub uninterp spec fn pending(source: EventSource) -> Seq<Result<ReportedView, Seq<char>>>;

/// What the `xml` crate's parser reports of the document `text`, from its
/// first pull on, when it skips comments and blank text outside the root
/// element and hands CDATA over as text.
pub uninterp spec fn document_events(text: Seq<char>) -> Seq<Result<ReportedView, Seq<char>>>;

/// Whether the parser reports nothing new after `item`.
pub open spec fn is_final(item: Result<ReportedView, Seq<char>>) -> bool {
    item is Err || item == Ok::<ReportedView, Seq<char>>(ReportedView::EndDocument)
}

/// Whether `stream` ends with its only final item.
pub open spec fn well_terminated(stream: Seq<Result<ReportedView, Seq<char>>>) -> bool {
    &&& stream.len() > 0
    &&& is_final(stream.last())
    &&& forall|i: int| 0 <= i < stream.len() - 1 ==> !is_final(#[trigger] stream[i])
}

/// The view of what a pull yields.
pub open spec fn item_view(pulled: Result<Reported, String>) -> Result<ReportedView, Seq<char>> {
    match pulled {
        Ok(item) => Ok(item@),
        Err(message) => Err(message@),
    }
}

/// Calls `ParserConfig::create_reader` of the `xml` crate on the bytes of
/// `input`, with the parser told to skip blank text outside the root element
/// and comments, to hand CDATA over as text and to join adjacent text.
///
/// Claims that the parser reports a finite run of items that only the end of
/// the document or a complaint closes, and names that run.
#[verifier::external_body]
fn open_source<'a>(input: &'a str) -> (source: EventSource<'a>)
    ensures
        pending(source) == document_events(input@),
        well_terminated(pending(source)),
{
    let config = ParserConfig::new().ignore_root_level_whitespace(true).ignore_comments(true)
        .cdata_to_characters(true).coalesce_characters(true);
    EventSource { reader: config.create_reader(input.as_bytes()) }
}

/// Calls `EventReader::next` of the `xml` crate and hands the item over in
/// this crate's types, variant by variant, and the parser's error as its
/// message. What a processing instruction, a CDATA section or a comment
/// holds is left behind.
///
/// Claims that the pull yields the first pending item and takes it off,
/// unless it is final: then it stays, and every later pull yields it again.
#[verifier::external_body]
fn next_event(source: &mut EventSource) -> (pulled: Result<Reported, String>)
    ensures
        item_view(pulled) == pending(*old(source)).first(),
        pending(*final(source)) == if is_final(pending(*old(source)).first()) {
            pending(*old(source))
        } else {
            pending(*old(source)).drop_first()
        },
{
    let event = match source.reader.next() { Ok(event) => event, Err(e) => return Err(e.to_string()) };
    Ok(match event {
        StartDocument { version, encoding, .. } => Reported::StartDocument { version: version.to_string(), encoding },
        StartElement { name, attributes, .. } => Reported::StartElement {
            name: named(name.prefix, name.local_name),
            attributes: attributes.into_iter().map(|a| named_value(a.name.prefix, a.name.local_name, a.value)).collect(),
        },
        EndElement { .. } => Reported::EndElement,
        Characters(text) => Reported::Characters(text),
        Whitespace(text) => Reported::Whitespace(text),
        EndDocument => Reported::EndDocument,
        ProcessingInstruction { .. } => Reported::ProcessingInstruction,
        CData(_) => Reported::CData,
        Comment(_) => Reported::Comment,
    })
}

/// A name of its prefix and its local name.
pub fn named(prefix: Option<String>, local_name: String) -> (name: QualifiedName)
    ensures
        name == (QualifiedName { prefix, local_name }),
{
    QualifiedName { prefix, local_name }
}

/// An attribute of its name and its value.
pub fn named_value(prefix: Option<String>, local_name: String, value: String) -> (attribute:
    Attribute)
    ensures
        attribute == (Attribute { name: QualifiedName { prefix, local_name }, value }),
{
    Attribute { name: named(prefix, local_name), value }
}

/// Makes of an item of the report the event that the transcoder reads:
/// blank text becomes text like any other, and what the transcoder has no
/// use for becomes `Other`.
pub fn settle(item: Reported) -> (event: ParseEvent)
    ensures
        event@ == settled(item@),
{
    match item {
        Reported::StartDocument { version, encoding } => ParseEvent::StartDocument {
            version,
            encoding,
        },
        Reported::StartElement { name, attributes } => ParseEvent::StartElement {
            name,
            attributes,
        },
        Reported::EndElement => ParseEvent::EndElement,
        Reported::Characters(text) => ParseEvent::Text(text),
        Reported::Whitespace(text) => ParseEvent::Text(text),
        Reported::EndDocument => ParseEvent::EndDocument,
        _ => ParseEvent::Other,
    }
}

/// The event that stands in a log for an item of the report that is no
/// complaint.
pub open spec fn reported_event(item: Result<ReportedView, Seq<char>>) -> ParseEventView {
    match item {
        Ok(event) => settled(event),
        Err(_) => ParseEventView::Other,
    }
}

/// The events of a run of items that are no complaints.
pub open spec fn reported_events(stream: Seq<Result<ReportedView, Seq<char>>>) -> Seq<
    ParseEventView,
> {
    stream.map_values(|item: Result<ReportedView, Seq<char>>| reported_event(item))
}

/// The log of a run of items: the events, and the complaint that closes
/// the run if one does.
pub open spec fn stream_log(stream: Seq<Result<ReportedView, Seq<char>>>) -> EventLogView {
    if stream.len() > 0 && stream.last() is Err {
        EventLogView {
            events: reported_events(stream.drop_last()),
            failure: Some(stream.last()->Err_0),
        }
    } else {
        EventLogView { events: reported_events(stream), failure: None }
    }
}

/// Reads `input` to its end, or to where the parser gives up.
///
/// The log holds every item that the parser reports, in order: the events,
/// the end of the document last among them, or else the complaint. Blank
/// text stands in it as text. No event before the last is the end of the
/// document.
pub fn read_events(input: &str) -> (log: EventLog)
    ensures
        log@ == stream_log(document_events(input@)),
        well_terminated(document_events(input@)),
{
    let mut source = open_source(input);
    let mut events: Vec<ParseEvent> = Vec::new();
    let ghost all = document_events(input@);
    let ghost mut read: int = 0;
    proof {
        assert(all.skip(0) == all);
        assert(parse_event_views(events@) =~= reported_events(all.take(0)));
    }
    loop
        invariant
            all == document_events(input@),
            well_terminated(all),
            0 <= read < all.len(),
            pending(source) == all.skip(read),
            parse_event_views(events@) == reported_events(all.take(read)),
        decreases all.len() - read,
    {
        let ghost before = parse_event_views(events@);
        assert(pending(source).first() == all[read]);
        match next_event(&mut source) {
            Err(message) => {
                let log = EventLog { events, failure: Some(message) };
                proof {
                    assert(is_final(all[read]));
                    assert(read == all.len() - 1);
                    assert(all.take(read) == all.drop_last());
                }
                return log;
            },
            Ok(item) => {
                let ghost view = item@;
                let done = matches!(item, Reported::EndDocument);
                events.push(settle(item));
                proof {
                    assert(all.take(read + 1) == all.take(read).push(all[read]));
                    assert(parse_event_views(events@) =~= before.push(settled(view)));
                    assert(reported_events(all.take(read + 1)) =~= reported_events(
                        all.take(read),
                    ).push(reported_event(all[read])));
                    if done {
                        assert(is_final(all[read]));
                        assert(read == all.len() - 1);
                        assert(all.take(read + 1) == all);
                    } else {
                        assert(!is_final(all[read]));
                        assert(all.skip(read).drop_first() == all.skip(read + 1));
                        assert(read + 1 < all.len());
                    }
                }
                if done {
                    return EventLog { events, failure: None };
                }
                proof {
                    read = read + 1;
                }
            },
        }
    }
}

} // verus!
