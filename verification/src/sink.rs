//! Writing a document from write events, with the emitter of the `xml`
//! crate.

use std::borrow::Cow;
use vstd::prelude::*;
use xml::namespace::Namespace;
use xml::writer::{EmitterConfig, EventWriter, XmlEvent};
use crate::error::{outcome_view, Fault, TranslationError, TranslationErrorView};
use crate::event::{write_event_views, WriteEvent, WriteEventView, XmlVersion};

verus! {

/// Declares `EventWriter` of the `xml` crate. Verus does not look inside:
/// what is known of a writer is what [`emitted`] names.
#[verifier::external_type_specification]
#[verifier::external_body]
#[verifier::reject_recursive_types(W)]
pub struct ExEventWriter<W>(EventWriter<W>);

/// The events that a writer has taken so far, in order.
pub uninterp spec fn emitted(writer: EventWriter<Vec<u8>>) -> Seq<WriteEventView>;

/// The text that the `xml` crate's emitter, as it is configured by default,
/// has written once it has taken `events`.
pub uninterp spec fn rendered(events: Seq<WriteEventView>) -> Seq<char>;

/// How many elements `events` leave open: the opening tags less the closing
/// ones.
pub open spec fn open_elements(events: Seq<WriteEventView>) -> int
    decreases events.len(),
{
    if events.len() == 0 {
        0
    } else {
        open_elements(events.drop_last()) + match events.last() {
            WriteEventView::StartElement { .. } => 1int,
            WriteEventView::EndElement => -1int,
            _ => 0int,
        }
    }
}

/// Whether a writer that has taken `prior` takes `event`: a declaration only
/// before anything else, a closing tag only while an element is open.
pub open spec fn accepts(prior: Seq<WriteEventView>, event: WriteEventView) -> bool {
    match event {
        WriteEventView::StartDocument { .. } => prior.len() == 0,
        WriteEventView::EndElement => open_elements(prior) > 0,
        _ => true,
    }
}

/// Whether a writer takes all of `events`, one after the other.
pub open spec fn accepted(events: Seq<WriteEventView>) -> bool {
    forall|i: int| 0 <= i < events.len() ==> accepts(#[trigger] events.take(i), events[i])
}

/// Calls `EmitterConfig::create_writer` of the `xml` crate with the default
/// configuration and an empty buffer. The new writer has taken nothing.
#[verifier::external_body]
fn open_writer() -> (writer: EventWriter<Vec<u8>>)
    ensures
        emitted(writer) == Seq::<WriteEventView>::empty(),
{
    EmitterConfig::new().create_writer(Vec::new())
}

/// Calls `EventWriter::write` of the `xml` crate with `event` in the crate's
/// own type: text and layout both as character data, a closing tag without
/// a name, an opening tag without namespace declarations of its own.
///
/// Claims that the emitter refuses a declaration once it has written
/// anything, and a closing tag while no element is open, and nothing else:
/// writing to a buffer in memory does not fail. An event that it takes
/// joins those taken.
#[verifier::external_body]
fn emit(writer: &mut EventWriter<Vec<u8>>, event: &WriteEvent) -> (taken: bool)
    ensures
        taken == accepts(emitted(*old(writer)), event@),
        taken ==> emitted(*final(writer)) == emitted(*old(writer)).push(event@),
{
    writer.write(match event {
        WriteEvent::StartDocument { version, encoding, standalone } => XmlEvent::StartDocument {
            version: match version {
                XmlVersion::Version10 => xml::common::XmlVersion::Version10,
                XmlVersion::Version11 => xml::common::XmlVersion::Version11,
            },
            encoding: Some(encoding), standalone: Some(*standalone),
        },
        WriteEvent::StartElement { name, attributes } => XmlEvent::StartElement {
            name: name.as_str().into(), namespace: Cow::Owned(Namespace::empty()),
            attributes: attributes.iter().map(|a| xml::attribute::Attribute::new(a.name.as_str().into(), &a.value)).collect(),
        },
        WriteEvent::Text(text) | WriteEvent::RawText(text) => XmlEvent::Characters(text),
        WriteEvent::EndElement => XmlEvent::EndElement { name: None },
    }).is_ok()
}

/// Calls `EventWriter::into_inner` of the `xml` crate and reads the buffer
/// as UTF-8, which is how the emitter writes.
///
/// Claims only that the text is a function of the events taken, and names
/// it.
#[verifier::external_body]
fn finish(writer: EventWriter<Vec<u8>>) -> (text: String)
    ensures
        text@ == rendered(emitted(writer)),
{
    String::from_utf8_lossy(&writer.into_inner()).into_owned()
}

/// Whether `events` are taken by a writer one after the other and leave no
/// element open.
pub open spec fn balanced(events: Seq<WriteEventView>) -> bool {
    accepted(events) && open_elements(events) == 0
}

/// The document that `events` write, where they are balanced.
pub open spec fn document(events: Seq<WriteEventView>) -> Result<Seq<char>, TranslationErrorView> {
    if balanced(events) {
        Ok(rendered(events))
    } else {
        Err(TranslationErrorView::StructuralError(Fault::UnbalancedOutput))
    }
}

/// Writes `events` as one document.
///
/// Fails, with `UnbalancedOutput`, exactly where `events` hold a declaration
/// that is not their first event or a closing tag with no element open, or
/// leave an element open.
pub fn render(events: &Vec<WriteEvent>) -> (outcome: Result<String, TranslationError>)
    ensures
        outcome_view(outcome) == document(write_event_views(events@)),
{
    let ghost all = write_event_views(events@);
    let mut writer = open_writer();
    let mut open: usize = 0;
    let mut i: usize = 0;
    assert(all.take(0) == Seq::<WriteEventView>::empty());
    while i < events.len()
        invariant
            i <= events.len(),
            all == write_event_views(events@),
            emitted(writer) == all.take(i as int),
            forall|j: int| 0 <= j < i ==> accepts(#[trigger] all.take(j), all[j]),
            open == open_elements(all.take(i as int)),
            open <= i,
        decreases events.len() - i,
    {
        let taken = emit(&mut writer, &events[i]);
        if !taken {
            assert(!accepts(all.take(i as int), all[i as int]));
            return Err(TranslationError::StructuralError(Fault::UnbalancedOutput));
        }
        assert(all.take(i as int).push(all[i as int]) == all.take(i + 1));
        assert(all.take(i + 1).drop_last() == all.take(i as int));
        match &events[i] {
            WriteEvent::StartElement { .. } => {
                open = open + 1;
            },
            WriteEvent::EndElement => {
                open = open - 1;
            },
            _ => {},
        }
        i = i + 1;
    }
    assert(all.take(i as int) == all);
    if open != 0 {
        return Err(TranslationError::StructuralError(Fault::UnbalancedOutput));
    }
    Ok(finish(writer))
}

} // verus!
