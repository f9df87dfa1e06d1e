//! The transcoder: a state machine that reads the events of an Atom feed in
//! document order and writes the events of the RSS feed.

use vstd::prelude::*;
use crate::cursor::{advance, pull, skipped, text_at, text_or_empty, EventCursor};
use crate::date::{build_date, entry_date, rfc822_from_rfc3339, rfc822_from_unix};
use crate::error::{Fault, TranslationError, TranslationErrorView};
use crate::event::{
    attribute_views, find_attribute, first_value, write_event_views, Attribute, AttributeView,
    EventLog, EventLogView, ParseEvent, ParseEventView, QualifiedName, QualifiedNameView,
    WriteEvent, WriteEventView,
};
use crate::html::{
    no_thumbnail, read_thumbnail, thumbnail_from, thumbnail_view, ThumbnailInfo, ThumbnailInfoView,
};
use crate::rss::{
    channel_head, channel_title, document_head, document_tail, item_head, item_tail,
    lemma_views_concat, text_element, write_channel_head, write_channel_title,
    write_document_head, write_document_tail, write_item_head, write_item_tail,
    write_text_element,
};
use crate::text::same_text;

verus! {

/// Where the transcoder stands in a feed. A feed is read from `Initial` on,
/// through `Header` and `ChannelInfo`, to `VideoEntries`; from there each
/// entry leads to `VideoEntry` and back.
#[derive(Clone, Copy, Debug, PartialEq, Eq, Structural)]
pub enum TranscoderState {
    /// Nothing has been read.
    Initial,
    /// The document has started; its root element is awaited.
    Header,
    /// Inside the feed, before its entries.
    ChannelInfo,
    /// Between entries.
    VideoEntries,
    /// Inside an entry.
    VideoEntry,
}

impl TranscoderState {
    /// The place of the state in the order in which a feed is read.
    pub open spec fn rank(self) -> nat {
        match self {
            TranscoderState::Initial => 0,
            TranscoderState::Header => 1,
            TranscoderState::ChannelInfo => 2,
            TranscoderState::VideoEntries => 3,
            TranscoderState::VideoEntry => 4,
        }
    }
}

/// What one step of the transcoder does, beside moving the cursor: the state
/// it leads to, and the events it writes.
#[derive(Clone, Debug, PartialEq, Eq)]
pub struct Step {
    pub state: TranscoderState,
    pub emitted: Vec<WriteEvent>,
}

/// One step of the transcoder in full: the state it leads to, the events it
/// writes, and where it leaves the cursor.
pub struct StepView {
    pub state: TranscoderState,
    pub emitted: Seq<WriteEventView>,
    pub position: nat,
}

/// The view of the outcome of a step, given where it has left the cursor.
pub open spec fn step_view(outcome: Result<Step, TranslationError>, position: nat) -> Result<
    StepView,
    TranslationErrorView,
> {
    match outcome {
        Ok(step) => Ok(
            StepView { state: step.state, emitted: write_event_views(step.emitted@), position },
        ),
        Err(error) => Err(error@),
    }
}

/// The view of the outcome of a translation into events.
pub open spec fn transcript_view(outcome: Result<Vec<WriteEvent>, TranslationError>) -> Result<
    Seq<WriteEventView>,
    TranslationErrorView,
> {
    match outcome {
        Ok(events) => Ok(write_event_views(events@)),
        Err(error) => Err(error@),
    }
}

/// A step that writes nothing.
pub open spec fn silent(state: TranscoderState, position: nat) -> Result<
    StepView,
    TranslationErrorView,
> {
    Ok(StepView { state, emitted: Seq::empty(), position })
}

/// The start of the document: its encoding has to be spelled `UTF-8`.
pub open spec fn initial_step(event: ParseEventView, at: nat) -> Result<
    StepView,
    TranslationErrorView,
> {
    match event {
        ParseEventView::StartDocument { encoding, .. } => if encoding == "UTF-8"@ {
            silent(TranscoderState::Header, at)
        } else {
            Err(TranslationErrorView::EncodingError(encoding))
        },
        _ => Err(TranslationErrorView::StructuralError(Fault::UnexpectedEvent)),
    }
}

/// The root element: it has to be `feed`, and opens the RSS document.
pub open spec fn header_step(name: QualifiedNameView, at: nat) -> Result<
    StepView,
    TranslationErrorView,
> {
    if name.local_name == "feed"@ {
        Ok(StepView { state: TranscoderState::ChannelInfo, emitted: document_head(), position: at })
    } else {
        Err(TranslationErrorView::StructuralError(Fault::UnexpectedRoot))
    }
}

/// What a `link` of the feed writes: the one to the feed itself opens the
/// channel, the alternate one is the link of the channel.
pub open spec fn channel_link(rel: Seq<char>, href: Seq<char>, base_url: Seq<char>) -> Seq<
    WriteEventView,
> {
    if rel == "self"@ {
        channel_head(base_url, href)
    } else if rel == "alternate"@ {
        text_element("link"@, href)
    } else {
        Seq::empty()
    }
}

/// An element of the feed itself, with the cursor at `at` behind its
/// opening tag.
pub open spec fn channel_step(
    log: EventLogView,
    at: nat,
    name: QualifiedNameView,
    attributes: Seq<AttributeView>,
    base_url: Seq<char>,
    now: int,
) -> Result<StepView, TranslationErrorView> {
    if name.local_name == "link"@ {
        match (first_value(attributes, "rel"@), first_value(attributes, "href"@)) {
            (Some(rel), Some(href)) => Ok(
                StepView {
                    state: TranscoderState::ChannelInfo,
                    emitted: channel_link(rel, href, base_url),
                    position: at,
                },
            ),
            _ => Err(TranslationErrorView::StructuralError(Fault::MissingAttribute)),
        }
    } else if name.local_name == "title"@ {
        match text_at(log, at) {
            Ok(title) => Ok(
                StepView {
                    state: TranscoderState::ChannelInfo,
                    emitted: channel_title(title),
                    position: advance(log, at),
                },
            ),
            Err(error) => Err(error),
        }
    } else if name.local_name == "published"@ {
        match text_at(log, at) {
            Ok(_) => match build_date(now) {
                Ok(date) => Ok(
                    StepView {
                        state: TranscoderState::VideoEntries,
                        emitted: text_element("lastBuildDate"@, date),
                        position: advance(log, at),
                    },
                ),
                Err(error) => Err(error),
            },
            Err(error) => Err(error),
        }
    } else {
        silent(TranscoderState::ChannelInfo, at)
    }
}

/// An element between entries: only `entry` counts, and opens an item.
pub open spec fn entries_step(name: QualifiedNameView, at: nat) -> Result<
    StepView,
    TranslationErrorView,
> {
    if name.local_name == "entry"@ {
        Ok(StepView { state: TranscoderState::VideoEntry, emitted: item_head(), position: at })
    } else {
        silent(TranscoderState::VideoEntries, at)
    }
}

/// The thumbnail that `event` gives: that of its attributes where it opens
/// a `content` element, none otherwise; `None` where a size is no number.
pub open spec fn thumbnail_of(event: ParseEventView) -> Option<ThumbnailInfoView> {
    match event {
        ParseEventView::StartElement { name, attributes } => if name.local_name == "content"@ {
            thumbnail_from(attributes)
        } else {
            Some(no_thumbnail())
        },
        _ => Some(no_thumbnail()),
    }
}

/// A `content` element of an entry, with the cursor at `at` behind its
/// opening tag. Two events are passed over, the third gives the thumbnail,
/// three more are passed over, the seventh gives the description; then the
/// item is closed.
pub open spec fn content_step(log: EventLogView, at: nat, attributes: Seq<AttributeView>)
    -> Result<StepView, TranslationErrorView> {
    match skipped(log, at, 2) {
        Ok(third_at) => match pull(log, third_at) {
            Ok(third) => match thumbnail_of(third) {
                Some(thumbnail) => match skipped(log, advance(log, third_at), 3) {
                    Ok(seventh_at) => match pull(log, seventh_at) {
                        Ok(seventh) => match first_value(attributes, "url"@) {
                            Some(url) => Ok(
                                StepView {
                                    state: TranscoderState::VideoEntries,
                                    emitted: item_tail(url, thumbnail, text_or_empty(seventh)),
                                    position: advance(log, seventh_at),
                                },
                            ),
                            None => Err(
                                TranslationErrorView::StructuralError(Fault::MissingAttribute),
                            ),
                        },
                        Err(error) => Err(error),
                    },
                    Err(error) => Err(error),
                },
                None => Err(TranslationErrorView::StructuralError(Fault::InvalidDimension)),
            },
            Err(error) => Err(error),
        },
        Err(error) => Err(error),
    }
}

/// An element of an entry, with the cursor at `at` behind its opening tag.
pub open spec fn entry_step(
    log: EventLogView,
    at: nat,
    name: QualifiedNameView,
    attributes: Seq<AttributeView>,
) -> Result<StepView, TranslationErrorView> {
    if name.local_name == "title"@ {
        if name.prefix == Some("media"@) {
            silent(TranscoderState::VideoEntry, at)
        } else {
            match text_at(log, at) {
                Ok(title) => Ok(
                    StepView {
                        state: TranscoderState::VideoEntry,
                        emitted: text_element("title"@, title),
                        position: advance(log, at),
                    },
                ),
                Err(error) => Err(error),
            }
        }
    } else if name.local_name == "link"@ {
        match first_value(attributes, "href"@) {
            Some(href) => Ok(
                StepView {
                    state: TranscoderState::VideoEntry,
                    emitted: text_element("link"@, href),
                    position: at,
                },
            ),
            None => Err(TranslationErrorView::StructuralError(Fault::MissingAttribute)),
        }
    } else if name.local_name == "published"@ {
        match text_at(log, at) {
            Ok(text) => match entry_date(text) {
                Ok(date) => Ok(
                    StepView {
                        state: TranscoderState::VideoEntry,
                        emitted: text_element("pubDate"@, date),
                        position: advance(log, at),
                    },
                ),
                Err(error) => Err(error),
            },
            Err(error) => Err(error),
        }
    } else if name.local_name == "content"@ {
        content_step(log, at, attributes)
    } else {
        silent(TranscoderState::VideoEntry, at)
    }
}

/// One step of the transcoder: what `event` leads to in `state`, with the
/// cursor at `at` behind the event. The end of the document is no step.
pub open spec fn step(
    log: EventLogView,
    at: nat,
    state: TranscoderState,
    event: ParseEventView,
    base_url: Seq<char>,
    now: int,
) -> Result<StepView, TranslationErrorView> {
    if state == TranscoderState::Initial {
        initial_step(event, at)
    } else {
        match event {
            ParseEventView::StartDocument { .. } => Err(
                TranslationErrorView::StructuralError(Fault::UnexpectedEvent),
            ),
            ParseEventView::StartElement { name, attributes } => match state {
                TranscoderState::Header => header_step(name, at),
                TranscoderState::ChannelInfo => channel_step(
                    log,
                    at,
                    name,
                    attributes,
                    base_url,
                    now,
                ),
                TranscoderState::VideoEntries => entries_step(name, at),
                _ => entry_step(log, at, name, attributes),
            },
            _ => silent(state, at),
        }
    }
}

/// What the end of the document writes: the closing tags of the channel and
/// of the document. A document may end neither before it has started nor
/// inside an entry.
pub open spec fn finish(state: TranscoderState) -> Result<
    Seq<WriteEventView>,
    TranslationErrorView,
> {
    if state == TranscoderState::Initial || state == TranscoderState::VideoEntry {
        Err(TranslationErrorView::StructuralError(Fault::UnexpectedEvent))
    } else {
        Ok(document_tail())
    }
}

/// `events`, then what `rest` has, if it has any.
pub open spec fn prepend(
    events: Seq<WriteEventView>,
    rest: Result<Seq<WriteEventView>, TranslationErrorView>,
) -> Result<Seq<WriteEventView>, TranslationErrorView> {
    match rest {
        Ok(more) => Ok(events + more),
        Err(error) => Err(error),
    }
}

/// What the transcoder writes from `position` in `state` on: step by step
/// to the end of the document, or the first error on the way.
pub open spec fn run(
    log: EventLogView,
    position: nat,
    state: TranscoderState,
    base_url: Seq<char>,
    now: int,
) -> Result<Seq<WriteEventView>, TranslationErrorView>
    decreases log.events.len() - position,
{
    match pull(log, position) {
        Ok(event) => if event is EndDocument {
            finish(state)
        } else {
            match step(log, advance(log, position), state, event, base_url, now) {
                Ok(next) => if position < next.position <= log.events.len() {
                    prepend(next.emitted, run(log, next.position, next.state, base_url, now))
                } else {
                    Err(TranslationErrorView::StructuralError(Fault::UnexpectedEvent))
                },
                Err(error) => Err(error),
            }
        },
        Err(error) => Err(error),
    }
}

/// The events of the RSS feed for the Atom feed that `log` holds, served
/// under `base_url` and built `now` seconds after the Unix epoch.
pub open spec fn transcript(log: EventLogView, base_url: Seq<char>, now: int) -> Result<
    Seq<WriteEventView>,
    TranslationErrorView,
> {
    run(log, 0, TranscoderState::Initial, base_url, now)
}

/// Passing over events never moves the cursor back, nor past the last event
/// from before it.
pub proof fn lemma_skipped_bounds(log: EventLogView, position: nat, count: nat)
    requires
        position <= log.events.len(),
    ensures
        skipped(log, position, count) matches Ok(p) ==> position <= p <= log.events.len(),
    decreases count,
{
    if count > 0 {
        lemma_skipped_bounds(log, advance(log, position), (count - 1) as nat);
    }
}

/// A step on an event of the log moves the cursor on, and not past the last
/// event.
pub proof fn lemma_step_moves_on(
    log: EventLogView,
    position: nat,
    state: TranscoderState,
    base_url: Seq<char>,
    now: int,
)
    requires
        position < log.events.len(),
    ensures
        step(
            log,
            advance(log, position),
            state,
            log.events[position as int],
            base_url,
            now,
        ) matches Ok(next) ==> position < next.position <= log.events.len(),
{
    let at = advance(log, position);
    lemma_skipped_bounds(log, at, 2);
    match skipped(log, at, 2) {
        Ok(third_at) => {
            lemma_skipped_bounds(log, advance(log, third_at), 3);
        },
        Err(_) => {},
    }
}

/// A step that writes nothing and keeps the state.
fn stay(state: TranscoderState) -> (outcome: Result<Step, TranslationError>)
    ensures
        forall|at: nat| step_view(outcome, at) == silent(state, at),
{
    let emitted: Vec<WriteEvent> = Vec::new();
    assert(write_event_views(emitted@) =~= Seq::empty());
    Ok(Step { state, emitted })
}

/// Whether `name` has the prefix `media`.
fn is_media(name: &QualifiedName) -> (media: bool)
    ensures
        media == (name@.prefix == Some("media"@)),
{
    match &name.prefix {
        Some(prefix) => same_text(prefix.as_str(), "media"),
        None => false,
    }
}

/// Reads the start of the document.
///
/// Fails with `EncodingError` where the document declares an encoding that
/// is not spelled `UTF-8`, and with `UnexpectedEvent` where `event` is not
/// the start of a document.
pub fn on_initial(event: &ParseEvent) -> (outcome: Result<Step, TranslationError>)
    ensures
        forall|at: nat| step_view(outcome, at) == initial_step(event@, at),
{
    match event {
        ParseEvent::StartDocument { encoding, .. } => {
            if same_text(encoding.as_str(), "UTF-8") {
                stay(TranscoderState::Header)
            } else {
                Err(TranslationError::EncodingError(encoding.clone()))
            }
        },
        _ => Err(TranslationError::StructuralError(Fault::UnexpectedEvent)),
    }
}

/// Reads the root element, which has to be `feed`, and opens the RSS
/// document.
pub fn on_header(name: &QualifiedName) -> (outcome: Result<Step, TranslationError>)
    ensures
        forall|at: nat| step_view(outcome, at) == header_step(name@, at),
{
    if same_text(name.local_name.as_str(), "feed") {
        Ok(Step { state: TranscoderState::ChannelInfo, emitted: write_document_head() })
    } else {
        Err(TranslationError::StructuralError(Fault::UnexpectedRoot))
    }
}

/// What a `link` of the feed writes, by its `rel`.
pub fn on_channel_link(rel: &str, href: &str, base_url: &str) -> (emitted: Vec<WriteEvent>)
    ensures
        write_event_views(emitted@) == channel_link(rel@, href@, base_url@),
{
    if same_text(rel, "self") {
        write_channel_head(base_url, href)
    } else if same_text(rel, "alternate") {
        write_text_element("link", href)
    } else {
        let emitted: Vec<WriteEvent> = Vec::new();
        assert(write_event_views(emitted@) =~= Seq::empty());
        emitted
    }
}

/// Reads an element of the feed itself; the cursor stands behind its
/// opening tag.
pub fn on_channel_element(
    cursor: &mut EventCursor,
    name: &QualifiedName,
    attributes: &Vec<Attribute>,
    base_url: &str,
    now: i64,
) -> (outcome: Result<Step, TranslationError>)
    ensures
        final(cursor).log() == old(cursor).log(),
        step_view(outcome, final(cursor).position()) == channel_step(
            old(cursor).log(),
            old(cursor).position(),
            name@,
            attribute_views(attributes@),
            base_url@,
            now as int,
        ),
{
    let local = name.local_name.as_str();
    if same_text(local, "link") {
        let rel = find_attribute(attributes, "rel");
        let href = find_attribute(attributes, "href");
        match (rel, href) {
            (Some(rel), Some(href)) => Ok(
                Step {
                    state: TranscoderState::ChannelInfo,
                    emitted: on_channel_link(rel, href, base_url),
                },
            ),
            _ => Err(TranslationError::StructuralError(Fault::MissingAttribute)),
        }
    } else if same_text(local, "title") {
        match cursor.next_text() {
            Ok(title) => Ok(
                Step { state: TranscoderState::ChannelInfo, emitted: write_channel_title(title) },
            ),
            Err(error) => Err(error),
        }
    } else if same_text(local, "published") {
        match cursor.next_text() {
            Ok(_) => match rfc822_from_unix(now) {
                Ok(date) => Ok(
                    Step {
                        state: TranscoderState::VideoEntries,
                        emitted: write_text_element("lastBuildDate", date.as_str()),
                    },
                ),
                Err(error) => Err(error),
            },
            Err(error) => Err(error),
        }
    } else {
        stay(TranscoderState::ChannelInfo)
    }
}

/// Reads an element between entries: `entry` opens an item.
pub fn on_entries_element(name: &QualifiedName) -> (outcome: Result<Step, TranslationError>)
    ensures
        forall|at: nat| step_view(outcome, at) == entries_step(name@, at),
{
    if same_text(name.local_name.as_str(), "entry") {
        Ok(Step { state: TranscoderState::VideoEntry, emitted: write_item_head() })
    } else {
        stay(TranscoderState::VideoEntries)
    }
}

/// The thumbnail that `event` gives, if it gives one.
fn thumbnail_in<'a>(event: Option<&'a ParseEvent>) -> (thumbnail: Result<
    ThumbnailInfo<'a>,
    TranslationError,
>)
    ensures
        thumbnail_view(thumbnail) == thumbnail_of(
            match event {
                Some(e) => e@,
                None => ParseEventView::EndDocument,
            },
        ),
        thumbnail matches Err(e) ==> e@ == TranslationErrorView::StructuralError(
            Fault::InvalidDimension,
        ),
{
    let none = ThumbnailInfo { url: "", width: 0, height: 0 };
    proof {
        reveal_strlit("");
        assert(none@.url =~= Seq::<char>::empty());
    }
    match event {
        Some(ParseEvent::StartElement { name, attributes }) => {
            if same_text(name.local_name.as_str(), "content") {
                read_thumbnail(attributes)
            } else {
                Ok(none)
            }
        },
        _ => Ok(none),
    }
}

/// The text of `event`, or the empty text where it is no text.
fn description_in<'a>(event: Option<&'a ParseEvent>) -> (text: &'a str)
    ensures
        text@ == text_or_empty(
            match event {
                Some(e) => e@,
                None => ParseEventView::EndDocument,
            },
        ),
{
    proof {
        reveal_strlit("");
    }
    match event {
        Some(ParseEvent::Text(text)) => text.as_str(),
        _ => {
            assert(""@ =~= Seq::<char>::empty());
            ""
        },
    }
}

/// Reads a `content` element of an entry and closes the item; the cursor
/// stands behind the opening tag.
///
/// The events that follow are taken by their place: the third as the
/// thumbnail, the seventh as the description.
pub fn on_content(cursor: &mut EventCursor, attributes: &Vec<Attribute>) -> (outcome: Result<
    Step,
    TranslationError,
>)
    ensures
        final(cursor).log() == old(cursor).log(),
        step_view(outcome, final(cursor).position()) == content_step(
            old(cursor).log(),
            old(cursor).position(),
            attribute_views(attributes@),
        ),
{
    match cursor.skip(2) {
        Ok(_) => {},
        Err(error) => {
            return Err(error);
        },
    }
    let third = match cursor.next() {
        Ok(event) => event,
        Err(error) => {
            return Err(error);
        },
    };
    let thumbnail = match thumbnail_in(third) {
        Ok(thumbnail) => thumbnail,
        Err(error) => {
            return Err(error);
        },
    };
    match cursor.skip(3) {
        Ok(_) => {},
        Err(error) => {
            return Err(error);
        },
    }
    let seventh = match cursor.next() {
        Ok(event) => event,
        Err(error) => {
            return Err(error);
        },
    };
    let description = description_in(seventh);
    match find_attribute(attributes, "url") {
        Some(url) => Ok(
            Step {
                state: TranscoderState::VideoEntries,
                emitted: write_item_tail(url, &thumbnail, description),
            },
        ),
        None => Err(TranslationError::StructuralError(Fault::MissingAttribute)),
    }
}

/// Reads an element of an entry; the cursor stands behind its opening tag.
pub fn on_entry_element(
    cursor: &mut EventCursor,
    name: &QualifiedName,
    attributes: &Vec<Attribute>,
) -> (outcome: Result<Step, TranslationError>)
    ensures
        final(cursor).log() == old(cursor).log(),
        step_view(outcome, final(cursor).position()) == entry_step(
            old(cursor).log(),
            old(cursor).position(),
            name@,
            attribute_views(attributes@),
        ),
{
    let local = name.local_name.as_str();
    if same_text(local, "title") {
        if is_media(name) {
            stay(TranscoderState::VideoEntry)
        } else {
            match cursor.next_text() {
                Ok(title) => Ok(
                    Step {
                        state: TranscoderState::VideoEntry,
                        emitted: write_text_element("title", title),
                    },
                ),
                Err(error) => Err(error),
            }
        }
    } else if same_text(local, "link") {
        match find_attribute(attributes, "href") {
            Some(href) => Ok(
                Step {
                    state: TranscoderState::VideoEntry,
                    emitted: write_text_element("link", href),
                },
            ),
            None => Err(TranslationError::StructuralError(Fault::MissingAttribute)),
        }
    } else if same_text(local, "published") {
        match cursor.next_text() {
            Ok(text) => match rfc822_from_rfc3339(text) {
                Ok(date) => Ok(
                    Step {
                        state: TranscoderState::VideoEntry,
                        emitted: write_text_element("pubDate", date.as_str()),
                    },
                ),
                Err(error) => Err(error),
            },
            Err(error) => Err(error),
        }
    } else if same_text(local, "content") {
        on_content(cursor, attributes)
    } else {
        stay(TranscoderState::VideoEntry)
    }
}

/// Takes one step: reads `event`, which the cursor has just handed out in
/// `state`, and what else of the log the event calls for.
///
/// The outcome is that of [`step`]: the next state, the events to write,
/// and the cursor behind all that was read; or the error that ends the
/// translation.
pub fn take_step(
    state: TranscoderState,
    event: &ParseEvent,
    cursor: &mut EventCursor,
    base_url: &str,
    now: i64,
) -> (outcome: Result<Step, TranslationError>)
    ensures
        final(cursor).log() == old(cursor).log(),
        step_view(outcome, final(cursor).position()) == step(
            old(cursor).log(),
            old(cursor).position(),
            state,
            event@,
            base_url@,
            now as int,
        ),
{
    match state {
        TranscoderState::Initial => on_initial(event),
        _ => match event {
            ParseEvent::StartDocument { .. } => Err(
                TranslationError::StructuralError(Fault::UnexpectedEvent),
            ),
            ParseEvent::StartElement { name, attributes } => match state {
                TranscoderState::Header => on_header(name),
                TranscoderState::ChannelInfo => on_channel_element(
                    cursor,
                    name,
                    attributes,
                    base_url,
                    now,
                ),
                TranscoderState::VideoEntries => on_entries_element(name),
                _ => on_entry_element(cursor, name, attributes),
            },
            _ => stay(state),
        },
    }
}

/// Translates the events of an Atom feed into the events of the RSS feed.
///
/// `base_url` is the address under which translated feeds are served; `now`
/// is the build time of the feed, in seconds since the Unix epoch.
pub fn transcode(log: &EventLog, base_url: &str, now: i64) -> (outcome: Result<
    Vec<WriteEvent>,
    TranslationError,
>)
    ensures
        transcript_view(outcome) == transcript(log@, base_url@, now as int),
{
    let mut cursor = EventCursor::new(log);
    let mut state = TranscoderState::Initial;
    let mut written: Vec<WriteEvent> = Vec::new();
    let ghost whole = transcript(log@, base_url@, now as int);
    proof {
        assert(write_event_views(written@) =~= Seq::empty());
        assert(prepend(Seq::empty(), run(log@, 0, state, base_url@, now as int)) == whole) by {
            match whole {
                Ok(events) => {
                    assert(Seq::<WriteEventView>::empty() + events =~= events);
                },
                Err(_) => {},
            }
        }
    }
    loop
        invariant
            cursor.log() == log@,
            cursor.position() <= log@.events.len(),
            whole == transcript(log@, base_url@, now as int),
            whole == prepend(
                write_event_views(written@),
                run(log@, cursor.position(), state, base_url@, now as int),
            ),
        decreases log@.events.len() - cursor.position(),
    {
        let ghost position = cursor.position();
        let ghost before = write_event_views(written@);
        let pulled = match cursor.next() {
            Ok(pulled) => pulled,
            Err(error) => {
                return Err(error);
            },
        };
        let event = match pulled {
            None | Some(ParseEvent::EndDocument) => {
                if state == TranscoderState::Initial || state == TranscoderState::VideoEntry {
                    return Err(TranslationError::StructuralError(Fault::UnexpectedEvent));
                }
                let mut tail = write_document_tail();
                proof {
                    lemma_views_concat(written@, tail@);
                }
                written.append(&mut tail);
                return Ok(written);
            },
            Some(event) => event,
        };
        proof {
            lemma_step_moves_on(log@, position, state, base_url@, now as int);
        }
        let step = match take_step(state, event, &mut cursor, base_url, now) {
            Ok(step) => step,
            Err(error) => {
                return Err(error);
            },
        };
        let mut emitted = step.emitted;
        proof {
            lemma_views_concat(written@, emitted@);
            let rest = run(log@, cursor.position(), step.state, base_url@, now as int);
            match rest {
                Ok(more) => {
                    assert(before + (write_event_views(emitted@) + more) =~= (before
                        + write_event_views(emitted@)) + more);
                },
                Err(_) => {},
            }
        }
        written.append(&mut emitted);
        state = step.state;
    }
}

} // verus!
