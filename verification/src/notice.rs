//! What the transcoder remarks on without giving up: a version of XML that
//! it was not made for, and elements that it does not know.

use vstd::prelude::*;
use vstd::string::StringExecFns;
use crate::cursor::{advance, pull, EventCursor};
use crate::event::{EventLog, EventLogView, ParseEvent, ParseEventView};
use crate::text::same_text;
use crate::transcoder::{lemma_step_moves_on, step, take_step, TranscoderState};

verus! {

/// A remark on a feed. None of them ends a translation.
#[derive(Clone, Debug, PartialEq, Eq)]
pub enum Notice {
    /// The document declares a version of XML other than 1.0; the version
    /// is kept.
    UntestedVersion(String),
    /// An element of the feed itself that the transcoder does not know, by
    /// its local name.
    UnknownChannelElement(String),
    /// An element of an entry that the transcoder does not know, by its
    /// local name.
    UnknownEntryElement(String),
}

/// The view of a [`Notice`].
pub enum NoticeView {
    UntestedVersion(Seq<char>),
    UnknownChannelElement(Seq<char>),
    UnknownEntryElement(Seq<char>),
}

impl View for Notice {
    type V = NoticeView;

    open spec fn view(&self) -> NoticeView {
        match *self {
            Notice::UntestedVersion(version) => NoticeView::UntestedVersion(version@),
            Notice::UnknownChannelElement(name) => NoticeView::UnknownChannelElement(name@),
            Notice::UnknownEntryElement(name) => NoticeView::UnknownEntryElement(name@),
        }
    }
}

/// The views of a sequence of notices, in order.
pub open spec fn notice_views(notices: Seq<Notice>) -> Seq<NoticeView> {
    notices.map_values(|n: Notice| n@)
}

/// The view of a notice that may be missing.
pub open spec fn optional_notice(notice: Option<Notice>) -> Option<NoticeView> {
    match notice {
        Some(n) => Some(n@),
        None => None,
    }
}

/// Whether the transcoder knows an element of the feed itself by the local
/// name `name`: those that it translates, and those that it leaves out on
/// purpose.
pub open spec fn known_in_channel(name: Seq<char>) -> bool {
    ||| name == "link"@
    ||| name == "title"@
    ||| name == "published"@
    ||| name == "channelId"@
    ||| name == "id"@
    ||| name == "author"@
    ||| name == "name"@
    ||| name == "uri"@
}

/// Whether the transcoder knows an element of an entry by the local name
/// `name`.
pub open spec fn known_in_entry(name: Seq<char>) -> bool {
    ||| name == "id"@
    ||| name == "title"@
    ||| name == "link"@
    ||| name == "published"@
    ||| name == "content"@
    ||| name == "updated"@
    ||| name == "videoId"@
    ||| name == "channelId"@
    ||| name == "author"@
    ||| name == "group"@
    ||| name == "name"@
    ||| name == "uri"@
    ||| name == "community"@
    ||| name == "starRating"@
    ||| name == "statistics"@
}

/// What the transcoder remarks on `event` in `state`: a version other than
/// `1.0` at the start of a document, and an opening tag that it does not
/// know inside the feed or inside an entry.
pub open spec fn notice_of(state: TranscoderState, event: ParseEventView) -> Option<NoticeView> {
    match event {
        ParseEventView::StartDocument { version, .. } => if version != "1.0"@ {
            Some(NoticeView::UntestedVersion(version))
        } else {
            None
        },
        ParseEventView::StartElement { name, .. } => if state == TranscoderState::ChannelInfo
            && !known_in_channel(name.local_name) {
            Some(NoticeView::UnknownChannelElement(name.local_name))
        } else if state == TranscoderState::VideoEntry && !known_in_entry(name.local_name) {
            Some(NoticeView::UnknownEntryElement(name.local_name))
        } else {
            None
        },
        _ => None,
    }
}

/// `notice` as a sequence: empty where there is none.
pub open spec fn noted(notice: Option<NoticeView>) -> Seq<NoticeView> {
    match notice {
        Some(n) => seq![n],
        None => Seq::empty(),
    }
}

/// What the transcoder remarks from `position` in `state` on, in the order
/// of the events: on every event that it takes a step on, the one on which
/// it gives up included.
pub open spec fn notices(
    log: EventLogView,
    position: nat,
    state: TranscoderState,
    base_url: Seq<char>,
    now: int,
) -> Seq<NoticeView>
    decreases log.events.len() - position,
{
    match pull(log, position) {
        Ok(event) => if event is EndDocument {
            Seq::empty()
        } else {
            match step(log, advance(log, position), state, event, base_url, now) {
                Ok(next) => if position < next.position <= log.events.len() {
                    noted(notice_of(state, event)) + notices(
                        log,
                        next.position,
                        next.state,
                        base_url,
                        now,
                    )
                } else {
                    noted(notice_of(state, event))
                },
                Err(_) => noted(notice_of(state, event)),
            }
        },
        Err(_) => Seq::empty(),
    }
}

/// What [`Notice::message`] says of a notice.
pub open spec fn notice_text(notice: NoticeView) -> Seq<char> {
    match notice {
        NoticeView::UntestedVersion(version) => "Attempting to parse XML file with untested version: "@
            + version,
        NoticeView::UnknownChannelElement(name) => "Received unknown channelinfo attribute: "@
            + name,
        NoticeView::UnknownEntryElement(name) => "Received unknown video entry attribute: "@
            + name,
    }
}

impl Notice {
    /// The notice in words.
    pub fn message(&self) -> (text: String)
        ensures
            text@ == notice_text(self@),
    {
        match self {
            Notice::UntestedVersion(version) => {
                let mut text = "Attempting to parse XML file with untested version: ".to_owned();
                text.append(version.as_str());
                text
            },
            Notice::UnknownChannelElement(name) => {
                let mut text = "Received unknown channelinfo attribute: ".to_owned();
                text.append(name.as_str());
                text
            },
            Notice::UnknownEntryElement(name) => {
                let mut text = "Received unknown video entry attribute: ".to_owned();
                text.append(name.as_str());
                text
            },
        }
    }
}

/// Whether an element of the feed itself is known by its local name.
pub fn is_known_in_channel(name: &str) -> (known: bool)
    ensures
        known == known_in_channel(name@),
{
    same_text(name, "link") || same_text(name, "title") || same_text(name, "published")
        || same_text(name, "channelId") || same_text(name, "id") || same_text(name, "author")
        || same_text(name, "name") || same_text(name, "uri")
}

/// Whether an element of an entry is known by its local name.
pub fn is_known_in_entry(name: &str) -> (known: bool)
    ensures
        known == known_in_entry(name@),
{
    same_text(name, "id") || same_text(name, "title") || same_text(name, "link") || same_text(
        name,
        "published",
    ) || same_text(name, "content") || same_text(name, "updated") || same_text(name, "videoId")
        || same_text(name, "channelId") || same_text(name, "author") || same_text(name, "group")
        || same_text(name, "name") || same_text(name, "uri") || same_text(name, "community")
        || same_text(name, "starRating") || same_text(name, "statistics")
}

/// What there is to remark on `event`, read in `state`.
pub fn remark(state: TranscoderState, event: &ParseEvent) -> (notice: Option<Notice>)
    ensures
        optional_notice(notice) == notice_of(state, event@),
{
    match event {
        ParseEvent::StartDocument { version, .. } => {
            if same_text(version.as_str(), "1.0") {
                None
            } else {
                Some(Notice::UntestedVersion(version.clone()))
            }
        },
        ParseEvent::StartElement { name, .. } => {
            let local = name.local_name.as_str();
            match state {
                TranscoderState::ChannelInfo => {
                    if is_known_in_channel(local) {
                        None
                    } else {
                        Some(Notice::UnknownChannelElement(name.local_name.clone()))
                    }
                },
                TranscoderState::VideoEntry => {
                    if is_known_in_entry(local) {
                        None
                    } else {
                        Some(Notice::UnknownEntryElement(name.local_name.clone()))
                    }
                },
                _ => None,
            }
        },
        _ => None,
    }
}

/// Collects what the transcoder remarks on the feed that `log` holds, in
/// the order of the events, up to the end of the document or to the event
/// on which the translation is given up.
pub fn review(log: &EventLog, base_url: &str, now: i64) -> (found: Vec<Notice>)
    ensures
        notice_views(found@) == notices(
            log@,
            0,
            TranscoderState::Initial,
            base_url@,
            now as int,
        ),
{
    let mut cursor = EventCursor::new(log);
    let mut state = TranscoderState::Initial;
    let mut found: Vec<Notice> = Vec::new();
    let ghost whole = notices(log@, 0, TranscoderState::Initial, base_url@, now as int);
    assert(notice_views(found@) + whole =~= whole);
    loop
        invariant
            cursor.log() == log@,
            cursor.position() <= log@.events.len(),
            whole == notices(log@, 0, TranscoderState::Initial, base_url@, now as int),
            whole == notice_views(found@) + notices(
                log@,
                cursor.position(),
                state,
                base_url@,
                now as int,
            ),
        decreases log@.events.len() - cursor.position(),
    {
        let ghost position = cursor.position();
        let ghost before = notice_views(found@);
        let event = match cursor.next() {
            Ok(Some(event)) => event,
            _ => {
                assert(before + Seq::<NoticeView>::empty() =~= before);
                return found;
            },
        };
        if matches!(event, ParseEvent::EndDocument) {
            assert(before + Seq::<NoticeView>::empty() =~= before);
            return found;
        }
        match remark(state, event) {
            Some(notice) => {
                found.push(notice);
            },
            None => {},
        }
        let ghost here = noted(notice_of(state, event@));
        assert(notice_views(found@) =~= before + here);
        proof {
            lemma_step_moves_on(log@, position, state, base_url@, now as int);
        }
        match take_step(state, event, &mut cursor, base_url, now) {
            Ok(next) => {
                assert(before + (here + notices(
                    log@,
                    cursor.position(),
                    next.state,
                    base_url@,
                    now as int,
                )) =~= (before + here) + notices(
                    log@,
                    cursor.position(),
                    next.state,
                    base_url@,
                    now as int,
                ));
                state = next.state;
            },
            Err(_) => {
                return found;
            },
        }
    }
}

} // verus!
