//! The shape of the feeds that the transcoder is made for.
//!
//! A feed, as its events: the start of the document in UTF-8; the root
//! element `feed`; the part of the channel, with one link to the feed
//! itself, closed by `published`; then the entries, each closed by its
//! `content` element with the seven events behind it. Blank text, closing
//! tags and elements that the transcoder takes no notice of may stand
//! anywhere between those.

use vstd::prelude::*;
use crate::date::entry_date;
use crate::event::{first_value, EventLogView, ParseEventView, WriteEventView};
use crate::sink::balanced;
use crate::transcoder::thumbnail_of;

verus! {

/// Whether `event` opens an entry.
pub open spec fn is_entry_start(event: ParseEventView) -> bool {
    match event {
        ParseEventView::StartElement { name, .. } => name.local_name == "entry"@,
        _ => false,
    }
}

/// How many of the events from `position` on open an entry.
pub open spec fn entries_from(events: Seq<ParseEventView>, position: nat) -> nat
    decreases events.len() - position,
{
    if position >= events.len() {
        0
    } else {
        entries_from(events, position + 1) + if is_entry_start(events[position as int]) {
            1nat
        } else {
            0nat
        }
    }
}

/// How many entries a log holds.
pub open spec fn entries_in(log: EventLogView) -> nat {
    entries_from(log.events, 0)
}

/// Whether `event` is the opening tag of an element called `name`.
pub open spec fn is_start_of(event: WriteEventView, name: Seq<char>) -> bool {
    match event {
        WriteEventView::StartElement { name: n, .. } => n == name,
        _ => false,
    }
}

/// How many elements called `name` the events open.
pub open spec fn starts_named(events: Seq<WriteEventView>, name: Seq<char>) -> nat
    decreases events.len(),
{
    if events.len() == 0 {
        0
    } else {
        starts_named(events.drop_first(), name) + if is_start_of(events[0], name) {
            1nat
        } else {
            0nat
        }
    }
}

/// Whether the events are a whole document: a declaration first, then
/// elements that are all closed, each closing tag behind its opening one.
pub open spec fn is_whole_document(events: Seq<WriteEventView>) -> bool {
    &&& events.len() > 0
    &&& events[0] is StartDocument
    &&& balanced(events)
}

/// Whether the entries of a feed follow from `position` on, to the end of
/// the document.
pub open spec fn entries_part(log: EventLogView, position: nat) -> bool
    decreases log.events.len() - position, 1nat,
{
    if position >= log.events.len() {
        log.failure is None
    } else {
        match log.events[position as int] {
            ParseEventView::StartDocument { .. } => false,
            ParseEventView::EndDocument => position + 1 == log.events.len(),
            ParseEventView::StartElement { name, .. } => if name.local_name == "entry"@ {
                entry_part(log, position + 1)
            } else {
                entries_part(log, position + 1)
            },
            _ => entries_part(log, position + 1),
        }
    }
}

/// Whether the rest of an entry, and the entries behind it, follow from
/// `position` on.
pub open spec fn entry_part(log: EventLogView, position: nat) -> bool
    decreases log.events.len() - position, 0nat,
{
    if position >= log.events.len() {
        false
    } else {
        match log.events[position as int] {
            ParseEventView::StartDocument { .. } => false,
            ParseEventView::EndDocument => false,
            ParseEventView::StartElement { name, attributes } => if name.local_name == "title"@ {
                if name.prefix == Some("media"@) {
                    entry_part(log, position + 1)
                } else {
                    &&& position + 1 < log.events.len()
                    &&& log.events[position as int + 1] is Text
                    &&& entry_part(log, position + 2)
                }
            } else if name.local_name == "link"@ {
                &&& first_value(attributes, "href"@) is Some
                &&& entry_part(log, position + 1)
            } else if name.local_name == "published"@ {
                &&& position + 1 < log.events.len()
                &&& log.events[position as int + 1] matches ParseEventView::Text(text)
                &&& entry_date(text) is Ok
                &&& entry_part(log, position + 2)
            } else if name.local_name == "content"@ {
                &&& first_value(attributes, "url"@) is Some
                &&& position + 8 <= log.events.len()
                &&& thumbnail_of(log.events[position as int + 3]) is Some
                &&& forall|k: int|
                    position < k < position + 8 ==> !is_entry_start(#[trigger] log.events[k])
                &&& entries_part(log, position + 8)
            } else {
                &&& name.local_name != "entry"@
                &&& entry_part(log, position + 1)
            },
            _ => entry_part(log, position + 1),
        }
    }
}

/// Whether the part of the channel follows from `position` on, with `links`
/// links to the feed itself before it, and the entries behind it.
pub open spec fn channel_part(log: EventLogView, position: nat, links: nat) -> bool
    decreases log.events.len() - position,
{
    if position >= log.events.len() {
        false
    } else {
        match log.events[position as int] {
            ParseEventView::StartDocument { .. } => false,
            ParseEventView::EndDocument => false,
            ParseEventView::StartElement { name, attributes } => if name.local_name == "link"@ {
                match (first_value(attributes, "rel"@), first_value(attributes, "href"@)) {
                    (Some(rel), Some(_)) => if rel == "self"@ {
                        links == 0 && channel_part(log, position + 1, 1)
                    } else {
                        channel_part(log, position + 1, links)
                    },
                    _ => false,
                }
            } else if name.local_name == "title"@ {
                &&& position + 1 < log.events.len()
                &&& log.events[position as int + 1] is Text
                &&& channel_part(log, position + 2, links)
            } else if name.local_name == "published"@ {
                &&& position + 1 < log.events.len()
                &&& log.events[position as int + 1] is Text
                &&& links == 1
                &&& entries_part(log, position + 2)
            } else {
                &&& name.local_name != "entry"@
                &&& channel_part(log, position + 1, links)
            },
            _ => channel_part(log, position + 1, links),
        }
    }
}

/// Whether the root element `feed` follows from `position` on, with
/// nothing but blank text and the like before it, and the feed behind it.
pub open spec fn header_part(log: EventLogView, position: nat) -> bool
    decreases log.events.len() - position,
{
    if position >= log.events.len() {
        false
    } else {
        match log.events[position as int] {
            ParseEventView::StartDocument { .. } => false,
            ParseEventView::EndDocument => false,
            ParseEventView::StartElement { name, .. } => {
                &&& name.local_name == "feed"@
                &&& channel_part(log, position + 1, 0)
            },
            _ => header_part(log, position + 1),
        }
    }
}

/// Whether `event` opens a link of a feed to itself.
pub open spec fn is_self_link(event: ParseEventView) -> bool {
    match event {
        ParseEventView::StartElement { name, attributes } => name.local_name == "link"@
            && first_value(attributes, "rel"@) == Some("self"@),
        _ => false,
    }
}

/// The address that `event` links to, where it is an opening tag with an
/// `href`.
pub open spec fn linked_address(event: ParseEventView) -> Option<Seq<char>> {
    match event {
        ParseEventView::StartElement { attributes, .. } => first_value(attributes, "href"@),
        _ => None,
    }
}

/// The address of the first link of a feed to itself from `position` on.
pub open spec fn self_address_from(events: Seq<ParseEventView>, position: nat) -> Option<
    Seq<char>,
>
    decreases events.len() - position,
{
    if position >= events.len() {
        None
    } else if is_self_link(events[position as int]) {
        linked_address(events[position as int])
    } else {
        self_address_from(events, position + 1)
    }
}

/// The address of the Atom feed that `log` holds, as the feed gives it in
/// its first link to itself.
pub open spec fn self_address(log: EventLogView) -> Option<Seq<char>> {
    self_address_from(log.events, 0)
}

/// The text of the first `title` from `position` on, where it stands before
/// the `published` that closes the part of the channel.
pub open spec fn title_from(events: Seq<ParseEventView>, position: nat) -> Option<Seq<char>>
    decreases events.len() - position,
{
    if position >= events.len() {
        None
    } else {
        match events[position as int] {
            ParseEventView::StartElement { name, .. } => if name.local_name == "title"@ {
                if position + 1 < events.len() {
                    match events[position as int + 1] {
                        ParseEventView::Text(text) => Some(text),
                        _ => None,
                    }
                } else {
                    None
                }
            } else if name.local_name == "published"@ {
                None
            } else {
                title_from(events, position + 1)
            },
            _ => title_from(events, position + 1),
        }
    }
}

/// The title of the channel whose feed `log` holds, if the feed gives one.
pub open spec fn feed_title(log: EventLogView) -> Option<Seq<char>> {
    title_from(log.events, 0)
}

/// The date that the `published` at `position` gives: what is made of the
/// text behind it, where a text stands there and is a timestamp.
pub open spec fn published_date(events: Seq<ParseEventView>, position: nat) -> Seq<Seq<char>> {
    if position + 1 < events.len() {
        match events[position as int + 1] {
            ParseEventView::Text(text) => match entry_date(text) {
                Ok(date) => seq![date],
                Err(_) => Seq::empty(),
            },
            _ => Seq::empty(),
        }
    } else {
        Seq::empty()
    }
}

/// The dates of the entries from `position` on, in the order of the
/// document: one for each `published` that stands in an entry before its
/// `content`. `inside` says whether `position` stands in an entry; an
/// `entry` leads into one, and a `content`, with the seven events behind
/// it, out of it.
pub open spec fn entry_dates_from(events: Seq<ParseEventView>, position: nat, inside: bool) -> Seq<
    Seq<char>,
>
    decreases events.len() - position,
{
    if position >= events.len() {
        Seq::empty()
    } else {
        match events[position as int] {
            ParseEventView::StartElement { name, .. } => if !inside {
                entry_dates_from(events, position + 1, name.local_name == "entry"@)
            } else if name.local_name == "published"@ {
                published_date(events, position) + entry_dates_from(events, position + 1, true)
            } else if name.local_name == "content"@ {
                if position + 8 <= events.len() {
                    entry_dates_from(events, position + 8, false)
                } else {
                    Seq::empty()
                }
            } else {
                entry_dates_from(events, position + 1, true)
            },
            ParseEventView::EndDocument => Seq::empty(),
            _ => entry_dates_from(events, position + 1, inside),
        }
    }
}

/// The dates of the entries of a feed, in the order of the feed: what is
/// made of the text of each `published` of an entry.
pub open spec fn entry_dates(log: EventLogView) -> Seq<Seq<char>> {
    entry_dates_from(log.events, 0, false)
}

/// The texts that stand directly behind the opening tags called `name`, in
/// order.
pub open spec fn texts_behind(events: Seq<WriteEventView>, name: Seq<char>) -> Seq<Seq<char>>
    decreases events.len(),
{
    if events.len() < 2 {
        Seq::empty()
    } else {
        (if is_start_of(events[0], name) {
            match events[1] {
                WriteEventView::Text(text) => seq![text],
                _ => Seq::empty(),
            }
        } else {
            Seq::empty()
        }) + texts_behind(events.drop_first(), name)
    }
}

/// Whether `log` holds a feed of the shape that the transcoder is made for.
pub open spec fn is_feed(log: EventLogView) -> bool {
    &&& log.events.len() > 0
    &&& log.events[0] matches ParseEventView::StartDocument { encoding, .. }
    &&& encoding == "UTF-8"@
    &&& header_part(log, 1)
}

} // verus!
