//! The pieces of an RSS 2.0 document, as write events.

use vstd::prelude::*;
use vstd::string::StringExecFns;
use crate::event::{
    output_attribute_views, write_event_views, OutputAttribute, OutputAttributeView, WriteEvent,
    WriteEventView, XmlVersion,
};
use crate::html::{
    canonical_url, description_html, extract_video_id, render_description, strip_query,
    video_id, ThumbnailInfo, ThumbnailInfoView,
};
use crate::text::{after_last, suffix_after_last};

verus! {

/// The line break that follows most elements.
pub open spec fn line_break() -> WriteEventView {
    WriteEventView::RawText("\n"@)
}

/// The opening tag of an element without attributes.
pub open spec fn bare_start(name: Seq<char>) -> WriteEventView {
    WriteEventView::StartElement { name, attributes: Seq::empty() }
}

/// An element that holds text and nothing else, with the line break behind
/// it.
pub open spec fn text_element(name: Seq<char>, text: Seq<char>) -> Seq<WriteEventView> {
    seq![bare_start(name), WriteEventView::Text(text), WriteEventView::EndElement, line_break()]
}

/// The declaration and the opening tag of the `rss` element.
pub open spec fn document_head() -> Seq<WriteEventView> {
    seq![
        WriteEventView::StartDocument {
            version: XmlVersion::Version10,
            encoding: "UTF-8"@,
            standalone: true,
        },
        line_break(),
        WriteEventView::StartElement {
            name: "rss"@,
            attributes: seq![
                OutputAttributeView { name: "version"@, value: "2.0"@ },
                OutputAttributeView { name: "xmlns:atom"@, value: "http://www.w3.org/2005/Atom"@ },
            ],
        },
        line_break(),
    ]
}

/// The address under which the translated feed of a channel is served:
/// `base_url`, then `/channel/`, then what follows the last `=` of `href`,
/// the address of the channel's own Atom feed.
pub open spec fn self_link(base_url: Seq<char>, href: Seq<char>) -> Seq<char> {
    base_url + "/channel/"@ + suffix_after_last(href, '=')
}

/// The opening tag of the channel and the link of the feed to itself.
pub open spec fn channel_head(base_url: Seq<char>, href: Seq<char>) -> Seq<WriteEventView> {
    seq![
        bare_start("channel"@),
        line_break(),
        WriteEventView::StartElement {
            name: "atom:link"@,
            attributes: seq![
                OutputAttributeView { name: "href"@, value: self_link(base_url, href) },
                OutputAttributeView { name: "rel"@, value: "self"@ },
                OutputAttributeView { name: "type"@, value: "application/rss+xml"@ },
            ],
        },
        WriteEventView::EndElement,
        line_break(),
    ]
}

/// The title of the channel, which is its description too.
pub open spec fn channel_title(title: Seq<char>) -> Seq<WriteEventView> {
    text_element("title"@, title) + text_element("description"@, title)
}

/// The opening tag of an item.
pub open spec fn item_head() -> Seq<WriteEventView> {
    seq![bare_start("item"@), line_break()]
}

/// What closes an item: its identifier, which is the address of the video
/// without a query, its description in HTML, and its closing tag.
pub open spec fn item_tail(url: Seq<char>, thumbnail: ThumbnailInfoView, description: Seq<char>)
    -> Seq<WriteEventView> {
    text_element("guid"@, canonical_url(url)) + text_element(
        "description"@,
        description_html(thumbnail, description, video_id(url)),
    ) + seq![WriteEventView::EndElement]
}

/// The closing tags of the channel and of the `rss` element.
pub open spec fn document_tail() -> Seq<WriteEventView> {
    seq![WriteEventView::EndElement, WriteEventView::EndElement]
}

/// Adding one event adds its view.
pub proof fn lemma_views_push(events: Seq<WriteEvent>, event: WriteEvent)
    ensures
        write_event_views(events.push(event)) == write_event_views(events).push(event@),
{
    assert(write_event_views(events.push(event)) =~= write_event_views(events).push(event@));
}

/// Joining two runs of events joins their views.
pub proof fn lemma_views_concat(left: Seq<WriteEvent>, right: Seq<WriteEvent>)
    ensures
        write_event_views(left + right) == write_event_views(left) + write_event_views(right),
{
    assert(write_event_views(left + right) =~= write_event_views(left) + write_event_views(
        right,
    ));
}

/// An attribute to write.
pub fn attribute(name: &str, value: &str) -> (attribute: OutputAttribute)
    ensures
        attribute@ == (OutputAttributeView { name: name@, value: value@ }),
{
    OutputAttribute { name: name.to_owned(), value: value.to_owned() }
}

/// The line break that follows most elements.
fn new_line() -> (event: WriteEvent)
    ensures
        event@ == line_break(),
{
    WriteEvent::RawText("\n".to_owned())
}

/// The opening tag of an element without attributes.
fn start_tag(name: &str) -> (event: WriteEvent)
    ensures
        event@ == bare_start(name@),
{
    let attributes: Vec<OutputAttribute> = Vec::new();
    assert(output_attribute_views(attributes@) =~= Seq::empty());
    WriteEvent::StartElement { name: name.to_owned(), attributes }
}

/// Adds `event` to `events`.
fn push_event(events: &mut Vec<WriteEvent>, event: WriteEvent)
    ensures
        write_event_views(final(events)@) == write_event_views(old(events)@).push(event@),
{
    proof {
        lemma_views_push(events@, event);
    }
    events.push(event);
}

/// Adds an element that holds `text` and nothing else to `events`.
fn push_text_element(events: &mut Vec<WriteEvent>, name: &str, text: &str)
    ensures
        write_event_views(final(events)@) == write_event_views(old(events)@) + text_element(
            name@,
            text@,
        ),
{
    push_event(events, start_tag(name));
    push_event(events, WriteEvent::Text(text.to_owned()));
    push_event(events, WriteEvent::EndElement);
    push_event(events, new_line());
    assert(write_event_views(events@) =~= write_event_views(old(events)@) + text_element(
        name@,
        text@,
    ));
}

/// An element that holds `text` and nothing else, such as
/// `<link>https://example.org</link>`, with the line break behind it.
pub fn write_text_element(name: &str, text: &str) -> (events: Vec<WriteEvent>)
    ensures
        write_event_views(events@) == text_element(name@, text@),
{
    let mut events: Vec<WriteEvent> = Vec::new();
    assert(write_event_views(events@) =~= Seq::empty());
    push_text_element(&mut events, name, text);
    assert(Seq::<WriteEventView>::empty() + text_element(name@, text@) =~= text_element(
        name@,
        text@,
    ));
    events
}

/// The declaration of the document and the opening tag of its `rss`
/// element: XML 1.0, UTF-8, standalone; RSS 2.0 with the Atom namespace.
pub fn write_document_head() -> (events: Vec<WriteEvent>)
    ensures
        write_event_views(events@) == document_head(),
{
    let mut events: Vec<WriteEvent> = Vec::new();
    assert(write_event_views(events@) =~= Seq::empty());
    push_event(
        &mut events,
        WriteEvent::StartDocument {
            version: XmlVersion::Version10,
            encoding: "UTF-8".to_owned(),
            standalone: true,
        },
    );
    push_event(&mut events, new_line());
    let mut attributes: Vec<OutputAttribute> = Vec::new();
    attributes.push(attribute("version", "2.0"));
    attributes.push(attribute("xmlns:atom", "http://www.w3.org/2005/Atom"));
    assert(output_attribute_views(attributes@) =~= seq![
        OutputAttributeView { name: "version"@, value: "2.0"@ },
        OutputAttributeView { name: "xmlns:atom"@, value: "http://www.w3.org/2005/Atom"@ },
    ]);
    push_event(&mut events, WriteEvent::StartElement { name: "rss".to_owned(), attributes });
    push_event(&mut events, new_line());
    assert(write_event_views(events@) =~= document_head());
    events
}

/// The address under which the translated feed of a channel is served.
pub fn build_self_link(base_url: &str, href: &str) -> (link: String)
    ensures
        link@ == self_link(base_url@, href@),
{
    let mut link = base_url.to_owned();
    link.append("/channel/");
    link.append(after_last(href, '='));
    link
}

/// The opening tag of the channel and the link of the feed to itself, for
/// the channel whose own Atom feed is at `href`.
pub fn write_channel_head(base_url: &str, href: &str) -> (events: Vec<WriteEvent>)
    ensures
        write_event_views(events@) == channel_head(base_url@, href@),
{
    let mut events: Vec<WriteEvent> = Vec::new();
    assert(write_event_views(events@) =~= Seq::empty());
    push_event(&mut events, start_tag("channel"));
    push_event(&mut events, new_line());
    let link = build_self_link(base_url, href);
    let mut attributes: Vec<OutputAttribute> = Vec::new();
    attributes.push(attribute("href", link.as_str()));
    attributes.push(attribute("rel", "self"));
    attributes.push(attribute("type", "application/rss+xml"));
    assert(output_attribute_views(attributes@) =~= seq![
        OutputAttributeView { name: "href"@, value: self_link(base_url@, href@) },
        OutputAttributeView { name: "rel"@, value: "self"@ },
        OutputAttributeView { name: "type"@, value: "application/rss+xml"@ },
    ]);
    push_event(
        &mut events,
        WriteEvent::StartElement { name: "atom:link".to_owned(), attributes },
    );
    push_event(&mut events, WriteEvent::EndElement);
    push_event(&mut events, new_line());
    assert(write_event_views(events@) =~= channel_head(base_url@, href@));
    events
}

/// The title of the channel, once as `title` and once as `description`.
pub fn write_channel_title(title: &str) -> (events: Vec<WriteEvent>)
    ensures
        write_event_views(events@) == channel_title(title@),
{
    let mut events: Vec<WriteEvent> = Vec::new();
    assert(write_event_views(events@) =~= Seq::empty());
    push_text_element(&mut events, "title", title);
    push_text_element(&mut events, "description", title);
    assert(write_event_views(events@) =~= channel_title(title@));
    events
}

/// The opening tag of an item.
pub fn write_item_head() -> (events: Vec<WriteEvent>)
    ensures
        write_event_views(events@) == item_head(),
{
    let mut events: Vec<WriteEvent> = Vec::new();
    assert(write_event_views(events@) =~= Seq::empty());
    push_event(&mut events, start_tag("item"));
    push_event(&mut events, new_line());
    assert(write_event_views(events@) =~= item_head());
    events
}

/// What closes the item of the video at `url`: its identifier, its
/// description in HTML, and the closing tag of the item.
pub fn write_item_tail(url: &str, thumbnail: &ThumbnailInfo, description: &str) -> (events: Vec<
    WriteEvent,
>)
    ensures
        write_event_views(events@) == item_tail(url@, thumbnail@, description@),
{
    let mut events: Vec<WriteEvent> = Vec::new();
    assert(write_event_views(events@) =~= Seq::empty());
    push_text_element(&mut events, "guid", strip_query(url));
    let html = render_description(thumbnail, description, extract_video_id(url));
    push_text_element(&mut events, "description", html.as_str());
    push_event(&mut events, WriteEvent::EndElement);
    assert(write_event_views(events@) =~= item_tail(url@, thumbnail@, description@));
    events
}

/// The closing tags of the channel and of the `rss` element.
pub fn write_document_tail() -> (events: Vec<WriteEvent>)
    ensures
        write_event_views(events@) == document_tail(),
{
    let mut events: Vec<WriteEvent> = Vec::new();
    assert(write_event_views(events@) =~= Seq::empty());
    push_event(&mut events, WriteEvent::EndElement);
    push_event(&mut events, WriteEvent::EndElement);
    assert(write_event_views(events@) =~= document_tail());
    events
}

} // verus!
