use youtube_rss::cursor::EventCursor;
use youtube_rss::error::{Fault, TranslationError};
use youtube_rss::event::{Attribute, EventLog, ParseEvent, QualifiedName, WriteEvent};
use youtube_rss::rss::{
    write_channel_head, write_channel_title, write_document_head, write_document_tail,
    write_item_head, write_text_element,
};
use youtube_rss::transcoder::{
    on_channel_element, on_channel_link, on_content, on_entries_element, on_entry_element,
    on_header, on_initial, take_step, transcode, Step, TranscoderState,
};

fn name(local_name: &str) -> QualifiedName {
    QualifiedName { prefix: None, local_name: local_name.to_string() }
}

fn media(local_name: &str) -> QualifiedName {
    QualifiedName { prefix: Some("media".to_string()), local_name: local_name.to_string() }
}

fn attributes(pairs: &[(&str, &str)]) -> Vec<Attribute> {
    pairs
        .iter()
        .map(|(n, v)| Attribute { name: name(n), value: v.to_string() })
        .collect()
}

fn start(name: QualifiedName, pairs: &[(&str, &str)]) -> ParseEvent {
    ParseEvent::StartElement { name, attributes: attributes(pairs) }
}

fn text(content: &str) -> ParseEvent {
    ParseEvent::Text(content.to_string())
}

fn declaration(encoding: &str) -> ParseEvent {
    ParseEvent::StartDocument { version: "1.0".to_string(), encoding: encoding.to_string() }
}

fn log(events: Vec<ParseEvent>) -> EventLog {
    EventLog { events, failure: None }
}

fn parts(outcome: Result<Step, TranslationError>) -> (TranscoderState, Vec<WriteEvent>) {
    let step = outcome.unwrap();
    (step.state, step.emitted)
}

fn failure(outcome: Result<Step, TranslationError>) -> TranslationError {
    match outcome {
        Ok(step) => panic!("unexpected step: {:?}", step),
        Err(error) => error,
    }
}

#[test]
fn the_document_has_to_start_in_utf8() {
    assert_eq!(parts(on_initial(&declaration("UTF-8"))), (TranscoderState::Header, vec![]));
    assert_eq!(
        failure(on_initial(&declaration("ISO-8859-1"))),
        TranslationError::EncodingError("ISO-8859-1".to_string())
    );
    assert_eq!(
        failure(on_initial(&declaration("utf-8"))),
        TranslationError::EncodingError("utf-8".to_string())
    );
}

#[test]
fn nothing_but_the_start_may_come_first() {
    for event in [start(name("feed"), &[]), text("a"), ParseEvent::EndElement, ParseEvent::Other] {
        assert_eq!(
            failure(on_initial(&event)),
            TranslationError::StructuralError(Fault::UnexpectedEvent)
        );
    }
}

#[test]
fn the_root_has_to_be_a_feed() {
    assert_eq!(
        parts(on_header(&name("feed"))),
        (TranscoderState::ChannelInfo, write_document_head())
    );
    assert_eq!(
        failure(on_header(&name("html"))),
        TranslationError::StructuralError(Fault::UnexpectedRoot)
    );
}

#[test]
fn the_links_of_the_channel_go_by_their_rel() {
    assert_eq!(
        on_channel_link("self", "https://yt.example/feed?channel_id=ABC", "https://rss.example"),
        write_channel_head("https://rss.example", "https://yt.example/feed?channel_id=ABC")
    );
    assert_eq!(
        on_channel_link("alternate", "https://yt.example/channel/ABC", "https://rss.example"),
        write_text_element("link", "https://yt.example/channel/ABC")
    );
    assert_eq!(on_channel_link("hub", "https://hub.example", "https://rss.example"), vec![]);
}

#[test]
fn a_link_of_the_channel_needs_rel_and_href() {
    let empty = log(vec![]);
    for pairs in [&[("rel", "self")][..], &[("href", "x")][..], &[][..]] {
        let mut cursor = EventCursor::new(&empty);
        assert_eq!(
            failure(on_channel_element(&mut cursor, &name("link"), &attributes(pairs), "b", 0)),
            TranslationError::StructuralError(Fault::MissingAttribute)
        );
    }
}

#[test]
fn the_title_of_the_channel_is_the_text_behind_it() {
    let feed = log(vec![text("Test Channel"), ParseEvent::EndElement]);
    let mut cursor = EventCursor::new(&feed);
    assert_eq!(
        parts(on_channel_element(&mut cursor, &name("title"), &vec![], "b", 0)),
        (TranscoderState::ChannelInfo, write_channel_title("Test Channel"))
    );
    assert_eq!(cursor.next(), Ok(Some(&ParseEvent::EndElement)));
}

#[test]
fn a_title_without_text_is_refused() {
    let feed = log(vec![ParseEvent::EndElement]);
    let mut cursor = EventCursor::new(&feed);
    assert_eq!(
        failure(on_channel_element(&mut cursor, &name("title"), &vec![], "b", 0)),
        TranslationError::StructuralError(Fault::MissingText)
    );
    let mut entry_cursor = EventCursor::new(&feed);
    assert_eq!(
        failure(on_entry_element(&mut entry_cursor, &name("title"), &vec![])),
        TranslationError::StructuralError(Fault::MissingText)
    );
}

#[test]
fn published_closes_the_channel_with_the_build_date() {
    let feed = log(vec![text("2015-03-06T21:40:57+00:00"), ParseEvent::EndElement]);
    let mut cursor = EventCursor::new(&feed);
    assert_eq!(
        parts(on_channel_element(&mut cursor, &name("published"), &vec![], "b", 1704067200)),
        (
            TranscoderState::VideoEntries,
            write_text_element("lastBuildDate", "Mon, 01 Jan 2024 00:00:00 +0000")
        )
    );
    assert_eq!(cursor.next(), Ok(Some(&ParseEvent::EndElement)));
}

#[test]
fn published_of_the_channel_needs_text_and_a_build_time_with_a_date() {
    let empty = log(vec![ParseEvent::EndElement]);
    let mut cursor = EventCursor::new(&empty);
    assert_eq!(
        failure(on_channel_element(&mut cursor, &name("published"), &vec![], "b", 0)),
        TranslationError::StructuralError(Fault::MissingText)
    );
    let feed = log(vec![text("whatever")]);
    let mut late = EventCursor::new(&feed);
    assert_eq!(
        failure(on_channel_element(&mut late, &name("published"), &vec![], "b", i64::MAX)),
        TranslationError::DateFormatError("9223372036854775807".to_string())
    );
}

#[test]
fn other_elements_of_the_channel_write_nothing() {
    let feed = log(vec![text("yt:channel:ABC")]);
    for local in ["id", "channelId", "author", "name", "uri", "entry", "subtitle"] {
        let mut cursor = EventCursor::new(&feed);
        assert_eq!(
            parts(on_channel_element(&mut cursor, &name(local), &vec![], "b", 0)),
            (TranscoderState::ChannelInfo, vec![])
        );
        assert_eq!(cursor.next(), Ok(Some(&text("yt:channel:ABC"))));
    }
}

#[test]
fn an_entry_opens_an_item() {
    assert_eq!(
        parts(on_entries_element(&name("entry"))),
        (TranscoderState::VideoEntry, write_item_head())
    );
    assert_eq!(
        parts(on_entries_element(&name("community"))),
        (TranscoderState::VideoEntries, vec![])
    );
}

#[test]
fn the_title_of_an_entry_is_written_once() {
    let feed = log(vec![text("Video 1")]);
    let mut cursor = EventCursor::new(&feed);
    assert_eq!(
        parts(on_entry_element(&mut cursor, &name("title"), &vec![])),
        (TranscoderState::VideoEntry, write_text_element("title", "Video 1"))
    );
    let mut again = EventCursor::new(&feed);
    assert_eq!(
        parts(on_entry_element(&mut again, &media("title"), &vec![])),
        (TranscoderState::VideoEntry, vec![])
    );
    assert_eq!(again.next(), Ok(Some(&text("Video 1"))));
}

#[test]
fn the_link_of_an_entry_is_its_href() {
    let empty = log(vec![]);
    let mut cursor = EventCursor::new(&empty);
    assert_eq!(
        parts(on_entry_element(
            &mut cursor,
            &name("link"),
            &attributes(&[("rel", "alternate"), ("href", "https://www.youtube.com/watch?v=XYZ")])
        )),
        (
            TranscoderState::VideoEntry,
            write_text_element("link", "https://www.youtube.com/watch?v=XYZ")
        )
    );
    assert_eq!(
        failure(on_entry_element(&mut cursor, &name("link"), &attributes(&[("rel", "alternate")]))),
        TranslationError::StructuralError(Fault::MissingAttribute)
    );
}

#[test]
fn published_of_an_entry_becomes_its_pub_date() {
    let feed = log(vec![text("2024-01-01T00:00:00+00:00")]);
    let mut cursor = EventCursor::new(&feed);
    assert_eq!(
        parts(on_entry_element(&mut cursor, &name("published"), &vec![])),
        (
            TranscoderState::VideoEntry,
            write_text_element("pubDate", "Mon, 01 Jan 2024 00:00:00 +0000")
        )
    );
    let broken = log(vec![text("last week")]);
    let mut other = EventCursor::new(&broken);
    assert_eq!(
        failure(on_entry_element(&mut other, &name("published"), &vec![])),
        TranslationError::DateFormatError("last week".to_string())
    );
}

#[test]
fn other_elements_of_an_entry_write_nothing() {
    let empty = log(vec![]);
    for local in [
        "id", "updated", "videoId", "channelId", "author", "group", "name", "uri", "community",
        "starRating", "statistics", "entry", "thumbnail",
    ] {
        let mut cursor = EventCursor::new(&empty);
        assert_eq!(
            parts(on_entry_element(&mut cursor, &name(local), &vec![])),
            (TranscoderState::VideoEntry, vec![])
        );
    }
}

fn behind_content(thumbnail: ParseEvent, description: ParseEvent) -> Vec<ParseEvent> {
    vec![
        ParseEvent::EndElement,
        text("\n   "),
        thumbnail,
        ParseEvent::EndElement,
        text("\n   "),
        start(media("description"), &[]),
        description,
        ParseEvent::EndElement,
    ]
}

fn description_of(emitted: &[WriteEvent]) -> String {
    match &emitted[5] {
        WriteEvent::Text(html) => html.clone(),
        other => panic!("unexpected event: {:?}", other),
    }
}

#[test]
fn content_closes_the_item() {
    let feed = log(behind_content(
        start(media("content"), &[("url", "https://i.example/t.jpg"), ("width", "120"), ("height", "90")]),
        text("desc text"),
    ));
    let mut cursor = EventCursor::new(&feed);
    let (state, emitted) = parts(on_content(
        &mut cursor,
        &attributes(&[("url", "https://r.example/XYZ?x=1"), ("width", "640")]),
    ));
    assert_eq!(state, TranscoderState::VideoEntries);
    assert_eq!(emitted[..4], write_text_element("guid", "https://r.example/XYZ")[..]);
    let html = description_of(&emitted);
    assert!(html.contains("<img src=\"https://i.example/t.jpg\" alt=\"YouTube thumbnail\" class=\"\" loading=\"lazy\" width=\"120\" height=\"90\" />"));
    assert!(html.contains("<p>desc text</p>"));
    assert!(html.contains("src=\"https://www.youtube.com/embed/XYZ?autoplay=0"));
    assert_eq!(emitted.len(), 9);
    assert_eq!(emitted[8], WriteEvent::EndElement);
    assert_eq!(cursor.next(), Ok(Some(&ParseEvent::EndElement)));
    assert_eq!(cursor.next(), Ok(None));
}

#[test]
fn content_without_thumbnail_or_description_has_defaults() {
    let feed = log(behind_content(start(media("thumbnail"), &[("url", "x"), ("width", "1")]), ParseEvent::EndElement));
    let mut cursor = EventCursor::new(&feed);
    let (_, emitted) = parts(on_content(&mut cursor, &attributes(&[("url", "https://r.example/XYZ")])));
    let html = description_of(&emitted);
    assert!(html.contains("<img src=\"\" alt=\"YouTube thumbnail\" class=\"\" loading=\"lazy\" width=\"0\" height=\"0\" />"));
    assert!(html.contains("<p></p>"));
}

#[test]
fn content_at_the_end_of_the_log_reads_the_end_again() {
    let feed = log(vec![ParseEvent::EndElement]);
    let mut cursor = EventCursor::new(&feed);
    let (state, emitted) = parts(on_content(&mut cursor, &attributes(&[("url", "https://r.example/XYZ")])));
    assert_eq!(state, TranscoderState::VideoEntries);
    assert_eq!(emitted.len(), 9);
}

#[test]
fn content_fails_in_the_order_of_reading() {
    let thumb = start(media("content"), &[("width", "wide")]);
    let cut_early = EventLog { events: vec![ParseEvent::EndElement], failure: Some("cut".to_string()) };
    let mut cursor = EventCursor::new(&cut_early);
    assert_eq!(
        failure(on_content(&mut cursor, &vec![])),
        TranslationError::SyntaxError("cut".to_string())
    );
    let cut_late = EventLog {
        events: vec![ParseEvent::EndElement, text(" "), thumb.clone()],
        failure: Some("cut".to_string()),
    };
    let mut second = EventCursor::new(&cut_late);
    assert_eq!(
        failure(on_content(&mut second, &vec![])),
        TranslationError::StructuralError(Fault::InvalidDimension)
    );
    let cut_behind = EventLog {
        events: vec![ParseEvent::EndElement, text(" "), ParseEvent::EndElement],
        failure: Some("cut".to_string()),
    };
    let mut third = EventCursor::new(&cut_behind);
    assert_eq!(
        failure(on_content(&mut third, &vec![])),
        TranslationError::SyntaxError("cut".to_string())
    );
    let whole = log(behind_content(ParseEvent::EndElement, text("d")));
    let mut fourth = EventCursor::new(&whole);
    assert_eq!(
        failure(on_content(&mut fourth, &attributes(&[("width", "1")]))),
        TranslationError::StructuralError(Fault::MissingAttribute)
    );
}

#[test]
fn a_step_goes_by_the_state() {
    let feed = log(vec![text("Video 1")]);
    let title = start(name("title"), &[]);
    let mut cursor = EventCursor::new(&feed);
    assert_eq!(
        parts(take_step(TranscoderState::VideoEntry, &title, &mut cursor, "b", 0)),
        (TranscoderState::VideoEntry, write_text_element("title", "Video 1"))
    );
    let mut channel = EventCursor::new(&feed);
    assert_eq!(
        parts(take_step(TranscoderState::ChannelInfo, &title, &mut channel, "b", 0)),
        (TranscoderState::ChannelInfo, write_channel_title("Video 1"))
    );
    let mut between = EventCursor::new(&feed);
    assert_eq!(
        parts(take_step(TranscoderState::VideoEntries, &title, &mut between, "b", 0)),
        (TranscoderState::VideoEntries, vec![])
    );
    assert_eq!(
        failure(take_step(TranscoderState::Header, &title, &mut between, "b", 0)),
        TranslationError::StructuralError(Fault::UnexpectedRoot)
    );
    assert_eq!(
        failure(take_step(TranscoderState::Initial, &title, &mut between, "b", 0)),
        TranslationError::StructuralError(Fault::UnexpectedEvent)
    );
}

#[test]
fn text_and_closing_tags_write_nothing() {
    let empty = log(vec![]);
    for state in [
        TranscoderState::Header,
        TranscoderState::ChannelInfo,
        TranscoderState::VideoEntries,
        TranscoderState::VideoEntry,
    ] {
        for event in [text(" "), ParseEvent::EndElement, ParseEvent::Other] {
            let mut cursor = EventCursor::new(&empty);
            assert_eq!(parts(take_step(state, &event, &mut cursor, "b", 0)), (state, vec![]));
        }
    }
}

#[test]
fn a_second_start_of_the_document_is_refused() {
    let empty = log(vec![]);
    for state in [
        TranscoderState::Header,
        TranscoderState::ChannelInfo,
        TranscoderState::VideoEntries,
        TranscoderState::VideoEntry,
    ] {
        let mut cursor = EventCursor::new(&empty);
        assert_eq!(
            failure(take_step(state, &declaration("UTF-8"), &mut cursor, "b", 0)),
            TranslationError::StructuralError(Fault::UnexpectedEvent)
        );
    }
}

fn channel() -> Vec<ParseEvent> {
    vec![
        declaration("UTF-8"),
        start(name("feed"), &[]),
        text("\n "),
        start(name("link"), &[("rel", "self"), ("href", "https://yt.example/feed?channel_id=ABC123")]),
        ParseEvent::EndElement,
        start(name("title"), &[]),
        text("Test Channel"),
        ParseEvent::EndElement,
        start(name("published"), &[]),
        text("2015-03-06T21:40:57+00:00"),
        ParseEvent::EndElement,
    ]
}

fn entry(title: &str) -> Vec<ParseEvent> {
    let mut events = vec![
        start(name("entry"), &[]),
        start(name("title"), &[]),
        text(title),
        ParseEvent::EndElement,
        start(media("group"), &[]),
        start(media("title"), &[]),
        text(title),
        ParseEvent::EndElement,
        start(media("content"), &[("url", "https://r.example/XYZ?x=1")]),
    ];
    events.extend(behind_content(
        start(media("content"), &[("url", "https://i.example/t.jpg"), ("width", "120"), ("height", "90")]),
        text("desc text"),
    ));
    events.push(ParseEvent::EndElement);
    events.push(ParseEvent::EndElement);
    events
}

fn starts(events: &[WriteEvent], wanted: &str) -> usize {
    events
        .iter()
        .filter(|e| matches!(e, WriteEvent::StartElement { name, .. } if name == wanted))
        .count()
}

#[test]
fn a_feed_without_entries_is_a_channel() {
    let mut events = channel();
    events.push(ParseEvent::EndElement);
    events.push(ParseEvent::EndDocument);
    let mut expected = write_document_head();
    expected.extend(write_channel_head("https://rss.example", "x=ABC123"));
    expected.extend(write_channel_title("Test Channel"));
    expected.extend(write_text_element("lastBuildDate", "Thu, 01 Jan 1970 00:00:00 +0000"));
    expected.extend(write_document_tail());
    assert_eq!(transcode(&log(events), "https://rss.example", 0), Ok(expected));
}

#[test]
fn each_entry_becomes_one_item() {
    for count in 0..4 {
        let mut events = channel();
        for i in 0..count {
            events.extend(entry(&format!("Video {}", i)));
        }
        events.push(ParseEvent::EndElement);
        events.push(ParseEvent::EndDocument);
        let written = transcode(&log(events), "https://rss.example", 0).unwrap();
        assert_eq!(starts(&written, "item"), count);
        assert_eq!(starts(&written, "channel"), 1);
        assert_eq!(starts(&written, "title"), 1 + count);
        assert_eq!(starts(&written, "guid"), count);
    }
}

#[test]
fn a_log_that_runs_out_ends_the_document() {
    let written = transcode(&log(channel()), "https://rss.example", 0).unwrap();
    assert_eq!(written[written.len() - 2..], write_document_tail()[..]);
}

#[test]
fn a_complaint_ends_the_translation() {
    let cut = EventLog { events: channel(), failure: Some("1:1 cut".to_string()) };
    assert_eq!(
        transcode(&cut, "https://rss.example", 0),
        Err(TranslationError::SyntaxError("1:1 cut".to_string()))
    );
}

#[test]
fn an_earlier_error_comes_before_a_complaint() {
    let mut events = channel();
    events.push(start(name("entry"), &[]));
    events.push(start(name("link"), &[]));
    let cut = EventLog { events, failure: Some("1:1 cut".to_string()) };
    assert_eq!(
        transcode(&cut, "https://rss.example", 0),
        Err(TranslationError::StructuralError(Fault::MissingAttribute))
    );
}

#[test]
fn a_document_may_not_end_before_it_starts_nor_inside_an_entry() {
    assert_eq!(
        transcode(&log(vec![]), "b", 0),
        Err(TranslationError::StructuralError(Fault::UnexpectedEvent))
    );
    assert_eq!(
        transcode(&log(vec![ParseEvent::EndDocument]), "b", 0),
        Err(TranslationError::StructuralError(Fault::UnexpectedEvent))
    );
    let mut events = channel();
    events.push(start(name("entry"), &[]));
    events.push(ParseEvent::EndDocument);
    assert_eq!(
        transcode(&log(events), "b", 0),
        Err(TranslationError::StructuralError(Fault::UnexpectedEvent))
    );
}

#[test]
fn the_build_time_shows_in_the_build_date_only() {
    let mut events = channel();
    events.extend(entry("Video 1"));
    events.push(ParseEvent::EndDocument);
    let feed = log(events);
    let first = transcode(&feed, "https://rss.example", 0).unwrap();
    let second = transcode(&feed, "https://rss.example", 1704067200).unwrap();
    assert_eq!(first.len(), second.len());
    let differing: Vec<usize> = (0..first.len()).filter(|&i| first[i] != second[i]).collect();
    assert_eq!(differing.len(), 1);
    let at = differing[0];
    assert_eq!(first[at - 1], WriteEvent::StartElement { name: "lastBuildDate".to_string(), attributes: vec![] });
    assert_eq!(first[at], WriteEvent::Text("Thu, 01 Jan 1970 00:00:00 +0000".to_string()));
    assert_eq!(second[at], WriteEvent::Text("Mon, 01 Jan 2024 00:00:00 +0000".to_string()));
}
