use youtube_rss::event::{EventLog, ParseEvent, QualifiedName};
use youtube_rss::notice::{is_known_in_channel, is_known_in_entry, remark, review, Notice};
use youtube_rss::source::read_events;
use youtube_rss::transcoder::TranscoderState;
use youtube_rss::{translate_at, translate_noting};

const NOW: i64 = 1_700_000_000;

fn document(version: &str, in_channel: &str, in_entry: &str, behind_entry: &str) -> String {
    format!(
        r#"<?xml version="{version}" encoding="UTF-8"?>
<feed xmlns:yt="http://www.youtube.com/xml/schemas/2015" xmlns:media="http://search.yahoo.com/mrss/" xmlns="http://www.w3.org/2005/Atom">
 <link rel="self" href="http://www.youtube.com/feeds/videos.xml?channel_id=ABC123"/>
 <id>yt:channel:ABC123</id>
 <yt:channelId>ABC123</yt:channelId>
 <title>Test Channel</title>
 <link rel="alternate" href="https://www.youtube.com/channel/ABC123"/>
 <author>
  <name>Test Channel</name>
  <uri>https://www.youtube.com/channel/ABC123</uri>
 </author>
 {in_channel}<published>2015-03-06T21:40:57+00:00</published>
 <entry>
  <id>yt:video:XYZ</id>
  <yt:videoId>XYZ</yt:videoId>
  <yt:channelId>ABC123</yt:channelId>
  <title>Video 1</title>
  <link rel="alternate" href="https://www.youtube.com/watch?v=XYZ"/>
  <author>
   <name>Test Channel</name>
   <uri>https://www.youtube.com/channel/ABC123</uri>
  </author>
  <published>2024-01-01T00:00:00+00:00</published>
  <updated>2024-01-02T00:00:00+00:00</updated>
  {in_entry}<media:group>
   <media:title>Video 1</media:title>
   <media:content url="https://r.example/XYZ?x=1" type="application/x-shockwave-flash" width="120" height="90"/>
   <media:content url="https://i.example/XYZ.jpg" width="120" height="90"/>
   <media:description>desc text</media:description>
   <media:community>
    <media:starRating count="1" average="5.00" min="1" max="5"/>
    <media:statistics views="10"/>
   </media:community>
  </media:group>
 </entry>
 {behind_entry}</feed>
"#
    )
}

fn start(local_name: &str) -> ParseEvent {
    ParseEvent::StartElement {
        name: QualifiedName { prefix: None, local_name: local_name.to_string() },
        attributes: Vec::new(),
    }
}

fn declaration(version: &str) -> ParseEvent {
    ParseEvent::StartDocument { version: version.to_string(), encoding: "UTF-8".to_string() }
}

#[test]
fn a_feed_of_known_elements_gets_no_notice() {
    let text = document("1.0", "", "", "");
    let (outcome, notices) = translate_noting(&text, "https://rss.example", NOW);
    assert!(outcome.is_ok());
    assert_eq!(notices, Vec::<Notice>::new());
}

#[test]
fn a_notice_does_not_change_the_outcome() {
    let text = document("1.1", "<subtitle>s</subtitle>\n ", "<rating/>\n  ", "");
    let (outcome, notices) = translate_noting(&text, "https://rss.example", NOW);
    assert_eq!(notices.len(), 3);
    assert_eq!(outcome, translate_at(&text, "https://rss.example", NOW));
    let plain = document("1.0", "", "", "");
    assert_eq!(outcome, translate_at(&plain, "https://rss.example", NOW));
}

#[test]
fn another_version_than_one_point_zero_is_noticed() {
    let text = document("1.1", "", "", "");
    let (outcome, notices) = translate_noting(&text, "https://rss.example", NOW);
    assert!(outcome.is_ok());
    assert_eq!(notices, vec![Notice::UntestedVersion("1.1".to_string())]);
    assert_eq!(
        notices[0].message(),
        "Attempting to parse XML file with untested version: 1.1"
    );
}

#[test]
fn an_unknown_element_of_the_channel_is_noticed() {
    let text = document("1.0", "<subtitle>s</subtitle>\n ", "", "");
    let (_, notices) = translate_noting(&text, "https://rss.example", NOW);
    assert_eq!(notices, vec![Notice::UnknownChannelElement("subtitle".to_string())]);
    assert_eq!(notices[0].message(), "Received unknown channelinfo attribute: subtitle");
}

#[test]
fn an_unknown_element_of_an_entry_is_noticed() {
    let text = document("1.0", "", "<rating/>\n  ", "");
    let (_, notices) = translate_noting(&text, "https://rss.example", NOW);
    assert_eq!(notices, vec![Notice::UnknownEntryElement("rating".to_string())]);
    assert_eq!(notices[0].message(), "Received unknown video entry attribute: rating");
}

#[test]
fn an_unknown_element_between_entries_is_not_noticed() {
    let text = document("1.0", "", "", "<rating/>\n ");
    let (outcome, notices) = translate_noting(&text, "https://rss.example", NOW);
    assert!(outcome.is_ok());
    assert_eq!(notices, Vec::<Notice>::new());
}

#[test]
fn notices_come_in_the_order_of_the_document() {
    let text = document("1.1", "<a/><b/>\n ", "<c/>\n  ", "");
    let (_, notices) = translate_noting(&text, "https://rss.example", NOW);
    assert_eq!(
        notices,
        vec![
            Notice::UntestedVersion("1.1".to_string()),
            Notice::UnknownChannelElement("a".to_string()),
            Notice::UnknownChannelElement("b".to_string()),
            Notice::UnknownEntryElement("c".to_string()),
        ]
    );
}

#[test]
fn notices_end_where_the_translation_is_given_up() {
    let text = document("1.0", "<a/><title/><b/>\n ", "", "");
    let (outcome, notices) = translate_noting(&text, "https://rss.example", NOW);
    assert!(outcome.is_err());
    assert_eq!(notices, vec![Notice::UnknownChannelElement("a".to_string())]);
}

#[test]
fn review_reads_a_log_as_the_transcoder_does() {
    let log = read_events(&document("1.0", "<subtitle/>\n ", "", ""));
    assert_eq!(
        review(&log, "https://rss.example", NOW),
        vec![Notice::UnknownChannelElement("subtitle".to_string())]
    );
    let empty = EventLog { events: Vec::new(), failure: None };
    assert_eq!(review(&empty, "https://rss.example", NOW), Vec::<Notice>::new());
    let refused = EventLog { events: vec![declaration("1.1"), start("rss")], failure: None };
    assert_eq!(
        review(&refused, "https://rss.example", NOW),
        vec![Notice::UntestedVersion("1.1".to_string())]
    );
}

#[test]
fn a_remark_goes_by_the_state() {
    let odd = start("subtitle");
    assert_eq!(remark(TranscoderState::Initial, &odd), None);
    assert_eq!(remark(TranscoderState::Header, &odd), None);
    assert_eq!(
        remark(TranscoderState::ChannelInfo, &odd),
        Some(Notice::UnknownChannelElement("subtitle".to_string()))
    );
    assert_eq!(remark(TranscoderState::VideoEntries, &odd), None);
    assert_eq!(
        remark(TranscoderState::VideoEntry, &odd),
        Some(Notice::UnknownEntryElement("subtitle".to_string()))
    );
    assert_eq!(remark(TranscoderState::ChannelInfo, &start("title")), None);
    assert_eq!(remark(TranscoderState::VideoEntry, &start("content")), None);
    assert_eq!(
        remark(TranscoderState::ChannelInfo, &start("content")),
        Some(Notice::UnknownChannelElement("content".to_string()))
    );
    assert_eq!(remark(TranscoderState::Initial, &declaration("1.0")), None);
    assert_eq!(
        remark(TranscoderState::Initial, &declaration("1.1")),
        Some(Notice::UntestedVersion("1.1".to_string()))
    );
    assert_eq!(remark(TranscoderState::ChannelInfo, &ParseEvent::Text("x".to_string())), None);
    assert_eq!(remark(TranscoderState::VideoEntry, &ParseEvent::EndElement), None);
}

#[test]
fn the_known_elements_of_the_channel() {
    for name in ["link", "title", "published", "channelId", "id", "author", "name", "uri"] {
        assert!(is_known_in_channel(name), "{name}");
    }
    for name in ["content", "updated", "group", "entry", "Title", "", "links"] {
        assert!(!is_known_in_channel(name), "{name}");
    }
}

#[test]
fn the_known_elements_of_an_entry() {
    for name in [
        "id", "title", "link", "published", "content", "updated", "videoId", "channelId",
        "author", "group", "name", "uri", "community", "starRating", "statistics",
    ] {
        assert!(is_known_in_entry(name), "{name}");
    }
    for name in ["thumbnail", "description", "entry", "Content", "", "ids"] {
        assert!(!is_known_in_entry(name), "{name}");
    }
}
