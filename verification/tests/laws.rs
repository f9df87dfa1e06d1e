use youtube_rss::date::{rfc822_from_rfc3339, rfc822_from_unix};
use youtube_rss::error::TranslationError;
use youtube_rss::html::{extract_video_id, strip_query};
use youtube_rss::event::{ParseEvent, WriteEvent};
use youtube_rss::rss::{write_channel_head, write_channel_title};
use youtube_rss::source::read_events;
use youtube_rss::transcoder::transcode;
use youtube_rss::{translate, translate_at};

const NOW: i64 = 1_700_000_000;

fn atom(entries: &[(&str, &str)]) -> String {
    let mut text = String::from(
        r#"<?xml version="1.0" encoding="UTF-8"?>
<feed xmlns:media="http://search.yahoo.com/mrss/" xmlns="http://www.w3.org/2005/Atom">
 <link rel="self" href="http://www.youtube.com/feeds/videos.xml?v=2;channel_id=UC42"/>
 <title>Tom &amp; Jerry</title>
 <link rel="alternate" href="https://www.youtube.com/channel/UC42"/>
 <published>2015-03-06T21:40:57+00:00</published>
"#,
    );
    for (title, address) in entries {
        text.push_str(&format!(
            r#" <entry>
  <title>{title}</title>
  <link rel="alternate" href="https://www.youtube.com/watch?v=XYZ"/>
  <published>2024-01-01T00:00:00+00:00</published>
  <media:group>
   <media:title>media {title}</media:title>
   <media:content url="{address}" width="120" height="90"/>
   <media:content url="https://i.example/XYZ.jpg" width="120" height="90"/>
   <media:description>desc text</media:description>
  </media:group>
 </entry>
"#
        ));
    }
    text.push_str("</feed>\n");
    text
}

fn events_of(text: &str) -> Vec<WriteEvent> {
    transcode(&read_events(text), "https://rss.example", NOW).unwrap()
}

fn holds(events: &[WriteEvent], piece: &[WriteEvent]) -> bool {
    events.windows(piece.len()).any(|window| window == piece)
}

fn texts_behind(events: &[WriteEvent], wanted: &str) -> Vec<String> {
    let mut texts = Vec::new();
    for pair in events.windows(2) {
        if let (WriteEvent::StartElement { name, .. }, WriteEvent::Text(text)) = (&pair[0], &pair[1])
        {
            if name == wanted {
                texts.push(text.clone());
            }
        }
    }
    texts
}

#[test]
fn the_translation_of_a_feed_links_to_itself() {
    let events = events_of(&atom(&[("One", "https://r.example/XYZ")]));
    let head = write_channel_head(
        "https://rss.example",
        "http://www.youtube.com/feeds/videos.xml?v=2;channel_id=UC42",
    );
    assert!(holds(&events, &head));
    match &head[2] {
        WriteEvent::StartElement { name, attributes } => {
            assert_eq!(name, "atom:link");
            assert_eq!(attributes[0].name, "href");
            assert_eq!(attributes[0].value, "https://rss.example/channel/UC42");
        }
        other => panic!("{other:?}"),
    }
    let links = events
        .iter()
        .filter(|e| matches!(e, WriteEvent::StartElement { name, .. } if name == "atom:link"))
        .count();
    assert_eq!(links, 1);
}

#[test]
fn the_translation_of_a_feed_keeps_its_title() {
    let events = events_of(&atom(&[("One", "https://r.example/XYZ")]));
    assert!(holds(&events, &write_channel_title("Tom & Jerry")));
    assert_eq!(texts_behind(&events, "title")[0], "Tom & Jerry");
    assert_eq!(texts_behind(&events, "description")[0], "Tom & Jerry");
}

#[test]
fn every_guid_is_an_address_without_query() {
    let events = events_of(&atom(&[
        ("One", "https://r.example/ONE?version=3"),
        ("Two", "https://r.example/TWO"),
        ("Three", "https://r.example/THREE?a=b?c"),
    ]));
    assert_eq!(
        texts_behind(&events, "guid"),
        vec!["https://r.example/ONE", "https://r.example/TWO", "https://r.example/THREE"]
    );
}

#[test]
fn the_titles_of_items_are_those_of_the_entries() {
    let events = events_of(&atom(&[
        ("One", "https://r.example/ONE"),
        ("Two", "https://r.example/TWO"),
    ]));
    assert_eq!(texts_behind(&events, "title"), vec!["Tom & Jerry", "One", "Two"]);
}

#[test]
fn a_media_title_leaves_no_trace() {
    let log = read_events(&atom(&[("One", "https://r.example/ONE"), ("Two", "https://r.example/TWO")]));
    let whole = transcode(&log, "https://rss.example", NOW).unwrap();
    let places: Vec<usize> = (0..log.events.len())
        .filter(|&i| {
            matches!(&log.events[i], ParseEvent::StartElement { name, .. }
                if name.local_name == "title" && name.prefix.as_deref() == Some("media"))
        })
        .collect();
    assert_eq!(places.len(), 2);
    for place in places {
        let mut struck = log.clone();
        struck.events[place] = ParseEvent::Other;
        assert_eq!(transcode(&struck, "https://rss.example", NOW).unwrap(), whole);
    }
}

#[test]
fn a_feed_that_breaks_off_is_refused_with_the_complaint_of_the_parser() {
    let whole = atom(&[("One", "https://r.example/ONE")]);
    let broken = &whole[..whole.len() - "</feed>\n".len()];
    let log = read_events(broken);
    let complaint = log.failure.clone().expect("the parser complains");
    assert_eq!(
        translate_at(broken, "https://rss.example", NOW),
        Err(TranslationError::SyntaxError(complaint))
    );
}

#[test]
fn a_feed_is_translated_whenever_the_clock_is_read() {
    let text = atom(&[("One", "https://r.example/ONE"), ("Two", "https://r.example/TWO")]);
    let rss = translate(text, "https://rss.example").expect("a feed is translated");
    assert_eq!(rss.matches("<channel>").count(), 1);
    assert_eq!(rss.matches("<item>").count(), 2);
}

fn atom_dated(dates: &[&str]) -> String {
    let mut text = String::from(
        r#"<?xml version="1.0" encoding="UTF-8"?>
<feed xmlns:media="http://search.yahoo.com/mrss/" xmlns="http://www.w3.org/2005/Atom">
 <link rel="self" href="http://www.youtube.com/feeds/videos.xml?channel_id=UC42"/>
 <title>Channel</title>
 <published>2015-03-06T21:40:57+00:00</published>
"#,
    );
    for date in dates {
        text.push_str(&format!(
            r#" <entry>
  <title>Video</title>
  <published>{date}</published>
  <updated>2030-01-01T00:00:00+00:00</updated>
  <media:group>
   <media:content url="https://r.example/XYZ" width="120" height="90"/>
   <media:content url="https://i.example/XYZ.jpg" width="120" height="90"/>
   <media:description>desc text</media:description>
  </media:group>
 </entry>
 <published>2031-01-01T00:00:00+00:00</published>
"#
        ));
    }
    text.push_str("</feed>\n");
    text
}

#[test]
fn the_dates_of_a_translation_are_those_of_the_entries_and_of_the_build_time() {
    let dates = ["2024-01-01T00:00:00+00:00", "2023-06-15T12:30:45+02:00", "2022-12-31T23:59:59-05:00"];
    let events = events_of(&atom_dated(&dates));
    assert_eq!(
        texts_behind(&events, "pubDate"),
        vec![
            "Mon, 01 Jan 2024 00:00:00 +0000",
            "Thu, 15 Jun 2023 12:30:45 +0200",
            "Sat, 31 Dec 2022 23:59:59 -0500",
        ]
    );
    let rendered: Vec<String> = dates.iter().map(|d| rfc822_from_rfc3339(d).unwrap()).collect();
    assert_eq!(texts_behind(&events, "pubDate"), rendered);
    assert_eq!(texts_behind(&events, "lastBuildDate"), vec![rfc822_from_unix(NOW).unwrap()]);
    assert_eq!(texts_behind(&events, "lastBuildDate"), vec!["Tue, 14 Nov 2023 22:13:20 +0000"]);
}

#[test]
fn a_feed_without_entries_has_a_build_date_and_no_other() {
    let events = events_of(&atom_dated(&[]));
    assert_eq!(texts_behind(&events, "pubDate"), Vec::<String>::new());
    assert_eq!(texts_behind(&events, "lastBuildDate").len(), 1);
}

#[test]
fn a_query_behind_the_address_leaves_the_translation_alone() {
    let plain = atom(&[("One", "https://r.example/ONE"), ("Two", "https://r.example/TWO")]);
    let queried = atom(&[("One", "https://r.example/ONE"), ("Two", "https://r.example/TWO?foo=bar")]);
    let first = translate_at(&plain, "https://rss.example", NOW).unwrap();
    let second = translate_at(&queried, "https://rss.example", NOW).unwrap();
    assert_eq!(first, second);
    assert!(second.contains("<guid>https://r.example/TWO</guid>"));
    assert!(second.contains(
        "src=\"https://www.youtube.com/embed/TWO?autoplay=0&amp;controls=1&amp;end=0&amp;loop=0&amp;mute=0&amp;start=0\""
    ));
    assert_eq!(strip_query("https://r.example/TWO?foo=bar"), "https://r.example/TWO");
    assert_eq!(extract_video_id("https://r.example/TWO?foo=bar"), "TWO");
    assert_eq!(extract_video_id("https://r.example/TWO"), "TWO");
}

#[test]
fn a_query_with_a_slash_changes_the_video() {
    assert_eq!(strip_query("https://r.example/TWO?next=a/b"), "https://r.example/TWO");
    assert_eq!(extract_video_id("https://r.example/TWO?next=a/b"), "b");
}
