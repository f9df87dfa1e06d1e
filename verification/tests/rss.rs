use youtube_rss::event::{OutputAttribute, WriteEvent, XmlVersion};
use youtube_rss::html::ThumbnailInfo;
use youtube_rss::rss::{
    attribute, build_self_link, write_channel_head, write_channel_title, write_document_head,
    write_document_tail, write_item_head, write_item_tail, write_text_element,
};

fn start(name: &str) -> WriteEvent {
    WriteEvent::StartElement { name: name.to_string(), attributes: vec![] }
}

fn text(content: &str) -> WriteEvent {
    WriteEvent::Text(content.to_string())
}

fn line() -> WriteEvent {
    WriteEvent::RawText("\n".to_string())
}

#[test]
fn a_text_element_is_four_events() {
    assert_eq!(
        write_text_element("link", "https://example.org"),
        vec![start("link"), text("https://example.org"), WriteEvent::EndElement, line()]
    );
}

#[test]
fn an_attribute_keeps_name_and_value() {
    assert_eq!(
        attribute("rel", "self"),
        OutputAttribute { name: "rel".to_string(), value: "self".to_string() }
    );
}

#[test]
fn the_document_opens_with_declaration_and_rss() {
    assert_eq!(
        write_document_head(),
        vec![
            WriteEvent::StartDocument {
                version: XmlVersion::Version10,
                encoding: "UTF-8".to_string(),
                standalone: true,
            },
            line(),
            WriteEvent::StartElement {
                name: "rss".to_string(),
                attributes: vec![
                    attribute("version", "2.0"),
                    attribute("xmlns:atom", "http://www.w3.org/2005/Atom"),
                ],
            },
            line(),
        ]
    );
}

#[test]
fn the_self_link_names_the_channel() {
    assert_eq!(
        build_self_link("https://rss.example", "http://www.youtube.com/feeds/videos.xml?channel_id=ABC123"),
        "https://rss.example/channel/ABC123"
    );
    assert_eq!(build_self_link("https://rss.example", "a=b=c"), "https://rss.example/channel/c");
    assert_eq!(build_self_link("", "no-equals-sign"), "/channel/no-equals-sign");
    assert_eq!(build_self_link("https://rss.example/", "x="), "https://rss.example//channel/");
}

#[test]
fn the_channel_opens_with_its_link_to_itself() {
    assert_eq!(
        write_channel_head("https://rss.example", "https://yt.example/feed?channel_id=ABC123"),
        vec![
            start("channel"),
            line(),
            WriteEvent::StartElement {
                name: "atom:link".to_string(),
                attributes: vec![
                    attribute("href", "https://rss.example/channel/ABC123"),
                    attribute("rel", "self"),
                    attribute("type", "application/rss+xml"),
                ],
            },
            WriteEvent::EndElement,
            line(),
        ]
    );
}

#[test]
fn the_channel_title_is_its_description_too() {
    assert_eq!(
        write_channel_title("Test & Channel"),
        vec![
            start("title"),
            text("Test & Channel"),
            WriteEvent::EndElement,
            line(),
            start("description"),
            text("Test & Channel"),
            WriteEvent::EndElement,
            line(),
        ]
    );
}

#[test]
fn an_item_opens_with_its_tag() {
    assert_eq!(write_item_head(), vec![start("item"), line()]);
}

#[test]
fn an_item_closes_with_guid_and_description() {
    let thumbnail = ThumbnailInfo { url: "https://i.example/t.jpg", width: 120, height: 90 };
    let events = write_item_tail("https://r.example/XYZ?x=1", &thumbnail, "desc text");
    assert_eq!(events.len(), 9);
    assert_eq!(
        events[..5],
        [start("guid"), text("https://r.example/XYZ"), WriteEvent::EndElement, line(), start("description")]
    );
    match &events[5] {
        WriteEvent::Text(html) => {
            assert!(html.contains("<img src=\"https://i.example/t.jpg\""));
            assert!(html.contains("width=\"120\" height=\"90\""));
            assert!(html.contains("<p>desc text</p>"));
            assert!(html.contains("https://www.youtube.com/embed/XYZ?autoplay=0&controls=1&end=0&loop=0&mute=0&start=0"));
        }
        other => panic!("unexpected event: {:?}", other),
    }
    assert_eq!(events[6..], [WriteEvent::EndElement, line(), WriteEvent::EndElement]);
}

#[test]
fn the_document_closes_channel_and_rss() {
    assert_eq!(write_document_tail(), vec![WriteEvent::EndElement, WriteEvent::EndElement]);
}
