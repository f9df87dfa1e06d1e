use youtube_rss::event::{Attribute, EventLog, ParseEvent, QualifiedName};
use youtube_rss::source::{named, named_value, read_events, settle, Reported};

fn name(prefix: Option<&str>, local_name: &str) -> QualifiedName {
    QualifiedName { prefix: prefix.map(|p| p.to_string()), local_name: local_name.to_string() }
}

#[test]
fn a_document_is_read_to_its_end() {
    let log = read_events("<?xml version=\"1.0\" encoding=\"UTF-8\"?>\n<a x=\"1\" m:y=\"2\" xmlns:m=\"urn:m\"><m:b>t &amp; u</m:b> <!-- c --><![CDATA[<d>]]></a>\n");
    assert_eq!(
        log,
        EventLog {
            events: vec![
                ParseEvent::StartDocument {
                    version: "1.0".to_string(),
                    encoding: "UTF-8".to_string(),
                },
                ParseEvent::StartElement {
                    name: name(None, "a"),
                    attributes: vec![
                        Attribute { name: name(None, "x"), value: "1".to_string() },
                        Attribute { name: name(Some("m"), "y"), value: "2".to_string() },
                    ],
                },
                ParseEvent::StartElement { name: name(Some("m"), "b"), attributes: vec![] },
                ParseEvent::Text("t & u".to_string()),
                ParseEvent::EndElement,
                ParseEvent::Text(" <d>".to_string()),
                ParseEvent::EndElement,
                ParseEvent::EndDocument,
            ],
            failure: None,
        }
    );
}

#[test]
fn a_document_without_declaration_starts_in_utf8() {
    let log = read_events("<a/>");
    assert_eq!(
        log.events[0],
        ParseEvent::StartDocument { version: "1.0".to_string(), encoding: "UTF-8".to_string() }
    );
    assert_eq!(log.events.len(), 4);
    assert_eq!(log.failure, None);
}

#[test]
fn blank_text_inside_the_root_is_reported() {
    let log = read_events("<a>\n <b/>\n</a>");
    assert_eq!(log.events[2], ParseEvent::Text("\n ".to_string()));
    assert_eq!(log.events[5], ParseEvent::Text("\n".to_string()));
}

#[test]
fn a_processing_instruction_is_another_event() {
    let log = read_events("<a><?target data?></a>");
    assert_eq!(log.events[2], ParseEvent::Other);
}

#[test]
fn the_declared_encoding_is_reported() {
    let log = read_events("<?xml version=\"1.1\" encoding=\"ISO-8859-1\"?><a/>");
    assert_eq!(
        log.events[0],
        ParseEvent::StartDocument {
            version: "1.1".to_string(),
            encoding: "ISO-8859-1".to_string(),
        }
    );
}

#[test]
fn a_broken_document_ends_in_a_complaint() {
    let log = read_events("<a><b></a>");
    assert_eq!(log.events.len(), 3);
    assert!(log.failure.is_some());
    assert!(!log.events.contains(&ParseEvent::EndDocument));
    let empty = read_events("");
    assert!(empty.failure.is_some());
    assert!(empty.events.is_empty());
}

#[test]
fn blank_text_is_settled_as_text() {
    assert_eq!(settle(Reported::Whitespace("\n  ".to_string())), ParseEvent::Text("\n  ".to_string()));
    assert_eq!(settle(Reported::Characters("a b".to_string())), ParseEvent::Text("a b".to_string()));
}

#[test]
fn what_the_transcoder_has_no_use_for_is_settled_as_other() {
    assert_eq!(settle(Reported::ProcessingInstruction), ParseEvent::Other);
    assert_eq!(settle(Reported::CData), ParseEvent::Other);
    assert_eq!(settle(Reported::Comment), ParseEvent::Other);
}

#[test]
fn tags_and_the_ends_of_a_document_are_settled_as_they_are() {
    assert_eq!(
        settle(Reported::StartDocument { version: "1.1".to_string(), encoding: "UTF-8".to_string() }),
        ParseEvent::StartDocument { version: "1.1".to_string(), encoding: "UTF-8".to_string() }
    );
    let attributes = vec![named_value(Some("m".to_string()), "y".to_string(), "2".to_string())];
    assert_eq!(
        settle(Reported::StartElement { name: named(None, "a".to_string()), attributes: attributes.clone() }),
        ParseEvent::StartElement { name: name(None, "a"), attributes }
    );
    assert_eq!(settle(Reported::EndElement), ParseEvent::EndElement);
    assert_eq!(settle(Reported::EndDocument), ParseEvent::EndDocument);
}

#[test]
fn a_name_and_an_attribute_are_made_of_their_parts() {
    assert_eq!(named(Some("media".to_string()), "title".to_string()), name(Some("media"), "title"));
    assert_eq!(
        named_value(None, "url".to_string(), "https://r.example/X".to_string()),
        Attribute { name: name(None, "url"), value: "https://r.example/X".to_string() }
    );
}
