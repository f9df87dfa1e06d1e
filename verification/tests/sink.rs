use youtube_rss::error::{Fault, TranslationError};
use youtube_rss::event::{OutputAttribute, WriteEvent, XmlVersion};
use youtube_rss::sink::render;

fn declaration() -> WriteEvent {
    WriteEvent::StartDocument {
        version: XmlVersion::Version10,
        encoding: "UTF-8".to_string(),
        standalone: true,
    }
}

fn start(name: &str, attributes: Vec<(&str, &str)>) -> WriteEvent {
    WriteEvent::StartElement {
        name: name.to_string(),
        attributes: attributes
            .into_iter()
            .map(|(n, v)| OutputAttribute { name: n.to_string(), value: v.to_string() })
            .collect(),
    }
}

#[test]
fn events_are_written_as_one_document() {
    let events = vec![
        declaration(),
        WriteEvent::RawText("\n".to_string()),
        start("rss", vec![("version", "2.0")]),
        start("atom:link", vec![("href", "https://x.example/?a=1&b=2")]),
        WriteEvent::EndElement,
        start("title", vec![]),
        WriteEvent::Text("a < b & c".to_string()),
        WriteEvent::EndElement,
        WriteEvent::EndElement,
    ];
    assert_eq!(
        render(&events),
        Ok("<?xml version=\"1.0\" encoding=\"UTF-8\" standalone=\"yes\"?>\n<rss version=\"2.0\"><atom:link href=\"https://x.example/?a=1&amp;b=2\" /><title>a &lt; b &amp; c</title></rss>".to_string())
    );
}

#[test]
fn version_and_standalone_are_written_as_given() {
    let events = vec![
        WriteEvent::StartDocument {
            version: XmlVersion::Version11,
            encoding: "UTF-8".to_string(),
            standalone: false,
        },
        start("a", vec![]),
        WriteEvent::EndElement,
    ];
    assert_eq!(
        render(&events),
        Ok("<?xml version=\"1.1\" encoding=\"UTF-8\" standalone=\"no\"?><a />".to_string())
    );
}

#[test]
fn no_events_are_an_empty_document() {
    assert_eq!(render(&vec![]), Ok(String::new()));
}

#[test]
fn a_closing_tag_with_nothing_open_is_refused() {
    let events = vec![declaration(), start("a", vec![]), WriteEvent::EndElement, WriteEvent::EndElement];
    assert_eq!(
        render(&events),
        Err(TranslationError::StructuralError(Fault::UnbalancedOutput))
    );
    assert_eq!(
        render(&vec![WriteEvent::EndElement]),
        Err(TranslationError::StructuralError(Fault::UnbalancedOutput))
    );
}

#[test]
fn a_second_declaration_is_refused() {
    assert_eq!(
        render(&vec![declaration(), declaration()]),
        Err(TranslationError::StructuralError(Fault::UnbalancedOutput))
    );
    assert_eq!(
        render(&vec![WriteEvent::Text("a".to_string()), declaration()]),
        Err(TranslationError::StructuralError(Fault::UnbalancedOutput))
    );
    assert_eq!(
        render(&vec![start("a", vec![]), declaration()]),
        Err(TranslationError::StructuralError(Fault::UnbalancedOutput))
    );
}

#[test]
fn an_element_left_open_is_refused() {
    let events = vec![declaration(), start("a", vec![]), WriteEvent::Text("t".to_string())];
    assert_eq!(
        render(&events),
        Err(TranslationError::StructuralError(Fault::UnbalancedOutput))
    );
}
