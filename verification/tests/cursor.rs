use youtube_rss::cursor::EventCursor;
use youtube_rss::error::{Fault, TranslationError};
use youtube_rss::event::{EventLog, ParseEvent};

fn text(content: &str) -> ParseEvent {
    ParseEvent::Text(content.to_string())
}

#[test]
fn events_come_in_order_and_then_the_end() {
    let log = EventLog { events: vec![text("a"), ParseEvent::EndElement], failure: None };
    let mut cursor = EventCursor::new(&log);
    assert_eq!(cursor.next(), Ok(Some(&text("a"))));
    assert_eq!(cursor.next(), Ok(Some(&ParseEvent::EndElement)));
    assert_eq!(cursor.next(), Ok(None));
    assert_eq!(cursor.next(), Ok(None));
}

#[test]
fn a_complaint_comes_behind_the_events_and_stays() {
    let log = EventLog { events: vec![text("a")], failure: Some("1:5 broken".to_string()) };
    let mut cursor = EventCursor::new(&log);
    assert_eq!(cursor.next(), Ok(Some(&text("a"))));
    assert_eq!(cursor.next(), Err(TranslationError::SyntaxError("1:5 broken".to_string())));
    assert_eq!(cursor.next(), Err(TranslationError::SyntaxError("1:5 broken".to_string())));
}

#[test]
fn skip_passes_over_events() {
    let log = EventLog {
        events: vec![text("a"), text("b"), text("c")],
        failure: None,
    };
    let mut cursor = EventCursor::new(&log);
    assert_eq!(cursor.skip(2), Ok(()));
    assert_eq!(cursor.next(), Ok(Some(&text("c"))));
    assert_eq!(cursor.skip(0), Ok(()));
    assert_eq!(cursor.skip(5), Ok(()));
    assert_eq!(cursor.next(), Ok(None));
}

#[test]
fn skip_stops_at_a_complaint() {
    let log = EventLog { events: vec![text("a")], failure: Some("broken".to_string()) };
    let mut cursor = EventCursor::new(&log);
    assert_eq!(cursor.skip(2), Err(TranslationError::SyntaxError("broken".to_string())));
}

#[test]
fn next_text_hands_out_text_only() {
    let log = EventLog { events: vec![text("a"), ParseEvent::EndElement], failure: None };
    let mut cursor = EventCursor::new(&log);
    assert_eq!(cursor.next_text(), Ok("a"));
    assert_eq!(
        cursor.next_text(),
        Err(TranslationError::StructuralError(Fault::MissingText))
    );
    assert_eq!(
        cursor.next_text(),
        Err(TranslationError::StructuralError(Fault::MissingText))
    );
}
