use youtube_rss::error::{Fault, TranslationError};
use youtube_rss::request::{feed_address, response_body, route, Route, CONTENT_TYPE, INVALID_URL};
use youtube_rss::text::split_at_first;

#[test]
fn a_channel_is_asked_for_by_its_identifier() {
    assert_eq!(route("/channel/ABC123"), Route::Channel("ABC123".to_string()));
    assert_eq!(route("/channel/ABC123/more"), Route::Channel("ABC123".to_string()));
    assert_eq!(route("/channel/"), Route::Channel(String::new()));
    assert_eq!(route("/channel/ABC?x=1"), Route::Channel("ABC?x=1".to_string()));
    assert_eq!(route("x/channel/ABC"), Route::Channel("ABC".to_string()));
}

#[test]
fn other_addresses_ask_for_nothing() {
    assert_eq!(route(""), Route::Invalid);
    assert_eq!(route("/"), Route::Invalid);
    assert_eq!(route("/channel"), Route::Invalid);
    assert_eq!(route("channel/ABC"), Route::Invalid);
    assert_eq!(route("/user/ABC"), Route::Invalid);
    assert_eq!(route("/Channel/ABC"), Route::Invalid);
    assert_eq!(route("//channel/ABC"), Route::Invalid);
}

#[test]
fn the_feed_of_a_channel_is_fetched_from_youtube() {
    assert_eq!(
        feed_address("ABC123"),
        "https://www.youtube.com/feeds/videos.xml?channel_id=ABC123"
    );
}

#[test]
fn the_body_is_the_feed_or_the_error() {
    assert_eq!(response_body(Ok("<rss />".to_string())), "<rss />");
    assert_eq!(
        response_body(Err(TranslationError::StructuralError(Fault::UnexpectedRoot))),
        "Error: malformed feed: the root element is not a feed"
    );
    assert_eq!(
        response_body(Err(TranslationError::SyntaxError("1:1 cut".to_string()))),
        "Error: malformed XML: 1:1 cut"
    );
}

#[test]
fn the_constants_of_a_response() {
    assert_eq!(CONTENT_TYPE, "application/rss+xml");
    assert_eq!(INVALID_URL, "Invalid URL");
}

#[test]
fn a_text_is_cut_at_the_first_separator() {
    assert_eq!(split_at_first("a/b/c", '/'), Some(("a", "b/c")));
    assert_eq!(split_at_first("/b", '/'), Some(("", "b")));
    assert_eq!(split_at_first("a/", '/'), Some(("a", "")));
    assert_eq!(split_at_first("é/ü", '/'), Some(("é", "ü")));
    assert_eq!(split_at_first("abc", '/'), None);
    assert_eq!(split_at_first("", '/'), None);
}
