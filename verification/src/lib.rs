//! Converts the Atom feed of a YouTube channel into an RSS 2.0 feed.
//!
//! [`translate`] reads the feed as XML events, runs them through the
//! transcoder of [`transcoder`], and writes the events that come out as one
//! document. [`translate_noting`] hands out as well what the transcoder
//! remarks on the feed without giving up. The contracts are stated over the
//! views of the events; what the XML parser reports of a text, and what the
//! XML writer makes of events, are named and not looked into.

use vstd::prelude::*;

pub mod cursor;
pub mod date;
pub mod error;
pub mod event;
pub mod html;
pub mod laws;
pub mod notice;
pub mod request;
pub mod rss;
pub mod shape;
pub mod sink;
pub mod source;
pub mod text;
pub mod transcoder;

verus! {

/// The RSS document for the Atom document `text`, served under `base_url`
/// and built `now` seconds after the Unix epoch: what the writer makes of
/// the events that the transcoder writes for the events that the parser
/// reports; or the first error on the way.
pub open spec fn translation(text: Seq<char>, base_url: Seq<char>, now: int) -> Result<
    Seq<char>,
    error::TranslationErrorView,
> {
    match transcoder::transcript(source::stream_log(source::document_events(text)), base_url, now) {
        Ok(events) => sink::document(events),
        Err(error) => Err(error),
    }
}

/// What the transcoder remarks on the Atom document `text` while it
/// translates it.
pub open spec fn remarks(text: Seq<char>, base_url: Seq<char>, now: int) -> Seq<
    notice::NoticeView,
> {
    notice::notices(
        source::stream_log(source::document_events(text)),
        0,
        transcoder::TranscoderState::Initial,
        base_url,
        now,
    )
}

/// Translates the Atom feed `input` as [`translate_at`] does, and hands out
/// beside the outcome what the transcoder remarks on the feed: a version of
/// XML other than 1.0, and elements that it does not know. A remark does not
/// change the outcome.
pub fn translate_noting(input: &str, base_url: &str, now: i64) -> (result: (
    Result<String, error::TranslationError>,
    Vec<notice::Notice>,
))
    ensures
        error::outcome_view(result.0) == translation(input@, base_url@, now as int),
        notice::notice_views(result.1@) == remarks(input@, base_url@, now as int),
{
    let log = source::read_events(input);
    let found = notice::review(&log, base_url, now);
    let outcome = match transcoder::transcode(&log, base_url, now) {
        Ok(events) => sink::render(&events),
        Err(error) => Err(error),
    };
    (outcome, found)
}

/// Translates the Atom feed `input` into an RSS 2.0 feed, with `now`,
/// in seconds since the Unix epoch, as the build time of the feed.
///
/// `base_url` is the address under which translated feeds are served; the
/// feed of a channel links to itself as `{base_url}/channel/{id}`.
///
/// Fails, and returns no part of a document,
/// - with `SyntaxError` where `input` is not well-formed XML,
/// - with `EncodingError` where it declares an encoding other than UTF-8,
/// - with `StructuralError` where the feed lacks what the translation
///   needs,
/// - with `DateFormatError` where a timestamp cannot be converted,
///
/// whichever comes first in the document.
pub fn translate_at(input: &str, base_url: &str, now: i64) -> (outcome: Result<
    String,
    error::TranslationError,
>)
    ensures
        error::outcome_view(outcome) == translation(input@, base_url@, now as int),
{
    let log = source::read_events(input);
    match transcoder::transcode(&log, base_url, now) {
        Ok(events) => sink::render(&events),
        Err(error) => Err(error),
    }
}

/// Translates the Atom feed `input` into an RSS 2.0 feed, built now by the
/// system's clock.
///
/// The outcome is that of [`translate_at`] at some build time that has a
/// date. A feed of the shape that the transcoder is made for is translated:
/// the outcome is the document that the writer makes of a whole feed, with
/// one channel and as many items as the feed has entries.
pub fn translate(input: String, base_url: &str) -> (outcome: Result<
    String,
    error::TranslationError,
>)
    ensures
        exists|now: int|
            {
                &&& date::build_date(now) is Ok
                &&& error::outcome_view(outcome) == #[trigger] translation(input@, base_url@, now)
                &&& shape::is_feed(source::stream_log(source::document_events(input@)))
                    ==> laws::is_whole_feed(
                    transcoder::transcript(
                        source::stream_log(source::document_events(input@)),
                        base_url@,
                        now,
                    ),
                    shape::entries_in(source::stream_log(source::document_events(input@))),
                )
            },
        shape::is_feed(source::stream_log(source::document_events(input@))) ==> outcome is Ok,
{
    let now = date::current_time();
    let outcome = translate_at(input.as_str(), base_url, now);
    proof {
        if shape::is_feed(source::stream_log(source::document_events(input@))) {
            laws::feed_text_has_a_translation(input@, base_url@, now as int);
        }
        assert(error::outcome_view(outcome) == translation(input@, base_url@, now as int));
    }
    outcome
}

} // verus!
