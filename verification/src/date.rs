//! Timestamps, rendered by the `chrono` crate.

use vstd::prelude::*;
use vstd::string::StringExecFns;
use crate::error::{outcome_view, TranslationError, TranslationErrorView};
use crate::text::{push_signed_decimal, signed_decimal};

verus! {

/// The pattern of the dates that RSS asks for, as `chrono` writes patterns:
/// `Mon, 01 Jan 2024 00:00:00 +0000`.
pub const RFC822_PATTERN: &'static str = "%a, %d %b %Y %H:%M:%S %z";

/// What `chrono` writes by `pattern` for the moment that it reads from `text`
/// as an RFC 3339 timestamp, in the time zone that `text` names; `None`
/// where `chrono` does not read `text` as one.
pub uninterp spec fn rfc3339_rendering(text: Seq<char>, pattern: Seq<char>) -> Option<Seq<char>>;

/// What `chrono` writes by `pattern` for the moment `seconds` after the Unix
/// epoch, in UTC; `None` where `chrono` has no such moment.
pub uninterp spec fn unix_rendering(seconds: int, pattern: Seq<char>) -> Option<Seq<char>>;

/// The view of a text that may be missing.
pub open spec fn optional_text(text: Option<String>) -> Option<Seq<char>> {
    match text {
        Some(t) => Some(t@),
        None => None,
    }
}

/// Calls `DateTime::parse_from_rfc3339` of `chrono` on `text` and, where it
/// succeeds, `DateTime::format` with `pattern` on what it returns.
///
/// Claims only that the outcome is a function of the two texts, and names
/// it. The pattern has to be the one of this module: `chrono` does not
/// render by a pattern that it cannot read.
#[verifier::external_body]
fn reformat_rfc3339(text: &str, pattern: &str) -> (rendered: Option<String>)
    requires
        pattern@ == RFC822_PATTERN@,
    ensures
        optional_text(rendered) == rfc3339_rendering(text@, pattern@),
{
    match chrono::DateTime::parse_from_rfc3339(text) {
        Ok(moment) => Some(moment.format(pattern).to_string()),
        Err(_) => None,
    }
}

/// Calls `DateTime::from_timestamp` of `chrono` on `seconds`, with no
/// fraction of a second, and, where there is such a moment,
/// `DateTime::format` with `pattern` on it.
///
/// Claims only that the outcome is a function of the seconds and the
/// pattern, and names it. The pattern has to be the one of this module.
#[verifier::external_body]
fn render_unix(seconds: i64, pattern: &str) -> (rendered: Option<String>)
    requires
        pattern@ == RFC822_PATTERN@,
    ensures
        optional_text(rendered) == unix_rendering(seconds as int, pattern@),
{
    match chrono::DateTime::from_timestamp(seconds, 0) {
        Some(moment) => Some(moment.format(pattern).to_string()),
        None => None,
    }
}

/// Reads `SystemTime::now` of std, makes a `DateTime<Utc>` of it by the
/// `From<SystemTime>` of `chrono`, and hands over the whole seconds since
/// the Unix epoch, as `DateTime::timestamp` gives them.
///
/// Claims that the reading has a date: the seconds are those of a moment
/// that `chrono` holds, `DateTime::from_timestamp` makes that moment of them
/// again, and the pattern of this module renders every moment. Which moment
/// it is, is the clock's. The conversion takes a clock on either side of
/// 1970; it gives up only on one outside the years that `chrono` can hold,
/// some 262,000 to either side.
#[verifier::external_body]
fn unix_now() -> (seconds: i64)
    ensures
        unix_rendering(seconds as int, RFC822_PATTERN@) is Some,
{
    chrono::DateTime::<chrono::Utc>::from(std::time::SystemTime::now()).timestamp()
}

/// The date that an entry shows for the timestamp `text`.
pub open spec fn entry_date(text: Seq<char>) -> Result<Seq<char>, TranslationErrorView> {
    match rfc3339_rendering(text, RFC822_PATTERN@) {
        Some(date) => Ok(date),
        None => Err(TranslationErrorView::DateFormatError(text)),
    }
}

/// The date that a feed built at `seconds` after the Unix epoch shows.
pub open spec fn build_date(seconds: int) -> Result<Seq<char>, TranslationErrorView> {
    match unix_rendering(seconds, RFC822_PATTERN@) {
        Some(date) => Ok(date),
        None => Err(TranslationErrorView::DateFormatError(signed_decimal(seconds))),
    }
}

/// Decides what a rendering means: the date, or a `DateFormatError` that
/// keeps `source`, the text that could not be rendered.
pub fn date_or_error(rendered: Option<String>, source: String) -> (date: Result<
    String,
    TranslationError,
>)
    ensures
        outcome_view(date) == match rendered {
            Some(text) => Ok::<Seq<char>, TranslationErrorView>(text@),
            None => Err(TranslationErrorView::DateFormatError(source@)),
        },
{
    match rendered {
        Some(text) => Ok(text),
        None => Err(TranslationError::DateFormatError(source)),
    }
}

/// Converts an RFC 3339 timestamp, such as `2024-01-01T00:00:00+00:00`, into
/// an RFC 822 date in the same time zone.
pub fn rfc822_from_rfc3339(text: &str) -> (date: Result<String, TranslationError>)
    ensures
        outcome_view(date) == entry_date(text@),
{
    let rendered = reformat_rfc3339(text, RFC822_PATTERN);
    date_or_error(rendered, text.to_owned())
}

/// Renders the moment `seconds` after the Unix epoch as an RFC 822 date in
/// UTC.
pub fn rfc822_from_unix(seconds: i64) -> (date: Result<String, TranslationError>)
    ensures
        outcome_view(date) == build_date(seconds as int),
{
    let rendered = render_unix(seconds, RFC822_PATTERN);
    let mut source = String::new();
    push_signed_decimal(&mut source, seconds);
    assert(source@ == signed_decimal(seconds as int));
    date_or_error(rendered, source)
}

/// Reads the clock: whole seconds since the Unix epoch.
///
/// Which moment comes back is the machine's; whichever it is, it has a date,
/// so that a feed built then has a build date.
pub fn current_time() -> (seconds: i64)
    ensures
        build_date(seconds as int) is Ok,
{
    unix_now()
}

} // verus!
