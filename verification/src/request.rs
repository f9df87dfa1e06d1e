//! What a server of translated feeds decides: which feed a request asks
//! for, where the feed is fetched, and what is sent back.

use vstd::prelude::*;
use vstd::string::StringExecFns;
use crate::error::{error_text, outcome_view, TranslationError, TranslationErrorView};
use crate::text::{
    before_first, prefix_before_first, rest_after_first, same_text, split_at_first,
};

verus! {

/// The content type of a translated feed.
pub const CONTENT_TYPE: &'static str = "application/rss+xml";

/// What is sent back where the address of a request names no feed.
pub const INVALID_URL: &'static str = "Invalid URL";

/// What a request asks for.
#[derive(Clone, Debug, PartialEq, Eq)]
pub enum Route {
    /// The feed of the channel with this identifier.
    Channel(String),
    /// Nothing that is served.
    Invalid,
}

/// The view of a [`Route`].
pub enum RouteView {
    Channel(Seq<char>),
    Invalid,
}

impl View for Route {
    type V = RouteView;

    open spec fn view(&self) -> RouteView {
        match *self {
            Route::Channel(id) => RouteView::Channel(id@),
            Route::Invalid => RouteView::Invalid,
        }
    }
}

/// What the address `url` asks for. Behind the first `/` the address has to
/// hold `channel`, another `/`, and the identifier of the channel, which
/// ends before the next `/`.
pub open spec fn route_of(url: Seq<char>) -> RouteView {
    let path = rest_after_first(url, '/');
    if url.contains('/') && path.contains('/') && prefix_before_first(path, '/') == "channel"@ {
        RouteView::Channel(prefix_before_first(rest_after_first(path, '/'), '/'))
    } else {
        RouteView::Invalid
    }
}

/// The address of the Atom feed of the channel `id`.
pub open spec fn feed_address_of(id: Seq<char>) -> Seq<char> {
    "https://www.youtube.com/feeds/videos.xml?channel_id="@ + id
}

/// What is sent back for an outcome: the feed, or the error in words.
pub open spec fn body_of(outcome: Result<Seq<char>, TranslationErrorView>) -> Seq<char> {
    match outcome {
        Ok(feed) => feed,
        Err(error) => "Error: "@ + error_text(error),
    }
}

/// Decides what a request for the address `url` asks for: `/channel/ABC`
/// asks for the feed of the channel `ABC`.
pub fn route(url: &str) -> (asked: Route)
    ensures
        asked@ == route_of(url@),
{
    match split_at_first(url, '/') {
        Some((_, path)) => match split_at_first(path, '/') {
            Some((first, rest)) => {
                if same_text(first, "channel") {
                    Route::Channel(before_first(rest, '/').to_owned())
                } else {
                    Route::Invalid
                }
            },
            None => Route::Invalid,
        },
        None => Route::Invalid,
    }
}

/// The address from which the Atom feed of the channel `id` is fetched.
pub fn feed_address(id: &str) -> (address: String)
    ensures
        address@ == feed_address_of(id@),
{
    let mut address = "https://www.youtube.com/feeds/videos.xml?channel_id=".to_owned();
    address.append(id);
    address
}

/// What is sent back for the outcome of a translation: the feed, or
/// `Error: ` and the error in words.
pub fn response_body(outcome: Result<String, TranslationError>) -> (body: String)
    ensures
        body@ == body_of(outcome_view(outcome)),
{
    match outcome {
        Ok(feed) => feed,
        Err(error) => {
            let mut body = "Error: ".to_owned();
            body.append(error.message().as_str());
            body
        },
    }
}

} // verus!
