//! The HTML fragment that describes a video inside its feed item.

use vstd::prelude::*;
use vstd::string::StringExecFns;
use crate::error::{Fault, TranslationError};
use crate::event::{attribute_views, Attribute, AttributeView};
use crate::text::{
    after_last, before_first, decimal, dimension_value, parse_dimension, prefix_before_first,
    push_decimal, same_text, suffix_after_last,
};

verus! {

/// The thumbnail of a video. Without one, the address is empty and both
/// sizes are zero.
#[derive(Clone, Copy, Debug, PartialEq, Eq)]
pub struct ThumbnailInfo<'a> {
    pub url: &'a str,
    pub width: u32,
    pub height: u32,
}

/// The view of a [`ThumbnailInfo`].
pub struct ThumbnailInfoView {
    pub url: Seq<char>,
    pub width: u32,
    pub height: u32,
}

impl<'a> View for ThumbnailInfo<'a> {
    type V = ThumbnailInfoView;

    open spec fn view(&self) -> ThumbnailInfoView {
        ThumbnailInfoView { url: self.url@, width: self.width, height: self.height }
    }
}

/// The fragment up to the address of the thumbnail.
pub const IMAGE_OPEN: &'static str = "\n                            <img src=\"";

/// The fragment between the address of the thumbnail and its width.
pub const IMAGE_WIDTH: &'static str =
    "\" alt=\"YouTube thumbnail\" class=\"\" loading=\"lazy\" width=\"";

/// The fragment between the width of the thumbnail and its height.
pub const IMAGE_HEIGHT: &'static str = "\" height=\"";

/// The fragment between the height of the thumbnail and the description.
pub const PARAGRAPH_OPEN: &'static str = "\" />\n                            <p>";

/// The fragment between the description and the identifier of the video.
pub const PLAYER_OPEN: &'static str =
    "</p>\n                            <iframe\n                                allow=\"accelerometer; autoplay; clipboard-write; encrypted-media; gyroscope; picture-in-picture; web-share\"\n                                allowfullscreen=\"allowfullscreen\"\n                                loading=\"eager\"\n                                referrerpolicy=\"strict-origin-when-cross-origin\"\n                                src=\"https://www.youtube.com/embed/";

/// The fragment behind the identifier of the video.
pub const PLAYER_CLOSE: &'static str =
    "?autoplay=0&controls=1&end=0&loop=0&mute=0&start=0\"\n                                style=\"position: absolute; top: 0; left: 0; width: 100%; height: 100%; border:0;\"\n                                title=\"YouTube video\">\n                            </iframe>\n                            ";

/// The thumbnail that an element without attributes gives.
pub open spec fn no_thumbnail() -> ThumbnailInfoView {
    ThumbnailInfoView { url: Seq::empty(), width: 0, height: 0 }
}

/// The thumbnail once `attribute` has been read: `url`, `width` and `height`
/// each replace what was there; `None` where a size is no number.
pub open spec fn with_attribute(thumbnail: ThumbnailInfoView, attribute: AttributeView) -> Option<
    ThumbnailInfoView,
> {
    if attribute.name.local_name == "url"@ {
        Some(ThumbnailInfoView { url: attribute.value, ..thumbnail })
    } else if attribute.name.local_name == "width"@ {
        match dimension_value(attribute.value) {
            Some(width) => Some(ThumbnailInfoView { width, ..thumbnail }),
            None => None,
        }
    } else if attribute.name.local_name == "height"@ {
        match dimension_value(attribute.value) {
            Some(height) => Some(ThumbnailInfoView { height, ..thumbnail }),
            None => None,
        }
    } else {
        Some(thumbnail)
    }
}

/// The thumbnail that `attributes` give, read in order, so that the last
/// `url`, `width` and `height` count; `None` where a size is no number.
pub open spec fn thumbnail_from(attributes: Seq<AttributeView>) -> Option<ThumbnailInfoView>
    decreases attributes.len(),
{
    if attributes.len() == 0 {
        Some(no_thumbnail())
    } else {
        match thumbnail_from(attributes.drop_last()) {
            Some(thumbnail) => with_attribute(thumbnail, attributes.last()),
            None => None,
        }
    }
}

/// The canonical address of a video: `url` without its query.
pub open spec fn canonical_url(url: Seq<char>) -> Seq<char> {
    prefix_before_first(url, '?')
}

/// The identifier of a video: what follows the last `/` of `url`, without
/// the query.
pub open spec fn video_id(url: Seq<char>) -> Seq<char> {
    prefix_before_first(suffix_after_last(url, '/'), '?')
}

/// The fragment for a video: its thumbnail, its description, and a player.
pub open spec fn description_html(
    thumbnail: ThumbnailInfoView,
    description: Seq<char>,
    id: Seq<char>,
) -> Seq<char> {
    IMAGE_OPEN@ + thumbnail.url + IMAGE_WIDTH@ + decimal(thumbnail.width as nat) + IMAGE_HEIGHT@
        + decimal(thumbnail.height as nat) + PARAGRAPH_OPEN@ + description + PLAYER_OPEN@ + id
        + PLAYER_CLOSE@
}

/// The view of a thumbnail or of the reason why there is none.
pub open spec fn thumbnail_view(thumbnail: Result<ThumbnailInfo, TranslationError>) -> Option<
    ThumbnailInfoView,
> {
    match thumbnail {
        Ok(t) => Some(t@),
        Err(_) => None,
    }
}

/// Reads a thumbnail from the attributes of its element.
///
/// Fails, with `InvalidDimension`, exactly where a `width` or `height` among
/// them is no size in pixels.
pub fn read_thumbnail<'a>(attributes: &'a Vec<Attribute>) -> (thumbnail: Result<
    ThumbnailInfo<'a>,
    TranslationError,
>)
    ensures
        thumbnail_view(thumbnail) == thumbnail_from(attribute_views(attributes@)),
        thumbnail matches Err(e) ==> e@ == crate::error::TranslationErrorView::StructuralError(
            Fault::InvalidDimension,
        ),
{
    let ghost all = attribute_views(attributes@);
    let mut current = ThumbnailInfo { url: "", width: 0, height: 0 };
    proof {
        reveal_strlit("");
        assert(current@.url =~= Seq::<char>::empty());
        assert(all.take(0) =~= Seq::<AttributeView>::empty());
    }
    let mut i: usize = 0;
    while i < attributes.len()
        invariant
            i <= attributes.len(),
            all == attribute_views(attributes@),
            thumbnail_from(all.take(i as int)) == Some(current@),
        decreases attributes.len() - i,
    {
        let attribute = &attributes[i];
        proof {
            assert(all.take(i + 1).drop_last() == all.take(i as int));
            assert(all.take(i + 1).last() == attribute@);
        }
        let name = attribute.name.local_name.as_str();
        if same_text(name, "url") {
            current = ThumbnailInfo { url: attribute.value.as_str(), ..current };
        } else if same_text(name, "width") {
            match parse_dimension(attribute.value.as_str()) {
                Some(width) => {
                    current = ThumbnailInfo { width, ..current };
                },
                None => {
                    proof {
                        lemma_thumbnail_stays_invalid(all, i + 1);
                    }
                    return Err(TranslationError::StructuralError(Fault::InvalidDimension));
                },
            }
        } else if same_text(name, "height") {
            match parse_dimension(attribute.value.as_str()) {
                Some(height) => {
                    current = ThumbnailInfo { height, ..current };
                },
                None => {
                    proof {
                        lemma_thumbnail_stays_invalid(all, i + 1);
                    }
                    return Err(TranslationError::StructuralError(Fault::InvalidDimension));
                },
            }
        }
        i = i + 1;
    }
    assert(all.take(i as int) == all);
    Ok(current)
}

/// Once a size is no number, no later attribute mends the thumbnail.
proof fn lemma_thumbnail_stays_invalid(attributes: Seq<AttributeView>, k: int)
    requires
        0 <= k <= attributes.len(),
        thumbnail_from(attributes.take(k)) is None,
    ensures
        thumbnail_from(attributes) is None,
    decreases attributes.len() - k,
{
    if k == attributes.len() {
        assert(attributes.take(k) == attributes);
    } else {
        assert(attributes.take(k + 1).drop_last() == attributes.take(k));
        lemma_thumbnail_stays_invalid(attributes, k + 1);
    }
}

/// The canonical address of a video: `url` without its query.
pub fn strip_query<'a>(url: &'a str) -> (address: &'a str)
    ensures
        address@ == canonical_url(url@),
{
    before_first(url, '?')
}

/// The identifier of a video: what follows the last `/` of `url`, without
/// the query.
pub fn extract_video_id<'a>(url: &'a str) -> (id: &'a str)
    ensures
        id@ == video_id(url@),
{
    before_first(after_last(url, '/'), '?')
}

/// Writes the fragment for a video: an image of the thumbnail, a paragraph
/// with the description, and a player for the video `id`.
pub fn render_description(thumbnail: &ThumbnailInfo, description: &str, id: &str) -> (html: String)
    ensures
        html@ == description_html(thumbnail@, description@, id@),
{
    let mut html = String::new();
    html.append(IMAGE_OPEN);
    html.append(thumbnail.url);
    html.append(IMAGE_WIDTH);
    push_decimal(&mut html, thumbnail.width as u64);
    html.append(IMAGE_HEIGHT);
    push_decimal(&mut html, thumbnail.height as u64);
    html.append(PARAGRAPH_OPEN);
    html.append(description);
    html.append(PLAYER_OPEN);
    html.append(id);
    html.append(PLAYER_CLOSE);
    assert(html@ =~= description_html(thumbnail@, description@, id@));
    html
}

} // verus!
