use youtube_rss::error::{Fault, TranslationError};
use youtube_rss::event::{Attribute, QualifiedName};
use youtube_rss::html::{
    extract_video_id, read_thumbnail, render_description, strip_query, ThumbnailInfo,
};

fn attribute(prefix: Option<&str>, local_name: &str, value: &str) -> Attribute {
    Attribute {
        name: QualifiedName {
            prefix: prefix.map(|p| p.to_string()),
            local_name: local_name.to_string(),
        },
        value: value.to_string(),
    }
}

#[test]
fn thumbnail_is_read_from_url_width_and_height() {
    let attributes = vec![
        attribute(None, "url", "https://i.example/XYZ.jpg"),
        attribute(None, "type", "image/jpeg"),
        attribute(None, "width", "120"),
        attribute(None, "height", "90"),
    ];
    assert_eq!(
        read_thumbnail(&attributes),
        Ok(ThumbnailInfo { url: "https://i.example/XYZ.jpg", width: 120, height: 90 })
    );
}

#[test]
fn thumbnail_without_attributes_is_empty() {
    assert_eq!(read_thumbnail(&vec![]), Ok(ThumbnailInfo { url: "", width: 0, height: 0 }));
    let only_width = vec![attribute(None, "width", "480")];
    assert_eq!(
        read_thumbnail(&only_width),
        Ok(ThumbnailInfo { url: "", width: 480, height: 0 })
    );
}

#[test]
fn the_last_attribute_of_a_name_counts() {
    let attributes = vec![
        attribute(Some("a"), "url", "first"),
        attribute(Some("b"), "url", "second"),
        attribute(Some("a"), "width", "1"),
        attribute(Some("b"), "width", "2"),
    ];
    assert_eq!(
        read_thumbnail(&attributes),
        Ok(ThumbnailInfo { url: "second", width: 2, height: 0 })
    );
}

#[test]
fn a_size_that_is_no_number_is_refused() {
    let wide = vec![attribute(None, "width", "wide"), attribute(None, "height", "90")];
    assert_eq!(
        read_thumbnail(&wide),
        Err(TranslationError::StructuralError(Fault::InvalidDimension))
    );
    let negative = vec![attribute(None, "height", "-90")];
    assert_eq!(
        read_thumbnail(&negative),
        Err(TranslationError::StructuralError(Fault::InvalidDimension))
    );
    let mended = vec![attribute(Some("a"), "width", "x"), attribute(Some("b"), "width", "2")];
    assert_eq!(
        read_thumbnail(&mended),
        Err(TranslationError::StructuralError(Fault::InvalidDimension))
    );
}

#[test]
fn the_query_is_stripped_from_the_address() {
    assert_eq!(strip_query("https://r.example/XYZ?x=1"), "https://r.example/XYZ");
    assert_eq!(strip_query("https://r.example/XYZ"), "https://r.example/XYZ");
    assert_eq!(strip_query("https://r.example/XYZ?a=1?b=2"), "https://r.example/XYZ");
}

#[test]
fn the_video_is_named_by_the_last_segment() {
    assert_eq!(extract_video_id("https://r.example/XYZ?x=1"), "XYZ");
    assert_eq!(extract_video_id("https://r.example/XYZ"), "XYZ");
    assert_eq!(extract_video_id("https://www.youtube.com/v/dQw4w9WgXcQ?version=3"), "dQw4w9WgXcQ");
    assert_eq!(extract_video_id("XYZ"), "XYZ");
    assert_eq!(extract_video_id("https://r.example/"), "");
}

#[test]
fn a_query_does_not_change_the_video() {
    let plain = "https://r.example/v/VIDEOID";
    let queried = "https://r.example/v/VIDEOID?foo=bar";
    assert_eq!(extract_video_id(plain), extract_video_id(queried));
    assert_eq!(strip_query(plain), strip_query(queried));
    assert_eq!(strip_query(queried), plain);
}

#[test]
fn a_slash_in_the_query_names_another_video() {
    assert_eq!(extract_video_id("https://r.example/VIDEOID?next=a/b"), "b");
}

#[test]
fn the_description_follows_the_template() {
    let thumbnail = ThumbnailInfo { url: "https://i.example/t.jpg", width: 120, height: 90 };
    let expected = "
                            <img src=\"https://i.example/t.jpg\" alt=\"YouTube thumbnail\" class=\"\" loading=\"lazy\" width=\"120\" height=\"90\" />
                            <p>desc text</p>
                            <iframe
                                allow=\"accelerometer; autoplay; clipboard-write; encrypted-media; gyroscope; picture-in-picture; web-share\"
                                allowfullscreen=\"allowfullscreen\"
                                loading=\"eager\"
                                referrerpolicy=\"strict-origin-when-cross-origin\"
                                src=\"https://www.youtube.com/embed/XYZ?autoplay=0&controls=1&end=0&loop=0&mute=0&start=0\"
                                style=\"position: absolute; top: 0; left: 0; width: 100%; height: 100%; border:0;\"
                                title=\"YouTube video\">
                            </iframe>
                            ";
    assert_eq!(render_description(&thumbnail, "desc text", "XYZ"), expected);
}

#[test]
fn the_description_of_a_video_without_thumbnail() {
    let none = ThumbnailInfo { url: "", width: 0, height: 0 };
    let html = render_description(&none, "", "");
    assert!(html.contains("<img src=\"\" alt=\"YouTube thumbnail\" class=\"\" loading=\"lazy\" width=\"0\" height=\"0\" />"));
    assert!(html.contains("<p></p>"));
    assert!(html.contains("src=\"https://www.youtube.com/embed/?autoplay=0"));
}
