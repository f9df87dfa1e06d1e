use youtube_rss::event::{find_attribute, Attribute, QualifiedName};

fn attribute(prefix: Option<&str>, local_name: &str, value: &str) -> Attribute {
    Attribute {
        name: QualifiedName {
            prefix: prefix.map(|p| p.to_string()),
            local_name: local_name.to_string(),
        },
        value: value.to_string(),
    }
}

#[test]
fn an_attribute_is_found_by_its_local_name() {
    let attributes = vec![
        attribute(None, "rel", "self"),
        attribute(None, "href", "https://x.example/feed?channel_id=ABC"),
    ];
    assert_eq!(find_attribute(&attributes, "rel"), Some("self"));
    assert_eq!(find_attribute(&attributes, "href"), Some("https://x.example/feed?channel_id=ABC"));
    assert_eq!(find_attribute(&attributes, "type"), None);
    assert_eq!(find_attribute(&vec![], "rel"), None);
}

#[test]
fn the_first_attribute_of_a_name_is_found() {
    let attributes = vec![
        attribute(Some("a"), "url", "first"),
        attribute(Some("b"), "url", "second"),
    ];
    assert_eq!(find_attribute(&attributes, "url"), Some("first"));
}
