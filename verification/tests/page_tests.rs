use chev_shell::page::{extract_attr, extract_content};

#[test]
fn test_extract_attr() {
    assert_eq!(
        extract_attr("meta property=\"og:title\" content=\"Hello\"", "content"),
        "Hello"
    );
    assert_eq!(
        extract_attr("meta property=\"og:title\" content=\"Hello\"", "property"),
        "og:title"
    );
    assert_eq!(extract_attr("meta name=\"x\"", "content"), "");
    assert_eq!(extract_attr("meta content=\"unterminated", "content"), "");
}

#[test]
fn test_extract_content_strips_tags_and_scripts() {
    let html =
        "<html><body><p>Hello</p><script>var x = 1;</script><p>World</p></body></html>";
    let (text, meta) = extract_content(html);
    assert_eq!(text, "Hello\nWorld");
    assert_eq!(meta.title, "");
    assert_eq!(meta.image_url, None);
    assert_eq!(meta.description, "");
}

#[test]
fn test_extract_content_title_fallback() {
    let html = "<html><head><title> My Page </title></head><body><p>Hi</p></body></html>";
    let (text, meta) = extract_content(html);
    assert_eq!(meta.title, "My Page");
    assert_eq!(text, "My Page\nHi");
}

#[test]
fn test_extract_content_meta_tags() {
    // The tag text is matched (and read) in lower case, so attribute
    // values come back lowered too.
    let html = "<html><head>\
        <meta property=\"og:title\" content=\"Crab\"/>\
        <meta property=\"og:description\" content=\"about crabs\"/>\
        <meta property=\"og:image\" content=\"http://x/y.png\"/>\
        </head><body><div>B</div></body></html>";
    let (text, meta) = extract_content(html);
    assert_eq!(meta.title, "crab");
    assert_eq!(meta.description, "about crabs");
    assert_eq!(meta.image_url, Some("http://x/y.png".to_string()));
    assert_eq!(text, "B");
}

#[test]
fn test_extract_content_nested_blocks() {
    let html = "<div>a<div>b</div>c</div>";
    let (text, _) = extract_content(html);
    assert_eq!(text, "a\nb\nc");
}
