use feedgen::url::Url;

#[test]
fn parsing_gives_the_serialized_url() {
    let url = Url::parse("https://example.net").unwrap();
    assert_eq!(url.as_str(), "https://example.net/");
    let url = Url::parse("HTTPS://Example.NET/a/../b?q#f").unwrap();
    assert_eq!(url.as_str(), "https://example.net/b?q#f");
    assert_eq!(url.duplicate().as_str(), url.as_str());
}

#[test]
fn parsing_refuses_what_is_no_absolute_url() {
    assert!(Url::parse("/x").is_none());
    assert!(Url::parse("").is_none());
    assert!(Url::parse("example.net/a").is_none());
    assert!(Url::parse("https://").is_none());
}

#[test]
fn joining_resolves_against_the_base() {
    let base = Url::parse("https://example.net/a/b.html").unwrap();
    assert_eq!(base.join("c.png").unwrap().as_str(), "https://example.net/a/c.png");
    assert_eq!(base.join("/v1/meta").unwrap().as_str(), "https://example.net/v1/meta");
    assert_eq!(base.join("//eve.com/b").unwrap().as_str(), "https://eve.com/b");
    assert_eq!(base.join("http://eve.com/b").unwrap().as_str(), "http://eve.com/b");
    assert_eq!(base.join("").unwrap().as_str(), "https://example.net/a/b.html");
    assert!(base.join("https://").is_none());
}
