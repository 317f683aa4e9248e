use tun_proxy::headers::HeaderList;
use tun_proxy::proxy::{
    build_proxy_url, is_absolute_path, is_full_url, modify_location, parse_origin_url,
    proxy_url_from_encoded, resolve_location, rewrite_location, strip_trailing_slashes,
};

fn list(entries: &[(&str, &str)]) -> HeaderList {
    entries.iter().map(|(n, v)| (n.to_string(), v.as_bytes().to_vec())).collect()
}

#[test]
fn origin_of_target() {
    assert_eq!(parse_origin_url("http://example.com/a/b?x=1").as_deref(), Some("http://example.com"));
    assert_eq!(parse_origin_url("https://h.example:8443/p").as_deref(), Some("https://h.example:8443"));
    assert_eq!(parse_origin_url("not a url"), None);
    assert_eq!(parse_origin_url("/relative/only"), None);
    assert_eq!(parse_origin_url("mailto:a@b"), None);
    assert_eq!(parse_origin_url("data:text/plain,hi"), None);
}

#[test]
fn trailing_slashes() {
    assert_eq!(strip_trailing_slashes("http://a.b///"), "http://a.b");
    assert_eq!(strip_trailing_slashes(""), "");
}

#[test]
fn location_classes() {
    assert!(is_full_url("http://x"));
    assert!(is_full_url("https://x"));
    assert!(!is_full_url("HTTP://x"));
    assert!(is_absolute_path("/x"));
    assert!(!is_absolute_path("x"));
}

#[test]
fn resolve_each_class() {
    let o = "http://example.com";
    assert_eq!(resolve_location("//cdn.example/x", o, Some("http")), "http://cdn.example/x");
    assert_eq!(resolve_location("//cdn.example/x", o, None), "//cdn.example/x");
    assert_eq!(resolve_location("https://other/y", o, Some("http")), "https://other/y");
    assert_eq!(resolve_location("/c", o, Some("http")), "http://example.com/c");
    assert_eq!(resolve_location("d/e", o, Some("http")), "http://example.com/d/e");
}

#[test]
fn resolved_full_url_is_stable() {
    let o = "https://example.com";
    for loc in ["/c", "d/e", "//h/x", "http://z/q"] {
        let once = resolve_location(loc, o, Some("https"));
        let twice = resolve_location(&once, o, Some("https"));
        assert_eq!(once, twice);
    }
}

#[test]
fn proxy_url_encodes() {
    assert_eq!(build_proxy_url("http://example.com/c"), "/proxy?url=http%3A%2F%2Fexample.com%2Fc");
    assert_eq!(build_proxy_url("a-b_c.d~e f"), "/proxy?url=a-b_c.d~e%20f");
    assert_eq!(build_proxy_url("é"), "/proxy?url=%C3%A9");
    assert_eq!(proxy_url_from_encoded("x%20y"), "/proxy?url=x%20y");
}

#[test]
fn location_rewritten_with_scheme() {
    let mut h = list(&[("location", "  /c  "), ("x", "1")]);
    rewrite_location(&mut h, "http://example.com", Some("http"));
    assert_eq!(
        h,
        list(&[
            ("x", "1"),
            ("tun-Location", "http://example.com/c"),
            ("tun-Location-Proxy", "/proxy?url=http%3A%2F%2Fexample.com%2Fc"),
        ])
    );
}

#[test]
fn location_blank_or_absent_left_alone() {
    let mut h = list(&[("location", "   ")]);
    modify_location(&mut h, "http://example.com");
    assert_eq!(h, list(&[("location", "   ")]));
    let mut none = list(&[("x", "1")]);
    modify_location(&mut none, "http://example.com");
    assert_eq!(none, list(&[("x", "1")]));
}

#[test]
fn protocol_relative_takes_origin_scheme() {
    let mut h = list(&[("Location", "//cdn.example/p")]);
    modify_location(&mut h, "https://example.com");
    assert_eq!(h[0], ("tun-Location".to_string(), b"https://cdn.example/p".to_vec()));
}

#[test]
fn non_ascii_location_is_rewritten() {
    let mut h: HeaderList = vec![
        ("x".to_string(), b"1".to_vec()),
        ("location".to_string(), "/\u{e9}".as_bytes().to_vec()),
        ("Location".to_string(), b"/b".to_vec()),
    ];
    modify_location(&mut h, "http://example.com");
    assert_eq!(
        h,
        vec![
            ("x".to_string(), b"1".to_vec()),
            ("tun-Location".to_string(), "http://example.com/\u{e9}".as_bytes().to_vec()),
            ("tun-Location-Proxy".to_string(), b"/proxy?url=http%3A%2F%2Fexample.com%2F%C3%A9".to_vec()),
        ]
    );
}

#[test]
fn blank_non_ascii_location_left_alone() {
    let mut h: HeaderList = vec![("location".to_string(), vec![0xc2, 0xa0])];
    modify_location(&mut h, "http://example.com");
    assert_eq!(h, vec![("location".to_string(), vec![0xc2, 0xa0])]);
}

#[test]
fn invalid_utf8_location_is_removed() {
    let mut h: HeaderList = vec![("x".to_string(), b"1".to_vec()), ("location".to_string(), vec![b'/', 0xff])];
    modify_location(&mut h, "http://example.com");
    assert_eq!(h, list(&[("x", "1")]));
}
