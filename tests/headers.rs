use tun_proxy::headers::{
    copy_request_headers, copy_response_headers, decimal_bytes, default_forward_headers,
    header_find, header_remove, header_set, is_cors_header, HeaderList,
};

fn list(entries: &[(&str, &str)]) -> HeaderList {
    entries.iter().map(|(n, v)| (n.to_string(), v.as_bytes().to_vec())).collect()
}

fn names(h: &HeaderList) -> Vec<String> {
    h.iter().map(|(n, _)| n.clone()).collect()
}

#[test]
fn test_is_cors_header() {
    assert!(is_cors_header("Access-Control-Allow-Origin"));
    assert!(is_cors_header("access-control-allow-methods"));
    assert!(!is_cors_header("Content-Type"));
    assert!(!is_cors_header("X-Custom-Header"));
}

#[test]
fn forward_names_are_the_six() {
    let v = default_forward_headers();
    assert_eq!(
        v,
        vec!["content-type", "content-length", "user-agent", "accept", "accept-encoding", "keep-alive"]
    );
}

#[test]
fn request_whitelist_and_drop() {
    let src = list(&[
        ("content-type", "text/plain"),
        ("cookie", "a=b"),
        ("Accept", "*/*"),
        ("authorization", "Bearer x"),
    ]);
    let out = copy_request_headers(&src);
    assert_eq!(out, list(&[("content-type", "text/plain"), ("Accept", "*/*")]));
}

#[test]
fn request_escape_prefix_overrides_whitelisted() {
    let src = list(&[
        ("user-agent", "browser"),
        ("tun-User-Agent", "custom"),
        ("TUN-x-trace", "1"),
        ("tun-x-trace", "2"),
        ("tun-", "empty"),
    ]);
    let out = copy_request_headers(&src);
    assert_eq!(
        out,
        list(&[("user-agent", "custom"), ("x-trace", "1"), ("x-trace", "2")])
    );
}

#[test]
fn response_headers_renamed_and_stripped() {
    let src = list(&[
        ("Access-Control-Allow-Origin", "https://evil"),
        ("set-cookie", "a=1"),
        ("Set-Cookie", "b=2"),
        ("content-type", "text/html"),
    ]);
    let mut target: HeaderList = Vec::new();
    copy_response_headers(&src, &mut target, 200);
    assert_eq!(
        target,
        list(&[("tun-set-cookie", "a=1"), ("tun-set-cookie", "b=2"), ("content-type", "text/html")])
    );
}

#[test]
fn response_redirect_records_status() {
    let src = list(&[("location", "/x")]);
    let mut target: HeaderList = list(&[("tun-status", "old")]);
    copy_response_headers(&src, &mut target, 307);
    assert_eq!(target, list(&[("tun-status", "307"), ("location", "/x")]));
    let mut plain: HeaderList = Vec::new();
    copy_response_headers(&src, &mut plain, 400);
    assert_eq!(names(&plain), vec!["location"]);
    let mut low: HeaderList = Vec::new();
    copy_response_headers(&src, &mut low, 299);
    assert_eq!(names(&low), vec!["location"]);
}

#[test]
fn decimal_digits() {
    assert_eq!(decimal_bytes(0), b"0".to_vec());
    assert_eq!(decimal_bytes(302), b"302".to_vec());
    assert_eq!(decimal_bytes(65535), b"65535".to_vec());
}

#[test]
fn header_list_operations() {
    let mut h = list(&[("A", "1"), ("b", "2"), ("a", "3")]);
    assert_eq!(header_find(&h, "a"), Some(0));
    assert_eq!(header_find(&h, "c"), None);
    header_set(&mut h, "B", b"9".to_vec());
    assert_eq!(h, list(&[("A", "1"), ("a", "3"), ("B", "9")]));
    header_remove(&mut h, "a");
    assert_eq!(h, list(&[("B", "9")]));
}
