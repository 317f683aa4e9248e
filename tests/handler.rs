use tun_proxy::cors::{add_cache_control_headers, add_cors_headers};
use tun_proxy::handler::{error_reply, plan_request, upstream_reply, AppError, Step};
use tun_proxy::headers::HeaderList;
use tun_proxy::config::{default_listening, Config};

fn list(entries: &[(&str, &str)]) -> HeaderList {
    entries.iter().map(|(n, v)| (n.to_string(), v.as_bytes().to_vec())).collect()
}

fn get<'a>(h: &'a HeaderList, name: &str) -> Option<&'a str> {
    h.iter()
        .find(|(n, _)| n.eq_ignore_ascii_case(name))
        .map(|(_, v)| std::str::from_utf8(v).unwrap())
}

fn forward(headers: &HeaderList, target: &str) -> tun_proxy::handler::Forward {
    match plan_request(false, headers, "tok", target) {
        Step::Forward(f) => f,
        Step::Respond(r) => panic!("unexpected reply {}", r.status),
    }
}

#[test]
fn redirect_to_absolute_path() {
    let req = list(&[("authorization", "Bearer tok")]);
    let f = forward(&req, "http://example.com/a/b?x=1");
    assert_eq!(f.origin, "http://example.com");
    let up = list(&[("Location", "/c")]);
    let (status, h) = upstream_reply(&f.stamped, &f.origin, 302, &up);
    assert_eq!(status, 200);
    assert_eq!(get(&h, "tun-status"), Some("302"));
    assert_eq!(get(&h, "tun-Location"), Some("http://example.com/c"));
    assert_eq!(get(&h, "tun-Location-Proxy"), Some("/proxy?url=http%3A%2F%2Fexample.com%2Fc"));
    assert_eq!(get(&h, "location"), None);
    assert_eq!(get(&h, "Access-Control-Allow-Origin"), Some("*"));
}

#[test]
fn redirect_to_relative_path() {
    let req = list(&[("authorization", "Bearer tok")]);
    let f = forward(&req, "http://example.com/a/b?x=1");
    let up = list(&[("location", "d/e")]);
    let (status, h) = upstream_reply(&f.stamped, &f.origin, 302, &up);
    assert_eq!(status, 200);
    assert_eq!(get(&h, "tun-Location"), Some("http://example.com/d/e"));
}

#[test]
fn missing_authorization_is_refused() {
    let req = list(&[("origin", "https://app.example")]);
    match plan_request(false, &req, "tok", "http://example.com/") {
        Step::Respond(r) => {
            assert_eq!(r.status, 401);
            assert_eq!(r.body, "未认证，请更新App: bearer 认证失败");
            assert_eq!(get(&r.headers, "Access-Control-Allow-Origin"), Some("https://app.example"));
            assert_eq!(get(&r.headers, "Cache-Control"), Some("no-store, no-cache, must-revalidate, post-check=0, pre-check=0"));
        }
        Step::Forward(_) => panic!("forwarded without credential"),
    }
}

#[test]
fn preflight_answered_with_cors() {
    let req = list(&[("Origin", "https://app.example"), ("Access-Control-Request-Headers", "x-foo")]);
    match plan_request(true, &req, "tok", "") {
        Step::Respond(r) => {
            assert_eq!(r.status, 200);
            assert!(r.body.is_empty());
            assert_eq!(get(&r.headers, "Access-Control-Allow-Origin"), Some("https://app.example"));
            assert_eq!(get(&r.headers, "Access-Control-Allow-Headers"), Some("x-foo"));
            assert_eq!(get(&r.headers, "Access-Control-Allow-Methods"), Some("*"));
            assert_eq!(get(&r.headers, "Access-Control-Max-Age"), Some("86400"));
            assert_eq!(get(&r.headers, "Access-Control-Allow-Credentials"), Some("true"));
            assert_eq!(
                get(&r.headers, "Access-Control-Expose-Headers"),
                Some("tun-Location, tun-Location-Proxy, tun-set-cookie, tun-status")
            );
            assert_eq!(get(&r.headers, "Cache-Control"), None);
        }
        Step::Forward(_) => panic!("preflight forwarded"),
    }
}

#[test]
fn bad_target_is_client_error() {
    let req = list(&[("authorization", "bearer  tok ")]);
    match plan_request(false, &req, "tok", "::nonsense") {
        Step::Respond(r) => {
            assert_eq!(r.status, 400);
            assert_eq!(r.body, "url参数错误");
            assert_eq!(get(&r.headers, "Access-Control-Allow-Origin"), Some("*"));
        }
        Step::Forward(_) => panic!("bad url forwarded"),
    }
}

#[test]
fn forwarded_headers_mapped() {
    let req = list(&[
        ("authorization", "Bearer tok"),
        ("accept", "a"),
        ("tun-accept", "b"),
        ("tun-cookie", "c=1"),
    ]);
    let f = forward(&req, "https://example.com/x");
    assert_eq!(f.headers, list(&[("accept", "b"), ("cookie", "c=1")]));
}

#[test]
fn origin_cors_never_reaches_client() {
    let req = list(&[("authorization", "Bearer tok")]);
    let f = forward(&req, "http://example.com/");
    let up = list(&[
        ("access-control-allow-origin", "https://evil"),
        ("ACCESS-CONTROL-MAX-AGE", "5"),
        ("cache-control", "max-age=60"),
        ("set-cookie", "s=1"),
    ]);
    let (status, h) = upstream_reply(&f.stamped, &f.origin, 404, &up);
    assert_eq!(status, 404);
    assert_eq!(get(&h, "Access-Control-Allow-Origin"), Some("*"));
    assert_eq!(get(&h, "Access-Control-Max-Age"), Some("86400"));
    assert_eq!(get(&h, "Cache-Control"), Some("no-store, no-cache, must-revalidate, post-check=0, pre-check=0"));
    assert_eq!(get(&h, "tun-set-cookie"), Some("s=1"));
    let cors = h.iter().filter(|(n, _)| n.to_ascii_lowercase().starts_with("access-control-")).count();
    assert_eq!(cors, 6);
}

#[test]
fn allow_headers_defaults_when_empty() {
    let req = list(&[("access-control-request-headers", "")]);
    let mut h: HeaderList = Vec::new();
    add_cors_headers(&mut h, &req);
    assert_eq!(get(&h, "Access-Control-Allow-Headers"), Some("*"));
    add_cache_control_headers(&mut h);
    assert_eq!(get(&h, "Pragma"), Some("no-cache"));
    assert_eq!(get(&h, "Expires"), Some("0"));
    assert_eq!(h.len(), 9);
}

#[test]
fn errors_map_to_status() {
    let stamped = list(&[("Access-Control-Allow-Origin", "*")]);
    let r = error_reply(&stamped, AppError::Internal("connection refused".to_string()));
    assert_eq!(r.status, 500);
    assert_eq!(r.body, "connection refused");
    assert_eq!(r.headers, stamped);
    assert_eq!(AppError::BadRequest("b".to_string()).into_parts().0, 400);
    assert_eq!(AppError::Unauthorized("u".to_string()).into_parts().0, 401);
}

#[test]
fn out_of_range_status_becomes_ok() {
    let (status, _) = upstream_reply(&Vec::new(), "http://e", 1000, &Vec::new());
    assert_eq!(status, 200);
    let (status, _) = upstream_reply(&Vec::new(), "http://e", 399, &Vec::new());
    assert_eq!(status, 200);
}

#[test]
fn template_configuration() {
    let c = Config::create_template([0u8; 16]);
    assert!(!c.tls);
    assert!(c.tls_cert.is_empty() && c.tls_key.is_empty() && c.http_proxy.is_empty());
    assert_eq!(c.listening, "0.0.0.0:10010");
    assert_eq!(default_listening(), "0.0.0.0:10010");
    assert!(c.insecure_skip_verify);
    assert_eq!(c.token, "00000000-0000-4000-8000-000000000000");
    let other = Config::default_with([0xffu8; 16]);
    assert_eq!(other.token, "ffffffff-ffff-4fff-bfff-ffffffffffff");
    let counting: [u8; 16] = [0, 1, 2, 3, 4, 5, 6, 7, 8, 9, 10, 11, 12, 13, 14, 15];
    assert_eq!(Config::default_with(counting).token, "00010203-0405-4607-8809-0a0b0c0d0e0f");
}
