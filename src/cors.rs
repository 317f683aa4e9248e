//! The cross-origin and cache headers stamped on every response.
use vstd::prelude::*;
use vstd::string::*;
use vstd::utf8::encode_utf8;
use crate::headers::{first_named, header_find, header_set_all, hv, set_all, HeaderList, HeaderSeq};
use crate::proxy::{is_visible_ascii, visible_ascii};

verus! {

/// The bytes of the first header named `n`, where they read as text.
pub open spec fn readable(h: HeaderSeq, n: Seq<char>) -> Option<Seq<u8>> {
    match first_named(h, n) {
        Some(i) => if visible_ascii(h[i].1) {
            Some(h[i].1)
        } else {
            None
        },
        None => None,
    }
}

/// Reads the bytes of the first header named `name`, where they read as text.
pub fn header_bytes(h: &HeaderList, name: &str) -> (r: Option<Vec<u8>>)
    ensures
        match r {
            Some(b) => readable(hv(h@), name@) == Some(b@),
            None => readable(hv(h@), name@) is None,
        },
{
    match header_find(h, name) {
        Some(i) => {
            assert(hv(h@)[i as int].1 == h@[i as int].1@);
            if is_visible_ascii(&h[i].1) {
                let v = h[i].1.clone();
                assert(v@ =~= h@[i as int].1@);
                Some(v)
            } else {
                None
            }
        },
        None => None,
    }
}

/// The allowed origin: the request's `Origin`, else any.
pub open spec fn allow_origin(req: HeaderSeq) -> Seq<u8> {
    match readable(req, "origin"@) {
        Some(b) => b,
        None => encode_utf8("*"@),
    }
}

/// The allowed headers: those the preflight asked for, else any.
pub open spec fn allow_headers(req: HeaderSeq) -> Seq<u8> {
    match readable(req, "access-control-request-headers"@) {
        Some(b) => if b.len() > 0 {
            b
        } else {
            encode_utf8("*"@)
        },
        None => encode_utf8("*"@),
    }
}

/// The six cross-origin headers answered to a request with headers `req`.
pub open spec fn cors_entries(req: HeaderSeq) -> HeaderSeq {
    cors_list(allow_origin(req), allow_headers(req))
}

/// The six cross-origin headers, given the allowed origin and headers.
#[verifier::opaque]
pub open spec fn cors_list(origin: Seq<u8>, allowed: Seq<u8>) -> HeaderSeq {
    seq![
        ("Access-Control-Allow-Origin"@, origin),
        ("Access-Control-Allow-Methods"@, encode_utf8("*"@)),
        ("Access-Control-Allow-Headers"@, allowed),
        ("Access-Control-Max-Age"@, encode_utf8("86400"@)),
        ("Access-Control-Allow-Credentials"@, encode_utf8("true"@)),
        ("Access-Control-Expose-Headers"@, encode_utf8("tun-Location, tun-Location-Proxy, tun-set-cookie, tun-status"@)),
    ]
}

fn entry(name: &str, value: &str) -> (r: (String, Vec<u8>))
    ensures
        r.0@ == name@,
        r.1@ == encode_utf8(value@),
{
    (name.to_owned(), value.as_bytes_vec())
}

/// The cross-origin headers answered to a request with headers `request_headers`.
pub fn cors_headers_for(request_headers: &HeaderList) -> (r: HeaderList)
    ensures
        hv(r@) == cors_entries(hv(request_headers@)),
{
    let origin = match header_bytes(request_headers, "origin") {
        Some(b) => b,
        None => "*".as_bytes_vec(),
    };
    assert(origin@ == allow_origin(hv(request_headers@)));
    let allowed = match header_bytes(request_headers, "access-control-request-headers") {
        Some(b) => if b.len() > 0 {
            b
        } else {
            "*".as_bytes_vec()
        },
        None => "*".as_bytes_vec(),
    };
    assert(allowed@ == allow_headers(hv(request_headers@)));
    cors_header_list(origin, allowed)
}

/// The six cross-origin headers, given the allowed origin and headers.
#[verifier::rlimit(40)]
fn cors_header_list(origin: Vec<u8>, allowed: Vec<u8>) -> (r: HeaderList)
    ensures
        hv(r@) == cors_list(origin@, allowed@),
{
    let mut v: HeaderList = Vec::new();
    v.push((String::from_str("Access-Control-Allow-Origin"), origin));
    v.push(entry("Access-Control-Allow-Methods", "*"));
    v.push((String::from_str("Access-Control-Allow-Headers"), allowed));
    v.push(entry("Access-Control-Max-Age", "86400"));
    v.push(entry("Access-Control-Allow-Credentials", "true"));
    v.push(entry("Access-Control-Expose-Headers", "tun-Location, tun-Location-Proxy, tun-set-cookie, tun-status"));
    proof {
        reveal(cors_list);
    }

    v
}

/// Stamps the cross-origin headers for a request onto a response.
pub fn add_cors_headers(response_headers: &mut HeaderList, request_headers: &HeaderList)
    ensures
        hv(final(response_headers)@) == set_all(hv(old(response_headers)@), cors_entries(hv(request_headers@))),
{
    let entries = cors_headers_for(request_headers);
    header_set_all(response_headers, &entries);
}

/// The headers that forbid caching.
#[verifier::opaque]
pub open spec fn cache_entries() -> HeaderSeq {
    seq![
        ("Cache-Control"@, encode_utf8("no-store, no-cache, must-revalidate, post-check=0, pre-check=0"@)),
        ("Pragma"@, encode_utf8("no-cache"@)),
        ("Expires"@, encode_utf8("0"@)),
    ]
}

/// Stamps the headers that forbid caching onto a response.
pub fn add_cache_control_headers(response_headers: &mut HeaderList)
    ensures
        hv(final(response_headers)@) == set_all(hv(old(response_headers)@), cache_entries()),
{
    let mut v: HeaderList = Vec::new();
    v.push(entry("Cache-Control", "no-store, no-cache, must-revalidate, post-check=0, pre-check=0"));
    v.push(entry("Pragma", "no-cache"));
    v.push(entry("Expires", "0"));
    proof {
        reveal(cache_entries);
    }
    assert(hv(v@) =~= cache_entries());
    header_set_all(response_headers, &v);
}

} // verus!
