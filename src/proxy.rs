//! Origin resolution, redirect rewriting and the response headers this gateway stamps.
use vstd::prelude::*;
use vstd::string::*;
use vstd::utf8::{decode_utf8, encode_utf8, valid_utf8};
use crate::headers::{drop_named, first_named, header_find, header_remove, header_set, hv, set_named, HeaderList, HeaderSeq};
use crate::text::{has_prefix, trim, trim_ws};

verus! {

/// What `url::Url` makes of `s` with its path set to `/` and its query cleared,
/// serialised; `None` where `s` does not parse.
pub uninterp spec fn root_url_of(s: Seq<char>) -> Option<Seq<char>>;

/// The scheme of `s` as `url::Url` parses it; `None` where `s` does not parse.
pub uninterp spec fn scheme_of(s: Seq<char>) -> Option<Seq<char>>;

/// Relies on `url::Url::parse`, `set_path`, `set_query` and its serialisation:
/// the root of the parsed URL, or nothing where parsing fails.
#[verifier::external_body]
fn root_url(s: &str) -> (r: Option<String>)
    ensures
        match r {
            Some(u) => root_url_of(s@) == Some(u@),
            None => root_url_of(s@) is None,
        },
{
    let mut u = url::Url::parse(s).ok()?;
    u.set_path("/");
    u.set_query(None);
    Some(u.to_string())
}

/// Whether `url::Url` parses `s` into a URL with a host.
pub uninterp spec fn host_present(s: Seq<char>) -> bool;

/// Relies on `url::Url::parse` and `url::Url::has_host`: whether `s` parses into
/// a URL with a host.
#[verifier::external_body]
fn url_has_host(s: &str) -> (r: bool)
    ensures
        r == host_present(s@),
{
    url::Url::parse(s).map(|u| u.has_host()).unwrap_or(false)
}

/// Relies on `url::Url::parse` and `url::Url::scheme`: the scheme of the parsed
/// URL, which is the text before the first `:` of a URL beginning `http://` or
/// `https://`.
#[verifier::external_body]
fn url_scheme(s: &str) -> (r: Option<String>)
    ensures
        match r {
            Some(u) => scheme_of(s@) == Some(u@),
            None => scheme_of(s@) is None,
        },
        begins(s@, "http://"@) && r is Some ==> r->0@ == "http"@,
        begins(s@, "https://"@) && r is Some ==> r->0@ == "https"@,
{
    url::Url::parse(s).ok().map(|u| u.scheme().to_string())
}

/// `s` with every trailing `/` removed.
pub open spec fn strip_slashes(s: Seq<char>) -> Seq<char>
    decreases s.len(),
{
    if s.len() > 0 && s.last() == '/' {
        strip_slashes(s.drop_last())
    } else {
        s
    }
}

/// Removes every trailing `/` from a root URL.
pub fn strip_trailing_slashes(root: &str) -> (r: String)
    ensures
        r@ == strip_slashes(root@),
{
    let mut n = root.unicode_len();
    assert(root@.subrange(0, n as int) =~= root@);
    while n > 0 && root.get_char(n - 1) == '/'
        invariant
            n <= root@.len(),
            strip_slashes(root@) == strip_slashes(root@.subrange(0, n as int)),
        decreases n,
    {
        assert(root@.subrange(0, n as int).drop_last() =~= root@.subrange(0, n as int - 1));
        n = n - 1;
    }
    root.substring_char(0, n).to_owned()
}

/// The origin of a target URL: scheme, host and port, with no path, query or
/// trailing slash. A URL that does not parse, or has no host, has none.
pub open spec fn origin_of(s: Seq<char>) -> Option<Seq<char>> {
    match root_url_of(s) {
        Some(u) => if host_present(s) {
            Some(strip_slashes(u))
        } else {
            None
        },
        None => None,
    }
}

/// Resolves the origin of a target URL; `None` where the URL does not parse or
/// names no host.
pub fn parse_origin_url(url_string: &str) -> (r: Option<String>)
    ensures
        match r {
            Some(o) => origin_of(url_string@) == Some(o@),
            None => origin_of(url_string@) is None,
        },
{
    match root_url(url_string) {
        Some(u) => if url_has_host(url_string) {
            Some(strip_trailing_slashes(u.as_str()))
        } else {
            None
        },
        None => None,
    }
}

pub open spec fn begins(s: Seq<char>, p: Seq<char>) -> bool {
    s.len() >= p.len() && s.subrange(0, p.len() as int) == p
}

/// A location that already names its scheme.
pub open spec fn full_url(s: Seq<char>) -> bool {
    begins(s, "http://"@) || begins(s, "https://"@)
}

pub open spec fn absolute_path(s: Seq<char>) -> bool {
    s.len() > 0 && s[0] == '/'
}

/// Whether a location starts with `http://` or `https://`.
pub fn is_full_url(uri: &str) -> (r: bool)
    ensures
        r == full_url(uri@),
{
    has_prefix(uri, "http://") || has_prefix(uri, "https://")
}

/// Whether a location starts with `/`.
pub fn is_absolute_path(uri: &str) -> (r: bool)
    ensures
        r == absolute_path(uri@),
{
    uri.unicode_len() > 0 && uri.get_char(0) == '/'
}

/// A location resolved against the origin and the origin's scheme: a
/// protocol-relative one takes the scheme, a full URL stays, an absolute path is
/// appended to the origin, and a relative path is appended after a `/`.
pub open spec fn resolve(loc: Seq<char>, origin: Seq<char>, scheme: Option<Seq<char>>) -> Seq<char> {
    if begins(loc, "//"@) {
        match scheme {
            Some(sc) => if sc.len() > 0 {
                sc + ":"@ + loc
            } else {
                loc
            },
            None => loc,
        }
    } else if full_url(loc) {
        loc
    } else if absolute_path(loc) {
        origin + loc
    } else {
        origin + "/"@ + loc
    }
}

pub open spec fn opt_view(o: Option<&str>) -> Option<Seq<char>> {
    match o {
        Some(s) => Some(s@),
        None => None,
    }
}

/// Resolves a trimmed redirect location against the origin it came from.
pub fn resolve_location(location: &str, origin: &str, origin_scheme: Option<&str>) -> (r: String)
    ensures
        r@ == resolve(location@, origin@, opt_view(origin_scheme)),
{
    if has_prefix(location, "//") {
        match origin_scheme {
            Some(sc) => {
                if sc.unicode_len() > 0 {
                    let mut s = sc.to_owned();
                    s.append(":");
                    s.append(location);
                    return s;
                }
                location.to_owned()
            },
            None => location.to_owned(),
        }
    } else if is_full_url(location) {
        location.to_owned()
    } else if is_absolute_path(location) {
        let mut s = origin.to_owned();
        s.append(location);
        s
    } else {
        let mut s = origin.to_owned();
        s.append("/");
        s.append(location);
        s
    }
}

/// A byte that percent-encoding leaves as it is.
pub open spec fn unreserved(b: u8) -> bool {
    (48 <= b <= 57) || (65 <= b <= 90) || (97 <= b <= 122) || b == 45 || b == 46 || b == 95 || b == 126
}

/// An upper-case hexadecimal digit.
pub open spec fn hex_digit(d: u8) -> char {
    if d < 10 {
        ((48 + d) as u8) as char
    } else {
        ((55 + d) as u8) as char
    }
}

/// Percent-encoding of bytes: unreserved bytes kept, each other byte as `%XX`.
pub open spec fn pct_encode(b: Seq<u8>) -> Seq<char>
    decreases b.len(),
{
    if b.len() == 0 {
        Seq::empty()
    } else {
        let x = b.last();
        pct_encode(b.drop_last()) + if unreserved(x) {
            seq![x as char]
        } else {
            seq!['%', hex_digit(x / 16), hex_digit(x % 16)]
        }
    }
}

/// Relies on `urlencoding::encode`: every UTF-8 byte of `s` but alphanumerics and
/// `-`, `.`, `_`, `~` written as `%` and two upper-case hexadecimal digits.
#[verifier::external_body]
fn url_encode(s: &str) -> (r: String)
    ensures
        r@ == pct_encode(encode_utf8(s@)),
{
    urlencoding::encode(s).into_owned()
}

/// The endpoint's own path.
pub open spec fn proxy_path() -> Seq<char> {
    "/proxy"@
}

/// The re-entry URL for `uri`: this endpoint with `uri` percent-encoded as `url`.
pub open spec fn proxy_url(uri: Seq<char>) -> Seq<char> {
    proxy_path() + "?url="@ + pct_encode(encode_utf8(uri))
}

/// The re-entry URL for an already encoded target.
pub fn proxy_url_from_encoded(encoded: &str) -> (r: String)
    ensures
        r@ == proxy_path() + "?url="@ + encoded@,
{
    let mut s = String::from_str("/proxy");
    s.append("?url=");
    s.append(encoded);
    s
}

/// Builds the re-entry URL that lets a client follow a redirect through this endpoint.
pub fn build_proxy_url(uri: &str) -> (r: String)
    ensures
        r@ == proxy_url(uri@),
{
    let e = url_encode(uri);
    proxy_url_from_encoded(e.as_str())
}

/// Bytes that a header value may be read as text from.
pub open spec fn visible_ascii(b: Seq<u8>) -> bool {
    forall|i: int| 0 <= i < b.len() ==> ((32 <= #[trigger] b[i] < 127) || b[i] == 9)
}

pub open spec fn ascii_chars(b: Seq<u8>) -> Seq<char> {
    b.map_values(|x: u8| x as char)
}

/// Whether a header value reads as text: tabs and visible ASCII only.
pub fn is_visible_ascii(b: &Vec<u8>) -> (r: bool)
    ensures
        r == visible_ascii(b@),
{
    let mut i: usize = 0;
    while i < b.len()
        invariant
            i <= b@.len(),
            forall|k: int| 0 <= k < i ==> ((32 <= #[trigger] b@[k] < 127) || b@[k] == 9),
        decreases b@.len() - i,
    {
        let x = b[i];
        if !((32 <= x && x < 127) || x == 9) {
            return false;
        }
        i = i + 1;
    }
    true
}

/// Relies on `String::from_utf8`: ASCII bytes are the characters of the same codes.
#[verifier::external_body]
fn ascii_text(b: Vec<u8>) -> (r: String)
    requires
        forall|i: int| 0 <= i < b@.len() ==> #[trigger] b@[i] < 128,
    ensures
        r@ == ascii_chars(b@),
{
    String::from_utf8(b).unwrap_or_default()
}

/// The text of the first header named `name`, where it reads as text.
pub open spec fn header_text(h: HeaderSeq, name: Seq<char>) -> Option<Seq<char>> {
    match first_named(h, name) {
        Some(i) => if visible_ascii(h[i].1) {
            Some(ascii_chars(h[i].1))
        } else {
            None
        },
        None => None,
    }
}

/// Reads the first header named `name` as text.
pub fn header_str(h: &HeaderList, name: &str) -> (r: Option<String>)
    ensures
        match r {
            Some(s) => header_text(hv(h@), name@) == Some(s@),
            None => header_text(hv(h@), name@) is None,
        },
{
    match header_find(h, name) {
        Some(i) => {
            assert(hv(h@)[i as int].1 == h@[i as int].1@);
            if is_visible_ascii(&h[i].1) {
                let v = h[i].1.clone();
                assert(v@ =~= h@[i as int].1@);
                Some(ascii_text(v))
            } else {
                None
            }
        },
        None => None,
    }
}

/// Relies on `String::from_utf8`: the text that valid UTF-8 bytes encode, and
/// an error for bytes that are not valid UTF-8.
#[verifier::external_body]
fn utf8_text(b: Vec<u8>) -> (r: Option<String>)
    ensures
        match r {
            Some(s) => valid_utf8(b@) && s@ == decode_utf8(b@),
            None => !valid_utf8(b@),
        },
{
    String::from_utf8(b).ok()
}

/// The text of the first `Location` of `h`, where its bytes are valid UTF-8.
pub open spec fn location_text(h: HeaderSeq) -> Option<Seq<char>> {
    match first_named(h, "location"@) {
        Some(i) => if valid_utf8(h[i].1) {
            Some(decode_utf8(h[i].1))
        } else {
            None
        },
        None => None,
    }
}

/// The header list after its `Location` is rewritten against `origin`: the
/// location is trimmed, resolved, and carried in `tun-Location` beside its
/// re-entry URL in `tun-Location-Proxy`, and `Location` itself is removed. A
/// `Location` whose bytes are not valid UTF-8 is removed with nothing in its
/// place. A list without `Location`, or whose `Location` is blank after
/// trimming, is left as it is.
pub open spec fn location_rewritten(h: HeaderSeq, origin: Seq<char>, scheme: Option<Seq<char>>) -> HeaderSeq {
    match location_text(h) {
        Some(t) => if trim(t).len() == 0 {
            h
        } else {
            let loc = resolve(trim(t), origin, scheme);
            set_named(
                set_named(drop_named(h, "location"@), "tun-Location"@, encode_utf8(loc)),
                "tun-Location-Proxy"@,
                encode_utf8(proxy_url(loc)),
            )
        },
        None => if first_named(h, "location"@) is Some {
            drop_named(h, "location"@)
        } else {
            h
        },
    }
}

/// Rewrites the `Location` header of a response, given the origin's scheme.
pub fn rewrite_location(response_headers: &mut HeaderList, origin: &str, origin_scheme: Option<&str>)
    ensures
        hv(final(response_headers)@) == location_rewritten(hv(old(response_headers)@), origin@, opt_view(origin_scheme)),
{
    let i = match header_find(response_headers, "location") {
        Some(i) => i,
        None => return,
    };
    let v = response_headers[i].1.clone();
    assert(v@ =~= hv(response_headers@)[i as int].1);
    let raw = match utf8_text(v) {
        Some(s) => s,
        None => {
            header_remove(response_headers, "location");
            return;
        },
    };
    let t = trim_ws(raw.as_str());
    if t.unicode_len() == 0 {
        return;
    }
    let location = resolve_location(t, origin, origin_scheme);
    let location_proxy = build_proxy_url(location.as_str());
    header_remove(response_headers, "location");
    header_set(response_headers, "tun-Location", location.as_str().as_bytes_vec());
    header_set(response_headers, "tun-Location-Proxy", location_proxy.as_str().as_bytes_vec());
}

/// Rewrites the `Location` header of a response against the request's origin.
pub fn modify_location(response_headers: &mut HeaderList, origin: &str)
    ensures
        hv(final(response_headers)@) == location_rewritten(hv(old(response_headers)@), origin@, scheme_of(origin@)),
        full_url(origin@) ==> scheme_of(origin@) is None || scheme_of(origin@) == Some("http"@) || scheme_of(origin@)
            == Some("https"@),
{
    let scheme = url_scheme(origin);
    match scheme {
        Some(s) => rewrite_location(response_headers, origin, Some(s.as_str())),
        None => rewrite_location(response_headers, origin, None),
    }
}

/// A resolved location that is a full URL resolves to itself again.
pub proof fn lemma_resolve_stable(loc: Seq<char>, origin: Seq<char>, scheme: Option<Seq<char>>)
    requires
        full_url(resolve(loc, origin, scheme)),
    ensures
        resolve(resolve(loc, origin, scheme), origin, scheme) == resolve(loc, origin, scheme),
{
    let r = resolve(loc, origin, scheme);
    reveal_strlit("http://");
    reveal_strlit("https://");
    reveal_strlit("//");
    if begins(r, "//"@) {
        assert(r.subrange(0, 2)[0] == r[0]);
        if begins(r, "http://"@) {
            assert(r.subrange(0, 7)[0] == r[0]);
        } else {
            assert(r.subrange(0, 8)[0] == r[0]);
        }
    }
}

/// Against an `http` or `https` origin, every location resolves to a full URL,
/// which then resolves to itself. `modify_location` states that an origin that
/// is a full URL has one of these schemes whenever it parses.
pub proof fn lemma_resolve_full(loc: Seq<char>, origin: Seq<char>, scheme: Option<Seq<char>>)
    requires
        full_url(origin),
        scheme == Some("http"@) || scheme == Some("https"@),
    ensures
        full_url(resolve(loc, origin, scheme)),
        resolve(resolve(loc, origin, scheme), origin, scheme) == resolve(loc, origin, scheme),
{
    reveal_strlit("http://");
    reveal_strlit("https://");
    reveal_strlit("http");
    reveal_strlit("https");
    reveal_strlit("//");
    reveal_strlit(":");
    reveal_strlit("/");
    let r = resolve(loc, origin, scheme);
    if begins(loc, "//"@) {
        assert(loc.subrange(0, 2) =~= "//"@);
        if scheme == Some("http"@) {
            assert(r.subrange(0, 7) =~= "http"@ + ":"@ + loc.subrange(0, 2));
            assert(r.subrange(0, 7) =~= "http://"@);
        } else {
            assert(r.subrange(0, 8) =~= "https"@ + ":"@ + loc.subrange(0, 2));
            assert(r.subrange(0, 8) =~= "https://"@);
        }
    } else if full_url(loc) {
    } else if absolute_path(loc) {
        if begins(origin, "http://"@) {
            assert(r.subrange(0, 7) =~= origin.subrange(0, 7));
        } else {
            assert(r.subrange(0, 8) =~= origin.subrange(0, 8));
        }
    } else {
        if begins(origin, "http://"@) {
            assert(r.subrange(0, 7) =~= origin.subrange(0, 7));
        } else {
            assert(r.subrange(0, 8) =~= origin.subrange(0, 8));
        }
    }
    lemma_resolve_stable(loc, origin, scheme);
}

} // verus!
