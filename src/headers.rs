//! Header lists, and the rules that map request and response headers.
//!
//! A header list is a sequence of `(name, value)` pairs in wire order; names
//! compare without regard to ASCII case, and a name may occur more than once.
use vstd::prelude::*;
use vstd::string::*;
use crate::text::{ci_eq, eq_ci, has_prefix_ci, lower_seq, starts_with_ci, to_lower};

verus! {

pub type HeaderList = Vec<(String, Vec<u8>)>;

pub type HeaderSeq = Seq<(Seq<char>, Seq<u8>)>;

/// The mathematical value of a header list.
pub open spec fn hv(h: Seq<(String, Vec<u8>)>) -> HeaderSeq {
    h.map_values(|p: (String, Vec<u8>)| (p.0@, p.1@))
}

/// `h` without any entry named `n`.
pub open spec fn drop_named(h: HeaderSeq, n: Seq<char>) -> HeaderSeq
    decreases h.len(),
{
    if h.len() == 0 {
        h
    } else if ci_eq(h.last().0, n) {
        drop_named(h.drop_last(), n)
    } else {
        drop_named(h.drop_last(), n).push(h.last())
    }
}

/// `h` with every entry named `n` replaced by the single entry `(n, v)` at the end.
pub open spec fn set_named(h: HeaderSeq, n: Seq<char>, v: Seq<u8>) -> HeaderSeq {
    drop_named(h, n).push((n, v))
}

/// Index of the first entry of `h` named `n`, if any.
pub open spec fn first_named(h: HeaderSeq, n: Seq<char>) -> Option<int> {
    if exists|i: int| 0 <= i < h.len() && ci_eq(#[trigger] h[i].0, n) {
        let i = choose|i: int|
            0 <= i < h.len() && ci_eq(#[trigger] h[i].0, n) && forall|j: int|
                0 <= j < i ==> !ci_eq(#[trigger] h[j].0, n);
        Some(i)
    } else {
        None
    }
}

/// Finds the first entry of `h` named `name`.
pub fn header_find(h: &HeaderList, name: &str) -> (r: Option<usize>)
    ensures
        match r {
            Some(i) => i < h@.len() && ci_eq(h@[i as int].0@, name@) && forall|j: int|
                0 <= j < i ==> !ci_eq(#[trigger] h@[j].0@, name@),
            None => forall|j: int| 0 <= j < h@.len() ==> !ci_eq(#[trigger] h@[j].0@, name@),
        },
        match r {
            Some(i) => first_named(hv(h@), name@) == Some(i as int),
            None => first_named(hv(h@), name@) is None,
        },
{
    let mut i: usize = 0;
    while i < h.len()
        invariant
            i <= h@.len(),
            forall|j: int| 0 <= j < i ==> !ci_eq(#[trigger] h@[j].0@, name@),
        decreases h@.len() - i,
    {
        if eq_ci(h[i].0.as_str(), name) {
            proof {
                let hs = hv(h@);
                assert(0 <= i < hs.len() && ci_eq(hs[i as int].0, name@));
                let k = choose|k: int|
                    0 <= k < hs.len() && ci_eq(#[trigger] hs[k].0, name@) && forall|j: int|
                        0 <= j < k ==> !ci_eq(#[trigger] hs[j].0, name@);
                if k < i {
                    assert(!ci_eq(h@[k].0@, name@));
                }
                if k > i {
                    assert(!ci_eq(hs[i as int].0, name@));
                }
            }
            return Some(i);
        }
        i = i + 1;
    }
    proof {
        let hs = hv(h@);
        assert forall|j: int| 0 <= j < hs.len() implies !ci_eq(#[trigger] hs[j].0, name@) by {
            assert(!ci_eq(h@[j].0@, name@));
        }
    }
    None
}

/// Copies one entry.
fn entry_clone(e: &(String, Vec<u8>)) -> (r: (String, Vec<u8>))
    ensures
        r.0@ == e.0@,
        r.1@ == e.1@,
{
    let v = e.1.clone();
    proof {
        assert(v@ =~= e.1@);
    }
    (e.0.clone(), v)
}

/// Removes every entry named `name`.
pub fn header_remove(h: &mut HeaderList, name: &str)
    ensures
        hv(final(h)@) == drop_named(hv(old(h)@), name@),
{
    let mut out: HeaderList = Vec::new();
    let mut i: usize = 0;
    while i < h.len()
        invariant
            i <= h@.len(),
            hv(out@) == drop_named(hv(h@.subrange(0, i as int)), name@),
        decreases h@.len() - i,
    {
        let ghost before = out@;
        assert(hv(h@.subrange(0, i as int + 1)).drop_last() =~= hv(h@.subrange(0, i as int)));
        if !eq_ci(h[i].0.as_str(), name) {
            let e = entry_clone(&h[i]);
            out.push(e);
            assert(hv(out@) =~= hv(before).push(hv(h@.subrange(0, i as int + 1)).last()));
        }
        i = i + 1;
    }
    assert(h@.subrange(0, i as int) =~= h@);
    *h = out;
}

/// Sets `name` to the single value `value`, replacing earlier entries of that name.
pub fn header_set(h: &mut HeaderList, name: &str, value: Vec<u8>)
    ensures
        hv(final(h)@) == set_named(hv(old(h)@), name@, value@),
{
    header_remove(h, name);
    let n = name.to_owned();
    h.push((n, value));
    assert(hv(h@) =~= set_named(hv(old(h)@), name@, value@));
}

/// `h` with each entry of `es` set in turn.
pub open spec fn set_all(h: HeaderSeq, es: HeaderSeq) -> HeaderSeq
    decreases es.len(),
{
    if es.len() == 0 {
        h
    } else {
        set_named(set_all(h, es.drop_last()), es.last().0, es.last().1)
    }
}

/// Sets each entry of `entries` in turn, each replacing what its name held.
pub fn header_set_all(h: &mut HeaderList, entries: &HeaderList)
    ensures
        hv(final(h)@) == set_all(hv(old(h)@), hv(entries@)),
{
    let ghost start = hv(h@);
    let mut k: usize = 0;
    while k < entries.len()
        invariant
            k <= entries@.len(),
            hv(h@) == set_all(start, hv(entries@).subrange(0, k as int)),
        decreases entries@.len() - k,
    {
        assert(hv(entries@).subrange(0, k as int + 1).drop_last() =~= hv(entries@).subrange(0, k as int));
        let e = entry_clone(&entries[k]);
        header_set(h, e.0.as_str(), e.1);
        k = k + 1;
    }
    assert(hv(entries@).subrange(0, k as int) =~= hv(entries@));
}

/// The header names forwarded to the origin without the escape prefix.
pub open spec fn forward_names() -> Seq<Seq<char>> {
    seq![
        "content-type"@,
        "content-length"@,
        "user-agent"@,
        "accept"@,
        "accept-encoding"@,
        "keep-alive"@,
    ]
}

/// `n` is, up to ASCII case, one of the forwarded names.
pub open spec fn whitelisted(n: Seq<char>) -> bool {
    exists|k: int| 0 <= k < forward_names().len() && ci_eq(n, #[trigger] forward_names()[k])
}

/// The forwarded names, in a fixed order.
pub fn default_forward_headers() -> (r: Vec<String>)
    ensures
        r@.map_values(|s: String| s@) == forward_names(),
{
    let mut v: Vec<String> = Vec::new();
    v.push(String::from_str("content-type"));
    v.push(String::from_str("content-length"));
    v.push(String::from_str("user-agent"));
    v.push(String::from_str("accept"));
    v.push(String::from_str("accept-encoding"));
    v.push(String::from_str("keep-alive"));
    assert(v@.map_values(|s: String| s@) =~= forward_names());
    v
}

/// Whether `name` is one of the forwarded names.
fn is_whitelisted(name: &str) -> (r: bool)
    ensures
        r == whitelisted(name@),
{
    let names = default_forward_headers();
    let mut k: usize = 0;
    while k < names.len()
        invariant
            names@.map_values(|s: String| s@) == forward_names(),
            k <= names@.len(),
            forall|j: int| 0 <= j < k ==> !ci_eq(name@, #[trigger] forward_names()[j]),
        decreases names@.len() - k,
    {
        assert(names@.map_values(|s: String| s@)[k as int] == names@[k as int]@);
        if eq_ci(name, names[k].as_str()) {
            return true;
        }
        k = k + 1;
    }
    false
}

/// The escape prefix of request headers.
pub open spec fn tun_prefix() -> Seq<char> {
    seq!['t', 'u', 'n', '-']
}

/// The name that an escape-prefixed header name stands for.
pub open spec fn tun_suffix(n: Seq<char>) -> Option<Seq<char>> {
    if n.len() > 4 && starts_with_ci(n, tun_prefix()) {
        Some(n.subrange(4, n.len() as int))
    } else {
        None
    }
}

/// The names that escape-prefixed headers among `h` stand for, in order.
pub open spec fn tun_suffixes(h: HeaderSeq) -> Seq<Seq<char>>
    decreases h.len(),
{
    if h.len() == 0 {
        Seq::empty()
    } else {
        match tun_suffix(h.last().0) {
            Some(x) => tun_suffixes(h.drop_last()).push(x),
            None => tun_suffixes(h.drop_last()),
        }
    }
}

/// Some escape-prefixed header of `h` stands for `n`.
pub open spec fn overridden(h: HeaderSeq, n: Seq<char>) -> bool {
    exists|k: int| 0 <= k < tun_suffixes(h).len() && ci_eq(#[trigger] tun_suffixes(h)[k], n)
}

/// What the entry `e` of the inbound list `src` becomes outbound, if anything.
pub open spec fn request_entry(src: HeaderSeq, e: (Seq<char>, Seq<u8>)) -> Option<(Seq<char>, Seq<u8>)> {
    match tun_suffix(e.0) {
        Some(x) => Some((lower_seq(x), e.1)),
        None => if whitelisted(e.0) && !overridden(src, e.0) {
            Some(e)
        } else {
            None
        },
    }
}

pub open spec fn opt_seq<A>(o: Option<A>) -> Seq<A> {
    match o {
        Some(a) => seq![a],
        None => Seq::empty(),
    }
}

/// The outbound list made from the first `k` entries of `src`.
pub open spec fn request_out(src: HeaderSeq, k: int) -> HeaderSeq
    decreases k,
{
    if k <= 0 {
        Seq::empty()
    } else {
        request_out(src, k - 1) + opt_seq(request_entry(src, src[k - 1]))
    }
}

/// The headers forwarded to the origin for the inbound list `src`.
pub open spec fn request_headers_out(src: HeaderSeq) -> HeaderSeq {
    request_out(src, src.len() as int)
}

/// The name that an escape-prefixed header name stands for, as it is written.
fn tun_name(name: &str) -> (r: Option<&str>)
    ensures
        match tun_suffix(name@) {
            Some(x) => r is Some && r->0@ == x,
            None => r is None,
        },
{
    let n = name.unicode_len();
    let p = "tun-";
    proof {
        reveal_strlit("tun-");
        assert(p@ =~= tun_prefix());
    }
    if n > 4 && has_prefix_ci(name, p) {
        Some(name.substring_char(4, n))
    } else {
        None
    }
}

/// Maps the inbound headers to those forwarded to the origin: an escape-prefixed
/// header goes out under the name it stands for, a forwarded name goes out as it
/// is unless an escape-prefixed header stands for it, and the rest is dropped.
pub fn copy_request_headers(source_headers: &HeaderList) -> (r: HeaderList)
    ensures
        hv(r@) == request_headers_out(hv(source_headers@)),
{
    let ghost src = hv(source_headers@);
    let mut tuns: Vec<String> = Vec::new();
    let mut i: usize = 0;
    while i < source_headers.len()
        invariant
            src == hv(source_headers@),
            i <= source_headers@.len(),
            tuns@.map_values(|s: String| s@) == tun_suffixes(src.subrange(0, i as int)),
        decreases source_headers@.len() - i,
    {
        assert(src.subrange(0, i as int + 1).drop_last() =~= src.subrange(0, i as int));
        let ghost before = tuns@;
        match tun_name(source_headers[i].0.as_str()) {
            Some(x) => {
                tuns.push(x.to_owned());
                assert(tuns@.map_values(|s: String| s@) =~= before.map_values(|s: String| s@).push(x@));
            },
            None => {},
        }
        i = i + 1;
    }
    assert(src.subrange(0, i as int) =~= src);
    let mut out: HeaderList = Vec::new();
    let mut i: usize = 0;
    while i < source_headers.len()
        invariant
            src == hv(source_headers@),
            i <= source_headers@.len(),
            tuns@.map_values(|s: String| s@) == tun_suffixes(src),
            hv(out@) == request_out(src, i as int),
        decreases source_headers@.len() - i,
    {
        let ghost before = hv(out@);
        let name = source_headers[i].0.as_str();
        assert(src[i as int] == (name@, source_headers@[i as int].1@));
        match tun_name(name) {
            Some(x) => {
                let v = source_headers[i].1.clone();
                assert(v@ =~= source_headers@[i as int].1@);
                out.push((to_lower(x), v));
                assert(hv(out@) =~= before + opt_seq(request_entry(src, src[i as int])));
            },
            None => {
                if is_whitelisted(name) {
                    let mut hit = false;
                    let mut k: usize = 0;
                    while k < tuns.len()
                        invariant
                            tuns@.map_values(|s: String| s@) == tun_suffixes(src),
                            k <= tuns@.len(),
                            hit == exists|j: int| 0 <= j < k && ci_eq(#[trigger] tun_suffixes(src)[j], name@),
                        decreases tuns@.len() - k,
                    {
                        assert(tuns@.map_values(|s: String| s@)[k as int] == tuns@[k as int]@);
                        if eq_ci(tuns[k].as_str(), name) {
                            hit = true;
                        }
                        k = k + 1;
                    }
                    if !hit {
                        let e = entry_clone(&source_headers[i]);
                        out.push(e);
                        assert(hv(out@) =~= before + opt_seq(request_entry(src, src[i as int])));
                    } else {
                        assert(hv(out@) =~= before + opt_seq(request_entry(src, src[i as int])));
                    }
                } else {
                    assert(hv(out@) =~= before + opt_seq(request_entry(src, src[i as int])));
                }
            },
        }
        i = i + 1;
    }
    out
}

/// The prefix of the cross-origin headers that only this gateway may set.
pub open spec fn cors_prefix() -> Seq<char> {
    "access-control-"@
}

/// Whether a header name belongs to the cross-origin family, ignoring ASCII case.
pub fn is_cors_header(header: &str) -> (r: bool)
    ensures
        r == starts_with_ci(header@, cors_prefix()),
{
    has_prefix_ci(header, "access-control-")
}

/// A status in the redirect range.
pub open spec fn is_redirect(status: u16) -> bool {
    300 <= status < 400
}

/// The decimal digits of `n`.
pub open spec fn decimal(n: nat) -> Seq<u8>
    decreases n,
{
    if n < 10 {
        seq![(48 + n) as u8]
    } else {
        decimal(n / 10).push((48 + n % 10) as u8)
    }
}

/// What one origin response entry becomes for the client, if anything.
pub open spec fn response_entry(e: (Seq<char>, Seq<u8>)) -> Option<(Seq<char>, Seq<u8>)> {
    if starts_with_ci(e.0, cors_prefix()) {
        None
    } else if ci_eq(e.0, "set-cookie"@) {
        Some(("tun-set-cookie"@, e.1))
    } else {
        Some(e)
    }
}

/// The client-facing entries made from the first `k` entries of `src`.
pub open spec fn response_out(src: HeaderSeq, k: int) -> HeaderSeq
    decreases k,
{
    if k <= 0 {
        Seq::empty()
    } else {
        response_out(src, k - 1) + opt_seq(response_entry(src[k - 1]))
    }
}

/// `target` after the origin's headers `src`, answered with `status`, are copied in.
pub open spec fn response_headers_into(target: HeaderSeq, src: HeaderSeq, status: u16) -> HeaderSeq {
    let t = if is_redirect(status) {
        set_named(target, "tun-status"@, decimal(status as nat))
    } else {
        target
    };
    t + response_out(src, src.len() as int)
}

/// The decimal digits of `n`, as bytes.
pub fn decimal_bytes(n: u16) -> (r: Vec<u8>)
    ensures
        r@ == decimal(n as nat),
{
    let mut digits: Vec<u8> = Vec::new();
    let mut m: u16 = n;
    while m >= 10
        invariant
            decimal(n as nat) == decimal(m as nat) + digits@,
        decreases m,
    {
        let d: u8 = (48 + m % 10) as u8;
        let ghost rest = digits@;
        assert(decimal(m as nat) == decimal((m / 10) as nat).push(d));
        digits.insert(0, d);
        assert(decimal(m as nat) + rest =~= decimal((m / 10) as nat) + digits@);
        m = m / 10;
    }
    let mut r: Vec<u8> = Vec::new();
    r.push((48 + m) as u8);
    r.append(&mut digits);
    assert(r@ =~= decimal(n as nat));
    r
}

/// Copies the origin's response headers into `target_headers`: cross-origin
/// headers are dropped, `Set-Cookie` is renamed `tun-set-cookie`, the rest is
/// kept in order, and a redirect status is recorded as `tun-status`.
pub fn copy_response_headers(source_headers: &HeaderList, target_headers: &mut HeaderList, status_code: u16)
    ensures
        hv(final(target_headers)@) == response_headers_into(hv(old(target_headers)@), hv(source_headers@), status_code),
{
    let ghost src = hv(source_headers@);
    if 300 <= status_code && status_code < 400 {
        let v = decimal_bytes(status_code);
        header_set(target_headers, "tun-status", v);
    }
    let ghost start = hv(target_headers@);
    let mut i: usize = 0;
    while i < source_headers.len()
        invariant
            src == hv(source_headers@),
            i <= source_headers@.len(),
            hv(target_headers@) == start + response_out(src, i as int),
        decreases source_headers@.len() - i,
    {
        let ghost before = hv(target_headers@);
        let name = source_headers[i].0.as_str();
        assert(src[i as int] == (name@, source_headers@[i as int].1@));
        if !is_cors_header(name) {
            let v = source_headers[i].1.clone();
            assert(v@ =~= source_headers@[i as int].1@);
            if eq_ci(name, "set-cookie") {
                target_headers.push((String::from_str("tun-set-cookie"), v));
            } else {
                target_headers.push((name.to_owned(), v));
            }
        }
        assert(hv(target_headers@) =~= before + opt_seq(response_entry(src[i as int])));
        i = i + 1;
    }
}

proof fn lemma_request_out_complete(src: HeaderSeq, k: int, i: int)
    requires
        0 <= i < k <= src.len(),
        request_entry(src, src[i]) is Some,
    ensures
        request_out(src, k).contains(request_entry(src, src[i])->0),
    decreases k,
{
    let e = request_entry(src, src[i])->0;
    if i == k - 1 {
        assert(request_out(src, k)[request_out(src, k - 1).len() as int] == e);
    } else {
        lemma_request_out_complete(src, k - 1, i);
        let m = choose|m: int| 0 <= m < request_out(src, k - 1).len() && #[trigger] request_out(src, k - 1)[m] == e;
        assert(request_out(src, k)[m] == e);
    }
}

proof fn lemma_request_out_sound(src: HeaderSeq, k: int, m: int)
    requires
        0 <= k <= src.len(),
        0 <= m < request_out(src, k).len(),
    ensures
        exists|i: int| 0 <= i < k && request_entry(src, #[trigger] src[i]) == Some(request_out(src, k)[m]),
    decreases k,
{
    if k > 0 {
        let prev = request_out(src, k - 1);
        if m < prev.len() {
            lemma_request_out_sound(src, k - 1, m);
            let i = choose|i: int| 0 <= i < k - 1 && request_entry(src, #[trigger] src[i]) == Some(prev[m]);
            assert(request_out(src, k)[m] == prev[m]);
            assert(request_entry(src, src[i]) == Some(request_out(src, k)[m]));
        } else {
            assert(request_entry(src, src[k - 1]) == Some(request_out(src, k)[m]));
        }
    }
}

proof fn lemma_tun_suffixes_complete(h: HeaderSeq, j: int)
    requires
        0 <= j < h.len(),
        tun_suffix(h[j].0) is Some,
    ensures
        tun_suffixes(h).contains(tun_suffix(h[j].0)->0),
    decreases h.len(),
{
    let x = tun_suffix(h[j].0)->0;
    if j == h.len() - 1 {
        assert(tun_suffixes(h).last() == x);
    } else {
        assert(h.drop_last()[j] == h[j]);
        lemma_tun_suffixes_complete(h.drop_last(), j);
        let m = choose|m: int| 0 <= m < tun_suffixes(h.drop_last()).len() && #[trigger] tun_suffixes(h.drop_last())[m] == x;
        assert(tun_suffixes(h)[m] == x);
    }
}

/// An escape-prefixed inbound header `tun-X` goes out as `X`, lower-cased, with its
/// value unchanged; and once it is present, every outbound header named `X` comes
/// from an escape-prefixed header, so no forwarded header named `X` goes out.
pub proof fn lemma_escape_overrides(src: HeaderSeq, j: int)
    requires
        0 <= j < src.len(),
        tun_suffix(src[j].0) is Some,
    ensures
        request_headers_out(src).contains((lower_seq(tun_suffix(src[j].0)->0), src[j].1)),
        forall|k: int| 0 <= k < request_headers_out(src).len() && ci_eq(
            #[trigger] request_headers_out(src)[k].0,
            tun_suffix(src[j].0)->0,
        ) ==> exists|i: int| 0 <= i < src.len() && tun_suffix(#[trigger] src[i].0) is Some
            && request_headers_out(src)[k] == (lower_seq(tun_suffix(src[i].0)->0), src[i].1),
{
    let out = request_headers_out(src);
    let x = tun_suffix(src[j].0)->0;
    lemma_request_out_complete(src, src.len() as int, j);
    lemma_tun_suffixes_complete(src, j);
    let m = choose|m: int| 0 <= m < tun_suffixes(src).len() && #[trigger] tun_suffixes(src)[m] == x;
    assert forall|k: int| 0 <= k < out.len() && ci_eq(#[trigger] out[k].0, x) implies exists|i: int|
        0 <= i < src.len() && tun_suffix(#[trigger] src[i].0) is Some && out[k] == (lower_seq(tun_suffix(src[i].0)->0), src[i].1) by {
        lemma_request_out_sound(src, src.len() as int, k);
        let i = choose|i: int| 0 <= i < src.len() && request_entry(src, #[trigger] src[i]) == Some(out[k]);
        if tun_suffix(src[i].0) is None {
            assert(out[k] == src[i]);
            assert(ci_eq(tun_suffixes(src)[m], src[i].0));
            assert(overridden(src, src[i].0));
        }
    }
}

/// No two entries of `h` share a name.
pub open spec fn unique_names(h: HeaderSeq) -> bool {
    forall|i: int, j: int| 0 <= i < j < h.len() ==> !ci_eq(#[trigger] h[i].0, #[trigger] h[j].0)
}

/// What `drop_named` keeps: exactly the entries not named `n`, in order, so a
/// list without repeated names stays so.
pub proof fn lemma_drop_named(h: HeaderSeq, n: Seq<char>)
    ensures
        forall|x: (Seq<char>, Seq<u8>)| #[trigger] drop_named(h, n).contains(x) ==> h.contains(x) && !ci_eq(x.0, n),
        forall|x: (Seq<char>, Seq<u8>)| h.contains(x) && !ci_eq(x.0, n) ==> #[trigger] drop_named(h, n).contains(x),
        unique_names(h) ==> unique_names(drop_named(h, n)),
    decreases h.len(),
{
    if h.len() > 0 {
        let hd = h.drop_last();
        let p = drop_named(hd, n);
        let d = drop_named(h, n);
        lemma_drop_named(hd, n);
        assert forall|x: (Seq<char>, Seq<u8>)| #[trigger] d.contains(x) implies h.contains(x) && !ci_eq(x.0, n) by {
            let i = choose|i: int| 0 <= i < d.len() && d[i] == x;
            if i < p.len() {
                assert(p[i] == x);
                assert(p.contains(x));
                let k = choose|k: int| 0 <= k < hd.len() && hd[k] == x;
                assert(h[k] == x);
            } else {
                assert(h[h.len() - 1] == x);
            }
        }
        assert forall|x: (Seq<char>, Seq<u8>)| h.contains(x) && !ci_eq(x.0, n) implies #[trigger] d.contains(x) by {
            let i = choose|i: int| 0 <= i < h.len() && h[i] == x;
            if i == h.len() - 1 {
                assert(d[d.len() - 1] == x);
            } else {
                assert(hd[i] == x);
                assert(hd.contains(x));
                assert(p.contains(x));
                let k = choose|k: int| 0 <= k < p.len() && p[k] == x;
                assert(d[k] == x);
            }
        }
        if unique_names(h) {
            assert(unique_names(hd)) by {
                assert forall|i: int, j: int| 0 <= i < j < hd.len() implies !ci_eq(#[trigger] hd[i].0, #[trigger] hd[j].0) by {
                    assert(hd[i] == h[i] && hd[j] == h[j]);
                }
            }
            assert forall|i: int, j: int| 0 <= i < j < d.len() implies !ci_eq(#[trigger] d[i].0, #[trigger] d[j].0) by {
                if j >= p.len() {
                    assert(p.contains(d[i]));
                    let k = choose|k: int| 0 <= k < hd.len() && hd[k] == d[i];
                    assert(h[k] == d[i]);
                    assert(d[j] == h[h.len() - 1]);
                } else {
                    assert(d[i] == p[i] && d[j] == p[j]);
                }
            }
        }
    }
}

/// An entry of `h` whose name none of `es` carries survives setting `es`.
pub proof fn lemma_set_all_keeps(h: HeaderSeq, es: HeaderSeq, e: (Seq<char>, Seq<u8>))
    requires
        h.contains(e),
        forall|j: int| 0 <= j < es.len() ==> !ci_eq(e.0, #[trigger] es[j].0),
    ensures
        set_all(h, es).contains(e),
    decreases es.len(),
{
    if es.len() > 0 {
        let prev = set_all(h, es.drop_last());
        assert forall|j: int| 0 <= j < es.drop_last().len() implies !ci_eq(e.0, #[trigger] es.drop_last()[j].0) by {
            assert(es.drop_last()[j] == es[j]);
        }
        lemma_set_all_keeps(h, es.drop_last(), e);
        lemma_drop_named(prev, es.last().0);
        let d = drop_named(prev, es.last().0);
        assert(d.contains(e));
        let k = choose|k: int| 0 <= k < d.len() && d[k] == e;
        assert(set_all(h, es)[k] == e);
    }
}

/// Setting a list of entries with distinct names leaves each of them in place.
pub proof fn lemma_set_all_member(h: HeaderSeq, es: HeaderSeq, k: int)
    requires
        unique_names(es),
        0 <= k < es.len(),
    ensures
        set_all(h, es).contains(es[k]),
    decreases es.len(),
{
    let r = set_all(h, es);
    if k == es.len() - 1 {
        assert(r[r.len() - 1] == es[k]);
    } else {
        let ed = es.drop_last();
        assert(unique_names(ed)) by {
            assert forall|i: int, j: int| 0 <= i < j < ed.len() implies !ci_eq(#[trigger] ed[i].0, #[trigger] ed[j].0) by {
                assert(ed[i] == es[i] && ed[j] == es[j]);
            }
        }
        assert(ed[k] == es[k]);
        lemma_set_all_member(h, ed, k);
        let prev = set_all(h, ed);
        lemma_drop_named(prev, es.last().0);
        assert(!ci_eq(es[k].0, es[es.len() - 1].0));
        let d = drop_named(prev, es.last().0);
        assert(d.contains(es[k]));
        let m = choose|m: int| 0 <= m < d.len() && d[m] == es[k];
        assert(r[m] == es[k]);
    }
}

/// Setting entries keeps a list free of repeated names.
pub proof fn lemma_set_all_unique(h: HeaderSeq, es: HeaderSeq)
    requires
        unique_names(h),
    ensures
        unique_names(set_all(h, es)),
    decreases es.len(),
{
    if es.len() > 0 {
        let prev = set_all(h, es.drop_last());
        lemma_set_all_unique(h, es.drop_last());
        lemma_drop_named(prev, es.last().0);
        let d = drop_named(prev, es.last().0);
        let r = set_all(h, es);
        assert forall|i: int, j: int| 0 <= i < j < r.len() implies !ci_eq(#[trigger] r[i].0, #[trigger] r[j].0) by {
            if j == r.len() - 1 {
                assert(d.contains(d[i]));
                assert(r[i] == d[i]);
            } else {
                assert(r[i] == d[i] && r[j] == d[j]);
            }
        }
    }
}

/// The values of the entries of `h` named `x`, in order.
pub open spec fn values_named(h: HeaderSeq, x: Seq<char>) -> Seq<Seq<u8>>
    decreases h.len(),
{
    if h.len() == 0 {
        Seq::empty()
    } else if ci_eq(h.last().0, x) {
        values_named(h.drop_last(), x).push(h.last().1)
    } else {
        values_named(h.drop_last(), x)
    }
}

/// The values of the escape-prefixed entries of `h` that stand for `x`, in order.
pub open spec fn escaped_values(h: HeaderSeq, x: Seq<char>) -> Seq<Seq<u8>>
    decreases h.len(),
{
    if h.len() == 0 {
        Seq::empty()
    } else if tun_suffix(h.last().0) is Some && ci_eq(tun_suffix(h.last().0)->0, x) {
        escaped_values(h.drop_last(), x).push(h.last().1)
    } else {
        escaped_values(h.drop_last(), x)
    }
}

proof fn lemma_lower_idempotent(y: Seq<char>)
    ensures
        lower_seq(lower_seq(y)) == lower_seq(y),
{
    assert(lower_seq(lower_seq(y)) =~= lower_seq(y));
}

proof fn lemma_escape_values_upto(src: HeaderSeq, x: Seq<char>, k: int)
    requires
        0 <= k <= src.len(),
        overridden(src, x),
    ensures
        values_named(request_out(src, k), x) == escaped_values(src.subrange(0, k), x),
    decreases k,
{
    if k == 0 {
        assert(src.subrange(0, 0) =~= Seq::<(Seq<char>, Seq<u8>)>::empty());
    } else {
        lemma_escape_values_upto(src, x, k - 1);
        let sub = src.subrange(0, k);
        assert(sub.drop_last() =~= src.subrange(0, k - 1));
        assert(sub.last() == src[k - 1]);
        let e = src[k - 1];
        let prev = request_out(src, k - 1);
        let cur = request_out(src, k);
        match request_entry(src, e) {
            Some(o) => {
                assert(cur.drop_last() =~= prev);
                assert(cur.last() == o);
                match tun_suffix(e.0) {
                    Some(y) => {
                        lemma_lower_idempotent(y);
                    },
                    None => {
                        if ci_eq(e.0, x) {
                            let m = choose|m: int| 0 <= m < tun_suffixes(src).len() && ci_eq(#[trigger] tun_suffixes(src)[m], x);
                            assert(ci_eq(tun_suffixes(src)[m], e.0));
                            assert(overridden(src, e.0));
                        }
                    },
                }
            },
            None => {
                assert(cur =~= prev);
            },
        }
    }
}

/// Once an escape-prefixed header stands for `x`, the values sent out under `x`
/// are exactly the values of the escape-prefixed headers standing for `x`, in
/// inbound order: no forwarded header named `x` adds its own.
pub proof fn lemma_escape_values_in_order(src: HeaderSeq, j: int, x: Seq<char>)
    requires
        0 <= j < src.len(),
        tun_suffix(src[j].0) is Some,
        ci_eq(tun_suffix(src[j].0)->0, x),
    ensures
        values_named(request_headers_out(src), x) == escaped_values(src, x),
{
    lemma_tun_suffixes_complete(src, j);
    let m = choose|m: int| 0 <= m < tun_suffixes(src).len() && #[trigger] tun_suffixes(src)[m] == tun_suffix(src[j].0)->0;
    assert(ci_eq(tun_suffixes(src)[m], x));
    lemma_escape_values_upto(src, x, src.len() as int);
    assert(src.subrange(0, src.len() as int) =~= src);
}

/// After setting a list of entries with distinct names, an entry named like one
/// of them is that one.
pub proof fn lemma_set_all_named(h: HeaderSeq, es: HeaderSeq, j: int)
    requires
        unique_names(es),
        0 <= j < es.len(),
    ensures
        forall|x: (Seq<char>, Seq<u8>)| #[trigger] set_all(h, es).contains(x) && ci_eq(x.0, es[j].0) ==> x == es[j],
    decreases es.len(),
{
    let r = set_all(h, es);
    let ed = es.drop_last();
    let prev = set_all(h, ed);
    lemma_drop_named(prev, es.last().0);
    let d = drop_named(prev, es.last().0);
    assert(unique_names(ed)) by {
        assert forall|a: int, b: int| 0 <= a < b < ed.len() implies !ci_eq(#[trigger] ed[a].0, #[trigger] ed[b].0) by {
            assert(ed[a] == es[a] && ed[b] == es[b]);
        }
    }
    if j < es.len() - 1 {
        assert(ed[j] == es[j]);
        lemma_set_all_named(h, ed, j);
    }
    assert forall|x: (Seq<char>, Seq<u8>)| #[trigger] r.contains(x) && ci_eq(x.0, es[j].0) implies x == es[j] by {
        let i = choose|i: int| 0 <= i < r.len() && r[i] == x;
        if i < d.len() {
            assert(d[i] == x);
            assert(d.contains(x));
            if j == es.len() - 1 {
                assert(!ci_eq(x.0, es.last().0));
            } else {
                assert(prev.contains(x));
            }
        } else {
            assert(x == es.last());
            if j < es.len() - 1 {
                assert(!ci_eq(es[j].0, es[es.len() - 1].0));
            }
        }
    }
}

} // verus!
