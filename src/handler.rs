//! The request orchestrator: the decisions taken on each request, from the
//! cross-origin stamp to the response handed back, as functions of plain values.
//! The server layer performs the forwarded call between them.
use vstd::prelude::*;
use vstd::string::*;
use crate::auth::{bearer_ok, valid_bearer};
use crate::cors::{
    add_cache_control_headers, add_cors_headers, allow_headers, allow_origin, cache_entries,
    cors_entries, cors_list,
};
use crate::headers::{
    cors_prefix, copy_request_headers, copy_response_headers, drop_named, header_set_all, hv,
    is_redirect, request_headers_out, response_headers_into, response_out,
    set_all, set_named, unique_names, lemma_set_all_keeps, lemma_set_all_member, values_named, lemma_set_all_named, lemma_set_all_unique,
    HeaderList, HeaderSeq,
};
use crate::text::{ci_eq, lower_seq, starts_with_ci};
use crate::proxy::{
    header_str, header_text, location_text, location_rewritten, modify_location, origin_of, parse_origin_url,
    scheme_of,
};

verus! {

/// The query of a request to the endpoint: the target URL.
pub struct ProxyQuery {
    pub url: String,
}

/// A request that ends without reaching the origin.
pub enum AppError {
    BadRequest(String),
    Internal(String),
    Unauthorized(String),
}

impl AppError {
    pub open spec fn status_spec(&self) -> u16 {
        match self {
            AppError::BadRequest(_) => 400,
            AppError::Internal(_) => 500,
            AppError::Unauthorized(_) => 401,
        }
    }

    pub open spec fn message_spec(&self) -> Seq<char> {
        match self {
            AppError::BadRequest(m) => m@,
            AppError::Internal(m) => m@,
            AppError::Unauthorized(m) => m@,
        }
    }

    /// The status code and message this error is answered with.
    pub fn into_parts(self) -> (r: (u16, String))
        ensures
            r.0 == self.status_spec(),
            r.1@ == self.message_spec(),
    {
        match self {
            AppError::BadRequest(m) => (400, m),
            AppError::Internal(m) => (500, m),
            AppError::Unauthorized(m) => (401, m),
        }
    }
}

/// A response made here: status, headers and body.
pub struct Reply {
    pub status: u16,
    pub headers: HeaderList,
    pub body: String,
}

/// A request to forward: the origin it resolves against, the headers to send,
/// and the headers to stamp on whatever comes back.
pub struct Forward {
    pub origin: String,
    pub headers: HeaderList,
    pub stamped: HeaderList,
}

/// What to do with a request.
pub enum Step {
    Respond(Reply),
    Forward(Forward),
}

pub open spec fn unauthorized_message() -> Seq<char> {
    "未认证，请更新App: bearer 认证失败"@
}

pub open spec fn bad_url_message() -> Seq<char> {
    "url参数错误"@
}

/// The headers stamped on a response to a request with headers `req`.
pub open spec fn stamped_for(req: HeaderSeq, preflight: bool) -> HeaderSeq {
    let c = set_all(Seq::empty(), cors_entries(req));
    if preflight {
        c
    } else {
        set_all(c, cache_entries())
    }
}

/// The credential presented in the request's `Authorization` header; empty where
/// there is none or it does not read as text.
pub open spec fn presented(req: HeaderSeq) -> Seq<char> {
    match header_text(req, "authorization"@) {
        Some(t) => t,
        None => Seq::empty(),
    }
}

/// Decides what to do with a request: answer a preflight, refuse a bad
/// credential or target, or forward it.
pub fn plan_request(is_preflight: bool, request_headers: &HeaderList, token: &str, target_url: &str) -> (r: Step)
    ensures
        ({
            let req = hv(request_headers@);
            let stamped = stamped_for(req, is_preflight);
            match r {
                Step::Respond(rep) => hv(rep.headers@) == stamped && if is_preflight {
                    rep.status == 200 && rep.body@.len() == 0
                } else if !bearer_ok(presented(req), token@) {
                    rep.status == 401 && rep.body@ == unauthorized_message()
                } else {
                    origin_of(target_url@) is None && rep.status == 400 && rep.body@ == bad_url_message()
                },
                Step::Forward(f) => !is_preflight && bearer_ok(presented(req), token@) && origin_of(
                    target_url@,
                ) == Some(f.origin@) && hv(f.headers@) == request_headers_out(req) && hv(f.stamped@)
                    == stamped,
            }
        }),
{
    let mut stamped: HeaderList = Vec::new();
    assert(hv(stamped@) =~= Seq::empty());
    add_cors_headers(&mut stamped, request_headers);
    if is_preflight {
        return Step::Respond(Reply { status: 200, headers: stamped, body: String::new() });
    }
    add_cache_control_headers(&mut stamped);
    let presented = match header_str(request_headers, "authorization") {
        Some(s) => s,
        None => String::new(),
    };
    if !valid_bearer(presented.as_str(), token) {
        let body = String::from_str("未认证，请更新App: bearer 认证失败");
        return Step::Respond(Reply { status: 401, headers: stamped, body });
    }
    match parse_origin_url(target_url) {
        Some(origin) => {
            let headers = copy_request_headers(request_headers);
            Step::Forward(Forward { origin, headers, stamped })
        },
        None => {
            let body = String::from_str("url参数错误");
            Step::Respond(Reply { status: 400, headers: stamped, body })
        },
    }
}

/// The status a client sees for an origin status: a redirect becomes 200, and a
/// code outside 100..=999 becomes 200 too.
pub open spec fn client_status(status: u16) -> u16 {
    if is_redirect(status) {
        200
    } else if 100 <= status <= 999 {
        status
    } else {
        200
    }
}

/// The client-facing headers for an origin response with `status` and headers
/// `up`, for a request whose origin is `origin`, stamped with `stamped`.
pub open spec fn reply_headers(stamped: HeaderSeq, origin: Seq<char>, scheme: Option<Seq<char>>, status: u16, up: HeaderSeq) -> HeaderSeq {
    set_all(location_rewritten(response_headers_into(Seq::empty(), up, status), origin, scheme), stamped)
}

/// The status and headers answered for what the origin returned; the body
/// passes through as it came.
pub fn upstream_reply(stamped: &HeaderList, origin: &str, status_code: u16, upstream_headers: &HeaderList) -> (r: (u16, HeaderList))
    ensures
        r.0 == client_status(status_code),
        hv(r.1@) == reply_headers(hv(stamped@), origin@, scheme_of(origin@), status_code, hv(upstream_headers@)),
{
    let mut headers: HeaderList = Vec::new();
    assert(hv(headers@) =~= Seq::empty());
    copy_response_headers(upstream_headers, &mut headers, status_code);
    modify_location(&mut headers, origin);
    header_set_all(&mut headers, stamped);
    let status = if 300 <= status_code && status_code < 400 {
        200
    } else if 100 <= status_code && status_code <= 999 {
        status_code
    } else {
        200
    };
    (status, headers)
}

/// The response for a request that failed on its way, stamped with `stamped`.
pub fn error_reply(stamped: &HeaderList, err: AppError) -> (r: Reply)
    ensures
        r.status == err.status_spec(),
        r.body@ == err.message_spec(),
        hv(r.headers@) == set_all(Seq::empty(), hv(stamped@)),
{
    let (status, body) = err.into_parts();
    let mut headers: HeaderList = Vec::new();
    assert(hv(headers@) =~= Seq::empty());
    header_set_all(&mut headers, stamped);
    Reply { status, headers, body }
}

/// No entry of `h` is named like a cross-origin header.
pub open spec fn no_cors(h: HeaderSeq) -> bool {
    forall|i: int| 0 <= i < h.len() ==> !starts_with_ci(#[trigger] h[i].0, cors_prefix())
}

proof fn lemma_drop_named_within(h: HeaderSeq, n: Seq<char>)
    ensures
        forall|i: int| 0 <= i < drop_named(h, n).len() ==> h.contains(#[trigger] drop_named(h, n)[i]),
    decreases h.len(),
{
    if h.len() > 0 {
        let p = drop_named(h.drop_last(), n);
        lemma_drop_named_within(h.drop_last(), n);
        assert forall|i: int| 0 <= i < drop_named(h, n).len() implies h.contains(#[trigger] drop_named(h, n)[i]) by {
            if i < p.len() {
                let e = p[i];
                assert(h.drop_last().contains(e));
                let k = choose|k: int| 0 <= k < h.drop_last().len() && h.drop_last()[k] == e;
                assert(h[k] == e);
            } else {
                assert(h[h.len() - 1] == drop_named(h, n)[i]);
            }
        }
    }
}

proof fn lemma_set_named_no_cors(h: HeaderSeq, n: Seq<char>, v: Seq<u8>)
    requires
        no_cors(h),
        !starts_with_ci(n, cors_prefix()),
    ensures
        no_cors(set_named(h, n, v)),
{
    lemma_drop_named_within(h, n);
    let d = drop_named(h, n);
    assert forall|i: int| 0 <= i < set_named(h, n, v).len() implies !starts_with_ci(#[trigger] set_named(h, n, v)[i].0, cors_prefix()) by {
        if i < d.len() {
            assert(h.contains(d[i]));
        }
    }
}

proof fn lemma_response_out_no_cors(src: HeaderSeq, k: int)
    requires
        0 <= k <= src.len(),
    ensures
        no_cors(response_out(src, k)),
    decreases k,
{
    reveal_strlit("tun-set-cookie");
    reveal_strlit("access-control-");
    if k > 0 {
        lemma_response_out_no_cors(src, k - 1);
        let prev = response_out(src, k - 1);
        let cur = response_out(src, k);
        assert forall|i: int| 0 <= i < cur.len() implies !starts_with_ci(#[trigger] cur[i].0, cors_prefix()) by {
            if i < prev.len() {
                assert(cur[i] == prev[i]);
            }
        }
    }
}

proof fn lemma_set_all_stamped(h: HeaderSeq, es: HeaderSeq)
    requires
        no_cors(h),
    ensures
        forall|i: int| 0 <= i < set_all(h, es).len() && starts_with_ci(#[trigger] set_all(h, es)[i].0, cors_prefix())
            ==> es.contains(set_all(h, es)[i]),
    decreases es.len(),
{
    if es.len() > 0 {
        let prev = set_all(h, es.drop_last());
        lemma_set_all_stamped(h, es.drop_last());
        lemma_drop_named_within(prev, es.last().0);
        let d = drop_named(prev, es.last().0);
        let cur = set_all(h, es);
        assert forall|i: int| 0 <= i < cur.len() && starts_with_ci(#[trigger] cur[i].0, cors_prefix()) implies es.contains(cur[i]) by {
            if i < d.len() {
                assert(prev.contains(d[i]));
                let k = choose|k: int| 0 <= k < prev.len() && prev[k] == d[i];
                assert(es.drop_last().contains(prev[k]));
                let m = choose|m: int| 0 <= m < es.drop_last().len() && es.drop_last()[m] == prev[k];
                assert(es[m] == cur[i]);
            } else {
                assert(es[es.len() - 1] == cur[i]);
            }
        }
    }
}

/// No cross-origin header of the origin's reaches the client: every header of a
/// reply whose name begins with `access-control-`, in any case, is one of the
/// stamped headers.
pub proof fn lemma_only_stamped_cors(stamped: HeaderSeq, origin: Seq<char>, scheme: Option<Seq<char>>, status: u16, up: HeaderSeq)
    ensures
        forall|i: int| 0 <= i < reply_headers(stamped, origin, scheme, status, up).len() && starts_with_ci(
            #[trigger] reply_headers(stamped, origin, scheme, status, up)[i].0,
            cors_prefix(),
        ) ==> stamped.contains(reply_headers(stamped, origin, scheme, status, up)[i]),
{
    reveal_strlit("tun-status");
    reveal_strlit("tun-Location");
    reveal_strlit("tun-Location-Proxy");
    reveal_strlit("access-control-");
    let e: HeaderSeq = Seq::empty();
    let t = if is_redirect(status) {
        set_named(e, "tun-status"@, crate::headers::decimal(status as nat))
    } else {
        e
    };
    if is_redirect(status) {
        lemma_set_named_no_cors(e, "tun-status"@, crate::headers::decimal(status as nat));
    }
    lemma_response_out_no_cors(up, up.len() as int);
    let r = response_headers_into(e, up, status);
    let ro = response_out(up, up.len() as int);
    assert(r == t + ro);
    assert forall|i: int| 0 <= i < r.len() implies !starts_with_ci(#[trigger] r[i].0, cors_prefix()) by {
        if i >= t.len() {
            assert(r[i] == ro[i - t.len()]);
        }
    }
    let l = location_rewritten(r, origin, scheme);
    lemma_drop_named_within(r, "location"@);
    let d = drop_named(r, "location"@);
    assert forall|i: int| 0 <= i < d.len() implies !starts_with_ci(#[trigger] d[i].0, cors_prefix()) by {
        assert(r.contains(d[i]));
    }
    if location_text(r) is Some && crate::text::trim(location_text(r)->0).len() > 0 {
        let proxy_name = "tun-Location-Proxy"@;
        assert(lower_seq(proxy_name.subrange(0, 15))[0] != lower_seq(cors_prefix())[0]);
        let v = location_text(r)->0;
        let loc = crate::proxy::resolve(crate::text::trim(v), origin, scheme);
        lemma_set_named_no_cors(d, "tun-Location"@, vstd::utf8::encode_utf8(loc));
        lemma_set_named_no_cors(
            set_named(d, "tun-Location"@, vstd::utf8::encode_utf8(loc)),
            proxy_name,
            vstd::utf8::encode_utf8(crate::proxy::proxy_url(loc)),
        );
    }
    lemma_set_all_stamped(l, stamped);
}

/// Copying an origin response never adds a cross-origin header: every entry of
/// the result whose name begins with `access-control-`, in any case, was already
/// in the target.
pub proof fn lemma_response_drops_cors(target: HeaderSeq, src: HeaderSeq, status: u16)
    ensures
        forall|i: int| 0 <= i < response_headers_into(target, src, status).len() && starts_with_ci(
            #[trigger] response_headers_into(target, src, status)[i].0,
            cors_prefix(),
        ) ==> target.contains(response_headers_into(target, src, status)[i]),
{
    reveal_strlit("tun-status");
    reveal_strlit("access-control-");
    let r = response_headers_into(target, src, status);
    let ro = response_out(src, src.len() as int);
    lemma_response_out_no_cors(src, src.len() as int);
    let d = drop_named(target, "tun-status"@);
    lemma_drop_named_within(target, "tun-status"@);
    let t = if is_redirect(status) {
        set_named(target, "tun-status"@, crate::headers::decimal(status as nat))
    } else {
        target
    };
    assert(r == t + ro);
    assert forall|i: int| 0 <= i < r.len() && starts_with_ci(#[trigger] r[i].0, cors_prefix()) implies target.contains(r[i]) by {
        if i >= t.len() {
            assert(r[i] == ro[i - t.len()]);
        } else if is_redirect(status) {
            if i < d.len() {
                assert(r[i] == d[i]);
                assert(target.contains(d[i]));
            } else {
                assert(r[i].0 == "tun-status"@);
            }
        } else {
            assert(r[i] == target[i]);
        }
    }
}

proof fn lemma_cors_names_distinct(req: HeaderSeq)
    ensures
        unique_names(cors_entries(req)),
        cors_entries(req).len() == 6,
        forall|k: int, j: int| 0 <= k < 6 && 0 <= j < 3 ==> !ci_eq(#[trigger] cors_entries(req)[k].0, #[trigger] cache_entries()[j].0),
{
    reveal(cors_list);
    reveal(cache_entries);
    reveal_strlit("Access-Control-Allow-Origin");
    reveal_strlit("Access-Control-Allow-Methods");
    reveal_strlit("Access-Control-Allow-Headers");
    reveal_strlit("Access-Control-Max-Age");
    reveal_strlit("Access-Control-Allow-Credentials");
    reveal_strlit("Access-Control-Expose-Headers");
    reveal_strlit("Cache-Control");
    reveal_strlit("Pragma");
    reveal_strlit("Expires");
    let c = cors_entries(req);
    let h = cache_entries();
    assert forall|i: int, j: int| 0 <= i < j < c.len() implies !ci_eq(#[trigger] c[i].0, #[trigger] c[j].0) by {
        if ci_eq(c[i].0, c[j].0) {
            assert(lower_seq(c[i].0).len() == lower_seq(c[j].0).len());
            if i == 1 && j == 2 {
                assert(lower_seq(c[i].0)[21] != lower_seq(c[j].0)[21]);
            }
        }
    }
    assert forall|k: int, j: int| 0 <= k < 6 && 0 <= j < 3 implies !ci_eq(#[trigger] c[k].0, #[trigger] h[j].0) by {
        if ci_eq(c[k].0, h[j].0) {
            assert(lower_seq(c[k].0).len() == lower_seq(h[j].0).len());
        }
    }
}

proof fn lemma_cors_entry_present(req: HeaderSeq, origin: Seq<char>, scheme: Option<Seq<char>>, status: u16, up: HeaderSeq, k: int)
    requires
        0 <= k < cors_entries(req).len(),
    ensures
        stamped_for(req, true).contains(cors_entries(req)[k]),
        stamped_for(req, false).contains(cors_entries(req)[k]),
        reply_headers(stamped_for(req, false), origin, scheme, status, up).contains(cors_entries(req)[k]),
        forall|x: (Seq<char>, Seq<u8>)| #[trigger] reply_headers(stamped_for(req, false), origin, scheme, status, up).contains(x)
            && ci_eq(x.0, cors_entries(req)[k].0) ==> x == cors_entries(req)[k],
{
    let cors = cors_entries(req);
    let e: HeaderSeq = Seq::empty();
    let c = set_all(e, cors);
    let st = set_all(c, cache_entries());
    assert(stamped_for(req, true) == c);
    assert(stamped_for(req, false) == st);
    lemma_cors_names_distinct(req);
    assert(unique_names(e));
    lemma_set_all_unique(e, cors);
    lemma_set_all_unique(c, cache_entries());
    lemma_set_all_member(e, cors, k);
    assert forall|j: int| 0 <= j < cache_entries().len() implies !ci_eq(cors[k].0, #[trigger] cache_entries()[j].0) by {
        reveal(cache_entries);
    }
    lemma_set_all_keeps(c, cache_entries(), cors[k]);
    let l = location_rewritten(response_headers_into(e, up, status), origin, scheme);
    let i = choose|i: int| 0 <= i < st.len() && st[i] == cors[k];
    lemma_set_all_member(l, st, i);
    lemma_set_all_named(l, st, i);
}

/// Every response carries all six cross-origin headers for its request: those
/// answered here in their stamped headers, whether preflight or not, and those
/// forwarded in the reply, whatever the origin sent.
pub proof fn lemma_cors_all_present(req: HeaderSeq, preflight: bool, origin: Seq<char>, scheme: Option<Seq<char>>, status: u16, up: HeaderSeq)
    ensures
        forall|k: int| 0 <= k < cors_entries(req).len() ==> #[trigger] stamped_for(req, preflight).contains(cors_entries(req)[k]),
        forall|k: int| 0 <= k < cors_entries(req).len() ==> #[trigger] reply_headers(stamped_for(req, false), origin, scheme, status, up).contains(cors_entries(req)[k]),
{
    assert forall|k: int| 0 <= k < cors_entries(req).len() implies #[trigger] stamped_for(req, preflight).contains(cors_entries(req)[k]) by {
        lemma_cors_entry_present(req, origin, scheme, status, up, k);
    }
    assert forall|k: int| 0 <= k < cors_entries(req).len() implies #[trigger] reply_headers(stamped_for(req, false), origin, scheme, status, up).contains(cors_entries(req)[k]) by {
        lemma_cors_entry_present(req, origin, scheme, status, up, k);
    }
}

/// Whatever the request, preflight or not, the headers stamped on it allow the
/// request's own `Origin` (else any origin) and the headers its preflight asked
/// for (else any), for any method, and expose the four headers this gateway adds.
pub proof fn lemma_stamped_values(req: HeaderSeq, preflight: bool)
    ensures
        stamped_for(req, preflight).contains(("Access-Control-Allow-Origin"@, allow_origin(req))),
        stamped_for(req, preflight).contains(("Access-Control-Allow-Headers"@, allow_headers(req))),
        stamped_for(req, preflight).contains(("Access-Control-Allow-Methods"@, vstd::utf8::encode_utf8("*"@))),
        stamped_for(req, preflight).contains(
            (
                "Access-Control-Expose-Headers"@,
                vstd::utf8::encode_utf8("tun-Location, tun-Location-Proxy, tun-set-cookie, tun-status"@),
            ),
        ),
{
    reveal(cors_list);
    lemma_cors_all_present(req, preflight, Seq::empty(), None, 200, Seq::empty());
    assert(cors_entries(req)[0] == ("Access-Control-Allow-Origin"@, allow_origin(req)));
    assert(cors_entries(req)[1] == ("Access-Control-Allow-Methods"@, vstd::utf8::encode_utf8("*"@)));
    assert(cors_entries(req)[2] == ("Access-Control-Allow-Headers"@, allow_headers(req)));
    assert(cors_entries(req)[5].0 == "Access-Control-Expose-Headers"@);
}

/// Each of the six cross-origin names carries exactly one value in a forwarded
/// reply: every header of the reply named like one of them is that stamped
/// entry, whatever the origin sent.
pub proof fn lemma_cors_one_each(req: HeaderSeq, origin: Seq<char>, scheme: Option<Seq<char>>, status: u16, up: HeaderSeq)
    ensures
        forall|i: int, k: int|
            0 <= i < reply_headers(stamped_for(req, false), origin, scheme, status, up).len() && 0 <= k < cors_entries(req).len()
                && ci_eq(#[trigger] reply_headers(stamped_for(req, false), origin, scheme, status, up)[i].0, #[trigger] cors_entries(req)[k].0)
                ==> reply_headers(stamped_for(req, false), origin, scheme, status, up)[i] == cors_entries(req)[k],
{
    let r = reply_headers(stamped_for(req, false), origin, scheme, status, up);
    assert forall|i: int, k: int|
        0 <= i < r.len() && 0 <= k < cors_entries(req).len() && ci_eq(#[trigger] r[i].0, #[trigger] cors_entries(req)[k].0)
        implies r[i] == cors_entries(req)[k] by {
        lemma_cors_entry_present(req, origin, scheme, status, up, k);
        assert(r.contains(r[i]));
    }
}

proof fn lemma_ci_prefix(a: Seq<char>, b: Seq<char>, p: Seq<char>)
    requires
        ci_eq(a, b),
        starts_with_ci(b, p),
    ensures
        starts_with_ci(a, p),
{
    let n = p.len() as int;
    assert(lower_seq(a).len() == lower_seq(b).len());
    assert(lower_seq(a.subrange(0, n)) =~= lower_seq(a).subrange(0, n));
    assert(lower_seq(b.subrange(0, n)) =~= lower_seq(b).subrange(0, n));
}

proof fn lemma_values_named_append(a: HeaderSeq, b: HeaderSeq, k: Seq<char>)
    requires
        forall|i: int| 0 <= i < b.len() ==> !ci_eq(#[trigger] b[i].0, k),
    ensures
        values_named(a + b, k) == values_named(a, k),
    decreases b.len(),
{
    if b.len() == 0 {
        assert(a + b =~= a);
    } else {
        assert((a + b).drop_last() =~= a + b.drop_last());
        assert((a + b).last() == b.last());
        lemma_values_named_append(a, b.drop_last(), k);
    }
}

proof fn lemma_values_named_drop(h: HeaderSeq, n: Seq<char>, k: Seq<char>)
    requires
        !ci_eq(n, k),
    ensures
        values_named(drop_named(h, n), k) == values_named(h, k),
    decreases h.len(),
{
    if h.len() > 0 {
        lemma_values_named_drop(h.drop_last(), n, k);
        let p = drop_named(h.drop_last(), n);
        if !ci_eq(h.last().0, n) {
            assert(p.push(h.last()).drop_last() =~= p);
        }
    }
}

/// Copying an origin response leaves every cross-origin name with exactly the
/// values it had in the target: no origin-supplied cross-origin header is copied.
pub proof fn lemma_response_keeps_cors_values(target: HeaderSeq, src: HeaderSeq, status: u16, k: Seq<char>)
    requires
        starts_with_ci(k, cors_prefix()),
    ensures
        values_named(response_headers_into(target, src, status), k) == values_named(target, k),
{
    reveal_strlit("tun-status");
    reveal_strlit("access-control-");
    let ro = response_out(src, src.len() as int);
    lemma_response_out_no_cors(src, src.len() as int);
    assert forall|i: int| 0 <= i < ro.len() implies !ci_eq(#[trigger] ro[i].0, k) by {
        if ci_eq(ro[i].0, k) {
            lemma_ci_prefix(ro[i].0, k, cors_prefix());
        }
    }
    let ts = "tun-status"@;
    if ci_eq(ts, k) {
        lemma_ci_prefix(ts, k, cors_prefix());
    }
    let t = if is_redirect(status) {
        set_named(target, ts, crate::headers::decimal(status as nat))
    } else {
        target
    };
    lemma_values_named_append(t, ro, k);
    if is_redirect(status) {
        lemma_values_named_drop(target, ts, k);
        let d = drop_named(target, ts);
        assert(t.drop_last() =~= d);
    }
}

} // verus!
