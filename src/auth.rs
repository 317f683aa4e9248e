//! The authenticator: one shared bearer credential.
use vstd::prelude::*;
use vstd::string::*;
use crate::text::{ci_eq, has_prefix_ci, is_ws, lower_seq, starts_with_ci, str_eq, trim, trim_end, trim_start, trim_ws};

verus! {

/// The authorization scheme, compared without regard to ASCII case.
pub open spec fn bearer_prefix() -> Seq<char> {
    seq!['B', 'e', 'a', 'r', 'e', 'r', ' ']
}

/// `header` names the `Bearer` scheme in any case, followed by a space and then,
/// after trimming, exactly `key`.
pub open spec fn bearer_ok(header: Seq<char>, key: Seq<char>) -> bool {
    starts_with_ci(header, bearer_prefix()) && trim(header.subrange(7, header.len() as int)) == key
}

/// Checks an `Authorization` header value against the configured credential.
pub fn valid_bearer(authorization_header: &str, auth_key: &str) -> (r: bool)
    ensures
        r == bearer_ok(authorization_header@, auth_key@),
{
    let prefix = "Bearer ";
    proof {
        reveal_strlit("Bearer ");
        assert(prefix@ =~= bearer_prefix());
    }
    if !has_prefix_ci(authorization_header, prefix) {
        return false;
    }
    let n = authorization_header.unicode_len();
    let rest = authorization_header.substring_char(7, n);
    let token = trim_ws(rest);
    str_eq(token, auth_key)
}

/// Every character of `w` is whitespace.
pub open spec fn all_ws(w: Seq<char>) -> bool {
    forall|i: int| 0 <= i < w.len() ==> is_ws(#[trigger] w[i])
}

proof fn lemma_trim_start_ws(w: Seq<char>, x: Seq<char>)
    requires
        all_ws(w),
    ensures
        trim_start(w + x) == trim_start(x),
    decreases w.len(),
{
    if w.len() > 0 {
        assert((w + x)[0] == w[0]);
        assert((w + x).drop_first() =~= w.drop_first() + x);
        lemma_trim_start_ws(w.drop_first(), x);
    } else {
        assert(w + x =~= x);
    }
}

proof fn lemma_trim_end_ws(x: Seq<char>, w: Seq<char>)
    requires
        all_ws(w),
    ensures
        trim_end(x + w) == trim_end(x),
    decreases w.len(),
{
    if w.len() > 0 {
        assert((x + w).last() == w.last());
        assert((x + w).drop_last() =~= x + w.drop_last());
        lemma_trim_end_ws(x, w.drop_last());
    } else {
        assert(x + w =~= x);
    }
}

/// A header made of the scheme `Bearer` in any case, one space, whitespace, the
/// credential and whitespace is accepted for that credential, where the credential
/// itself neither begins nor ends with whitespace.
pub proof fn lemma_bearer_accepts(scheme: Seq<char>, w1: Seq<char>, c: Seq<char>, w2: Seq<char>)
    requires
        ci_eq(scheme, "Bearer"@),
        all_ws(w1),
        all_ws(w2),
        c.len() > 0 ==> !is_ws(c[0]) && !is_ws(c.last()),
    ensures
        bearer_ok(scheme + " "@ + w1 + c + w2, c),
{
    reveal_strlit("Bearer");
    reveal_strlit(" ");
    let h = scheme + " "@ + w1 + c + w2;
    assert(lower_seq(scheme).len() == lower_seq("Bearer"@).len());
    assert(h.subrange(0, 7) =~= scheme + " "@);
    assert(lower_seq(scheme + " "@) =~= lower_seq(scheme) + lower_seq(" "@));
    assert(bearer_prefix() =~= "Bearer"@ + " "@);
    assert(lower_seq(bearer_prefix()) =~= lower_seq("Bearer"@) + lower_seq(" "@));
    assert(starts_with_ci(h, bearer_prefix()));
    let rest = h.subrange(7, h.len() as int);
    assert(rest =~= w1 + (c + w2));
    lemma_trim_start_ws(w1, c + w2);
    if c.len() > 0 {
        assert((c + w2)[0] == c[0]);
        assert(trim_start(c + w2) == c + w2);
        lemma_trim_end_ws(c, w2);
        assert(trim_end(c) == c);
        assert(trim(rest) == c);
    } else {
        assert(c + w2 =~= w2);
        lemma_trim_start_ws(w2, Seq::empty());
        assert(w2 + Seq::<char>::empty() =~= w2);
        assert(trim_start(Seq::<char>::empty()) == Seq::<char>::empty());
        assert(trim(rest) == c);
    }
}

/// An empty header is refused, a header that does not begin with the scheme is
/// refused, and a header accepted for one credential is refused for every other.
pub proof fn lemma_bearer_refuses(h: Seq<char>, c: Seq<char>, d: Seq<char>)
    ensures
        !bearer_ok(Seq::empty(), c),
        !starts_with_ci(h, bearer_prefix()) ==> !bearer_ok(h, c),
        bearer_ok(h, c) && c != d ==> !bearer_ok(h, d),
{
}

} // verus!
