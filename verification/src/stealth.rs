//! The stealth request path: which caller headers are forwarded to the uTLS
//! sidecar, the token injected for `authorization`, and the browser headers
//! pinned to the TLS fingerprint; plus the service state handles.
use vstd::prelude::*;
use crate::text::push_str;

verus! {

/// State handle of the proxy service command layer.
#[derive(Clone, Copy)]
pub struct ProxyServiceState;

impl ProxyServiceState {
    /// A new handle.
    pub fn new() -> (s: ProxyServiceState)
        ensures
            s == ProxyServiceState,
    {
        ProxyServiceState
    }
}

/// State handle of the cloudflared command layer (unavailable on Android).
#[derive(Clone, Copy)]
pub struct CloudflaredState;

impl CloudflaredState {
    /// A new handle.
    pub fn new() -> (s: CloudflaredState)
        ensures
            s == CloudflaredState,
    {
        CloudflaredState
    }

    /// The handle itself.
    pub fn inner(&self) -> (s: &CloudflaredState)
        ensures
            *s == *self,
    {
        self
    }
}

/// What `str::to_lowercase` returns for `s` (Unicode lower-casing).
pub uninterp spec fn lowercase_of(s: Seq<char>) -> Seq<char>;

/// `c` lower-cased if it is an ASCII upper-case letter.
pub open spec fn ascii_lower(c: char) -> char {
    if 'A' <= c <= 'Z' {
        ((c as int) + 32) as char
    } else {
        c
    }
}

/// Every character of `s` is ASCII.
pub open spec fn all_ascii(s: Seq<char>) -> bool {
    forall|i: int| 0 <= i < s.len() ==> (#[trigger] s[i] as int) < 128
}

/// Calls `str::to_lowercase`. Its result is the named Unicode lower-casing;
/// on an ASCII string that is `A`..`Z` mapped to `a`..`z` and every other
/// character kept, as the standard library documents.
#[verifier::external_body]
fn to_lowercase(s: &str) -> (r: String)
    ensures
        r@ == lowercase_of(s@),
        all_ascii(s@) ==> r@ == s@.map_values(|c: char| ascii_lower(c)),
{
    s.to_lowercase()
}

/// What happens to one caller header on the stealth path.
#[derive(Debug, PartialEq, Eq, Structural)]
pub enum HeaderDisposition {
    /// Dropped: the fingerprint headers are set by the proxy itself.
    Drop,
    /// Replaced by `authorization: Bearer <stored token>`.
    InjectToken,
    /// Forwarded as given.
    Forward,
}

/// The disposition of a header whose lower-cased name is `lower`, when a
/// stored token is (`has_token`) or is not available.
pub open spec fn spec_header_disposition(lower: Seq<char>, has_token: bool) -> HeaderDisposition {
    if lower == "user-agent"@ || lower == "sec-ch-ua"@ || lower == "sec-ch-ua-mobile"@ || lower
        == "sec-ch-ua-platform"@ {
        HeaderDisposition::Drop
    } else if lower == "authorization"@ && has_token {
        HeaderDisposition::InjectToken
    } else {
        HeaderDisposition::Forward
    }
}

fn str_eq(a: &str, b: &str) -> (r: bool)
    ensures
        r == (a@ == b@),
{
    let x = a.to_owned();
    let y = b.to_owned();
    x == y
}

/// The disposition of a header given its lower-cased name.
pub fn header_disposition(lower: &str, has_token: bool) -> (d: HeaderDisposition)
    ensures
        d == spec_header_disposition(lower@, has_token),
        (d is Drop) == is_fingerprint_header_name(lower@),
        (d is InjectToken) == (has_token && lower@ == "authorization"@ && !is_fingerprint_header_name(
            lower@,
        )),
{
    if str_eq(lower, "user-agent") || str_eq(lower, "sec-ch-ua") || str_eq(lower, "sec-ch-ua-mobile")
        || str_eq(lower, "sec-ch-ua-platform") {
        HeaderDisposition::Drop
    } else if str_eq(lower, "authorization") && has_token {
        HeaderDisposition::InjectToken
    } else {
        HeaderDisposition::Forward
    }
}

/// The header a caller header becomes, if it is kept.
pub open spec fn spec_forwarded(h: (Seq<char>, Seq<char>), token: Option<Seq<char>>) -> Option<
    (Seq<char>, Seq<char>),
> {
    match spec_header_disposition(lowercase_of(h.0), token is Some) {
        HeaderDisposition::Drop => None,
        HeaderDisposition::InjectToken => Some(("authorization"@, "Bearer "@ + token->Some_0)),
        HeaderDisposition::Forward => Some(h),
    }
}

/// The caller headers that are kept, in order, after their dispositions.
pub open spec fn spec_forwarded_headers(
    hs: Seq<(Seq<char>, Seq<char>)>,
    token: Option<Seq<char>>,
) -> Seq<(Seq<char>, Seq<char>)>
    decreases hs.len(),
{
    if hs.len() == 0 {
        seq![]
    } else {
        let prev = spec_forwarded_headers(hs.drop_last(), token);
        match spec_forwarded(hs.last(), token) {
            Some(h) => prev.push(h),
            None => prev,
        }
    }
}

/// The headers pinned to the fingerprint, appended after the caller's.
pub open spec fn spec_fingerprint_headers(ua: Seq<char>, sec_ch_ua: Seq<char>) -> Seq<
    (Seq<char>, Seq<char>),
> {
    seq![
        ("user-agent"@, ua),
        ("sec-ch-ua"@, sec_ch_ua),
        ("sec-ch-ua-mobile"@, "?1"@),
        ("sec-ch-ua-platform"@, "\"Android\""@),
    ]
}

/// A header list as plain strings.
pub open spec fn header_seq(v: Seq<(String, String)>) -> Seq<(Seq<char>, Seq<char>)> {
    v.map_values(|h: (String, String)| (h.0@, h.1@))
}

/// The request headers of a stealth request: the caller's headers with the
/// fingerprint headers dropped and `authorization` carrying the stored token
/// when there is one, then `user-agent`, `sec-ch-ua`, `sec-ch-ua-mobile` and
/// `sec-ch-ua-platform` as the fingerprint has them.
pub fn build_stealth_headers(
    headers: &Vec<(String, String)>,
    injected_token: &Option<String>,
    chrome_ua: &str,
    sec_ch_ua: &str,
) -> (out: Vec<(String, String)>)
    ensures
        header_seq(out@) == spec_forwarded_headers(
            header_seq(headers@),
            match injected_token {
                Some(t) => Some(t@),
                None => None,
            },
        ) + spec_fingerprint_headers(chrome_ua@, sec_ch_ua@),
        forall|i: int|
            0 <= i < headers@.len() && all_ascii(#[trigger] headers@[i].0@) ==> lowercase_of(
                headers@[i].0@,
            ) == headers@[i].0@.map_values(|c: char| ascii_lower(c)),
{
    let ghost hs = header_seq(headers@);
    let ghost tok = match injected_token {
        Some(t) => Some(t@),
        None => None::<Seq<char>>,
    };
    let mut out: Vec<(String, String)> = Vec::new();
    for i in 0..headers.len()
        invariant
            hs == header_seq(headers@),
            tok == (match injected_token {
                Some(t) => Some(t@),
                None => None::<Seq<char>>,
            }),
            header_seq(out@) == spec_forwarded_headers(hs.take(i as int), tok),
            forall|k: int|
                0 <= k < i && all_ascii(#[trigger] headers@[k].0@) ==> lowercase_of(
                    headers@[k].0@,
                ) == headers@[k].0@.map_values(|c: char| ascii_lower(c)),
    {
        let ghost before = header_seq(out@);
        assert(hs.take(i + 1).drop_last() =~= hs.take(i as int));
        assert(hs.take(i + 1).last() == hs[i as int]);
        let key = headers[i].0.as_str();
        let lower = to_lowercase(key);
        match header_disposition(lower.as_str(), injected_token.is_some()) {
            HeaderDisposition::Drop => {},
            HeaderDisposition::InjectToken => {
                if let Some(token) = injected_token {
                    let mut value = String::from_str("Bearer ");
                    push_str(&mut value, token.as_str());
                    out.push((String::from_str("authorization"), value));
                    assert(header_seq(out@) =~= before.push(("authorization"@, "Bearer "@ + token@)));
                }
            },
            HeaderDisposition::Forward => {
                out.push((headers[i].0.clone(), headers[i].1.clone()));
                assert(header_seq(out@) =~= before.push(hs[i as int]));
            },
        }
    }
    assert(hs.take(hs.len() as int) =~= hs);
    let ghost fwd = header_seq(out@);
    out.push((String::from_str("user-agent"), chrome_ua.to_owned()));
    out.push((String::from_str("sec-ch-ua"), sec_ch_ua.to_owned()));
    out.push((String::from_str("sec-ch-ua-mobile"), String::from_str("?1")));
    out.push((String::from_str("sec-ch-ua-platform"), String::from_str("\"Android\"")));
    assert(header_seq(out@) =~= fwd + spec_fingerprint_headers(chrome_ua@, sec_ch_ua@));
    out
}

/// The name of the stream event `kind` (`chunk`, `error` or `done`) of stream `event_id`.
pub open spec fn spec_stream_event_name(kind: Seq<char>, event_id: Seq<char>) -> Seq<char> {
    "stream-"@ + kind + "-"@ + event_id
}

/// The name under which stream `event_id` emits events of `kind`.
pub fn stream_event_name(kind: &str, event_id: &str) -> (s: String)
    ensures
        s@ == spec_stream_event_name(kind@, event_id@),
{
    let mut s = String::from_str("stream-");
    push_str(&mut s, kind);
    push_str(&mut s, "-");
    push_str(&mut s, event_id);
    s
}


/// A header of the stealth request that came from the caller is one the
/// caller sent and whose name neither is a fingerprint header nor (when a
/// stored token exists) `authorization`; every other forwarded header is the
/// injected `authorization: Bearer <stored token>`. So the caller can neither
/// override the fingerprint headers nor the stored token.
pub proof fn lemma_forwarded_headers_safe(hs: Seq<(Seq<char>, Seq<char>)>, token: Option<Seq<char>>)
    ensures
        forall|i: int|
            0 <= i < spec_forwarded_headers(hs, token).len() ==> ({
                let h = #[trigger] spec_forwarded_headers(hs, token)[i];
                ||| (token is Some && h == ("authorization"@, "Bearer "@ + token->Some_0))
                ||| (spec_header_disposition(lowercase_of(h.0), token is Some)
                    == HeaderDisposition::Forward && hs.contains(h))
            }),
    decreases hs.len(),
{
    if hs.len() > 0 {
        let d = hs.drop_last();
        lemma_forwarded_headers_safe(d, token);
        let prev = spec_forwarded_headers(d, token);
        let out = spec_forwarded_headers(hs, token);
        assert forall|i: int| 0 <= i < out.len() implies ({
            let h = #[trigger] out[i];
            ||| (token is Some && h == ("authorization"@, "Bearer "@ + token->Some_0))
            ||| (spec_header_disposition(lowercase_of(h.0), token is Some)
                == HeaderDisposition::Forward && hs.contains(h))
        }) by {
            if i < prev.len() {
                assert(out[i] == prev[i]);
                let h = prev[i];
                if d.contains(h) {
                    let k = choose|k: int| 0 <= k < d.len() && d[k] == h;
                    assert(hs[k] == h);
                }
            } else {
                assert(hs[hs.len() - 1] == hs.last());
            }
        }
    }
}

/// The names of the four headers pinned to the TLS fingerprint.
pub open spec fn is_fingerprint_header_name(name: Seq<char>) -> bool {
    ||| name == "user-agent"@
    ||| name == "sec-ch-ua"@
    ||| name == "sec-ch-ua-mobile"@
    ||| name == "sec-ch-ua-platform"@
}

/// No caller header whose lower-cased name is a fingerprint header gets
/// through: every forwarded header is either the injected
/// `authorization: Bearer <stored token>` or a header the caller sent whose
/// lower-cased name is none of `user-agent`, `sec-ch-ua`, `sec-ch-ua-mobile`
/// and `sec-ch-ua-platform`.
pub proof fn lemma_caller_fingerprint_headers_dropped(
    hs: Seq<(Seq<char>, Seq<char>)>,
    token: Option<Seq<char>>,
)
    ensures
        forall|i: int|
            0 <= i < spec_forwarded_headers(hs, token).len() ==> ({
                let h = #[trigger] spec_forwarded_headers(hs, token)[i];
                ||| (token is Some && h == ("authorization"@, "Bearer "@ + token->Some_0))
                ||| (!is_fingerprint_header_name(lowercase_of(h.0)) && hs.contains(h))
            }),
{
    lemma_forwarded_headers_safe(hs, token);
}

/// The request headers end with the four fingerprint headers carrying the
/// fingerprint's values, and no earlier header has a (ASCII) name that
/// lower-cases to one of them, so each fingerprint header is sent once, with
/// the pinned value. `hs` are the caller's headers, whose ASCII names
/// lower-case as ASCII (what `build_stealth_headers` ensures of them).
pub proof fn lemma_fingerprint_headers_pinned(
    hs: Seq<(Seq<char>, Seq<char>)>,
    token: Option<Seq<char>>,
    ua: Seq<char>,
    sec_ch_ua: Seq<char>,
)
    requires
        forall|k: int|
            0 <= k < hs.len() && all_ascii(#[trigger] hs[k].0) ==> lowercase_of(hs[k].0)
                == hs[k].0.map_values(|c: char| ascii_lower(c)),
    ensures
        ({
            let fwd = spec_forwarded_headers(hs, token);
            let out = fwd + spec_fingerprint_headers(ua, sec_ch_ua);
            &&& out.len() == fwd.len() + 4
            &&& out[fwd.len() as int] == ("user-agent"@, ua)
            &&& out[fwd.len() as int + 1] == ("sec-ch-ua"@, sec_ch_ua)
            &&& out[fwd.len() as int + 2] == ("sec-ch-ua-mobile"@, "?1"@)
            &&& out[fwd.len() as int + 3] == ("sec-ch-ua-platform"@, "\"Android\""@)
            &&& forall|i: int|
                0 <= i < fwd.len() && all_ascii(#[trigger] out[i].0)
                    ==> !is_fingerprint_header_name(out[i].0.map_values(|c: char| ascii_lower(c)))
        }),
{
    reveal_strlit("authorization");
    reveal_strlit("user-agent");
    reveal_strlit("sec-ch-ua");
    reveal_strlit("sec-ch-ua-mobile");
    reveal_strlit("sec-ch-ua-platform");
    lemma_caller_fingerprint_headers_dropped(hs, token);
    let fwd = spec_forwarded_headers(hs, token);
    let out = fwd + spec_fingerprint_headers(ua, sec_ch_ua);
    assert forall|i: int| 0 <= i < fwd.len() && all_ascii(#[trigger] out[i].0) implies !is_fingerprint_header_name(
        out[i].0.map_values(|c: char| ascii_lower(c)),
    ) by {
        let h = fwd[i];
        assert(out[i] == h);
        let low = h.0.map_values(|c: char| ascii_lower(c));
        if token is Some && h == ("authorization"@, "Bearer "@ + token->Some_0) {
            assert(low.len() == 13);
        } else {
            let k = choose|k: int| 0 <= k < hs.len() && hs[k] == h;
            assert(all_ascii(hs[k].0));
        }
    }
}

} // verus!
