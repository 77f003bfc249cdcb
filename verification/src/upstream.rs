//! The Cloud Code `v1internal` upstream: endpoint URLs, the fallback over
//! sandbox, daily and production endpoints, and e-mail masking for logs.
use vstd::prelude::*;
use crate::text::{dec, push_char, push_decimal, push_str, str_chars};

verus! {

/// The prefix of at most `n` elements of `s`.
pub open spec fn prefix_up_to(s: Seq<char>, n: int) -> Seq<char> {
    if s.len() <= n {
        s
    } else {
        s.take(n)
    }
}

/// `c` upper-cased if it is an ASCII lower-case letter.
pub open spec fn ascii_upper(c: char) -> char {
    if 'a' <= c <= 'z' {
        ((c as int) - 32) as char
    } else {
        c
    }
}

/// `char::to_ascii_uppercase`: `a`..`z` map to `A`..`Z`, every other
/// character is unchanged, as the standard library documents.
#[verifier::external_body]
fn to_ascii_uppercase(c: char) -> (r: char)
    ensures
        r == ascii_upper(c),
{
    c.to_ascii_uppercase()
}

/// The position of the first `@`.
pub open spec fn first_at(s: Seq<char>) -> int {
    choose|i: int| 0 <= i < s.len() && s[i] == '@' && forall|k: int| 0 <= k < i ==> s[k] != '@'
}

/// The masked form of an e-mail address: with an `@`, the first three
/// characters of the local part and the first two of the domain, each
/// followed by `***` (`"userexample@gmail.com"` gives `"use***@gm***"`);
/// without one, its first five characters, the third upper-cased, and `***`
/// (`"nodomain"` gives `"noDom***"`).
pub open spec fn spec_mask_email(email: Seq<char>) -> Seq<char> {
    if email.contains('@') {
        let at = first_at(email);
        prefix_up_to(email.take(at), 3) + "***@"@ + prefix_up_to(email.skip(at + 1), 2) + "***"@
    } else {
        let p = prefix_up_to(email, 5);
        let q = if p.len() > 2 {
            p.update(2, ascii_upper(p[2]))
        } else {
            p
        };
        q + "***"@
    }
}

/// Masks an e-mail address for logs (see `spec_mask_email`).
pub fn mask_email(email: &str) -> (r: String)
    ensures
        r@ == spec_mask_email(email@),
{
    let chars = str_chars(email);
    let n = chars.len();
    let mut at: usize = 0;
    while at < n && chars[at] != '@'
        invariant
            at <= n,
            n == chars@.len(),
            forall|k: int| 0 <= k < at ==> chars@[k] != '@',
        decreases n - at,
    {
        at += 1;
    }
    let mut out = String::new();
    if at < n {
        proof {
            assert(email@.contains('@')) by {
                assert(email@[at as int] == '@');
            }
            let f = first_at(email@);
            assert(f == at) by {
                if f < at {
                    assert(email@[f] != '@');
                } else if f > at {
                    assert(email@[at as int] != '@');
                }
            }
        }
        let mut i: usize = 0;
        while i < at && i < 3
            invariant
                i <= at,
                i <= 3,
                at < n,
                n == chars@.len(),
                out@ == chars@.take(i as int),
            decreases at - i,
        {
            push_char(&mut out, chars[i]);
            assert(chars@.take(i + 1) =~= chars@.take(i as int).push(chars@[i as int]));
            i += 1;
        }
        assert(out@ == prefix_up_to(email@.take(at as int), 3)) by {
            if at <= 3 {
                assert(i == at);
            } else {
                assert(i == 3);
                assert(chars@.take(at as int).take(3) =~= chars@.take(3));
            }
        }
        let ghost head = out@;
        push_str(&mut out, "***@");
        let mut j: usize = at + 1;
        while j < n && j - at < 3
            invariant
                at + 1 <= j <= n,
                j - at <= 3,
                n == chars@.len(),
                out@ == head + "***@"@ + chars@.subrange(at + 1, j as int),
            decreases n - j,
        {
            push_char(&mut out, chars[j]);
            assert(chars@.subrange(at + 1, j + 1) =~= chars@.subrange(at + 1, j as int).push(
                chars@[j as int],
            ));
            j += 1;
        }
        assert(chars@.subrange(at + 1, j as int) == prefix_up_to(email@.skip(at + 1), 2)) by {
            if n - (at + 1) <= 2 {
                assert(j == n);
                assert(chars@.subrange(at + 1, j as int) =~= email@.skip(at + 1));
            } else {
                assert(j == at + 3);
                assert(chars@.subrange(at + 1, j as int) =~= email@.skip(at + 1).take(2));
            }
        }
        push_str(&mut out, "***");
        assert(out@ =~= spec_mask_email(email@));
    } else {
        proof {
            assert(!email@.contains('@'));
        }
        let mut i: usize = 0;
        while i < n && i < 5
            invariant
                i <= n,
                i <= 5,
                n == chars@.len(),
                out@ == (if i > 2 {
                    chars@.take(i as int).update(2, ascii_upper(chars@[2]))
                } else {
                    chars@.take(i as int)
                }),
            decreases n - i,
        {
            let c = if i == 2 {
                to_ascii_uppercase(chars[i])
            } else {
                chars[i]
            };
            push_char(&mut out, c);
            assert(out@ =~= (if i + 1 > 2 {
                chars@.take(i + 1).update(2, ascii_upper(chars@[2]))
            } else {
                chars@.take(i + 1)
            }));
            i += 1;
        }
        proof {
            let p = prefix_up_to(email@, 5);
            if n <= 5 {
                assert(i == n);
                assert(chars@.take(i as int) =~= p);
            } else {
                assert(i == 5);
                assert(chars@.take(i as int) =~= p);
            }
        }
        push_str(&mut out, "***");
        assert(out@ =~= spec_mask_email(email@));
    }
    out
}


/// The `v1internal` endpoints in fallback order: sandbox, daily, production.
pub open spec fn spec_v1_internal_base_urls() -> Seq<Seq<char>> {
    seq![
        "https://daily-cloudcode-pa.sandbox.googleapis.com/v1internal"@,
        "https://daily-cloudcode-pa.googleapis.com/v1internal"@,
        "https://cloudcode-pa.googleapis.com/v1internal"@,
    ]
}

/// Number of endpoints tried.
pub const V1_INTERNAL_ENDPOINT_COUNT: usize = 3;

/// The base URL of endpoint `idx` in fallback order.
pub fn v1_internal_base_url(idx: usize) -> (u: &'static str)
    requires
        idx < V1_INTERNAL_ENDPOINT_COUNT,
    ensures
        u@ == spec_v1_internal_base_urls()[idx as int],
{
    if idx == 0 {
        "https://daily-cloudcode-pa.sandbox.googleapis.com/v1internal"
    } else if idx == 1 {
        "https://daily-cloudcode-pa.googleapis.com/v1internal"
    } else {
        "https://cloudcode-pa.googleapis.com/v1internal"
    }
}

/// `base:method`, with `?query` appended when a query string is given.
pub open spec fn spec_build_url(base: Seq<char>, method: Seq<char>, query: Option<Seq<char>>) -> Seq<
    char,
> {
    match query {
        Some(q) => base + ":"@ + method + "?"@ + q,
        None => base + ":"@ + method,
    }
}

/// The URL of `method` on endpoint `base_url`.
pub fn build_url(base_url: &str, method: &str, query_string: Option<&str>) -> (u: String)
    ensures
        u@ == spec_build_url(
            base_url@,
            method@,
            match query_string {
                Some(q) => Some(q@),
                None => None,
            },
        ),
{
    let mut u = base_url.to_owned();
    push_str(&mut u, ":");
    push_str(&mut u, method);
    match query_string {
        Some(q) => {
            push_str(&mut u, "?");
            push_str(&mut u, q);
        },
        None => {},
    }
    u
}

/// Statuses after which the next endpoint is tried: 429, 408, 404 and every
/// server error (5xx).
pub open spec fn spec_should_try_next_endpoint(status: u16) -> bool {
    status == 429 || status == 408 || status == 404 || (500 <= status <= 599)
}

/// Whether a response with `status` sends the call on to the next endpoint.
pub fn should_try_next_endpoint(status: u16) -> (r: bool)
    ensures
        r == spec_should_try_next_endpoint(status),
{
    status == 429 || status == 408 || status == 404 || (500 <= status && status <= 599)
}

/// A 2xx status.
pub open spec fn spec_is_success(status: u16) -> bool {
    200 <= status <= 299
}

/// One abandoned endpoint of a fallback run.
#[derive(Debug, Clone)]
pub struct FallbackAttemptLog {
    /// URL of the endpoint.
    pub endpoint_url: String,
    /// HTTP status (None on a network error).
    pub status: Option<u16>,
    /// Description of the failure.
    pub error: String,
}

/// The message logged when an endpoint answers with a status that moves the
/// call on; `status_text` is the status as `StatusCode` displays it.
pub open spec fn status_message(base: Seq<char>, status_text: Seq<char>) -> Seq<char> {
    "Upstream "@ + base + " returned "@ + status_text
}

/// The message logged when a request to an endpoint fails.
pub open spec fn send_error_message(base: Seq<char>, error_text: Seq<char>) -> Seq<char> {
    "HTTP request failed at "@ + base + ": "@ + error_text
}

/// The progress of one call through the fallback endpoints.
pub struct FallbackRun {
    next: usize,
    attempts: Vec<FallbackAttemptLog>,
    last_err: Option<String>,
}

impl FallbackRun {
    /// Index of the endpoint to try next (3 once all are used up).
    pub closed spec fn stage(&self) -> nat {
        self.next as nat
    }

    /// The abandoned endpoints so far.
    pub closed spec fn attempts_view(&self) -> Seq<FallbackAttemptLog> {
        self.attempts@
    }

    /// The message of the last failure, if any.
    pub closed spec fn last_error_view(&self) -> Option<Seq<char>> {
        match self.last_err {
            Some(e) => Some(e@),
            None => None,
        }
    }

    /// Each endpoint is abandoned once, in order, and logged when it is.
    pub closed spec fn wf(&self) -> bool {
        &&& self.next <= V1_INTERNAL_ENDPOINT_COUNT
        &&& self.attempts@.len() == self.next
        &&& (self.next == 0 <==> self.last_err is None)
        &&& forall|i: int|
            0 <= i < self.attempts@.len() ==> (#[trigger] self.attempts@[i]).endpoint_url@.len()
                >= spec_v1_internal_base_urls()[i].len()
                && self.attempts@[i].endpoint_url@.subrange(0, spec_v1_internal_base_urls()[i].len() as int)
                == spec_v1_internal_base_urls()[i]
    }

    /// A run that starts at the sandbox endpoint.
    pub fn new() -> (r: FallbackRun)
        ensures
            r.wf(),
            r.stage() == 0,
            r.attempts_view() == Seq::<FallbackAttemptLog>::empty(),
            r.last_error_view() is None,
    {
        FallbackRun { next: 0, attempts: Vec::new(), last_err: None }
    }

    /// The URL to send to next, or `None` once every endpoint was abandoned.
    pub fn current_url(&self, method: &str, query_string: Option<&str>) -> (r: Option<String>)
        requires
            self.wf(),
        ensures
            self.stage() < V1_INTERNAL_ENDPOINT_COUNT ==> (r matches Some(u) && u@ == spec_build_url(
                spec_v1_internal_base_urls()[self.stage() as int],
                method@,
                match query_string {
                    Some(q) => Some(q@),
                    None => None,
                },
            )),
            self.stage() >= V1_INTERNAL_ENDPOINT_COUNT ==> r is None,
    {
        if self.next < V1_INTERNAL_ENDPOINT_COUNT {
            Some(build_url(v1_internal_base_url(self.next), method, query_string))
        } else {
            None
        }
    }

    fn abandon(&mut self, url: String, status: Option<u16>, msg: String)
        requires
            old(self).wf(),
            old(self).stage() < V1_INTERNAL_ENDPOINT_COUNT,
            url@.len() >= spec_v1_internal_base_urls()[old(self).stage() as int].len(),
            url@.subrange(0, spec_v1_internal_base_urls()[old(self).stage() as int].len() as int)
                == spec_v1_internal_base_urls()[old(self).stage() as int],
        ensures
            final(self).wf(),
            final(self).stage() == old(self).stage() + 1,
            final(self).attempts_view() == old(self).attempts_view().push(
                FallbackAttemptLog { endpoint_url: url, status: status, error: msg },
            ),
            final(self).last_error_view() == Some(msg@),
    {
        let m2 = msg.clone();
        self.attempts.push(FallbackAttemptLog { endpoint_url: url, status, error: msg });
        self.last_err = Some(m2);
        self.next = self.next + 1;
    }

    /// Handles a response with `status` (displayed as `status_text`) from the
    /// current endpoint: returns whether the call ends with this response.
    /// A 2xx response ends it; a response that `should_try_next_endpoint`
    /// flags moves on when another endpoint is left, logging the attempt;
    /// any other response ends it.
    pub fn on_response(
        &mut self,
        method: &str,
        query_string: Option<&str>,
        status: u16,
        status_text: &str,
    ) -> (accept: bool)
        requires
            old(self).wf(),
            old(self).stage() < V1_INTERNAL_ENDPOINT_COUNT,
        ensures
            final(self).wf(),
            accept == (spec_is_success(status) || !(old(self).stage() + 1
                < V1_INTERNAL_ENDPOINT_COUNT && spec_should_try_next_endpoint(status))),
            accept ==> final(self).attempts_view() == old(self).attempts_view(),
            accept ==> final(self).stage() == old(self).stage(),
            accept ==> final(self).last_error_view() == old(self).last_error_view(),
            !accept ==> ({
                let base = spec_v1_internal_base_urls()[old(self).stage() as int];
                let url = spec_build_url(
                    base,
                    method@,
                    match query_string {
                        Some(q) => Some(q@),
                        None => None,
                    },
                );
                let msg = status_message(base, status_text@);
                &&& final(self).stage() == old(self).stage() + 1
                &&& final(self).last_error_view() == Some(msg)
                &&& final(self).attempts_view().len() == old(self).attempts_view().len() + 1
                &&& final(self).attempts_view().drop_last() == old(self).attempts_view()
                &&& final(self).attempts_view().last().endpoint_url@ == url
                &&& final(self).attempts_view().last().status == Some(status)
                &&& final(self).attempts_view().last().error@ == msg
            }),
    {
        if 200 <= status && status <= 299 {
            return true;
        }
        let has_next = self.next + 1 < V1_INTERNAL_ENDPOINT_COUNT;
        if has_next && should_try_next_endpoint(status) {
            let base = v1_internal_base_url(self.next);
            let url = build_url(base, method, query_string);
            let mut msg = String::from_str("Upstream ");
            push_str(&mut msg, base);
            push_str(&mut msg, " returned ");
            push_str(&mut msg, status_text);
            proof {
                assert(url@.subrange(0, base@.len() as int) =~= base@);
                assert(msg@ =~= status_message(base@, status_text@));
            }
            let ghost a0 = self.attempts_view();
            self.abandon(url, Some(status), msg);
            proof {
                assert(self.attempts_view().drop_last() =~= a0);
            }
            return false;
        }
        true
    }

    /// Handles a failed request to the current endpoint (`error_text` is the
    /// error as displayed): logs the attempt and moves on.
    pub fn on_send_error(&mut self, method: &str, query_string: Option<&str>, error_text: &str)
        requires
            old(self).wf(),
            old(self).stage() < V1_INTERNAL_ENDPOINT_COUNT,
        ensures
            final(self).wf(),
            ({
                let base = spec_v1_internal_base_urls()[old(self).stage() as int];
                let url = spec_build_url(
                    base,
                    method@,
                    match query_string {
                        Some(q) => Some(q@),
                        None => None,
                    },
                );
                let msg = send_error_message(base, error_text@);
                &&& final(self).stage() == old(self).stage() + 1
                &&& final(self).last_error_view() == Some(msg)
                &&& final(self).attempts_view().len() == old(self).attempts_view().len() + 1
                &&& final(self).attempts_view().drop_last() == old(self).attempts_view()
                &&& final(self).attempts_view().last().endpoint_url@ == url
                &&& final(self).attempts_view().last().status is None
                &&& final(self).attempts_view().last().error@ == msg
            }),
    {
        let base = v1_internal_base_url(self.next);
        let url = build_url(base, method, query_string);
        let mut msg = String::from_str("HTTP request failed at ");
        push_str(&mut msg, base);
        push_str(&mut msg, ": ");
        push_str(&mut msg, error_text);
        proof {
            assert(url@.subrange(0, base@.len() as int) =~= base@);
            assert(msg@ =~= send_error_message(base@, error_text@));
        }
        let ghost a0 = self.attempts_view();
        self.abandon(url, None, msg);
        proof {
            assert(self.attempts_view().drop_last() =~= a0);
        }
    }

    /// A run tries at most the three endpoints, and has logged exactly one
    /// attempt for each endpoint it left, in fallback order: attempt `i`
    /// went to endpoint `i`.
    pub proof fn lemma_attempts_follow_endpoints(&self)
        requires
            self.wf(),
        ensures
            self.stage() <= V1_INTERNAL_ENDPOINT_COUNT,
            self.attempts_view().len() == self.stage(),
            forall|i: int|
                0 <= i < self.attempts_view().len() ==> (#[trigger] self.attempts_view()[i]).endpoint_url@.subrange(
                    0,
                    spec_v1_internal_base_urls()[i].len() as int,
                ) == spec_v1_internal_base_urls()[i],
    {
    }

    /// The error of a run in which no endpoint answered: the last failure,
    /// or "All endpoints failed" if nothing was tried.
    pub fn final_error(&self) -> (e: String)
        ensures
            e@ == match self.last_error_view() {
                Some(m) => m,
                None => "All endpoints failed"@,
            },
    {
        match &self.last_err {
            Some(m) => m.clone(),
            None => String::from_str("All endpoints failed"),
        }
    }

    /// The abandoned endpoints, in the order they were tried.
    pub fn into_attempts(self) -> (v: Vec<FallbackAttemptLog>)
        ensures
            v@ == self.attempts_view(),
    {
        self.attempts
    }
}


/// A header list as plain strings.
pub open spec fn headers_view(v: Seq<(String, String)>) -> Seq<(Seq<char>, Seq<char>)> {
    v.map_values(|h: (String, String)| (h.0@, h.1@))
}

/// A character allowed in a header value: visible ASCII, tab, or any
/// character outside ASCII (whose UTF-8 bytes are all at least 0x80).
pub open spec fn header_value_char_ok(c: char) -> bool {
    c == '\t' || (c as int >= 32 && c as int != 127)
}

/// A string that `HeaderValue::from_str` accepts.
pub open spec fn header_value_ok(v: Seq<char>) -> bool {
    forall|i: int| 0 <= i < v.len() ==> header_value_char_ok(#[trigger] v[i])
}

/// Calls `HeaderValue::from_str`, which accepts a string exactly when every
/// byte is a tab or lies in 32..=255 except 127.
#[verifier::external_body]
fn header_value_valid(s: &str) -> (r: bool)
    ensures
        r == header_value_ok(s@),
{
    reqwest::header::HeaderValue::from_str(s).is_ok()
}

/// What `HeaderName::from_bytes` makes of a header name: the normalized
/// (lower-case) name, or `None` when it rejects the name.
pub uninterp spec fn header_name_of(name: Seq<char>) -> Option<Seq<char>>;

/// Calls `HeaderName::from_bytes` and returns the normalized name.
#[verifier::external_body]
fn parse_header_name(name: &str) -> (r: Option<String>)
    ensures
        match r {
            Some(n) => header_name_of(name@) == Some(n@),
            None => header_name_of(name@) is None,
        },
{
    reqwest::header::HeaderName::from_bytes(name.as_bytes()).ok().map(|n| n.as_str().to_owned())
}

/// Position of the first header named `name`, or -1.
pub open spec fn header_index(hs: Seq<(Seq<char>, Seq<char>)>, name: Seq<char>) -> int
    decreases hs.len(),
{
    if hs.len() == 0 {
        -1
    } else {
        let i = header_index(hs.drop_last(), name);
        if i >= 0 {
            i
        } else if hs.last().0 == name {
            hs.len() - 1
        } else {
            -1
        }
    }
}

proof fn lemma_header_index(hs: Seq<(Seq<char>, Seq<char>)>, name: Seq<char>)
    ensures
        -1 <= header_index(hs, name) < hs.len(),
        header_index(hs, name) >= 0 ==> hs[header_index(hs, name)].0 == name,
        forall|k: int|
            0 <= k < hs.len() && (header_index(hs, name) < 0 || k < header_index(hs, name))
                ==> #[trigger] hs[k].0 != name,
    decreases hs.len(),
{
    if hs.len() > 0 {
        let d = hs.drop_last();
        lemma_header_index(d, name);
        assert forall|k: int|
            0 <= k < hs.len() && (header_index(hs, name) < 0 || k < header_index(hs, name))
                implies #[trigger] hs[k].0 != name by {
            if k < hs.len() - 1 {
                assert(d[k] == hs[k]);
            }
        }
    }
}

/// A header map insert: the value of `name` replaced in place, or the header
/// appended.
pub open spec fn header_insert(hs: Seq<(Seq<char>, Seq<char>)>, name: Seq<char>, value: Seq<char>) -> Seq<
    (Seq<char>, Seq<char>),
> {
    if header_index(hs, name) >= 0 {
        hs.update(header_index(hs, name), (name, value))
    } else {
        hs.push((name, value))
    }
}

/// Inserts a header into a header list with map semantics.
pub fn insert_header(headers: &mut Vec<(String, String)>, name: String, value: String)
    ensures
        headers_view(final(headers)@) == header_insert(headers_view(old(headers)@), name@, value@),
{
    let ghost h0 = headers_view(headers@);
    proof {
        lemma_header_index(h0, name@);
    }
    let mut i: usize = 0;
    while i < headers.len()
        invariant
            i <= headers@.len(),
            h0 == headers_view(headers@),
            headers@ == old(headers)@,
            forall|k: int| 0 <= k < i ==> #[trigger] h0[k].0 != name@,
        decreases headers@.len() - i,
    {
        assert(h0[i as int].0 == headers@[i as int].0@);
        if headers[i].0 == name {
            proof {
                lemma_header_index(h0, name@);
                let m = header_index(h0, name@);
                if m < 0 || m > i {
                    assert(h0[i as int].0 != name@);
                }
                if 0 <= m < i {
                    assert(h0[m].0 == name@);
                }
                assert(m == i);
            }
            headers.set(i, (name, value));
            assert(headers_view(headers@) =~= header_insert(h0, name@, value@));
            return;
        }
        i += 1;
    }
    proof {
        lemma_header_index(h0, name@);
        let m = header_index(h0, name@);
        if m >= 0 {
            assert(h0[m].0 == name@);
        }
    }
    headers.push((name, value));
    assert(headers_view(headers@) =~= header_insert(h0, name@, value@));
}

/// One caller-supplied extra header, given the name `HeaderName` parsed from
/// it: inserted when both name and value are acceptable, else skipped.
pub open spec fn spec_add_extra_header(
    hs: Seq<(Seq<char>, Seq<char>)>,
    parsed_name: Option<Seq<char>>,
    value: Seq<char>,
) -> Seq<(Seq<char>, Seq<char>)> {
    match parsed_name {
        Some(n) => if header_value_ok(value) {
            header_insert(hs, n, value)
        } else {
            hs
        },
        None => hs,
    }
}

/// Adds an extra header whose name parsed to `parsed_name` (see `spec_add_extra_header`).
pub fn add_extra_header(headers: &mut Vec<(String, String)>, parsed_name: Option<String>, value: &str)
    ensures
        headers_view(final(headers)@) == spec_add_extra_header(
            headers_view(old(headers)@),
            match parsed_name {
                Some(n) => Some(n@),
                None => None,
            },
            value@,
        ),
{
    match parsed_name {
        Some(n) => {
            if header_value_valid(value) {
                insert_header(headers, n, value.to_owned());
            }
        },
        None => {},
    }
}

/// The extra headers applied in order.
pub open spec fn spec_apply_extra_headers(
    hs: Seq<(Seq<char>, Seq<char>)>,
    extra: Seq<(Seq<char>, Seq<char>)>,
) -> Seq<(Seq<char>, Seq<char>)>
    decreases extra.len(),
{
    if extra.len() == 0 {
        hs
    } else {
        let prev = spec_apply_extra_headers(hs, extra.drop_last());
        spec_add_extra_header(prev, header_name_of(extra.last().0), extra.last().1)
    }
}

/// The fixed headers of a `v1internal` call: JSON content type, bearer
/// token, User-Agent (`antigravity` when the given one is not a valid header
/// value), client name and, when valid (and for the machine id non-empty),
/// client version, machine id and session id.
pub open spec fn spec_base_v1_headers(
    auth: Seq<char>,
    ua: Seq<char>,
    version: Seq<char>,
    machine_id: Seq<char>,
    session_id: Seq<char>,
) -> Seq<(Seq<char>, Seq<char>)> {
    let h0 = seq![
        ("content-type"@, "application/json"@),
        ("authorization"@, auth),
        ("user-agent"@, if header_value_ok(ua) { ua } else { "antigravity"@ }),
        ("x-client-name"@, "antigravity"@),
    ];
    let h1 = if header_value_ok(version) {
        h0.push(("x-client-version"@, version))
    } else {
        h0
    };
    let h2 = if machine_id.len() > 0 && header_value_ok(machine_id) {
        h1.push(("x-machine-id"@, machine_id))
    } else {
        h1
    };
    if header_value_ok(session_id) {
        h2.push(("x-vscode-sessionid"@, session_id))
    } else {
        h2
    }
}

/// The request headers of a `v1internal` call, or the header error when the
/// bearer token is not a valid header value.
pub open spec fn spec_v1_headers(
    access_token: Seq<char>,
    ua: Seq<char>,
    version: Seq<char>,
    machine_id: Seq<char>,
    session_id: Seq<char>,
    extra: Seq<(Seq<char>, Seq<char>)>,
) -> Result<Seq<(Seq<char>, Seq<char>)>, Seq<char>> {
    let auth = "Bearer "@ + access_token;
    if !header_value_ok(auth) {
        Err("failed to parse header value"@)
    } else {
        Ok(
            spec_apply_extra_headers(
                spec_base_v1_headers(auth, ua, version, machine_id, session_id),
                extra,
            ),
        )
    }
}

/// Builds the request headers of a `v1internal` call (see `spec_v1_headers`).
pub fn v1_request_headers(
    access_token: &str,
    user_agent: &str,
    client_version: &str,
    machine_id: &str,
    session_id: &str,
    extra_headers: &Vec<(String, String)>,
) -> (r: Result<Vec<(String, String)>, String>)
    ensures
        match spec_v1_headers(
            access_token@,
            user_agent@,
            client_version@,
            machine_id@,
            session_id@,
            headers_view(extra_headers@),
        ) {
            Ok(h) => r matches Ok(v) && headers_view(v@) == h,
            Err(e) => r matches Err(m) && m@ == e,
        },
{
    let mut auth = String::from_str("Bearer ");
    push_str(&mut auth, access_token);
    if !header_value_valid(auth.as_str()) {
        return Err(String::from_str("failed to parse header value"));
    }
    let ua = if header_value_valid(user_agent) {
        user_agent.to_owned()
    } else {
        String::from_str("antigravity")
    };
    let mut headers: Vec<(String, String)> = Vec::new();
    headers.push((String::from_str("content-type"), String::from_str("application/json")));
    headers.push((String::from_str("authorization"), auth));
    headers.push((String::from_str("user-agent"), ua));
    headers.push((String::from_str("x-client-name"), String::from_str("antigravity")));
    if header_value_valid(client_version) {
        headers.push((String::from_str("x-client-version"), client_version.to_owned()));
    }
    if machine_id.unicode_len() > 0 && header_value_valid(machine_id) {
        headers.push((String::from_str("x-machine-id"), machine_id.to_owned()));
    }
    if header_value_valid(session_id) {
        headers.push((String::from_str("x-vscode-sessionid"), session_id.to_owned()));
    }
    let ghost base = spec_base_v1_headers(
        "Bearer "@ + access_token@,
        user_agent@,
        client_version@,
        machine_id@,
        session_id@,
    );
    assert(headers_view(headers@) =~= base);
    let ghost ev = headers_view(extra_headers@);
    for i in 0..extra_headers.len()
        invariant
            ev == headers_view(extra_headers@),
            headers_view(headers@) == spec_apply_extra_headers(base, ev.take(i as int)),
    {
        assert(ev.take(i + 1).drop_last() =~= ev.take(i as int));
        assert(ev.take(i + 1).last() == ev[i as int]);
        let name = parse_header_name(extra_headers[i].0.as_str());
        add_extra_header(&mut headers, name, extra_headers[i].1.as_str());
    }
    assert(ev.take(ev.len() as int) =~= ev);
    Ok(headers)
}


/// The User-Agent sent upstream: the override when one is set, else the default.
pub fn effective_user_agent(override_ua: &Option<String>, default_ua: &str) -> (ua: String)
    ensures
        ua@ == match override_ua {
            Some(o) => o@,
            None => default_ua@,
        },
{
    match override_ua {
        Some(o) => o.clone(),
        None => default_ua.to_owned(),
    }
}

/// A character with the Unicode `White_Space` property.
pub open spec fn is_unicode_white_space(c: char) -> bool {
    ||| ('\u{9}' <= c && c <= '\u{d}')
    ||| c == ' '
    ||| c == '\u{85}'
    ||| c == '\u{a0}'
    ||| c == '\u{1680}'
    ||| ('\u{2000}' <= c && c <= '\u{200a}')
    ||| c == '\u{2028}'
    ||| c == '\u{2029}'
    ||| c == '\u{202f}'
    ||| c == '\u{205f}'
    ||| c == '\u{3000}'
}

/// `s` without its leading white space.
pub open spec fn trim_start_ws(s: Seq<char>) -> Seq<char>
    decreases s.len(),
{
    if s.len() > 0 && is_unicode_white_space(s[0]) {
        trim_start_ws(s.drop_first())
    } else {
        s
    }
}

/// `s` without its trailing white space.
pub open spec fn trim_end_ws(s: Seq<char>) -> Seq<char>
    decreases s.len(),
{
    if s.len() > 0 && is_unicode_white_space(s.last()) {
        trim_end_ws(s.drop_last())
    } else {
        s
    }
}

/// What `str::trim` returns for `s`: `s` with leading and trailing
/// characters of the Unicode `White_Space` property removed, as the
/// standard library documents.
pub open spec fn trimmed_of(s: Seq<char>) -> Seq<char> {
    trim_end_ws(trim_start_ws(s))
}

/// Calls `str::trim`.
#[verifier::external_body]
fn trim(s: &str) -> (r: String)
    ensures
        r@ == trimmed_of(s@),
{
    s.trim().to_owned()
}

/// Where the machine id comes from.
pub enum MachineIdSource {
    /// The platform machine id.
    Uid(String),
    /// The id cached on disk by an earlier run.
    Cached(String),
    /// Neither is usable: a new UUID is generated and cached.
    Generate,
}

/// Picks the machine id: the platform id when it is non-empty, else the
/// (trimmed) cached id when it is non-empty, else a new one.
pub fn machine_id_choice(uid: Option<String>, cached_trimmed: Option<String>) -> (r: MachineIdSource)
    ensures
        match uid {
            Some(u) if u@.len() > 0 => r matches MachineIdSource::Uid(x) && x@ == u@,
            _ => match cached_trimmed {
                Some(c) if c@.len() > 0 => r matches MachineIdSource::Cached(x) && x@ == c@,
                _ => r is Generate,
            },
        },
{
    match uid {
        Some(u) => {
            if u.as_str().unicode_len() > 0 {
                return MachineIdSource::Uid(u);
            }
        },
        None => {},
    }
    match cached_trimmed {
        Some(c) => {
            if c.as_str().unicode_len() > 0 {
                return MachineIdSource::Cached(c);
            }
        },
        None => {},
    }
    MachineIdSource::Generate
}

/// Picks the machine id given the raw content of the cache file, if it could
/// be read; the content is trimmed first.
pub fn machine_id_choice_from_cache(uid: Option<String>, cached_raw: Option<String>) -> (r:
    MachineIdSource)
    ensures
        match uid {
            Some(u) if u@.len() > 0 => r matches MachineIdSource::Uid(x) && x@ == u@,
            _ => match cached_raw {
                Some(c) if trimmed_of(c@).len() > 0 => r matches MachineIdSource::Cached(x) && x@
                    == trimmed_of(c@),
                _ => r is Generate,
            },
        },
{
    let cached = match cached_raw {
        Some(c) => Some(trim(c.as_str())),
        None => None,
    };
    machine_id_choice(uid, cached)
}

/// The file caching the machine id: `.machine_id` under the first data
/// directory known (`APP_DATA_DIR`, `ANTIGRAVITY_DATA_DIR`, the platform's
/// local data directory), else under `/tmp`.
pub fn machine_id_cache_path(
    app_data_dir: Option<String>,
    antigravity_data_dir: Option<String>,
    local_data_dir: Option<String>,
) -> (p: String)
    ensures
        p@ == (match (app_data_dir, antigravity_data_dir, local_data_dir) {
            (Some(a), _, _) => a@,
            (None, Some(b), _) => b@,
            (None, None, Some(c)) => c@,
            (None, None, None) => "/tmp"@,
        }) + "/.machine_id"@,
{
    let mut base = match app_data_dir {
        Some(a) => a,
        None => match antigravity_data_dir {
            Some(b) => b,
            None => match local_data_dir {
                Some(c) => c,
                None => String::from_str("/tmp"),
            },
        },
    };
    push_str(&mut base, "/.machine_id");
    base
}

} // verus!
