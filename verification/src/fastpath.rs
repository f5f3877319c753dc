//! Tier 2: the fast path.
//!
//! An impersonated HTTP GET with the jar's cookies attached, sent through the
//! request's egress. If the response carries a stream URL no browser is needed.
//! A challenge or a page that needs scripts escalates. The request itself is
//! made by the caller.

use vstd::prelude::*;
use vstd::utf8::{encode_utf8, valid_utf8};

use crate::egress::{Egress, EgressView};
use crate::error::{CobwebError, ErrorView};
use crate::jar::cookie::{Cookie, CookieView, MICROS_PER_SEC};
use crate::text::{
    a_cut_is_at_the_first_separator, a_piece_is_added_at_the_end,
    a_text_without_separator_is_one_piece, affixes_come_off, cat3, contains, cut, dec, dec_u64,
    drop_leading, drop_trailing, ends_with, has, is_space, leading_runs_are_dropped,
    lemma_lower_of_upper, lower, only, parse_i64, parsed_i64, passes, pieces, replace, replaced,
    replacing_keeps_the_rest, replacing_takes_each_occurrence, same, same_ignore_case, split_by,
    split_once, to_lower, trailing_runs_are_dropped, trim, trim_end_by, trim_start_by,
    trim_start_char, trimmed, trimming_takes_both_ends, upper, One, OneOf3,
};
use crate::util::{cap_bytes, capped, capped_ignores_case, capped_is_a_prefix_that_fits};
use crate::weburl::{url_joined, url_parsed, Url, UrlView};

verus! {

/// What the pipeline hands the client for one fetch.
#[derive(Debug)]
pub struct FetchRequest {
    pub url: Url,
    pub egress: Egress,
    pub user_agent: Option<String>,
    pub accept_language: Option<String>,
    /// Pre-built `Cookie:` header value from the jar (already domain-filtered).
    pub cookie_header: Option<String>,
    /// Impersonation profile id. `None` is the client's default.
    pub fingerprint: Option<String>,
    pub extra_headers: Vec<(String, String)>,
    pub timeout_ms: u64,
}

/// What a fetch request stands for.
#[verifier::ext_equal]
pub struct RequestView {
    pub url: UrlView,
    pub egress: EgressView,
    pub user_agent: Option<Seq<char>>,
    pub accept_language: Option<Seq<char>>,
    pub cookie_header: Option<Seq<char>>,
    pub fingerprint: Option<Seq<char>>,
    pub extra_headers: Seq<(Seq<char>, Seq<char>)>,
    pub timeout_ms: u64,
}

impl View for FetchRequest {
    type V = RequestView;

    open spec fn view(&self) -> RequestView {
        RequestView {
            url: self.url@,
            egress: self.egress@,
            user_agent: self.user_agent.deep_view(),
            accept_language: self.accept_language.deep_view(),
            cookie_header: self.cookie_header.deep_view(),
            fingerprint: self.fingerprint.deep_view(),
            extra_headers: self.extra_headers.deep_view(),
            timeout_ms: self.timeout_ms,
        }
    }
}

impl RequestView {
    /// The headers the client adds to the ones it impersonates, in order.
    pub open spec fn headers(self) -> Seq<(Seq<char>, Seq<char>)> {
        optional_header("user-agent"@, self.user_agent) + optional_header(
            "accept-language"@,
            self.accept_language,
        ) + optional_header("cookie"@, self.cookie_header) + self.extra_headers
    }
}

/// One header, where it has a value.
pub open spec fn optional_header(name: Seq<char>, value: Option<Seq<char>>) -> Seq<
    (Seq<char>, Seq<char>),
> {
    match value {
        Some(v) => seq![(name, v)],
        None => seq![],
    }
}

/// A copy of a list of headers.
pub fn copy_headers(hs: &Vec<(String, String)>) -> (r: Vec<(String, String)>)
    ensures
        r.deep_view() == hs.deep_view(),
{
    let mut r: Vec<(String, String)> = Vec::new();
    for i in 0..hs.len()
        invariant
            r@.len() == i,
            forall|k: int|
                0 <= k < i ==> (#[trigger] r@[k]).0@ == hs@[k].0@ && r@[k].1@ == hs@[k].1@,
    {
        r.push((hs[i].0.clone(), hs[i].1.clone()));
    }
    assert(r.deep_view() =~= hs.deep_view());
    r
}

fn add_header(hs: &mut Vec<(String, String)>, name: &str, value: &Option<String>)
    ensures
        final(hs).deep_view() == old(hs).deep_view() + optional_header(name@, value.deep_view()),
{
    let ghost before = hs.deep_view();
    match value {
        Some(v) => {
            hs.push((name.to_owned(), v.clone()));
            assert(hs.deep_view() =~= before + seq![(name@, v@)]);
        },
        None => {
            assert(hs.deep_view() =~= before + seq![]);
        },
    }
}

impl FetchRequest {
    /// The headers the client adds to the ones it impersonates, in order.
    pub fn headers(&self) -> (r: Vec<(String, String)>)
        ensures
            r.deep_view() == self@.headers(),
    {
        let mut hs: Vec<(String, String)> = Vec::new();
        assert(hs.deep_view() =~= seq![]);
        add_header(&mut hs, "user-agent", &self.user_agent);
        add_header(&mut hs, "accept-language", &self.accept_language);
        add_header(&mut hs, "cookie", &self.cookie_header);
        let ghost front = hs.deep_view();
        let mut more = copy_headers(&self.extra_headers);
        let ghost tail = more.deep_view();
        hs.append(&mut more);
        assert(hs.deep_view() =~= front + tail);
        assert(hs.deep_view() =~= self@.headers());
        hs
    }
}

#[derive(Debug)]
pub struct FetchResponse {
    pub status: u16,
    pub final_url: Url,
    pub headers: Vec<(String, String)>,
    pub body: String,
    /// Parsed from every `Set-Cookie` on the response.
    pub set_cookies: Vec<Cookie>,
}

/// What a response stands for.
#[verifier::ext_equal]
pub struct ResponseView {
    pub status: u16,
    pub final_url: UrlView,
    pub headers: Seq<(Seq<char>, Seq<char>)>,
    pub body: Seq<char>,
    pub set_cookies: Seq<CookieView>,
}

impl View for FetchResponse {
    type V = ResponseView;

    open spec fn view(&self) -> ResponseView {
        ResponseView {
            status: self.status,
            final_url: self.final_url@,
            headers: self.headers.deep_view(),
            body: self.body@,
            set_cookies: self.set_cookies.deep_view(),
        }
    }
}

/// The value of the first header of a name, in any case.
pub open spec fn header_value<V>(hs: Seq<(Seq<char>, V)>, name: Seq<char>) -> Option<V>
    decreases hs.len(),
{
    if hs.len() == 0 {
        None
    } else if lower(hs[0].0) == lower(name) {
        Some(hs[0].1)
    } else {
        header_value(hs.skip(1), name)
    }
}

/// The value of the first header of a name, in any case.
pub fn find_header<'a>(hs: &'a Vec<(String, String)>, name: &str) -> (r: Option<&'a str>)
    ensures
        r.deep_view() == header_value(hs.deep_view(), name@),
{
    let ghost all = hs.deep_view();
    assert(all.skip(0) =~= all);
    for i in 0..hs.len()
        invariant
            all == hs.deep_view(),
            header_value(all.skip(i as int), name@) == header_value(all, name@),
    {
        assert(all.skip(i as int)[0] == (hs@[i as int].0@, hs@[i as int].1@));
        assert(all.skip(i as int).skip(1) =~= all.skip(i + 1));
        if same_ignore_case(hs[i].0.as_str(), name) {
            return Some(hs[i].1.as_str());
        }
    }
    None
}

impl FetchResponse {
    pub fn header(&self, name: &str) -> (r: Option<&str>)
        ensures
            r.deep_view() == header_value(self@.headers, name@),
    {
        find_header(&self.headers, name)
    }
}

// ---------------------------------------------------------------------------
// The client
// ---------------------------------------------------------------------------

/// How a cached client should be tuned.
#[derive(Debug, Clone, Copy, PartialEq, Eq, Structural)]
pub enum ClientKind {
    /// Buffer-and-sniff: a total timeout per request, the body capped.
    FastPath,
    /// Streaming: connect and read-inactivity guards only.
    Stream,
}

/// The name under which a client is kept.
pub open spec fn client_name(e: EgressView, fingerprint: Option<Seq<char>>, kind: ClientKind) -> Seq<
    char,
> {
    e.jar_key() + "|"@ + (match fingerprint {
        Some(f) => f,
        None => "default"@,
    }) + "|"@ + (match kind {
        ClientKind::FastPath => "fp"@,
        ClientKind::Stream => "st"@,
    })
}

/// The name under which the client for an egress is kept.
pub fn client_key(egress: &Egress, fingerprint: &Option<String>, kind: ClientKind) -> (r: String)
    ensures
        r@ == client_name(egress@, fingerprint.deep_view(), kind),
{
    let f: &str = match fingerprint {
        Some(s) => s.as_str(),
        None => "default",
    };
    let k: &str = match kind {
        ClientKind::FastPath => "fp",
        ClientKind::Stream => "st",
    };
    cat3(cat3(egress.jar_key().as_str(), "|", f).as_str(), "|", k)
}

/// Bytes of a body that are read at most.
pub const MAX_BODY_BYTES: usize = 8_388_608;

/// Calls `String::from_utf8`: the string whose bytes these are, where they are
/// valid UTF-8.
#[verifier::external_body]
fn call_from_utf8(bytes: Vec<u8>) -> (r: Option<String>)
    ensures
        match r {
            Some(s) => valid_utf8(bytes@) && encode_utf8(s@) == bytes@,
            None => !valid_utf8(bytes@),
        },
{
    String::from_utf8(bytes).ok()
}

/// What `String::from_utf8_lossy` makes of bytes.
pub uninterp spec fn lossy_text(bytes: Seq<u8>) -> Seq<char>;

/// Calls `String::from_utf8_lossy`. The result is named and depends on the bytes
/// alone.
#[verifier::external_body]
fn call_lossy(bytes: &Vec<u8>) -> (r: String)
    ensures
        r@ == lossy_text(bytes@),
{
    String::from_utf8_lossy(bytes).into_owned()
}

/// The text of bytes: what they encode, or a lossy reading.
pub open spec fn is_text_of(s: Seq<char>, bytes: Seq<u8>) -> bool {
    if valid_utf8(bytes) {
        encode_utf8(s) == bytes
    } else {
        s == lossy_text(bytes)
    }
}

/// The string that bytes encode, if they do.
pub fn strict_text(bytes: Vec<u8>) -> (r: Option<String>)
    ensures
        match r {
            Some(s) => valid_utf8(bytes@) && encode_utf8(s@) == bytes@,
            None => !valid_utf8(bytes@),
        },
{
    call_from_utf8(bytes)
}

/// A copy of bytes.
pub fn copy_bytes(b: &[u8]) -> (r: Vec<u8>)
    ensures
        r@ == b@,
{
    let mut r: Vec<u8> = Vec::new();
    for i in 0..b.len()
        invariant
            r@ =~= b@.take(i as int),
    {
        r.push(b[i]);
    }
    assert(b@.take(b@.len() as int) =~= b@);
    r
}

/// The text of bytes.
pub fn text_of_bytes(bytes: &Vec<u8>) -> (r: String)
    ensures
        is_text_of(r@, bytes@),
{
    match call_from_utf8(copy_bytes(bytes.as_slice())) {
        Some(s) => s,
        None => call_lossy(bytes),
    }
}

/// A body under the cap, as it is read.
pub struct BodyReader {
    url: String,
    buf: Vec<u8>,
}

impl BodyReader {
    /// The URL that is read, for messages.
    pub closed spec fn url(&self) -> Seq<char> {
        self.url@
    }

    /// What has been read.
    pub closed spec fn bytes(&self) -> Seq<u8> {
        self.buf@
    }

    pub open spec fn wf(&self) -> bool {
        self.bytes().len() <= MAX_BODY_BYTES
    }

    /// Start to read, unless a larger body is announced.
    pub fn open(url: &Url, content_length: Option<u64>) -> (r: Result<BodyReader, CobwebError>)
        ensures
            match r {
                Ok(b) => b.wf() && b.url() == url@.text && b.bytes() == Seq::<u8>::empty() && (
                content_length matches Some(n) ==> n <= MAX_BODY_BYTES),
                Err(e) => content_length matches Some(n) && n > MAX_BODY_BYTES && e@
                    == ErrorView::Upstream(
                    "body of "@ + url@.text + " is "@ + dec(n as nat) + " bytes, over the "@ + dec(
                        MAX_BODY_BYTES as nat,
                    ) + "-byte fast-path cap"@,
                ),
            },
    {
        match content_length {
            Some(n) => {
                if n > MAX_BODY_BYTES as u64 {
                    let head = cat3("body of ", url.text.as_str(), " is ");
                    let mid = cat3(head.as_str(), dec_u64(n).as_str(), " bytes, over the ");
                    return Err(
                        CobwebError::Upstream(
                            cat3(
                                mid.as_str(),
                                dec_u64(MAX_BODY_BYTES as u64).as_str(),
                                "-byte fast-path cap",
                            ),
                        ),
                    );
                }
            },
            None => {},
        }
        Ok(BodyReader { url: url.text.clone(), buf: Vec::new() })
    }

    /// Take one more piece, unless the body grows over the cap.
    pub fn push(&mut self, chunk: &Vec<u8>) -> (r: Result<(), CobwebError>)
        requires
            old(self).wf(),
        ensures
            final(self).wf(),
            final(self).url() == old(self).url(),
            match r {
                Ok(()) => old(self).bytes().len() + chunk@.len() <= MAX_BODY_BYTES
                    && final(self).bytes() == old(self).bytes() + chunk@,
                Err(e) => old(self).bytes().len() + chunk@.len() > MAX_BODY_BYTES
                    && final(self).bytes() == old(self).bytes() && e@ == ErrorView::Upstream(
                    "body of "@ + old(self).url() + " exceeded the "@ + dec(MAX_BODY_BYTES as nat)
                        + "-byte fast-path cap"@,
                ),
            },
    {
        if chunk.len() > MAX_BODY_BYTES || self.buf.len() + chunk.len() > MAX_BODY_BYTES {
            let head = cat3("body of ", self.url.as_str(), " exceeded the ");
            return Err(
                CobwebError::Upstream(
                    cat3(
                        head.as_str(),
                        dec_u64(MAX_BODY_BYTES as u64).as_str(),
                        "-byte fast-path cap",
                    ),
                ),
            );
        }
        let mut more = copy_bytes(chunk.as_slice());
        self.buf.append(&mut more);
        Ok(())
    }

    /// The text of what has been read.
    pub fn finish(&self) -> (r: String)
        ensures
            is_text_of(r@, self.bytes()),
    {
        text_of_bytes(&self.buf)
    }
}

/// The cookies of all `Set-Cookie` headers.
pub open spec fn cookies_set(hs: Seq<(Seq<char>, Seq<char>)>, url: UrlView, now: i64) -> Seq<
    CookieView,
>
    decreases hs.len(),
{
    if hs.len() == 0 {
        seq![]
    } else {
        let front = cookies_set(hs.drop_last(), url, now);
        if lower(hs.last().0) == lower("set-cookie"@) {
            match cookie_of(hs.last().1, url.host, now) {
                Some(c) => front.push(c),
                None => front,
            }
        } else {
            front
        }
    }
}

/// The response of a fetch: the URL that answered (or the one that was asked for
/// where it does not parse), and the cookies that were set.
pub fn assemble_response(
    status: u16,
    asked: &Url,
    answered: &str,
    headers: Vec<(String, String)>,
    body: String,
    now: i64,
) -> (r: FetchResponse)
    ensures
        r@.status == status,
        r@.final_url == final_url_of(asked@, answered@),
        r@.headers == headers.deep_view(),
        r@.body == body@,
        r@.set_cookies == cookies_set(headers.deep_view(), r@.final_url, now),
{
    let final_url = match Url::parse(answered) {
        Ok(u) => u,
        Err(_) => asked.copy(),
    };
    let ghost hs = headers.deep_view();
    let mut set_cookies: Vec<Cookie> = Vec::new();
    assert(set_cookies.deep_view() =~= seq![]);
    for i in 0..headers.len()
        invariant
            hs == headers.deep_view(),
            set_cookies.deep_view() == cookies_set(hs.take(i as int), final_url@, now),
    {
        let ghost before = set_cookies.deep_view();
        assert(hs.take(i + 1).drop_last() =~= hs.take(i as int));
        assert(hs.take(i + 1).last() == (headers@[i as int].0@, headers@[i as int].1@));
        if same_ignore_case(headers[i].0.as_str(), "set-cookie") {
            match parse_set_cookie(headers[i].1.as_str(), &final_url, now) {
                Some(c) => {
                    let ghost cv = c@;
                    set_cookies.push(c);
                    assert(set_cookies.deep_view() =~= before.push(cv));
                },
                None => {},
            }
        }
    }
    assert(hs.take(headers@.len() as int) =~= hs);
    FetchResponse { status, final_url, headers, body, set_cookies }
}

/// The URL that answered, where it parses.
pub open spec fn final_url_of(asked: UrlView, answered: Seq<char>) -> UrlView {
    match url_parsed(answered) {
        Ok(u) => u,
        Err(_) => asked,
    }
}

// ---------------------------------------------------------------------------
// Set-Cookie parsing (enough for ttl extraction)
// ---------------------------------------------------------------------------

/// Name and value of a cookie attribute.
pub open spec fn attribute(raw: Seq<char>) -> (Seq<char>, Seq<char>) {
    let a = trimmed(raw);
    match cut(a, '=') {
        Some((k, v)) => (lower(trimmed(k)), trimmed(v)),
        None => (lower(a), seq![]),
    }
}

/// A cookie, and its `Max-Age`, after one more attribute.
pub open spec fn with_attribute(c: (CookieView, Option<int>), raw: Seq<char>) -> (
    CookieView,
    Option<int>,
) {
    let (k, v) = attribute(raw);
    if k == "domain"@ && v.len() > 0 {
        (CookieView { domain: drop_leading(v, only('.')), ..c.0 }, c.1)
    } else if k == "path"@ && v.len() > 0 {
        (CookieView { path: v, ..c.0 }, c.1)
    } else if k == "secure"@ {
        (CookieView { secure: true, ..c.0 }, c.1)
    } else if k == "httponly"@ {
        (CookieView { http_only: true, ..c.0 }, c.1)
    } else if k == "samesite"@ && v.len() > 0 {
        (CookieView { same_site: Some(v), ..c.0 }, c.1)
    } else if k == "max-age"@ {
        (c.0, parsed_i64(v))
    } else {
        c
    }
}

/// A cookie, and its `Max-Age`, after all of its attributes.
pub open spec fn with_attributes(c: (CookieView, Option<int>), raws: Seq<Seq<char>>) -> (
    CookieView,
    Option<int>,
)
    decreases raws.len(),
{
    if raws.len() == 0 {
        c
    } else {
        with_attribute(with_attributes(c, raws.drop_last()), raws.last())
    }
}

/// The cookie a `Set-Cookie` value stands for, for a response of `host` at `now`
/// (seconds since the epoch).
pub open spec fn cookie_of(header: Seq<char>, host: Option<Seq<char>>, now: i64) -> Option<
    CookieView,
> {
    let parts = pieces(header, only(';'));
    match cut(trimmed(parts[0]), '=') {
        None => None,
        Some((name, value)) => {
            let plain = CookieView::plain(
                trimmed(name),
                trimmed(value),
                match host {
                    Some(h) => h,
                    None => seq![],
                },
            );
            let (c, age) = with_attributes((plain, None), parts.skip(1));
            Some(
                match age {
                    Some(secs) => CookieView {
                        expires: (if secs <= 0 {
                            1_000_000
                        } else {
                            (now + secs) * 1_000_000
                        }) as i128,
                        ..c
                    },
                    None => c,
                },
            )
        },
    }
}

fn apply_attribute(c: &mut Cookie, age: Option<i64>, raw: &str) -> (r: Option<i64>)
    ensures
        ({
            let before = (
                old(c)@,
                match age {
                    Some(a) => Some(a as int),
                    None => None,
                },
            );
            let after = with_attribute(before, raw@);
            &&& final(c)@ == after.0
            &&& r is Some == (after.1 is Some)
            &&& r matches Some(a) ==> after.1 == Some(a as int)
        }),
{
    let a = trim(raw);
    let (k, v): (String, String) = match split_once(a.as_str(), '=') {
        Some((k, v)) => (to_lower(trim(k.as_str()).as_str()), trim(v.as_str())),
        None => (to_lower(a.as_str()), String::new()),
    };
    assert((k@, v@) == attribute(raw@)) by {
        if cut(a@, '=') is None {
            assert(v@ =~= seq![]);
        }
    }
    let some = v.as_str().unicode_len() > 0;
    if same(k.as_str(), "domain") && some {
        c.domain = trim_start_char(v.as_str(), '.');
        age
    } else if same(k.as_str(), "path") && some {
        c.path = v;
        age
    } else if same(k.as_str(), "secure") {
        c.secure = true;
        age
    } else if same(k.as_str(), "httponly") {
        c.http_only = true;
        age
    } else if same(k.as_str(), "samesite") && some {
        c.same_site = Some(v);
        age
    } else if same(k.as_str(), "max-age") {
        parse_i64(v.as_str())
    } else {
        age
    }
}

/// Parse a `Set-Cookie` value received from `request_url` at `now` (seconds
/// since the epoch).
pub fn parse_set_cookie(header: &str, request_url: &Url, now: i64) -> (r: Option<Cookie>)
    ensures
        r.deep_view() == cookie_of(header@, request_url@.host, now),
{
    assert(passes(One(';')) =~= only(';'));
    let parts = split_by(header, One(';'));
    let ghost ps = parts.deep_view();
    let first = trim(parts[0].as_str());
    assert(ps[0] == parts@[0]@);
    let (name, value): (String, String) = match split_once(first.as_str(), '=') {
        Some(pair) => pair,
        None => {
            return None;
        },
    };
    let host: String = match &request_url.host {
        Some(h) => h.clone(),
        None => String::new(),
    };
    assert(request_url.host is None ==> host@ =~= seq![]);
    let mut c = Cookie::new(trim(name.as_str()).as_str(), trim(value.as_str()).as_str(), host.as_str());
    let ghost plain = c@;
    let mut age: Option<i64> = None;
    let ghost rest = ps.skip(1);
    assert(rest.take(0) =~= seq![]);
    for i in 1..parts.len()
        invariant
            ps == parts.deep_view(),
            rest == ps.skip(1),
            ({
                let w = with_attributes((plain, None), rest.take(i - 1));
                &&& c@ == w.0
                &&& age is Some == (w.1 is Some)
                &&& age matches Some(a) ==> w.1 == Some(a as int)
            }),
    {
        assert(rest.take(i as int).drop_last() =~= rest.take(i - 1));
        assert(rest.take(i as int).last() == parts@[i as int]@);
        age = apply_attribute(&mut c, age, parts[i].as_str());
    }
    assert(rest.take(parts@.len() - 1) =~= rest);
    match age {
        Some(secs) => {
            c.expires = if secs <= 0 {
                1_000_000
            } else {
                (now as i128 + secs as i128) * 1_000_000
            };
        },
        None => {},
    }
    Some(c)
}

/// The time left of the first cookie of a name that has any, in whole seconds.
pub open spec fn ttl_hint(cs: Seq<CookieView>, name: Seq<char>, now: i64) -> Option<u64>
    decreases cs.len(),
{
    if cs.len() == 0 {
        None
    } else if cs[0].name == name && cs[0].expires > now * MICROS_PER_SEC {
        let left = (cs[0].expires - now * MICROS_PER_SEC) / 1_000_000;
        Some(
            if left > u64::MAX {
                u64::MAX
            } else {
                left as u64
            },
        )
    } else {
        ttl_hint(cs.skip(1), name, now)
    }
}

/// `Max-Age` of a named cookie among a batch, as a TTL hint in seconds.
pub fn ttl_hint_from(cookies: &Vec<Cookie>, name: &str, now: i64) -> (r: Option<u64>)
    ensures
        r == ttl_hint(cookies.deep_view(), name@, now),
{
    let ghost cs = cookies.deep_view();
    let at: i128 = now as i128 * MICROS_PER_SEC;
    assert(cs.skip(0) =~= cs);
    for i in 0..cookies.len()
        invariant
            cs == cookies.deep_view(),
            at == now * MICROS_PER_SEC,
            ttl_hint(cs.skip(i as int), name@, now) == ttl_hint(cs, name@, now),
    {
        assert(cs.skip(i as int)[0] == cookies@[i as int]@);
        assert(cs.skip(i as int).skip(1) =~= cs.skip(i + 1));
        let c: &Cookie = &cookies[i];
        if same(c.name.as_str(), name) && c.expires > at {
            let left: u128 = seconds_between(at, c.expires);
            return Some(
                if left > u64::MAX as u128 {
                    u64::MAX
                } else {
                    left as u64
                },
            );
        }
    }
    None
}

fn seconds_between(from: i128, to: i128) -> (r: u128)
    requires
        from < to,
    ensures
        r == (to - from) / 1_000_000,
{
    if from >= 0 {
        (to - from) as u128 / 1_000_000
    } else if to < 0 {
        let a: u128 = (-(from + 1)) as u128;
        let b: u128 = (-(to + 1)) as u128;
        (a - b) / 1_000_000
    } else {
        let a: u128 = (-(from + 1)) as u128 + 1;
        (to as u128 + a) / 1_000_000
    }
}

// ---------------------------------------------------------------------------
// Challenge detection and stream-URL sniffers
// ---------------------------------------------------------------------------

#[derive(Debug, Clone, Copy, PartialEq, Eq, Structural)]
pub enum StreamKind {
    Hls,
    Dash,
    Progressive,
}

/// The kind of stream a path ends like.
pub open spec fn kind_of_path(path: Seq<char>) -> Option<StreamKind> {
    let p = lower(path);
    if ".m3u8"@.is_suffix_of(p) {
        Some(StreamKind::Hls)
    } else if ".mpd"@.is_suffix_of(p) {
        Some(StreamKind::Dash)
    } else if ".mp4"@.is_suffix_of(p) || ".webm"@.is_suffix_of(p) {
        Some(StreamKind::Progressive)
    } else {
        None
    }
}

impl StreamKind {
    pub fn from_url(u: &Url) -> (r: Option<StreamKind>)
        ensures
            r == kind_of_path(u@.path),
    {
        let p = to_lower(u.path.as_str());
        if ends_with(p.as_str(), ".m3u8") {
            Some(StreamKind::Hls)
        } else if ends_with(p.as_str(), ".mpd") {
            Some(StreamKind::Dash)
        } else if ends_with(p.as_str(), ".mp4") || ends_with(p.as_str(), ".webm") {
            Some(StreamKind::Progressive)
        } else {
            None
        }
    }

    /// The name on the wire.
    pub fn name(self) -> (r: &'static str)
        ensures
            r@ == kind_name(self),
    {
        match self {
            StreamKind::Hls => "hls",
            StreamKind::Dash => "dash",
            StreamKind::Progressive => "progressive",
        }
    }
}

/// The name of a stream kind on the wire.
pub open spec fn kind_name(k: StreamKind) -> Seq<char> {
    match k {
        StreamKind::Hls => "hls"@,
        StreamKind::Dash => "dash"@,
        StreamKind::Progressive => "progressive"@,
    }
}

#[derive(Debug)]
pub struct StreamHit {
    pub url: Url,
    pub kind: StreamKind,
}

impl DeepView for StreamHit {
    type V = (UrlView, StreamKind);

    open spec fn deep_view(&self) -> (UrlView, StreamKind) {
        (self.url@, self.kind)
    }
}

/// How many bytes of a page are looked at for a challenge.
pub const CHALLENGE_SCAN_BYTES: usize = 65_536;

/// Whether a page, in lower case, carries a marker of an interstitial.
pub open spec fn has_marker(page: Seq<char>) -> bool {
    has(page, "just a moment"@) || has(page, "cf-browser-verification"@) || has(
        page,
        "cf_chl_opt"@,
    ) || has(page, "_cf_chl_"@) || has(page, "challenge-platform"@) || has(page, "turnstile"@)
        || has(page, "/cdn-cgi/challenge-platform/"@)
}

/// Whether a response looks like a Cloudflare interstitial.
pub open spec fn is_challenge(status: u16, body: Seq<char>, server: Option<Seq<char>>) -> bool {
    let page = lower(capped(body, CHALLENGE_SCAN_BYTES as nat));
    let cf_server = match server {
        Some(s) => has(lower(s), "cloudflare"@),
        None => false,
    };
    has_marker(page) || ((status == 403 || status == 503) && cf_server && has(page, "challenge"@))
}

/// True if `body` (or a challenge status) looks like a Cloudflare interstitial.
pub fn looks_like_cloudflare_challenge(status: u16, body: &str, server_header: Option<&str>) -> (r:
    bool)
    ensures
        r == is_challenge(status, body@, server_header.deep_view()),
{
    let cf_server = match server_header {
        Some(s) => contains(to_lower(s).as_str(), "cloudflare"),
        None => false,
    };
    let head = cap_bytes(body, CHALLENGE_SCAN_BYTES);
    let lc = to_lower(head.as_str());
    let page = lc.as_str();
    let marker = contains(page, "just a moment") || contains(page, "cf-browser-verification")
        || contains(page, "cf_chl_opt") || contains(page, "_cf_chl_") || contains(
        page,
        "challenge-platform",
    ) || contains(page, "turnstile") || contains(page, "/cdn-cgi/challenge-platform/");
    marker || ((status == 403 || status == 503) && cf_server && contains(page, "challenge"))
}

/// `"file": "....m3u8..."`, `source: '...mpd...'`, `hls: "..."`, `src="..."`.
pub const KEYED_SOURCE: &'static str =
    r#"(?i)(?:"?(?:file|source|src|hls|dash|url|playlist|manifest)"?\s*[:=]\s*)["'](?P<u>[^"'<>\s]+?\.(?:m3u8|mpd)(?:\?[^"'<>\s]*)?)["']"#;

/// Any bare occurrence of an absolute or root-relative manifest URL.
pub const BARE_MANIFEST: &'static str =
    r#"(?i)((?:https?:)?/{1,2}[^"'<>\s\\]+?\.(?:m3u8|mpd)(?:\?[^"'<>\s\\]*)?)"#;

/// The first group of every match that `regex::Regex::captures_iter` finds of a
/// pattern in a text, or `None` where `regex::Regex::new` refuses the pattern.
pub uninterp spec fn regex_groups(pattern: Seq<char>, text: Seq<char>) -> Option<Seq<Seq<char>>>;

/// Compiles the pattern with `regex::Regex::new` and collects the first group of
/// every match of `regex::Regex::captures_iter`, an absent group as an empty
/// string. The result is named and depends on the two strings alone.
#[verifier::external_body]
fn call_captures(pattern: &str, text: &str) -> (r: Option<Vec<String>>)
    ensures
        r.deep_view() == regex_groups(pattern@, text@),
{
    let re = regex::Regex::new(pattern).ok()?;
    Some(
        re.captures_iter(text).map(
            |c| c.get(1).map(|m| m.as_str()).unwrap_or_default().to_string(),
        ).collect(),
    )
}

/// The strings a pattern finds; one that is no pattern finds none.
pub open spec fn found(pattern: Seq<char>, text: Seq<char>) -> Seq<Seq<char>> {
    match regex_groups(pattern, text) {
        Some(g) => g,
        None => seq![],
    }
}

fn find_groups(pattern: &str, text: &str) -> (r: Vec<String>)
    ensures
        r.deep_view() == found(pattern@, text@),
{
    match call_captures(pattern, text) {
        Some(g) => g,
        None => {
            let g: Vec<String> = Vec::new();
            assert(g.deep_view() =~= seq![]);
            g
        },
    }
}

/// Quotes and backslashes around a candidate.
pub open spec fn wrapping() -> spec_fn(char) -> bool {
    passes(OneOf3('"', '\'', '\\'))
}

/// A candidate without what is wrapped around it.
pub open spec fn unwrapped(raw: Seq<char>) -> Seq<char> {
    drop_trailing(drop_leading(trimmed(raw), wrapping()), wrapping())
}

/// A candidate with the escapes of inlined scripts undone.
pub open spec fn unescaped(s: Seq<char>) -> Seq<char> {
    replaced(replaced(replaced(s, "\\/"@, "/"@), "\\u002F"@, "/"@), "\\u002f"@, "/"@)
}

/// A candidate without what is wrapped around it.
pub fn unwrap_candidate(raw: &str) -> (r: String)
    ensures
        r@ == unwrapped(raw@),
{
    let t = trim(raw);
    let a = trim_start_by(t.as_str(), OneOf3('"', '\'', '\\'));
    trim_end_by(a.as_str(), OneOf3('"', '\'', '\\'))
}

/// Undo the two escapes that show up in inlined JSON or scripts.
pub fn unescape_slashes(s: &str) -> (r: String)
    ensures
        r@ == unescaped(s@),
{
    proof {
        reveal_strlit("\\/");
        reveal_strlit("\\u002F");
        reveal_strlit("\\u002f");
    }
    let a = replace(s, "\\/", "/");
    let b = replace(a.as_str(), "\\u002F", "/");
    replace(b.as_str(), "\\u002f", "/")
}

/// The stream a candidate stands for.
pub open spec fn stream_of(raw: Seq<char>, base: Seq<char>) -> Option<(UrlView, StreamKind)> {
    let s = unwrapped(raw);
    if s.len() == 0 {
        None
    } else {
        match url_joined(base, unescaped(s)) {
            Ok(u) => match kind_of_path(u.path) {
                Some(k) => Some((u, k)),
                None => None,
            },
            Err(_) => None,
        }
    }
}

/// The first candidate that stands for a stream.
pub open spec fn first_stream(raws: Seq<Seq<char>>, base: Seq<char>) -> Option<
    (UrlView, StreamKind),
>
    decreases raws.len(),
{
    if raws.len() == 0 {
        None
    } else if stream_of(raws[0], base) is Some {
        stream_of(raws[0], base)
    } else {
        first_stream(raws.skip(1), base)
    }
}

/// The first of the candidates that stands for a stream.
pub fn pick_stream(raws: &Vec<String>, base: &Url) -> (r: Option<StreamHit>)
    ensures
        r.deep_view() == first_stream(raws.deep_view(), base@.text),
{
    let ghost all = raws.deep_view();
    assert(all.skip(0) =~= all);
    for i in 0..raws.len()
        invariant
            all == raws.deep_view(),
            first_stream(all.skip(i as int), base@.text) == first_stream(all, base@.text),
    {
        assert(all.skip(i as int)[0] == raws@[i as int]@);
        assert(all.skip(i as int).skip(1) =~= all.skip(i + 1));
        let s = unwrap_candidate(raws[i].as_str());
        if s.as_str().unicode_len() > 0 {
            let cleaned = unescape_slashes(s.as_str());
            match base.join(cleaned.as_str()) {
                Ok(u) => match StreamKind::from_url(&u) {
                    Some(kind) => {
                        return Some(StreamHit { url: u, kind });
                    },
                    None => {},
                },
                Err(_) => {},
            }
        }
    }
    None
}

/// The stream a page shows: player-config keys first (least likely to be a
/// decoy), then any bare manifest.
pub open spec fn sniffed(body: Seq<char>, base: Seq<char>) -> Option<(UrlView, StreamKind)> {
    match first_stream(found(KEYED_SOURCE@, body), base) {
        Some(hit) => Some(hit),
        None => first_stream(found(BARE_MANIFEST@, body), base),
    }
}

/// Look for an HLS/DASH URL in a player page.
pub fn sniff_stream_url(body: &str, base: &Url) -> (r: Option<StreamHit>)
    ensures
        r.deep_view() == sniffed(body@, base@.text),
{
    match pick_stream(&find_groups(KEYED_SOURCE, body), base) {
        Some(hit) => Some(hit),
        None => pick_stream(&find_groups(BARE_MANIFEST, body), base),
    }
}

// ---------------------------------------------------------------------------
// Laws
// ---------------------------------------------------------------------------

/// A page without markers is no challenge unless a Cloudflare server answers 403
/// or 503.
pub proof fn ordinary_statuses_need_a_marker(status: u16, body: Seq<char>, server: Option<Seq<char>>)
    requires
        is_challenge(status, body, server),
        status != 403,
        status != 503,
    ensures
        has_marker(lower(capped(body, CHALLENGE_SCAN_BYTES as nat))),
{
}

/// A sniffed URL is always of a stream kind, by its path.
pub proof fn sniffed_urls_are_streams(body: Seq<char>, base: Seq<char>)
    ensures
        sniffed(body, base) matches Some(hit) ==> kind_of_path(hit.0.path) == Some(hit.1),
{
    lemma_first_stream_kind(found(KEYED_SOURCE@, body), base);
    lemma_first_stream_kind(found(BARE_MANIFEST@, body), base);
}

proof fn lemma_first_stream_kind(raws: Seq<Seq<char>>, base: Seq<char>)
    ensures
        first_stream(raws, base) matches Some(hit) ==> kind_of_path(hit.0.path) == Some(hit.1),
    decreases raws.len(),
{
    if raws.len() > 0 {
        lemma_first_stream_kind(raws.skip(1), base);
    }
}

/// A `Max-Age` of a live cookie comes back as its time to live.
pub proof fn max_age_is_the_ttl_hint(c: CookieView, secs: int, now: i64)
    requires
        0 < secs <= i64::MAX,
        c.expires == (now + secs) * 1_000_000,
    ensures
        ttl_hint(seq![c], c.name, now) == Some(secs as u64),
{
    assert(seq![c][0] == c);
    assert(c.expires - now * MICROS_PER_SEC == secs * 1_000_000);
}

/// Nothing past the bytes that are looked at decides.
pub proof fn challenge_reads_the_front_alone(
    status: u16,
    body: Seq<char>,
    server: Option<Seq<char>>,
)
    ensures
        is_challenge(status, capped(body, CHALLENGE_SCAN_BYTES as nat), server) == is_challenge(
            status,
            body,
            server,
        ),
{
    capped_is_a_prefix_that_fits(body, CHALLENGE_SCAN_BYTES as nat);
    capped_is_a_prefix_that_fits(
        capped(body, CHALLENGE_SCAN_BYTES as nat),
        CHALLENGE_SCAN_BYTES as nat,
    );
}

/// Neither the case of a page nor that of the server's name decides.
pub proof fn challenge_ignores_case(
    status: u16,
    a: Seq<char>,
    b: Seq<char>,
    server_a: Option<Seq<char>>,
    server_b: Option<Seq<char>>,
)
    requires
        lower(a) == lower(b),
        match (server_a, server_b) {
            (Some(s), Some(t)) => lower(s) == lower(t),
            (None, None) => true,
            _ => false,
        },
    ensures
        is_challenge(status, a, server_a) == is_challenge(status, b, server_b),
{
    capped_ignores_case(a, b, CHALLENGE_SCAN_BYTES as nat);
}

/// A page in upper case is a challenge where it is one as it came.
pub proof fn challenge_is_the_same_in_upper_case(
    status: u16,
    body: Seq<char>,
    server: Option<Seq<char>>,
)
    ensures
        is_challenge(status, upper(body), server) == is_challenge(status, body, server),
        server matches Some(s) ==> is_challenge(status, body, Some(upper(s))) == is_challenge(
            status,
            body,
            server,
        ),
{
    lemma_lower_of_upper(body);
    challenge_ignores_case(status, upper(body), body, server, server);
    if let Some(s) = server {
        lemma_lower_of_upper(s);
    }
}

/// Of the candidates the first that stands for a stream is taken, and none is
/// passed over: there is no stream only where no candidate stands for one.
pub proof fn the_first_candidate_that_stands_is_taken(
    raws: Seq<Seq<char>>,
    base: Seq<char>,
    i: int,
)
    requires
        0 <= i < raws.len(),
    ensures
        stream_of(raws[i], base) is Some ==> first_stream(raws, base) is Some,
        stream_of(raws[i], base) is Some && (forall|k: int|
            0 <= k < i ==> stream_of(#[trigger] raws[k], base) is None) ==> first_stream(raws, base)
            == stream_of(raws[i], base),
        first_stream(raws, base) matches Some(hit) ==> exists|k: int|
            0 <= k < raws.len() && stream_of(#[trigger] raws[k], base) == Some(hit),
    decreases raws.len(),
{
    let rest = raws.skip(1);
    if i > 0 && stream_of(raws[0], base) is None {
        the_first_candidate_that_stands_is_taken(rest, base, i - 1);
        assert(rest[i - 1] == raws[i]);
        assert forall|k: int| 0 <= k < rest.len() implies #[trigger] rest[k] == raws[k + 1] by {}
        if first_stream(rest, base) is Some {
            let k = choose|k: int|
                0 <= k < rest.len() && stream_of(#[trigger] rest[k], base) == first_stream(
                    rest,
                    base,
                );
            assert(stream_of(raws[k + 1], base) == first_stream(raws, base));
        }
        if stream_of(raws[i], base) is Some && (forall|k: int|
            0 <= k < i ==> stream_of(#[trigger] raws[k], base) is None) {
            assert forall|k: int| 0 <= k < i - 1 implies stream_of(
                #[trigger] rest[k],
                base,
            ) is None by {
                assert(stream_of(raws[k + 1], base) is None);
            }
        }
    } else if i == 0 && stream_of(raws[0], base) is None {
        if rest.len() > 0 {
            the_first_candidate_that_stands_is_taken(rest, base, 0);
            if first_stream(rest, base) is Some {
                let k = choose|k: int|
                    0 <= k < rest.len() && stream_of(#[trigger] rest[k], base) == first_stream(
                        rest,
                        base,
                    );
                assert(rest[k] == raws[k + 1]);
            }
        } else {
            assert(first_stream(rest, base) is None);
        }
    } else {
        assert(stream_of(raws[0], base) is Some);
    }
}

/// A page whose player configuration names a stream, or that shows a manifest
/// anywhere, is never taken for a page without one.
pub proof fn no_stream_of_a_page_is_missed(body: Seq<char>, base: Seq<char>, i: int)
    ensures
        0 <= i < found(KEYED_SOURCE@, body).len() && stream_of(
            found(KEYED_SOURCE@, body)[i],
            base,
        ) is Some ==> sniffed(body, base) is Some,
        0 <= i < found(BARE_MANIFEST@, body).len() && stream_of(
            found(BARE_MANIFEST@, body)[i],
            base,
        ) is Some ==> sniffed(body, base) is Some,
{
    let keyed = found(KEYED_SOURCE@, body);
    let bare = found(BARE_MANIFEST@, body);
    if 0 <= i < keyed.len() {
        the_first_candidate_that_stands_is_taken(keyed, base, i);
    }
    if 0 <= i < bare.len() {
        the_first_candidate_that_stands_is_taken(bare, base, i);
    }
}

/// The player configuration goes before bare manifests: the stream is the first
/// that it names, and the first bare one only where it names none.
pub proof fn keyed_sources_go_first(body: Seq<char>, base: Seq<char>, i: int)
    ensures
        0 <= i < found(KEYED_SOURCE@, body).len() && stream_of(
            found(KEYED_SOURCE@, body)[i],
            base,
        ) is Some && (forall|k: int|
            0 <= k < i ==> stream_of(#[trigger] found(KEYED_SOURCE@, body)[k], base) is None)
            ==> sniffed(body, base) == stream_of(found(KEYED_SOURCE@, body)[i], base),
        (forall|k: int|
            0 <= k < found(KEYED_SOURCE@, body).len() ==> stream_of(
                #[trigger] found(KEYED_SOURCE@, body)[k],
                base,
            ) is None) && 0 <= i < found(BARE_MANIFEST@, body).len() && stream_of(
            found(BARE_MANIFEST@, body)[i],
            base,
        ) is Some && (forall|k: int|
            0 <= k < i ==> stream_of(#[trigger] found(BARE_MANIFEST@, body)[k], base) is None)
            ==> sniffed(body, base) == stream_of(found(BARE_MANIFEST@, body)[i], base),
{
    let keyed = found(KEYED_SOURCE@, body);
    let bare = found(BARE_MANIFEST@, body);
    if 0 <= i < keyed.len() {
        the_first_candidate_that_stands_is_taken(keyed, base, i);
    }
    if 0 <= i < bare.len() {
        the_first_candidate_that_stands_is_taken(bare, base, i);
    }
    if forall|k: int| 0 <= k < keyed.len() ==> stream_of(#[trigger] keyed[k], base) is None {
        if keyed.len() > 0 {
            the_first_candidate_that_stands_is_taken(keyed, base, 0);
        }
        assert(first_stream(keyed, base) is None);
    }
}

/// A candidate that needs no cleaning is joined to the page's URL as it is, and
/// stands for a stream where its path ends like one; quotes around it make no
/// difference.
pub proof fn quoted_candidates_stand_for_the_same_stream(t: Seq<char>, q: char, base: Seq<char>)
    requires
        t.len() > 0,
        t.contains('\\') == false,
        forall|i: int| 0 <= i < t.len() ==> #[trigger] t[i] != '"' && t[i] != '\'',
        !is_space(t[0]),
        !is_space(t.last()),
        q == '"' || q == '\'',
    ensures
        stream_of(seq![q] + t + seq![q], base) == stream_of(t, base),
        stream_of(t, base) is Some <==> (url_joined(base, t) matches Ok(u) && kind_of_path(
            u.path,
        ) is Some),
        stream_of(t, base) matches Some(hit) ==> (url_joined(base, t) matches Ok(u) && u
            == hit.0) && kind_of_path(hit.0.path) == Some(hit.1),
{
    lemma_clean(t, q);
}

proof fn lemma_clean(t: Seq<char>, q: char)
    requires
        t.len() > 0,
        t.contains('\\') == false,
        forall|i: int| 0 <= i < t.len() ==> #[trigger] t[i] != '"' && t[i] != '\'',
        !is_space(t[0]),
        !is_space(t.last()),
        q == '"' || q == '\'',
    ensures
        unwrapped(t) == t,
        unwrapped(seq![q] + t + seq![q]) == t,
        unescaped(t) == t,
{
    let e = Seq::<char>::empty();
    let w = wrapping();
    let quoted = seq![q] + t + seq![q];
    assert forall|i: int| 0 <= i < t.len() implies !w(#[trigger] t[i]) by {
        assert(t.contains(t[i]));
    }
    trimming_takes_both_ends(e, t, e);
    assert(e + t + e =~= t);
    leading_runs_are_dropped(e, t, w);
    trailing_runs_are_dropped(t, e, w);
    assert(e + t =~= t);
    assert(t + e =~= t);
    trimming_takes_both_ends(e, quoted, e);
    assert(e + quoted + e =~= quoted);
    assert(quoted =~= seq![q] + (t + seq![q]));
    assert((t + seq![q])[0] == t[0]);
    leading_runs_are_dropped(seq![q], t + seq![q], w);
    trailing_runs_are_dropped(t, seq![q], w);
    reveal_strlit("\\/");
    reveal_strlit("\\u002F");
    reveal_strlit("\\u002f");
    lemma_no_escape(t, "\\/"@);
    lemma_no_escape(t, "\\u002F"@);
    lemma_no_escape(t, "\\u002f"@);
}

proof fn lemma_no_escape(t: Seq<char>, p: Seq<char>)
    requires
        t.contains('\\') == false,
        p.len() > 0,
        p[0] == '\\',
    ensures
        replaced(t, p, "/"@) == t,
{
    if has(t, p) {
        let i = choose|i: int| #[trigger] crate::text::occurs_at(t, p, i);
        assert(t.subrange(i, i + p.len())[0] == t[i]);
        assert(t.contains(t[i]));
    }
    replacing_keeps_the_rest(t, p, "/"@);
}

/// A slash that a script escaped is a slash again.
pub proof fn escaped_slashes_are_slashes(a: Seq<char>, b: Seq<char>)
    requires
        a.contains('\\') == false,
        b.contains('\\') == false,
    ensures
        unescaped(a + seq!['\\', '/'] + b) == a + seq!['/'] + b,
        unescaped(a + seq!['\\', 'u', '0', '0', '2', 'F'] + b) == a + seq!['/'] + b,
        unescaped(a + seq!['\\', 'u', '0', '0', '2', 'f'] + b) == a + seq!['/'] + b,
{
    reveal_strlit("/");
    reveal_strlit("\\/");
    reveal_strlit("\\u002F");
    reveal_strlit("\\u002f");
    assert("/"@ =~= seq!['/']);
    assert("\\/"@ =~= seq!['\\', '/']);
    assert("\\u002F"@ =~= seq!['\\', 'u', '0', '0', '2', 'F']);
    assert("\\u002f"@ =~= seq!['\\', 'u', '0', '0', '2', 'f']);
    let r = a + seq!['/'] + b;
    assert(r.contains('\\') == false) by {
        if r.contains('\\') {
            let k = choose|k: int| 0 <= k < r.len() && r[k] == '\\';
            if k < a.len() {
                assert(a.contains(a[k]));
            } else {
                assert(b.contains(b[k - a.len() - 1]));
            }
        }
    }
    lemma_no_escape(r, "\\/"@);
    lemma_no_escape(r, "\\u002F"@);
    lemma_no_escape(r, "\\u002f"@);
    lemma_no_escape(b, "\\/"@);
    lemma_no_escape(b, "\\u002F"@);
    lemma_no_escape(b, "\\u002f"@);
    lemma_one_escape(a, "\\/"@, b);
    lemma_one_escape(a, "\\u002F"@, b);
    lemma_one_escape(a, "\\u002f"@, b);
    lemma_other_escape(a, "\\u002F"@, b, "\\/"@, 1);
    lemma_other_escape(a, "\\u002f"@, b, "\\/"@, 1);
    lemma_other_escape(a, "\\u002f"@, b, "\\u002F"@, 5);
}

proof fn lemma_one_escape(a: Seq<char>, p: Seq<char>, b: Seq<char>)
    requires
        a.contains('\\') == false,
        b.contains('\\') == false,
        p.len() > 0,
        p[0] == '\\',
        "/"@ == seq!['/'],
    ensures
        replaced(a + p + b, p, "/"@) == a + seq!['/'] + b,
{
    let s = a + p + b;
    assert forall|i: int| 0 <= i < a.len() implies !#[trigger] crate::text::occurs_at(s, p, i) by {
        if crate::text::occurs_at(s, p, i) {
            assert(s.subrange(i, i + p.len())[0] == s[i]);
            assert(a.contains(a[i]));
        }
    }
    replacing_takes_each_occurrence(a, p, "/"@, b);
    lemma_no_escape(b, p);
}

proof fn lemma_other_escape(a: Seq<char>, q: Seq<char>, b: Seq<char>, p: Seq<char>, k: int)
    requires
        a.contains('\\') == false,
        b.contains('\\') == false,
        p.len() > 0,
        p[0] == '\\',
        0 <= k < p.len() <= q.len(),
        forall|i: int| 1 <= i < q.len() ==> #[trigger] q[i] != '\\',
        p[k] != q[k],
    ensures
        replaced(a + q + b, p, "/"@) == a + q + b,
{
    let s = a + q + b;
    if has(s, p) {
        let i = choose|i: int| #[trigger] crate::text::occurs_at(s, p, i);
        assert(s.subrange(i, i + p.len())[0] == s[i]);
        assert(s.subrange(i, i + p.len())[k] == s[i + k]);
        if i < a.len() {
            assert(a.contains(a[i]));
        } else if i >= a.len() + q.len() {
            assert(b.contains(b[i - a.len() - q.len()]));
        } else {
            assert(s[i] == q[i - a.len()]);
            assert(i == a.len());
            assert(s[i + k] == q[k]);
        }
    }
    replacing_keeps_the_rest(s, p, "/"@);
}

/// The end of a path tells the kind of stream, in any case, and no other path is
/// a stream.
pub proof fn the_end_of_a_path_tells_its_kind(p: Seq<char>, end: Seq<char>)
    ensures
        lower(end) == seq!['.', 'm', '3', 'u', '8'] ==> kind_of_path(p + end) == Some(
            StreamKind::Hls,
        ),
        lower(end) == seq!['.', 'm', 'p', 'd'] ==> kind_of_path(p + end) == Some(StreamKind::Dash),
        lower(end) == seq!['.', 'm', 'p', '4'] || lower(end) == seq!['.', 'w', 'e', 'b', 'm']
            ==> kind_of_path(p + end) == Some(StreamKind::Progressive),
        kind_of_path(p) is Some ==> exists|i: int|
            0 <= i < p.len() && #[trigger] p[i] == '.' && (lower(p.skip(i)) == seq![
                '.',
                'm',
                '3',
                'u',
                '8',
            ] || lower(p.skip(i)) == seq!['.', 'm', 'p', 'd'] || lower(p.skip(i)) == seq![
                '.',
                'm',
                'p',
                '4',
            ] || lower(p.skip(i)) == seq!['.', 'w', 'e', 'b', 'm']),
{
    reveal_strlit(".m3u8");
    reveal_strlit(".mpd");
    reveal_strlit(".mp4");
    reveal_strlit(".webm");
    let hls = seq!['.', 'm', '3', 'u', '8'];
    let dash = seq!['.', 'm', 'p', 'd'];
    let mp4 = seq!['.', 'm', 'p', '4'];
    let webm = seq!['.', 'w', 'e', 'b', 'm'];
    assert(".m3u8"@ =~= hls);
    assert(".mpd"@ =~= dash);
    assert(".mp4"@ =~= mp4);
    assert(".webm"@ =~= webm);
    let s = lower(p + end);
    assert(s =~= lower(p) + lower(end));
    if lower(end) == hls || lower(end) == dash || lower(end) == mp4 || lower(end) == webm {
        let t = lower(end);
        affixes_come_off(t, lower(p));
        assert(t.is_suffix_of(s));
        assert(s.last() == t.last());
        if hls.is_suffix_of(s) {
            assert(s.last() == hls.last());
        }
        if dash.is_suffix_of(s) {
            assert(s.last() == dash.last());
        }
    }
    if kind_of_path(p) is Some {
        let t = if hls.is_suffix_of(lower(p)) {
            hls
        } else if dash.is_suffix_of(lower(p)) {
            dash
        } else if mp4.is_suffix_of(lower(p)) {
            mp4
        } else {
            webm
        };
        assert(t.is_suffix_of(lower(p)));
        let i = p.len() - t.len();
        assert(lower(p.skip(i)) =~= lower(p).skip(i));
        assert(lower(p).skip(i) =~= t);
        assert(lower(p)[i] == t[0]);
        assert(p[i] == '.');
    }
}

/// Each marker of an interstitial in the part of the page that is looked at makes
/// a challenge, whatever the status; so does the word itself with a Cloudflare
/// server and a refusing status.
pub proof fn every_marker_is_a_challenge(
    status: u16,
    body: Seq<char>,
    server: Option<Seq<char>>,
    m: Seq<char>,
)
    requires
        has(lower(capped(body, 65_536)), m),
    ensures
        m == "just a moment"@ || m == "cf-browser-verification"@ || m == "cf_chl_opt"@ || m
            == "_cf_chl_"@ || m == "challenge-platform"@ || m == "turnstile"@ || m
            == "/cdn-cgi/challenge-platform/"@ ==> is_challenge(status, body, server),
        m == "challenge"@ && (status == 403 || status == 503) && (server matches Some(s) && has(
            lower(s),
            "cloudflare"@,
        )) ==> is_challenge(status, body, server),
{
}

/// A page with none of the markers is no challenge, unless the word itself comes
/// from a Cloudflare server that refuses.
pub proof fn a_page_without_markers_is_no_challenge(
    status: u16,
    body: Seq<char>,
    server: Option<Seq<char>>,
)
    requires
        ({
            let page = lower(capped(body, 65_536));
            &&& has(page, "just a moment"@) == false
            &&& has(page, "cf-browser-verification"@) == false
            &&& has(page, "cf_chl_opt"@) == false
            &&& has(page, "_cf_chl_"@) == false
            &&& has(page, "challenge-platform"@) == false
            &&& has(page, "turnstile"@) == false
            &&& has(page, "/cdn-cgi/challenge-platform/"@) == false
        }),
    ensures
        is_challenge(status, body, server) ==> (status == 403 || status == 503) && (
        server matches Some(s) && has(lower(s), "cloudflare"@)) && has(
            lower(capped(body, 65_536)),
            "challenge"@,
        ),
{
}

/// A header is found under its name in any case, and the first one counts.
pub proof fn headers_are_found_in_any_case<V>(
    hs: Seq<(Seq<char>, V)>,
    name: Seq<char>,
    i: int,
)
    requires
        0 <= i < hs.len(),
        lower(hs[i].0) == lower(name),
    ensures
        header_value(hs, name) is Some,
        (forall|k: int| 0 <= k < i ==> lower((#[trigger] hs[k]).0) != lower(name)) ==> header_value(
            hs,
            name,
        ) == Some(hs[i].1),
    decreases hs.len(),
{
    if i > 0 && lower(hs[0].0) != lower(name) {
        let rest = hs.skip(1);
        headers_are_found_in_any_case(rest, name, i - 1);
        if forall|k: int| 0 <= k < i ==> lower((#[trigger] hs[k]).0) != lower(name) {
            assert forall|k: int| 0 <= k < i - 1 implies lower((#[trigger] rest[k]).0) != lower(
                name,
            ) by {
                assert(rest[k] == hs[k + 1]);
            }
        }
    }
}

/// A name that no header has is not found.
pub proof fn other_headers_are_not_found<V>(hs: Seq<(Seq<char>, V)>, name: Seq<char>)
    requires
        forall|k: int| 0 <= k < hs.len() ==> lower((#[trigger] hs[k]).0) != lower(name),
    ensures
        header_value(hs, name) is None,
    decreases hs.len(),
{
    if hs.len() > 0 {
        let rest = hs.skip(1);
        assert forall|k: int| 0 <= k < rest.len() implies lower((#[trigger] rest[k]).0) != lower(
            name,
        ) by {
            assert(rest[k] == hs[k + 1]);
        }
        assert(lower(hs[0].0) != lower(name));
        other_headers_are_not_found(rest, name);
    }
}

/// Every pin of a request is sent under its name, and every further header as it
/// is.
pub proof fn a_request_sends_all_it_was_given(r: RequestView, i: int)
    ensures
        r.user_agent matches Some(v) ==> r.headers().contains(("user-agent"@, v)),
        r.accept_language matches Some(v) ==> r.headers().contains(("accept-language"@, v)),
        r.cookie_header matches Some(v) ==> r.headers().contains(("cookie"@, v)),
        0 <= i < r.extra_headers.len() ==> r.headers().contains(r.extra_headers[i]),
        r.headers().len() == r.extra_headers.len() + (if r.user_agent is Some {
            1int
        } else {
            0
        }) + (if r.accept_language is Some {
            1int
        } else {
            0
        }) + (if r.cookie_header is Some {
            1int
        } else {
            0
        }),
{
    let a = optional_header("user-agent"@, r.user_agent);
    let b = optional_header("accept-language"@, r.accept_language);
    let c = optional_header("cookie"@, r.cookie_header);
    let all = r.headers();
    if let Some(v) = r.user_agent {
        assert(all[0] == ("user-agent"@, v));
    }
    if let Some(v) = r.accept_language {
        assert(all[a.len() as int] == ("accept-language"@, v));
    }
    if let Some(v) = r.cookie_header {
        assert(all[(a.len() + b.len()) as int] == ("cookie"@, v));
    }
    if 0 <= i < r.extra_headers.len() {
        assert(all[a.len() + b.len() + c.len() + i] == r.extra_headers[i]);
    }
}

/// Clients are kept apart by egress, fingerprint and kind of use.
pub proof fn kinds_of_use_have_clients_of_their_own(
    e: EgressView,
    fingerprint: Option<Seq<char>>,
)
    ensures
        client_name(e, fingerprint, ClientKind::FastPath) != client_name(
            e,
            fingerprint,
            ClientKind::Stream,
        ),
{
    reveal_strlit("fp");
    reveal_strlit("st");
    assert(client_name(e, fingerprint, ClientKind::FastPath).last() == 'p');
    assert(client_name(e, fingerprint, ClientKind::Stream).last() == 't');
}

/// Clients of one egress and use are kept apart by fingerprint.
pub proof fn fingerprints_have_clients_of_their_own(
    e: EgressView,
    a: Seq<char>,
    b: Seq<char>,
    kind: ClientKind,
)
    requires
        client_name(e, Some(a), kind) == client_name(e, Some(b), kind),
    ensures
        a == b,
{
    let n = (e.jar_key() + "|"@).len() as int;
    let x = client_name(e, Some(a), kind);
    let y = client_name(e, Some(b), kind);
    let k = match kind {
        ClientKind::FastPath => "fp"@,
        ClientKind::Stream => "st"@,
    };
    assert(x.len() == n + a.len() + "|"@.len() + k.len());
    assert(y.len() == n + b.len() + "|"@.len() + k.len());
    assert(x.subrange(n, n + a.len()) =~= a);
    assert(y.subrange(n, n + b.len()) =~= b);
}

/// Every `Set-Cookie` header that has a name and a value sets its cookie, in the
/// order of the headers; no other header sets one.
pub proof fn every_set_cookie_header_counts(
    hs: Seq<(Seq<char>, Seq<char>)>,
    h: (Seq<char>, Seq<char>),
    url: UrlView,
    now: i64,
)
    ensures
        cookies_set(seq![], url, now).len() == 0,
        lower(h.0) != lower("set-cookie"@) ==> cookies_set(hs.push(h), url, now) == cookies_set(
            hs,
            url,
            now,
        ),
        lower(h.0) == lower("set-cookie"@) ==> (match cookie_of(h.1, url.host, now) {
            Some(c) => cookies_set(hs.push(h), url, now) == cookies_set(hs, url, now).push(c),
            None => cookies_set(hs.push(h), url, now) == cookies_set(hs, url, now),
        }),
{
    assert(hs.push(h).drop_last() =~= hs);
}

/// A header of a name and a value alone is a session cookie of the host that
/// answered, for all of its paths; a header without an equals sign sets nothing.
pub proof fn a_plain_cookie_is_for_the_whole_host(
    name: Seq<char>,
    value: Seq<char>,
    host: Seq<char>,
    now: i64,
)
    requires
        name.len() > 0,
        !name.contains('='),
        !name.contains(';'),
        !is_space(name[0]),
        !is_space(name.last()),
        value.len() > 0,
        !value.contains(';'),
        !is_space(value[0]),
        !is_space(value.last()),
    ensures
        cookie_of(name, Some(host), now) is None,
        cookie_of(name + seq!['='] + value, Some(host), now) matches Some(c) && c.name == name
            && c.value == value && c.domain == host && c.path == seq!['/'] && c.expires < 0
            && !c.http_only && !c.secure && c.same_site is None,
{
    let e = Seq::<char>::empty();
    let s = name + seq!['='] + value;
    reveal_strlit("/");
    assert("/"@ =~= seq!['/']);
    if s.contains(';') {
        let k = choose|k: int| 0 <= k < s.len() && s[k] == ';';
        if k < name.len() {
            assert(name.contains(name[k]));
        } else {
            assert(value.contains(value[k - name.len() - 1]));
        }
    }
    a_text_without_separator_is_one_piece(s, ';');
    a_text_without_separator_is_one_piece(name, ';');
    trimming_takes_both_ends(e, s, e);
    trimming_takes_both_ends(e, name, e);
    trimming_takes_both_ends(e, value, e);
    assert(e + s + e =~= s);
    assert(e + name + e =~= name);
    assert(e + value + e =~= value);
    assert(s[0] == name[0]);
    assert(s.last() == value.last());
    a_cut_is_at_the_first_separator(name, '=', value);
    assert(name.push('=') + value =~= s);
    assert(pieces(s, only(';')).skip(1) =~= seq![]);
}

/// One attribute more changes what it names and nothing else: the domain (whose
/// leading dot is dropped), the path, the same-site rule, the two marks, or the
/// expiry; an attribute of another name changes nothing.
pub proof fn an_attribute_sets_what_it_names(
    header: Seq<char>,
    k: Seq<char>,
    v: Seq<char>,
    host: Option<Seq<char>>,
    now: i64,
)
    requires
        k.len() > 0,
        !k.contains('='),
        !k.contains(';'),
        !is_space(k[0]),
        !is_space(k.last()),
        v.len() > 0,
        !v.contains(';'),
        !is_space(v[0]),
        !is_space(v.last()),
    ensures
        ({
            let before = cookie_of(header, host, now);
            let after = cookie_of(header.push(';') + (seq![' '] + k + seq!['='] + v), host, now);
            let n = lower(k);
            match before {
                None => after is None,
                Some(c) => after matches Some(d) && {
                    &&& n == "domain"@ ==> d == (CookieView {
                        domain: drop_leading(v, only('.')),
                        ..c
                    })
                    &&& n == "path"@ ==> d == (CookieView { path: v, ..c })
                    &&& n == "samesite"@ ==> d == (CookieView { same_site: Some(v), ..c })
                    &&& n == "max-age"@ ==> (match parsed_i64(v) {
                        Some(secs) => d.expires == (if secs <= 0 {
                            1_000_000
                        } else {
                            (now + secs) * 1_000_000
                        }),
                        None => d.expires == -1_000_000,
                    }) && d.name == c.name && d.value == c.value && d.domain == c.domain && d.path
                        == c.path
                    &&& n != "domain"@ && n != "path"@ && n != "samesite"@ && n != "max-age"@ && n
                        != "secure"@ && n != "httponly"@ ==> d == c
                },
            }
        }),
{
    let e = Seq::<char>::empty();
    let a = k + seq!['='] + v;
    let raw = seq![' '] + k + seq!['='] + v;
    assert(raw =~= seq![' '] + a + e);
    assert(a[0] == k[0]);
    assert(a.last() == v.last());
    trimming_takes_both_ends(seq![' '], a, e);
    trimming_takes_both_ends(e, k, e);
    trimming_takes_both_ends(e, v, e);
    assert(e + k + e =~= k);
    assert(e + v + e =~= v);
    a_cut_is_at_the_first_separator(k, '=', v);
    assert(k.push('=') + v =~= a);
    assert(attribute(raw) == (lower(k), v));
    lemma_one_more_attribute(header, raw, host, now, k, v);
    lemma_attribute_names();
    let parts = pieces(header, only(';'));
    if let Some((name, value)) = cut(trimmed(parts[0]), '=') {
        let plain = CookieView::plain(
            trimmed(name),
            trimmed(value),
            match host {
                Some(h) => h,
                None => seq![],
            },
        );
        lemma_expiry_waits((plain, None), parts.skip(1));
    }
}

proof fn lemma_one_more_attribute(
    header: Seq<char>,
    raw: Seq<char>,
    host: Option<Seq<char>>,
    now: i64,
    k: Seq<char>,
    v: Seq<char>,
)
    requires
        raw == seq![' '] + k + seq!['='] + v,
        !k.contains(';'),
        !v.contains(';'),
    ensures
        ({
            let p = pieces(header, only(';'));
            let q = pieces(header.push(';') + raw, only(';'));
            &&& q[0] == p[0]
            &&& q.skip(1).len() > 0
            &&& q.skip(1).drop_last() == p.skip(1)
            &&& q.skip(1).last() == raw
        }),
{
    assert forall|i: int| 0 <= i < raw.len() implies !only(';')(#[trigger] raw[i]) by {
        if 0 < i <= k.len() {
            assert(k.contains(k[i - 1]));
        } else if i > k.len() + 1 {
            assert(v.contains(v[i - k.len() - 2]));
        }
    }
    a_piece_is_added_at_the_end(header, ';', raw, only(';'));
    let p = pieces(header, only(';'));
    let q = pieces(header.push(';') + raw, only(';'));
    assert(q =~= p.push(raw));
    assert(q.skip(1).drop_last() =~= p.skip(1));
}

proof fn lemma_attribute_names()
    ensures
        "domain"@ != "path"@,
        "domain"@ != "samesite"@,
        "domain"@ != "max-age"@,
        "domain"@ != "secure"@,
        "domain"@ != "httponly"@,
        "path"@ != "samesite"@,
        "path"@ != "max-age"@,
        "path"@ != "secure"@,
        "path"@ != "httponly"@,
        "samesite"@ != "max-age"@,
        "samesite"@ != "secure"@,
        "samesite"@ != "httponly"@,
        "max-age"@ != "secure"@,
        "max-age"@ != "httponly"@,
        "secure"@ != "httponly"@,
{
    reveal_strlit("domain");
    reveal_strlit("path");
    reveal_strlit("samesite");
    reveal_strlit("max-age");
    reveal_strlit("secure");
    reveal_strlit("httponly");
    assert("domain"@[0] == 'd');
    assert("path"@[0] == 'p');
    assert("samesite"@[0] == 's' && "samesite"@[1] == 'a');
    assert("max-age"@[0] == 'm');
    assert("secure"@[0] == 's' && "secure"@[1] == 'e');
    assert("httponly"@[0] == 'h');
}

proof fn lemma_expiry_waits(c: (CookieView, Option<int>), raws: Seq<Seq<char>>)
    requires
        c.1 matches Some(s) ==> i64::MIN <= s <= i64::MAX,
    ensures
        with_attributes(c, raws).0.expires == c.0.expires,
        with_attributes(c, raws).1 matches Some(s) ==> i64::MIN <= s <= i64::MAX,
    decreases raws.len(),
{
    if raws.len() > 0 {
        lemma_expiry_waits(c, raws.drop_last());
    }
}

/// The two marks of a cookie are set by name alone.
pub proof fn a_mark_is_set_by_its_name(
    header: Seq<char>,
    k: Seq<char>,
    host: Option<Seq<char>>,
    now: i64,
)
    requires
        k.len() > 0,
        !k.contains('='),
        !k.contains(';'),
        !is_space(k[0]),
        !is_space(k.last()),
    ensures
        ({
            let before = cookie_of(header, host, now);
            let after = cookie_of(header.push(';') + (seq![' '] + k), host, now);
            match before {
                None => after is None,
                Some(c) => after matches Some(d) && {
                    &&& lower(k) == "secure"@ ==> d == (CookieView { secure: true, ..c })
                    &&& lower(k) == "httponly"@ ==> d == (CookieView { http_only: true, ..c })
                },
            }
        }),
{
    let e = Seq::<char>::empty();
    let raw = seq![' '] + k;
    trimming_takes_both_ends(seq![' '], k, e);
    assert(raw =~= seq![' '] + k + e);
    a_cut_is_at_the_first_separator(k, '=', e);
    assert(attribute(raw) == (lower(k), e));
    assert forall|i: int| 0 <= i < raw.len() implies !only(';')(#[trigger] raw[i]) by {
        if i > 0 {
            assert(k.contains(k[i - 1]));
        }
    }
    a_piece_is_added_at_the_end(header, ';', raw, only(';'));
    let p = pieces(header, only(';'));
    let q = pieces(header.push(';') + raw, only(';'));
    assert(q =~= p.push(raw));
    assert(q.skip(1).drop_last() =~= p.skip(1));
    lemma_attribute_names();
}

/// Where a fetch ended is where it says, and where it was sent otherwise.
pub proof fn a_fetch_ends_where_it_says(asked: UrlView, answered: Seq<char>)
    ensures
        url_parsed(answered) matches Ok(u) ==> final_url_of(asked, answered) == u,
        url_parsed(answered) is Err ==> final_url_of(asked, answered) == asked,
{
}

/// The time to live is what is left of the first cookie of the name that has time
/// left, in whole seconds.
pub proof fn the_first_live_cookie_gives_the_time_to_live(
    cs: Seq<CookieView>,
    name: Seq<char>,
    now: i64,
    i: int,
)
    ensures
        0 <= i < cs.len() && cs[i].name == name && cs[i].expires > now * 1_000_000 && (cs[i].expires
            - now * 1_000_000) / 1_000_000 <= u64::MAX && (forall|k: int|
            0 <= k < i ==> (#[trigger] cs[k]).name != name || cs[k].expires <= now * 1_000_000)
            ==> ttl_hint(cs, name, now) == Some(
            ((cs[i].expires - now * 1_000_000) / 1_000_000) as u64,
        ),
        (forall|k: int|
            0 <= k < cs.len() ==> (#[trigger] cs[k]).name != name || cs[k].expires <= now
                * 1_000_000) ==> ttl_hint(cs, name, now) is None,
    decreases cs.len(),
{
    if cs.len() > 0 {
        let rest = cs.skip(1);
        the_first_live_cookie_gives_the_time_to_live(rest, name, now, i - 1);
        assert forall|k: int| 0 <= k < rest.len() implies #[trigger] rest[k] == cs[k + 1] by {}
        if forall|k: int|
            0 <= k < cs.len() ==> (#[trigger] cs[k]).name != name || cs[k].expires <= now
                * 1_000_000 {
            assert(cs[0].name != name || cs[0].expires <= now * 1_000_000);
            assert forall|k: int| 0 <= k < rest.len() implies (#[trigger] rest[k]).name != name
                || rest[k].expires <= now * 1_000_000 by {
                assert(cs[k + 1].name != name || cs[k + 1].expires <= now * 1_000_000);
            }
        }
        if 0 < i < cs.len() && cs[i].name == name && cs[i].expires > now * 1_000_000 && (forall|k: int|
            0 <= k < i ==> (#[trigger] cs[k]).name != name || cs[k].expires <= now * 1_000_000) {
            assert(cs[0].name != name || cs[0].expires <= now * 1_000_000);
            assert(rest[i - 1] == cs[i]);
            assert forall|k: int| 0 <= k < i - 1 implies (#[trigger] rest[k]).name != name
                || rest[k].expires <= now * 1_000_000 by {
                assert(cs[k + 1].name != name || cs[k + 1].expires <= now * 1_000_000);
            }
        }
    }
}

} // verus!
