//! Native handlers: what a request asks for and what it is answered. The caller
//! does the work between the two.

use vstd::prelude::*;
use vstd::utf8::encode_utf8;

use crate::api::dto::{
    effective_timeout, HealthResponse, NavigateResponse, OneOrMany, ResolveRequest,
    ResolveResponse, SniffRequest, SniffResponse,
};
use crate::error::{same_outcome, CobwebError, ErrorView};
use crate::fastpath::{copy_bytes, header_value, headers_are_found_in_any_case};
use crate::json::{members_are_read_back, text_value, Json, JsonView, Members};
use crate::pipeline::{
    as_glob, default_globs, default_patterns, normalize_sniff_pattern, pinned_header, Mode,
    NavigateResult, ResolveOutcome, ResolveParams, SniffResult,
};
use crate::text::{
    a_part_occurs_in_the_whole, cat, has, lower, same, same_ignore_case, starts_with, to_lower, trim, trimmed,
};
use crate::util::{find_key, index_of_key, lemma_index_of_key, upserted};
use crate::weburl::{url_parsed, Url, UrlView};

verus! {

/// The version on the wire.
pub const VERSION: &'static str = "1.1.0";

/// The content type of `/metrics`.
pub const METRICS_CONTENT_TYPE: &'static str = "text/plain; version=0.0.4; charset=utf-8";

/// What a handler makes of a URL.
pub open spec fn request_url(raw: Seq<char>) -> Result<UrlView, ErrorView> {
    match url_parsed(raw) {
        Ok(u) => Ok(u),
        Err(_) => Err(ErrorView::BadRequest("not a valid URL: "@ + raw)),
    }
}

pub fn parse_url(raw: &str) -> (r: Result<Url, CobwebError>)
    ensures
        same_outcome(r, request_url(raw@)),
{
    match Url::parse(raw) {
        Ok(u) => Ok(u),
        Err(_) => Err(CobwebError::BadRequest(cat("not a valid URL: ", raw))),
    }
}

/// Headers with each name once: the first place, the last value.
pub open spec fn last_wins(hs: Seq<(Seq<char>, Seq<char>)>) -> Seq<(Seq<char>, Seq<char>)>
    decreases hs.len(),
{
    if hs.len() == 0 {
        seq![]
    } else {
        upserted(last_wins(hs.drop_last()), hs.last().0, hs.last().1)
    }
}

/// Headers as an object.
pub open spec fn header_object(hs: Seq<(Seq<char>, Seq<char>)>) -> JsonView {
    JsonView::Object(
        last_wins(hs).map_values(|h: (Seq<char>, Seq<char>)| (h.0, JsonView::Str(h.1))),
    )
}

fn keep_last(headers: &Vec<(String, String)>) -> (r: Vec<(String, String)>)
    ensures
        r.deep_view() == last_wins(headers.deep_view()),
{
    let ghost all = headers.deep_view();
    let mut out: Vec<(String, String)> = Vec::new();
    assert(out.deep_view() =~= seq![]);
    for i in 0..headers.len()
        invariant
            all == headers.deep_view(),
            out.deep_view() == last_wins(all.take(i as int)),
    {
        assert(all.take(i + 1).drop_last() =~= all.take(i as int));
        assert(all.take(i + 1).last() == (headers@[i as int].0@, headers@[i as int].1@));
        let ghost before = out.deep_view();
        let ghost h = (headers@[i as int].0@, headers@[i as int].1@);
        match find_key(&out, headers[i].0.as_str()) {
            Some(k) => {
                out.set(k, (headers[i].0.clone(), headers[i].1.clone()));
                assert(out.deep_view() =~= before.update(k as int, h));
            },
            None => {
                out.push((headers[i].0.clone(), headers[i].1.clone()));
                assert(out.deep_view() =~= before.push(h));
            },
        }
    }
    assert(all.take(headers@.len() as int) =~= all);
    out
}

/// Headers as an object, last-wins on duplicates.
pub fn headers_to_map(headers: &Vec<(String, String)>) -> (r: Json)
    ensures
        r@ == header_object(headers.deep_view()),
{
    let kept = keep_last(headers);
    let ghost all = kept.deep_view();
    let ghost shown = all.map_values(|h: (Seq<char>, Seq<char>)| (h.0, JsonView::Str(h.1)));
    let mut m = Members::new();
    for i in 0..kept.len()
        invariant
            all == kept.deep_view(),
            shown == all.map_values(|h: (Seq<char>, Seq<char>)| (h.0, JsonView::Str(h.1))),
            m@ =~= shown.take(i as int),
    {
        m = m.with(kept[i].0.as_str(), text_value(kept[i].1.as_str()));
        assert(shown[i as int] == (kept@[i as int].0@, JsonView::Str(kept@[i as int].1@)));
    }
    assert(m@ =~= shown);
    m.object()
}

/// `GET /health`: the browser engine and its live contexts, if there is one.
pub fn health(
    engine: Option<(String, usize)>,
    fast_engine: &str,
    jar_domains: usize,
    egress_profiles: Vec<String>,
    uptime_secs: u64,
) -> (r: HealthResponse)
    ensures
        r.ready,
        match engine {
            Some((name, n)) => r.engine@ == name@ && r.contexts_in_use == n,
            None => r.engine@ == "none"@ && r.contexts_in_use == 0,
        },
        r.fast_engine@ == fast_engine@,
        r.jar_domains == jar_domains,
        r.egress_profiles == egress_profiles,
        r.uptime_secs == uptime_secs,
        r.version@ == VERSION@,
{
    let (name, contexts_in_use): (String, usize) = match engine {
        Some((name, n)) => (name, n),
        None => ("none".to_owned(), 0),
    };
    HealthResponse {
        ready: true,
        engine: name,
        fast_engine: fast_engine.to_owned(),
        contexts_in_use,
        jar_domains,
        egress_profiles,
        uptime_secs,
        version: VERSION.to_owned(),
    }
}

/// The patterns of a request: its own, or the default ones where it names none.
pub open spec fn wanted_patterns(p: Option<OneOrMany>) -> Seq<Seq<char>> {
    match p {
        Some(v) => if v.patterns().len() > 0 {
            v.patterns()
        } else {
            default_globs()
        },
        None => default_globs(),
    }
}

/// The resolution that `POST /v1/resolve` asks for.
pub fn resolve_params(req: ResolveRequest, default_ms: u64) -> (r: Result<
    ResolveParams,
    CobwebError,
>)
    ensures
        match request_url(req.url@) {
            Ok(u) => r matches Ok(p) && {
                &&& p.url@ == u
                &&& p.egress_name == req.egress
                &&& p.proxy_url == req.proxy_url
                &&& p.mode == match req.mode {
                    Some(m) => m,
                    None => Mode::Auto,
                }
                &&& p.url_pattern.deep_view() == wanted_patterns(req.url_pattern)
                &&& p.timeout_ms == effective_timeout(req.timeout_ms, default_ms)
                &&& p.block_resources == (req.block_resources != Some(false))
                &&& p.block_trackers == (req.block_trackers != Some(false))
            },
            Err(f) => r matches Err(e) && e@ == f,
        },
{
    let url = match parse_url(req.url.as_str()) {
        Ok(u) => u,
        Err(e) => {
            return Err(e);
        },
    };
    let timeout_ms: u64 = req.timeout(default_ms);
    let url_pattern: Vec<String> = match req.url_pattern {
        Some(p) => {
            let v = p.into_vec();
            assert(v.deep_view().len() == v@.len());
            if v.len() > 0 {
                v
            } else {
                default_patterns()
            }
        },
        None => default_patterns(),
    };
    Ok(
        ResolveParams {
            url,
            egress_name: req.egress,
            proxy_url: req.proxy_url,
            mode: match req.mode {
                Some(m) => m,
                None => Mode::Auto,
            },
            url_pattern,
            timeout_ms,
            block_resources: match req.block_resources {
                Some(b) => b,
                None => true,
            },
            block_trackers: match req.block_trackers {
                Some(b) => b,
                None => true,
            },
        },
    )
}

/// The answer of `POST /v1/resolve`.
pub fn resolve_response(outcome: ResolveOutcome) -> (r: ResolveResponse)
    ensures
        r.stream_url@ == outcome@.stream.stream_url,
        r.kind == outcome@.stream.kind,
        r.headers@ == header_object(outcome@.stream.headers),
        r.cookies.deep_view() == outcome@.stream.cookies,
        r.via_tier == outcome@.via_tier,
        r.domain@ == outcome@.domain,
{
    let headers = headers_to_map(&outcome.stream.headers);
    ResolveResponse {
        stream_url: outcome.stream.stream_url,
        kind: outcome.stream.kind,
        headers,
        cookies: outcome.stream.cookies,
        via_tier: outcome.via_tier,
        domain: outcome.domain,
    }
}

/// The answer of `POST /v1/navigate`.
pub fn navigate_response(r: NavigateResult) -> (a: NavigateResponse)
    ensures
        a.html == r.html,
        a.final_url == r.final_url,
        a.status == r.status,
{
    NavigateResponse { html: r.html, final_url: r.final_url, status: r.status }
}

// ---------------------------------------------------------------------------
// POST /v1/fetch: impersonated streaming GET proxy
// ---------------------------------------------------------------------------

#[derive(Debug)]
pub struct FetchProxyRequest {
    pub url: String,
    pub egress: Option<String>,
    pub proxy_url: Option<String>,
    /// Headers to forward, those that may be.
    pub headers: Vec<(String, String)>,
    pub timeout_ms: Option<u64>,
    /// Attach jar cookies unless the caller passed its own.
    pub use_jar: bool,
}

/// Headers that the proxy may forward.
pub open spec fn fetch_allows(name: Seq<char>) -> bool {
    let n = lower(trimmed(name));
    "sec-fetch-"@.is_prefix_of(n) || n == "referer"@ || n == "origin"@ || n == "cookie"@ || n
        == "user-agent"@ || n == "accept"@ || n == "accept-language"@ || n == "range"@ || n
        == "if-range"@ || n == "if-none-match"@ || n == "if-modified-since"@ || n
        == "x-requested-with"@
}

/// Headers the proxy may forward upstream. Hop-by-hop and routing or identity
/// headers are dropped.
pub fn fetch_header_allowed(name: &str) -> (r: bool)
    ensures
        r == fetch_allows(name@),
{
    let t = to_lower(trim(name).as_str());
    let n = t.as_str();
    starts_with(n, "sec-fetch-") || same(n, "referer") || same(n, "origin") || same(n, "cookie")
        || same(n, "user-agent") || same(n, "accept") || same(n, "accept-language") || same(
        n,
        "range",
    ) || same(n, "if-range") || same(n, "if-none-match") || same(n, "if-modified-since") || same(
        n,
        "x-requested-with",
    )
}

/// The headers that are forwarded, in order.
pub open spec fn fetch_kept(hs: Seq<(Seq<char>, Seq<char>)>) -> Seq<(Seq<char>, Seq<char>)>
    decreases hs.len(),
{
    if hs.len() == 0 {
        seq![]
    } else {
        let front = fetch_kept(hs.drop_last());
        if fetch_allows(hs.last().0) {
            front.push(hs.last())
        } else {
            front
        }
    }
}

/// Whether the caller brought a cookie header.
pub open spec fn brings_cookie(hs: Seq<(Seq<char>, Seq<char>)>) -> bool {
    exists|i: int| 0 <= i < hs.len() && lower((#[trigger] hs[i]).0) == lower("cookie"@)
}

/// Whether the jar is asked for cookies.
pub fn asks_jar(req: &FetchProxyRequest) -> (r: bool)
    ensures
        r == (req.use_jar && !brings_cookie(req.headers.deep_view())),
{
    if !req.use_jar {
        return false;
    }
    for i in 0..req.headers.len()
        invariant
            forall|k: int|
                0 <= k < i ==> lower((#[trigger] req.headers.deep_view()[k]).0) != lower("cookie"@),
    {
        assert(req.headers.deep_view()[i as int].0 == req.headers@[i as int].0@);
        if same_ignore_case(req.headers[i].0.as_str(), "cookie") {
            return false;
        }
    }
    true
}

/// The headers of the upstream request: what may be forwarded, then the jar's
/// cookies where they are asked for and the caller brought none.
pub open spec fn forwarded(
    hs: Seq<(Seq<char>, Seq<char>)>,
    use_jar: bool,
    jar_cookie: Option<Seq<char>>,
) -> Seq<(Seq<char>, Seq<char>)> {
    fetch_kept(hs) + if use_jar && !brings_cookie(hs) {
        pinned_header("cookie"@, jar_cookie)
    } else {
        seq![]
    }
}

/// The headers of the upstream request: what the caller may forward, then the
/// jar's cookies where it is asked.
pub fn fetch_headers(req: &FetchProxyRequest, jar_cookie: Option<String>) -> (r: Vec<
    (String, String),
>)
    ensures
        r.deep_view() == fetch_kept(req.headers.deep_view()) + if req.use_jar && !brings_cookie(
            req.headers.deep_view(),
        ) {
            pinned_header("cookie"@, jar_cookie.deep_view())
        } else {
            seq![]
        },
        r.deep_view() == forwarded(req.headers.deep_view(), req.use_jar, jar_cookie.deep_view()),
{
    let ghost all = req.headers.deep_view();
    let mut out: Vec<(String, String)> = Vec::new();
    assert(out.deep_view() =~= seq![]);
    for i in 0..req.headers.len()
        invariant
            all == req.headers.deep_view(),
            out.deep_view() == fetch_kept(all.take(i as int)),
    {
        assert(all.take(i + 1).drop_last() =~= all.take(i as int));
        let ghost h = (req.headers@[i as int].0@, req.headers@[i as int].1@);
        assert(all.take(i + 1).last() == h);
        let ghost before = out.deep_view();
        if fetch_header_allowed(req.headers[i].0.as_str()) {
            out.push((req.headers[i].0.clone(), req.headers[i].1.clone()));
            assert(out.deep_view() =~= before.push(h));
        }
    }
    assert(all.take(req.headers@.len() as int) =~= all);
    let ghost kept = out.deep_view();
    if asks_jar(req) {
        match jar_cookie {
            Some(c) => {
                let ghost cv = c@;
                out.push(("cookie".to_owned(), c));
                assert(out.deep_view() =~= kept + seq![("cookie"@, cv)]);
            },
            None => {
                assert(out.deep_view() =~= kept + seq![]);
            },
        }
    } else {
        assert(out.deep_view() =~= kept + seq![]);
    }
    out
}

/// The status that is relayed: one that is no status becomes a bad gateway.
pub fn relayed_status(upstream: u16) -> (r: u16)
    ensures
        r == if 100 <= upstream <= 999 {
            upstream
        } else {
            502
        },
{
    if upstream >= 100 && upstream <= 999 {
        upstream
    } else {
        502
    }
}

/// Whether bytes can stand in a header: no control character but the tab is among
/// them.
pub open spec fn header_safe(bytes: Seq<u8>) -> bool {
    forall|i: int| 0 <= i < bytes.len() ==> (#[trigger] bytes[i] >= 32 && bytes[i] != 127)
        || bytes[i] == 9
}

fn is_header_safe(bytes: &Vec<u8>) -> (r: bool)
    ensures
        r == header_safe(bytes@),
{
    for i in 0..bytes.len()
        invariant
            forall|k: int|
                0 <= k < i ==> (#[trigger] bytes@[k] >= 32 && bytes@[k] != 127) || bytes@[k] == 9,
    {
        let b: u8 = bytes[i];
        if !((b >= 32 && b != 127) || b == 9) {
            return false;
        }
    }
    true
}

/// The upstream header of a name, if there is one.
pub open spec fn relayed(hs: Seq<(Seq<char>, Seq<u8>)>, name: Seq<char>) -> Seq<
    (Seq<char>, Seq<u8>),
> {
    match header_value(hs, name) {
        Some(v) => seq![(name, v)],
        None => seq![],
    }
}

/// The headers of the proxied answer: a curated set of the upstream ones, where
/// the fetch ended, and leave for any origin to read it.
pub open spec fn fetch_answer_headers(hs: Seq<(Seq<char>, Seq<u8>)>, final_url: Seq<char>) -> Seq<
    (Seq<char>, Seq<u8>),
> {
    relayed(hs, "content-type"@) + relayed(hs, "content-range"@) + relayed(hs, "accept-ranges"@)
        + relayed(hs, "cache-control"@) + relayed(hs, "last-modified"@) + relayed(hs, "etag"@)
        + relayed(hs, "expires"@) + relayed(hs, "vary"@) + (if header_safe(
        encode_utf8(final_url),
    ) {
        seq![("x-cobweb-final-url"@, encode_utf8(final_url))]
    } else {
        seq![]
    }) + seq![("access-control-allow-origin"@, seq!['*' as u8])]
}

/// The bytes of a text.
fn bytes_of(s: &str) -> (r: Vec<u8>)
    ensures
        r@ == encode_utf8(s@),
{
    copy_bytes(s.as_bytes())
}

fn push_value(out: &mut Vec<(String, Vec<u8>)>, name: &str, value: Vec<u8>)
    ensures
        final(out).deep_view() == old(out).deep_view().push((name@, value@)),
{
    let ghost before = out.deep_view();
    let ghost v = value@;
    out.push((name.to_owned(), value));
    assert(out@.last().1.deep_view() =~= v);
    assert(out.deep_view() =~= before.push((name@, v)));
}

fn relay(out: &mut Vec<(String, Vec<u8>)>, hs: &Vec<(String, Vec<u8>)>, name: &str)
    ensures
        final(out).deep_view() == old(out).deep_view() + relayed(hs.deep_view(), name@),
{
    let ghost all = hs.deep_view();
    let ghost before = out.deep_view();
    assert(all.skip(0) =~= all);
    for i in 0..hs.len()
        invariant
            all == hs.deep_view(),
            before == old(out).deep_view(),
            out.deep_view() == before,
            header_value(all.skip(i as int), name@) == header_value(all, name@),
    {
        assert(all.skip(i as int)[0] == (hs@[i as int].0@, hs@[i as int].1.deep_view()));
        assert(hs@[i as int].1.deep_view() =~= hs@[i as int].1@);
        assert(all.skip(i as int).skip(1) =~= all.skip(i + 1));
        if same_ignore_case(hs[i].0.as_str(), name) {
            push_value(out, name, copy_bytes(hs[i].1.as_slice()));
            assert(out.deep_view() =~= before + seq![(name@, hs@[i as int].1@)]);
            return;
        }
    }
    assert(out.deep_view() =~= before + seq![]);
}

/// The headers of the proxied answer, their values as bytes. Not the length or the
/// encoding: the body was decompressed on the way.
pub fn fetch_response_headers(upstream: &Vec<(String, Vec<u8>)>, final_url: &str) -> (r: Vec<
    (String, Vec<u8>),
>)
    ensures
        r.deep_view() == fetch_answer_headers(upstream.deep_view(), final_url@),
{
    let mut out: Vec<(String, Vec<u8>)> = Vec::new();
    assert(out.deep_view() =~= seq![]);
    relay(&mut out, upstream, "content-type");
    assert(out.deep_view() =~= relayed(upstream.deep_view(), "content-type"@));
    relay(&mut out, upstream, "content-range");
    relay(&mut out, upstream, "accept-ranges");
    relay(&mut out, upstream, "cache-control");
    relay(&mut out, upstream, "last-modified");
    relay(&mut out, upstream, "etag");
    relay(&mut out, upstream, "expires");
    relay(&mut out, upstream, "vary");
    let ghost before = out.deep_view();
    let ended = bytes_of(final_url);
    if is_header_safe(&ended) {
        push_value(&mut out, "x-cobweb-final-url", ended);
        assert(out.deep_view() =~= before + seq![("x-cobweb-final-url"@, encode_utf8(final_url@))]);
    } else {
        assert(out.deep_view() =~= before + seq![]);
    }
    let ghost mid = out.deep_view();
    let mut any: Vec<u8> = Vec::new();
    any.push('*' as u8);
    assert(any@ =~= seq!['*' as u8]);
    push_value(&mut out, "access-control-allow-origin", any);
    assert(out.deep_view() =~= mid + seq![("access-control-allow-origin"@, seq!['*' as u8])]);
    out
}

// ---------------------------------------------------------------------------
// POST /v1/sniff, POST /v1/eval, /v1/jar
// ---------------------------------------------------------------------------

/// The page and the pattern that `POST /v1/sniff` asks for.
pub fn sniff_params(req: &SniffRequest) -> (r: Result<(Url, Vec<String>), CobwebError>)
    ensures
        match request_url(req.trigger_url@) {
            Ok(u) => r matches Ok(p) && p.0@ == u && p.1.deep_view() == seq![
                as_glob(trimmed(req.url_pattern@)),
            ],
            Err(f) => r matches Err(e) && e@ == f,
        },
{
    let url = match parse_url(req.trigger_url.as_str()) {
        Ok(u) => u,
        Err(e) => {
            return Err(e);
        },
    };
    let pattern = normalize_sniff_pattern(trim(req.url_pattern.as_str()).as_str());
    let ghost pv = pattern@;
    let mut patterns: Vec<String> = Vec::new();
    patterns.push(pattern);
    assert(patterns.deep_view() =~= seq![pv]);
    Ok((url, patterns))
}

/// The answer of `POST /v1/sniff`.
pub fn sniff_response(r: SniffResult) -> (a: SniffResponse)
    ensures
        a.intercepted_url == r.intercepted_url,
        a.headers@ == header_object(r.headers.deep_view()),
{
    SniffResponse {
        headers: headers_to_map(&r.headers),
        intercepted_url: r.intercepted_url,
    }
}

/// What a script came to.
pub enum EvalValue {
    Text(String),
    Null,
    /// Anything else, encoded as JSON.
    Encoded(String),
}

/// The result of `POST /v1/eval`: strings verbatim, nothing for null, JSON for
/// anything else.
pub fn eval_result(v: EvalValue) -> (r: String)
    ensures
        r@ == match v {
            EvalValue::Text(s) => s@,
            EvalValue::Null => seq![],
            EvalValue::Encoded(s) => s@,
        },
{
    match v {
        EvalValue::Text(s) => s,
        EvalValue::Null => {
            let r = String::new();
            assert(r@ =~= seq![]);
            r
        },
        EvalValue::Encoded(s) => s,
    }
}

/// `DELETE /v1/jar/{domain}`.
#[derive(Debug)]
pub struct JarDeleteQuery {
    pub egress: Option<String>,
}

impl JarDeleteQuery {
    /// The jar key that is meant; `direct` where none is given.
    pub fn key(&self) -> (r: String)
        ensures
            r@ == match self.egress.deep_view() {
                Some(k) => k,
                None => "direct"@,
            },
    {
        match &self.egress {
            Some(k) => k.clone(),
            None => "direct".to_owned(),
        }
    }
}

/// The answer to a deletion.
pub fn removal_answer(removed: bool) -> (r: Json)
    ensures
        r@ == JsonView::Object(
            seq![("ok"@, JsonView::Bool(true)), ("removed"@, JsonView::Bool(removed))],
        ),
{
    let m = Members::new().with("ok", Json::Bool(true)).with("removed", Json::Bool(removed));
    assert(m@ =~= seq![("ok"@, JsonView::Bool(true)), ("removed"@, JsonView::Bool(removed))]);
    m.object()
}

// ---------------------------------------------------------------------------
// Laws
// ---------------------------------------------------------------------------

/// A name occurs once in a header object, and stands for its last value.
pub proof fn the_last_value_wins(hs: Seq<(Seq<char>, Seq<char>)>, i: int)
    requires
        0 <= i < hs.len(),
        forall|j: int| i < j < hs.len() ==> (#[trigger] hs[j]).0 != hs[i].0,
    ensures
        index_of_key(last_wins(hs), hs[i].0) matches Some(k) && last_wins(hs)[k].1 == hs[i].1,
    decreases hs.len(),
{
    let front = hs.drop_last();
    let before = last_wins(front);
    let last = hs.last();
    lemma_index_of_key(before, last.0);
    lemma_index_of_key(last_wins(hs), hs[i].0);
    if i == hs.len() - 1 {
        let after = last_wins(hs);
        match index_of_key(before, last.0) {
            Some(k) => {
                assert(after[k].0 == last.0);
                let m = index_of_key(after, last.0)->Some_0;
                if m < k {
                    assert(after[m] == before[m]);
                }
            },
            None => {
                assert(after[before.len() as int] == (last.0, last.1));
                let m = index_of_key(after, last.0)->Some_0;
                if m < before.len() {
                    assert(after[m] == before[m]);
                }
            },
        }
    } else {
        the_last_value_wins(front, i);
        lemma_index_of_key(before, hs[i].0);
        let k = index_of_key(before, hs[i].0)->Some_0;
        let after = last_wins(hs);
        assert(hs[hs.len() - 1].0 != hs[i].0);
        assert(after[k] == before[k]);
        let m = index_of_key(after, hs[i].0)->Some_0;
        if m < k {
            assert(after[m].0 == before[m].0);
        }
    }
}

/// Only headers on the allow list are forwarded.
pub proof fn disallowed_headers_are_dropped(hs: Seq<(Seq<char>, Seq<char>)>, i: int)
    requires
        0 <= i < fetch_kept(hs).len(),
    ensures
        fetch_allows(fetch_kept(hs)[i].0),
    decreases hs.len(),
{
    if hs.len() > 0 {
        let front = fetch_kept(hs.drop_last());
        if i < front.len() {
            disallowed_headers_are_dropped(hs.drop_last(), i);
        }
    }
}

/// The headers that may be forwarded are, as they are and in order, whatever the
/// case of their names and the space around them, and no other.
pub proof fn forwardable_headers_are_forwarded(
    hs: Seq<(Seq<char>, Seq<char>)>,
    h: (Seq<char>, Seq<char>),
)
    ensures
        ({
            let n = lower(trimmed(h.0));
            let may = n == "referer"@ || n == "origin"@ || n == "cookie"@ || n == "user-agent"@ || n
                == "accept"@ || n == "accept-language"@ || n == "range"@ || n == "if-range"@ || n
                == "if-none-match"@ || n == "if-modified-since"@ || n == "x-requested-with"@ || (
            n.len() >= 10 && n.take(10) == "sec-fetch-"@);
            &&& fetch_kept(seq![]).len() == 0
            &&& may ==> fetch_kept(hs.push(h)) == fetch_kept(hs).push(h)
            &&& !may ==> fetch_kept(hs.push(h)) == fetch_kept(hs)
        }),
{
    reveal_strlit("sec-fetch-");
    let n = lower(trimmed(h.0));
    assert(hs.push(h).drop_last() =~= hs);
    if "sec-fetch-"@.is_prefix_of(n) {
        assert(n.take(10) =~= "sec-fetch-"@);
    }
    if n.len() >= 10 && n.take(10) == "sec-fetch-"@ {
        assert(n.subrange(0, 10) =~= n.take(10));
        assert("sec-fetch-"@.is_prefix_of(n));
    }
}

/// The jar's cookies go out with a proxied request that asks for them and brings
/// none of its own, behind all that is forwarded; a request that brings a cookie
/// header, in any case, keeps its own alone.
pub proof fn the_jar_fills_in_for_missing_cookies(
    hs: Seq<(Seq<char>, Seq<char>)>,
    cookie: Seq<char>,
    i: int,
    j: int,
)
    ensures
        (forall|k: int| 0 <= k < hs.len() ==> lower((#[trigger] hs[k]).0) != lower("cookie"@))
            ==> forwarded(hs, true, Some(cookie)) == fetch_kept(hs).push(("cookie"@, cookie)),
        0 <= i < hs.len() && lower(hs[i].0) == lower("cookie"@) ==> forwarded(
            hs,
            true,
            Some(cookie),
        ) == fetch_kept(hs),
        forwarded(hs, false, Some(cookie)) == fetch_kept(hs),
        forwarded(hs, true, None) == fetch_kept(hs),
        0 <= j < fetch_kept(hs).len() ==> forwarded(hs, true, Some(cookie))[j] == fetch_kept(hs)[j],
{
    let kept = fetch_kept(hs);
    assert(kept + seq![] =~= kept);
    assert(kept + seq![("cookie"@, cookie)] =~= kept.push(("cookie"@, cookie)));
    if 0 <= i < hs.len() && lower(hs[i].0) == lower("cookie"@) {
        assert(brings_cookie(hs));
    }
}

/// Every upstream header that a player needs is relayed under its name with its
/// bytes, the first one where there are several; where the fetch ended is added,
/// and any origin may read the answer.
pub proof fn curated_headers_are_relayed(
    hs: Seq<(Seq<char>, Seq<u8>)>,
    final_url: Seq<char>,
    name: Seq<char>,
    i: int,
)
    ensures
        (name == "content-type"@ || name == "content-range"@ || name == "accept-ranges"@ || name
            == "cache-control"@ || name == "last-modified"@ || name == "etag"@ || name
            == "expires"@ || name == "vary"@) && 0 <= i < hs.len() && lower(hs[i].0) == lower(name)
            && (forall|k: int| 0 <= k < i ==> lower((#[trigger] hs[k]).0) != lower(name))
            ==> fetch_answer_headers(hs, final_url).contains((name, hs[i].1)),
        header_safe(encode_utf8(final_url)) ==> fetch_answer_headers(hs, final_url).contains(
            ("x-cobweb-final-url"@, encode_utf8(final_url)),
        ),
        fetch_answer_headers(hs, final_url).contains(
            ("access-control-allow-origin"@, seq!['*' as u8]),
        ),
{
    let h1 = relayed(hs, "content-type"@);
    let h2 = relayed(hs, "content-range"@);
    let h3 = relayed(hs, "accept-ranges"@);
    let h4 = relayed(hs, "cache-control"@);
    let h5 = relayed(hs, "last-modified"@);
    let h6 = relayed(hs, "etag"@);
    let h7 = relayed(hs, "expires"@);
    let h8 = relayed(hs, "vary"@);
    let all = fetch_answer_headers(hs, final_url);
    let n2 = h1.len();
    let n3 = n2 + h2.len();
    let n4 = n3 + h3.len();
    let n5 = n4 + h4.len();
    let n6 = n5 + h5.len();
    let n7 = n6 + h6.len();
    let n8 = n7 + h7.len();
    let n9 = n8 + h8.len();
    if 0 <= i < hs.len() && lower(hs[i].0) == lower(name) && (forall|k: int|
        0 <= k < i ==> lower((#[trigger] hs[k]).0) != lower(name)) {
        headers_are_found_in_any_case(hs, name, i);
        let want = (name, hs[i].1);
        assert(relayed(hs, name) =~= seq![want]);
        if name == "content-type"@ {
            assert(all[0] == want);
        }
        if name == "content-range"@ {
            assert(all[n2 as int] == want);
        }
        if name == "accept-ranges"@ {
            assert(all[n3 as int] == want);
        }
        if name == "cache-control"@ {
            assert(all[n4 as int] == want);
        }
        if name == "last-modified"@ {
            assert(all[n5 as int] == want);
        }
        if name == "etag"@ {
            assert(all[n6 as int] == want);
        }
        if name == "expires"@ {
            assert(all[n7 as int] == want);
        }
        if name == "vary"@ {
            assert(all[n8 as int] == want);
        }
    }
    if header_safe(encode_utf8(final_url)) {
        assert(all[n9 as int] == ("x-cobweb-final-url"@, encode_utf8(final_url)));
    }
    assert(all[all.len() - 1] == ("access-control-allow-origin"@, seq!['*' as u8]));
}

/// A header object has a member for every name, with the last value of it, and no
/// other.
pub proof fn a_header_object_has_every_name(hs: Seq<(Seq<char>, Seq<char>)>, i: int)
    requires
        0 <= i < hs.len(),
        forall|j: int| i < j < hs.len() ==> (#[trigger] hs[j]).0 != hs[i].0,
    ensures
        header_object(hs).str_field(hs[i].0) == Some(hs[i].1),
{
    the_last_value_wins(hs, i);
    let kept = last_wins(hs);
    let k = index_of_key(kept, hs[i].0)->Some_0;
    lemma_index_of_key(kept, hs[i].0);
    let ms = kept.map_values(|h: (Seq<char>, Seq<char>)| (h.0, JsonView::Str(h.1)));
    assert(header_object(hs) == JsonView::Object(ms));
    assert(ms[k] == (hs[i].0, JsonView::Str(hs[i].1)));
    assert forall|j: int| 0 <= j < k implies (#[trigger] ms[j]).0 != ms[k].0 by {
        assert(ms[j].0 == kept[j].0);
    }
    members_are_read_back(ms, k);
}

/// A request's own patterns are taken, and the manifests of both kinds where it
/// names none.
pub proof fn patterns_default_to_manifests(p: Option<OneOrMany>)
    ensures
        p matches Some(v) ==> (v.patterns().len() > 0 ==> wanted_patterns(p) == v.patterns()),
        p is None ==> wanted_patterns(p) == seq!["*.m3u8"@, "*.mpd"@],
        p matches Some(v) ==> (v.patterns().len() == 0 ==> wanted_patterns(p) == seq![
            "*.m3u8"@,
            "*.mpd"@,
        ]),
{
}

/// A request is for the URL that it gives; one that is no URL is refused with what
/// was given.
pub proof fn a_request_is_for_the_url_it_gives(raw: Seq<char>)
    ensures
        url_parsed(raw) matches Ok(u) ==> request_url(raw) == Ok::<UrlView, ErrorView>(u),
        url_parsed(raw) is Err ==> (request_url(raw) matches Err(ErrorView::BadRequest(m)) && has(
            m,
            raw,
        )),
{
    a_part_occurs_in_the_whole("not a valid URL: "@, raw, seq![]);
    assert("not a valid URL: "@ + raw + seq![] =~= "not a valid URL: "@ + raw);
}

} // verus!
