//! The tiered resolution of a page to a stream.
//!
//! Tier 2 (fast path), then tier 3 (browser sniff), then optionally tier 3b (an
//! external FlareSolverr). If every tier fails on a challenge the outcome is
//! `NeedsManualSolve`. [`Admission`] decides whether a request may go out at
//! all, [`Resolve`] which tier runs next; the caller runs the tiers.

use vstd::prelude::*;

use crate::browser::engine::{
    jar_language, jar_user_agent, pinned_language, pinned_ua, seed_context, seeded_options,
    BrowserError, BrowserFault, ContextOptions, HitView, SniffHit,
};
use crate::egress::{chosen, Egress, EgressRegistry, EgressView};
use crate::error::{same_outcome, CobwebError, ErrorView};
use crate::fastpath::{
    header_value, is_challenge, kind_of_path, looks_like_cloudflare_challenge, sniff_stream_url,
    sniffed, ttl_hint, ttl_hint_from, FetchRequest, FetchResponse, RequestView, ResponseView,
    StreamHit, StreamKind,
};
use crate::flaresolverr_client::FsSolution;
use crate::glob::{any_matches, patterns_fault, Globs};
use crate::ip::{ip_of, IpAddr, IpView};
use crate::jar::cookie::{
    a_live_cookie_joins_the_header, copy_cookies, covers, every_live_cookie_is_sent, header_for,
    lemma_slot_of, merge_keeps_every_key, merge_stores_the_last_incoming, merged, slot_of, Cookie,
    CookieView, StateView, StorageState, MICROS_PER_SEC,
};
use crate::jar::{EntryView, JarEntry};
use crate::metrics::{counts_of, every_outcome_counts_once, Metrics, MetricsView, DOMAIN_CAP};
use crate::ssrf::{
    egress_lookup, egress_verdict, guard_egress, guard_egress_lookup, guard_url, guard_url_lookup,
    url_lookup, url_verdict,
};
use crate::text::{
    any_char, cat, cat3, has, lower, only, passes, pieces, same, some_char, split_by, starts_with,
    the_last_piece_follows_the_last_separator, to_lower, trim, trimmed, CharTest, One,
};
use crate::util::distinct_keys;
use crate::weburl::{copy_opt, url_parsed, Url, UrlView};

verus! {

#[derive(Debug, Clone, Copy, PartialEq, Eq, Structural)]
pub enum Mode {
    /// Tier 2 only. Fails fast if a browser would be needed.
    Fast,
    /// Full automated pipeline.
    Auto,
    /// Skip tier 2, straight to the browser.
    Browser,
}

impl Default for Mode {
    fn default() -> (r: Mode)
        ensures
            r == Mode::Auto,
    {
        Mode::Auto
    }
}

#[derive(Debug, Clone, Copy, PartialEq, Eq, Structural)]
pub enum ViaTier {
    Fastpath,
    Browser,
    Flaresolverr,
    Manual,
    Ytdlp,
}

/// The name of a tier on the wire.
pub open spec fn tier_name(t: ViaTier) -> Seq<char> {
    match t {
        ViaTier::Fastpath => "fastpath"@,
        ViaTier::Browser => "browser"@,
        ViaTier::Flaresolverr => "flaresolverr"@,
        ViaTier::Manual => "manual"@,
        ViaTier::Ytdlp => "ytdlp"@,
    }
}

impl ViaTier {
    /// The name on the wire.
    pub fn name(self) -> (r: &'static str)
        ensures
            r@ == tier_name(self),
    {
        match self {
            ViaTier::Fastpath => "fastpath",
            ViaTier::Browser => "browser",
            ViaTier::Flaresolverr => "flaresolverr",
            ViaTier::Manual => "manual",
            ViaTier::Ytdlp => "ytdlp",
        }
    }
}

/// Normalised inputs for one resolution.
#[derive(Debug)]
pub struct ResolveParams {
    pub url: Url,
    pub egress_name: Option<String>,
    pub proxy_url: Option<String>,
    pub mode: Mode,
    /// Glob(s) the stream URL must match. Default `*.m3u8`, `*.mpd`.
    pub url_pattern: Vec<String>,
    pub timeout_ms: u64,
    pub block_resources: bool,
    pub block_trackers: bool,
}

impl ResolveParams {
    pub fn new(url: Url) -> (r: ResolveParams)
        ensures
            r.url@ == url@,
            r.egress_name is None,
            r.proxy_url is None,
            r.mode == Mode::Auto,
            r.url_pattern.deep_view() == default_globs(),
            r.timeout_ms == 30_000,
            r.block_resources && r.block_trackers,
    {
        ResolveParams {
            url,
            egress_name: None,
            proxy_url: None,
            mode: Mode::Auto,
            url_pattern: default_patterns(),
            timeout_ms: 30_000,
            block_resources: true,
            block_trackers: true,
        }
    }
}

/// The default stream-URL globs.
pub open spec fn default_globs() -> Seq<Seq<char>> {
    seq!["*.m3u8"@, "*.mpd"@]
}

pub fn default_patterns() -> (r: Vec<String>)
    ensures
        r.deep_view() == default_globs(),
{
    let mut v: Vec<String> = Vec::new();
    v.push("*.m3u8".to_owned());
    v.push("*.mpd".to_owned());
    assert(v.deep_view() =~= default_globs());
    v
}

/// A resolved stream plus the context needed to fetch it elsewhere.
#[derive(Debug)]
pub struct StreamResult {
    pub stream_url: String,
    pub kind: StreamKind,
    pub headers: Vec<(String, String)>,
    pub cookies: Vec<Cookie>,
}

/// What a resolved stream stands for.
#[verifier::ext_equal]
pub struct StreamView {
    pub stream_url: Seq<char>,
    pub kind: StreamKind,
    pub headers: Seq<(Seq<char>, Seq<char>)>,
    pub cookies: Seq<CookieView>,
}

impl View for StreamResult {
    type V = StreamView;

    open spec fn view(&self) -> StreamView {
        StreamView {
            stream_url: self.stream_url@,
            kind: self.kind,
            headers: self.headers.deep_view(),
            cookies: self.cookies.deep_view(),
        }
    }
}

#[derive(Debug)]
pub struct ResolveOutcome {
    pub stream: StreamResult,
    pub via_tier: ViaTier,
    pub domain: String,
}

/// What an outcome stands for.
#[verifier::ext_equal]
pub struct OutcomeView {
    pub stream: StreamView,
    pub via_tier: ViaTier,
    pub domain: Seq<char>,
}

impl View for ResolveOutcome {
    type V = OutcomeView;

    open spec fn view(&self) -> OutcomeView {
        OutcomeView { stream: self.stream@, via_tier: self.via_tier, domain: self.domain@ }
    }
}

#[derive(Debug, Clone, Copy, PartialEq, Eq, Structural)]
pub enum EscalateReason {
    Challenge,
    NeedsJs,
    NotFound,
}

#[derive(Debug)]
pub enum TierOutcome {
    Resolved(StreamResult),
    Escalate(EscalateReason),
    Failed(CobwebError),
}

/// What the outcome of a tier stands for.
pub enum TierView {
    Resolved(StreamView),
    Escalate(EscalateReason),
    Failed(ErrorView),
}

impl View for TierOutcome {
    type V = TierView;

    open spec fn view(&self) -> TierView {
        match *self {
            TierOutcome::Resolved(s) => TierView::Resolved(s@),
            TierOutcome::Escalate(r) => TierView::Escalate(r),
            TierOutcome::Failed(e) => TierView::Failed(e@),
        }
    }
}

/// Per-call context threaded through the tiers.
pub struct ResolveCtx<'a> {
    pub url: &'a Url,
    pub registrable_domain: &'a str,
    pub egress: &'a Egress,
    pub mode: Mode,
    pub url_pattern: &'a Globs,
    pub timeout_ms: u64,
    pub block_resources: bool,
    pub block_trackers: bool,
    /// Fresh jar entry seeding this call, if any.
    pub jar: &'a Option<JarEntry>,
    /// Script to run after load during a browser sniff.
    pub interact_js: &'a Option<String>,
}

/// A host, or an empty one.
pub open spec fn host_or_empty(u: UrlView) -> Seq<char> {
    match u.host {
        Some(h) => h,
        None => seq![],
    }
}

fn host_text(u: &Url) -> (r: String)
    ensures
        r@ == host_or_empty(u@),
{
    match &u.host {
        Some(h) => h.clone(),
        None => {
            let r = String::new();
            assert(r@ =~= seq![]);
            r
        },
    }
}

/// The `Cookie:` header that a jar entry has for a URL, at `now` (seconds).
pub open spec fn jar_cookie(jar: Option<EntryView>, u: UrlView, now: i64) -> Option<Seq<char>> {
    match jar {
        Some(j) => header_for(
            j.storage_state.cookies,
            host_or_empty(u),
            (now * MICROS_PER_SEC) as i128,
        ),
        None => None,
    }
}

/// The `Cookie:` header that a jar entry has for a URL, at `now` (seconds).
pub fn jar_cookie_header(jar: &Option<JarEntry>, url: &Url, now: i64) -> (r: Option<String>)
    ensures
        r.deep_view() == jar_cookie(jar.deep_view(), url@, now),
{
    match jar {
        Some(j) => j.storage_state.cookie_header(
            host_text(url).as_str(),
            now as i128 * MICROS_PER_SEC,
        ),
        None => None,
    }
}

// ---------------------------------------------------------------------------
// Tier 2: fast path
// ---------------------------------------------------------------------------

pub struct FastPathTier<C> {
    client: C,
}

/// The request of the fast path: the page, with what the jar pins.
pub open spec fn fast_request(
    url: UrlView,
    egress: EgressView,
    jar: Option<EntryView>,
    extra: Seq<(Seq<char>, Seq<char>)>,
    timeout_ms: u64,
    now: i64,
) -> RequestView {
    RequestView {
        url,
        egress,
        user_agent: pinned_ua(jar),
        accept_language: pinned_language(jar),
        cookie_header: jar_cookie(jar, url, now),
        fingerprint: None,
        extra_headers: extra,
        timeout_ms,
    }
}

/// The headers a caller should replay when fetching a stream the fast path found.
pub open spec fn replayed(
    url: UrlView,
    jar: Option<EntryView>,
    cookies: Seq<CookieView>,
    now: i64,
) -> Seq<(Seq<char>, Seq<char>)> {
    pinned_header("user-agent"@, pinned_ua(jar)) + pinned_header(
        "accept-language"@,
        pinned_language(jar),
    ) + seq![("referer"@, url.text)] + pinned_header(
        "cookie"@,
        header_for(cookies, host_or_empty(url), (now * MICROS_PER_SEC) as i128),
    )
}

/// One header, where it has a value.
pub open spec fn pinned_header(name: Seq<char>, value: Option<Seq<char>>) -> Seq<
    (Seq<char>, Seq<char>),
> {
    match value {
        Some(v) => seq![(name, v)],
        None => seq![],
    }
}

/// The cookies of a jar entry.
pub open spec fn jar_cookies(jar: Option<EntryView>) -> Seq<CookieView> {
    match jar {
        Some(j) => j.storage_state.cookies,
        None => seq![],
    }
}

/// Whether a stream URL is one of those asked for: by path, by what follows the
/// last slash, or as a whole. No pattern asks for any.
pub open spec fn wanted(globs: Seq<Seq<char>>, u: UrlView) -> bool {
    globs.len() == 0 || any_matches(globs, u.path) || any_matches(
        globs,
        pieces(u.path, only('/')).last(),
    ) || any_matches(globs, u.text)
}

/// Whether a stream URL is one of those asked for.
pub fn pattern_ok(set: &Globs, u: &Url) -> (r: bool)
    ensures
        r == wanted(set@, u@),
{
    if set.is_empty() {
        return true;
    }
    assert(passes(One('/')) =~= only('/'));
    let parts = split_by(u.path.as_str(), One('/'));
    assert(parts.deep_view().last() == parts@.last()@);
    let file: &String = &parts[parts.len() - 1];
    set.matches(u.path.as_str()) || set.matches(file.as_str()) || set.matches(u.text.as_str())
}

/// What the fast path makes of a response, given the stream its page shows.
pub open spec fn fast_verdict(
    url: UrlView,
    globs: Seq<Seq<char>>,
    jar: Option<EntryView>,
    resp: ResponseView,
    hit: Option<(UrlView, StreamKind)>,
    now: i64,
) -> TierView {
    if is_challenge(resp.status, resp.body, header_value(resp.headers, "server"@)) || resp.status
        == 403 || resp.status == 429 {
        TierView::Escalate(EscalateReason::Challenge)
    } else {
        match hit {
            Some((u, kind)) => if wanted(globs, u) {
                let cookies = merged(jar_cookies(jar), resp.set_cookies);
                TierView::Resolved(
                    StreamView {
                        stream_url: u.text,
                        kind,
                        headers: replayed(url, jar, cookies, now),
                        cookies,
                    },
                )
            } else {
                TierView::Escalate(EscalateReason::NotFound)
            },
            None => TierView::Escalate(EscalateReason::NeedsJs),
        }
    }
}

/// What the fast path makes of a response.
pub open spec fn fast_outcome(
    url: UrlView,
    globs: Seq<Seq<char>>,
    jar: Option<EntryView>,
    resp: ResponseView,
    now: i64,
) -> TierView {
    fast_verdict(url, globs, jar, resp, sniffed(resp.body, resp.final_url.text), now)
}

fn push_header(h: &mut Vec<(String, String)>, name: &str, value: Option<String>)
    ensures
        final(h).deep_view() == old(h).deep_view() + pinned_header(name@, value.deep_view()),
{
    let ghost before = h.deep_view();
    match value {
        Some(v) => {
            let ghost vv = v@;
            h.push((name.to_owned(), v));
            assert(h.deep_view() =~= before + seq![(name@, vv)]);
        },
        None => {
            assert(h.deep_view() =~= before + seq![]);
        },
    }
}

/// Headers a caller should replay when fetching the stream URL.
pub fn replay_headers(url: &Url, jar: &Option<JarEntry>, state: &StorageState, now: i64) -> (r: Vec<
    (String, String),
>)
    ensures
        r.deep_view() == replayed(url@, jar.deep_view(), state@.cookies, now),
{
    let mut h: Vec<(String, String)> = Vec::new();
    assert(h.deep_view() =~= seq![]);
    push_header(&mut h, "user-agent", jar_user_agent(jar));
    push_header(&mut h, "accept-language", jar_language(jar));
    let ghost before = h.deep_view();
    h.push(("referer".to_owned(), url.text.clone()));
    assert(h.deep_view() =~= before + seq![("referer"@, url@.text)]);
    push_header(
        &mut h,
        "cookie",
        state.cookie_header(host_text(url).as_str(), now as i128 * MICROS_PER_SEC),
    );
    assert(h.deep_view() =~= replayed(url@, jar.deep_view(), state@.cookies, now));
    h
}

impl<C> FastPathTier<C> {
    /// The client that makes the requests.
    pub closed spec fn client(&self) -> C {
        self.client
    }

    pub fn new(client: C) -> (r: FastPathTier<C>)
        ensures
            r.client() == client,
    {
        FastPathTier { client }
    }

    pub fn name(&self) -> (r: &'static str)
        ensures
            r@ == "fastpath"@,
    {
        "fastpath"
    }

    /// The client that makes the requests.
    pub fn inner(&self) -> (r: &C)
        ensures
            *r == self.client(),
    {
        &self.client
    }

    /// The request to make.
    pub fn request(&self, ctx: &ResolveCtx, now: i64) -> (r: FetchRequest)
        ensures
            r@ == fast_request(
                ctx.url@,
                ctx.egress@,
                ctx.jar.deep_view(),
                seq![],
                ctx.timeout_ms,
                now,
            ),
    {
        build_request(ctx.url, ctx.egress, ctx.jar, Vec::new(), ctx.timeout_ms, now)
    }

    /// What to make of the answer.
    pub fn try_resolve(
        &self,
        ctx: &ResolveCtx,
        fetched: Result<FetchResponse, CobwebError>,
        now: i64,
    ) -> (r: TierOutcome)
        ensures
            r@ == match fetched {
                Ok(resp) => fast_outcome(
                    ctx.url@,
                    ctx.url_pattern@,
                    ctx.jar.deep_view(),
                    resp@,
                    now,
                ),
                Err(e) => TierView::Failed(e@),
            },
    {
        match fetched {
            Ok(resp) => {
                let hit = sniff_stream_url(resp.body.as_str(), &resp.final_url);
                judge_response(ctx, &resp, hit, now)
            },
            Err(e) => TierOutcome::Failed(e),
        }
    }
}

/// What the fast path makes of a response, given the stream its page shows.
pub fn judge_response(ctx: &ResolveCtx, resp: &FetchResponse, hit: Option<StreamHit>, now: i64) -> (r:
    TierOutcome)
    ensures
        r@ == fast_verdict(
            ctx.url@,
            ctx.url_pattern@,
            ctx.jar.deep_view(),
            resp@,
            hit.deep_view(),
            now,
        ),
{
    if looks_like_cloudflare_challenge(resp.status, resp.body.as_str(), resp.header("server"))
        || resp.status == 403 || resp.status == 429 {
        return TierOutcome::Escalate(EscalateReason::Challenge);
    }
    match hit {
        Some(h) => {
            if !pattern_ok(ctx.url_pattern, &h.url) {
                return TierOutcome::Escalate(EscalateReason::NotFound);
            }
            let mut state = match ctx.jar {
                Some(j) => j.storage_state.copy(),
                None => StorageState::default(),
            };
            state.merge_from(copy_cookies(&resp.set_cookies));
            let headers = replay_headers(ctx.url, ctx.jar, &state, now);
            TierOutcome::Resolved(
                StreamResult {
                    stream_url: h.url.text.clone(),
                    kind: h.kind,
                    headers,
                    cookies: state.cookies,
                },
            )
        },
        None => TierOutcome::Escalate(EscalateReason::NeedsJs),
    }
}

fn build_request(
    url: &Url,
    egress: &Egress,
    jar: &Option<JarEntry>,
    extra: Vec<(String, String)>,
    timeout_ms: u64,
    now: i64,
) -> (r: FetchRequest)
    ensures
        r@ == fast_request(url@, egress@, jar.deep_view(), extra.deep_view(), timeout_ms, now),
{
    FetchRequest {
        url: url.copy(),
        egress: egress.copy(),
        user_agent: jar_user_agent(jar),
        accept_language: jar_language(jar),
        cookie_header: jar_cookie_header(jar, url, now),
        fingerprint: None,
        extra_headers: extra,
        timeout_ms,
    }
}

// ---------------------------------------------------------------------------
// Tier 3: browser sniff
// ---------------------------------------------------------------------------

/// Headers of the browser's own request that are worth replaying.
pub open spec fn replayable(name: Seq<char>) -> bool {
    name == "user-agent"@ || name == "accept"@ || name == "accept-language"@ || name == "referer"@
        || name == "origin"@ || name == "authorization"@ || name == "cookie"@ || name
        == "sec-ch-ua"@ || name == "sec-ch-ua-mobile"@ || name == "sec-ch-ua-platform"@ || name
        == "sec-fetch-dest"@ || name == "sec-fetch-mode"@ || name == "sec-fetch-site"@
        || "x-"@.is_prefix_of(name)
}

fn is_replayable(name: &str) -> (r: bool)
    ensures
        r == replayable(name@),
{
    same(name, "user-agent") || same(name, "accept") || same(name, "accept-language") || same(
        name,
        "referer",
    ) || same(name, "origin") || same(name, "authorization") || same(name, "cookie") || same(
        name,
        "sec-ch-ua",
    ) || same(name, "sec-ch-ua-mobile") || same(name, "sec-ch-ua-platform") || same(
        name,
        "sec-fetch-dest",
    ) || same(name, "sec-fetch-mode") || same(name, "sec-fetch-site") || starts_with(name, "x-")
}

/// The headers worth replaying, with their names in lower case.
pub open spec fn kept_headers(hs: Seq<(Seq<char>, Seq<char>)>) -> Seq<(Seq<char>, Seq<char>)>
    decreases hs.len(),
{
    if hs.len() == 0 {
        seq![]
    } else {
        let front = kept_headers(hs.drop_last());
        if replayable(lower(hs.last().0)) {
            front.push((lower(hs.last().0), hs.last().1))
        } else {
            front
        }
    }
}

/// Whether a list has a header of a name.
pub open spec fn names_header(hs: Seq<(Seq<char>, Seq<char>)>, name: Seq<char>) -> bool {
    exists|i: int| 0 <= i < hs.len() && (#[trigger] hs[i]).0 == name
}

/// A list without the headers of a name.
pub open spec fn without_header(hs: Seq<(Seq<char>, Seq<char>)>, name: Seq<char>) -> Seq<
    (Seq<char>, Seq<char>),
>
    decreases hs.len(),
{
    if hs.len() == 0 {
        seq![]
    } else {
        let front = without_header(hs.drop_last(), name);
        if hs.last().0 == name {
            front
        } else {
            front.push(hs.last())
        }
    }
}

/// The replay set of a browser-sniffed stream: what the browser sent, a referer
/// in any case, and a cookie header of what is stored now where there is one.
pub open spec fn browser_replayed(hit: HitView, cookies: Seq<CookieView>, now: i64) -> Seq<
    (Seq<char>, Seq<char>),
> {
    let kept = kept_headers(hit.request_headers);
    let referred = if names_header(kept, "referer"@) {
        kept
    } else {
        kept.push(("referer"@, hit.final_url.text))
    };
    match header_for(cookies, host_or_empty(hit.url), (now * MICROS_PER_SEC) as i128) {
        Some(c) => without_header(referred, "cookie"@).push(("cookie"@, c)),
        None => referred,
    }
}

fn has_name(h: &Vec<(String, String)>, name: &str) -> (r: bool)
    ensures
        r == names_header(h.deep_view(), name@),
{
    for i in 0..h.len()
        invariant
            forall|k: int| 0 <= k < i ==> (#[trigger] h.deep_view()[k]).0 != name@,
    {
        assert(h.deep_view()[i as int].0 == h@[i as int].0@);
        if same(h[i].0.as_str(), name) {
            return true;
        }
    }
    false
}

fn drop_name(h: &Vec<(String, String)>, name: &str) -> (r: Vec<(String, String)>)
    ensures
        r.deep_view() == without_header(h.deep_view(), name@),
{
    let ghost all = h.deep_view();
    let mut out: Vec<(String, String)> = Vec::new();
    assert(out.deep_view() =~= seq![]);
    for i in 0..h.len()
        invariant
            all == h.deep_view(),
            out.deep_view() == without_header(all.take(i as int), name@),
    {
        assert(all.take(i + 1).drop_last() =~= all.take(i as int));
        assert(all.take(i + 1).last() == (h@[i as int].0@, h@[i as int].1@));
        let ghost before = out.deep_view();
        if !same(h[i].0.as_str(), name) {
            out.push((h[i].0.clone(), h[i].1.clone()));
            assert(out.deep_view() =~= before.push((h@[i as int].0@, h@[i as int].1@)));
        }
    }
    assert(all.take(h@.len() as int) =~= all);
    out
}

/// Replay set for a browser-sniffed stream.
pub fn browser_replay_headers(hit: &SniffHit, state: &StorageState, now: i64) -> (r: Vec<
    (String, String),
>)
    ensures
        r.deep_view() == browser_replayed(hit@, state@.cookies, now),
{
    let ghost all = hit@.request_headers;
    let mut h: Vec<(String, String)> = Vec::new();
    assert(h.deep_view() =~= seq![]);
    for i in 0..hit.request_headers.len()
        invariant
            all == hit.request_headers.deep_view(),
            h.deep_view() == kept_headers(all.take(i as int)),
    {
        assert(all.take(i + 1).drop_last() =~= all.take(i as int));
        assert(all.take(i + 1).last() == (
            hit.request_headers@[i as int].0@,
            hit.request_headers@[i as int].1@,
        ));
        let ghost before = h.deep_view();
        let k = to_lower(hit.request_headers[i].0.as_str());
        if is_replayable(k.as_str()) {
            let ghost kv = k@;
            h.push((k, hit.request_headers[i].1.clone()));
            assert(h.deep_view() =~= before.push((kv, hit.request_headers@[i as int].1@)));
        }
    }
    assert(all.take(hit.request_headers@.len() as int) =~= all);
    if !has_name(&h, "referer") {
        let ghost before = h.deep_view();
        h.push(("referer".to_owned(), hit.final_url.text.clone()));
        assert(h.deep_view() =~= before.push(("referer"@, hit@.final_url.text)));
    }
    match state.cookie_header(host_text(&hit.url).as_str(), now as i128 * MICROS_PER_SEC) {
        Some(c) => {
            let mut out = drop_name(&h, "cookie");
            let ghost before = out.deep_view();
            let ghost cv = c@;
            out.push(("cookie".to_owned(), c));
            assert(out.deep_view() =~= before.push(("cookie"@, cv)));
            out
        },
        None => h,
    }
}

/// What a sniff comes to.
pub open spec fn sniff_outcome(
    hit: Result<HitView, BrowserFault>,
    cookies: Seq<CookieView>,
    now: i64,
) -> TierView {
    match hit {
        Ok(h) => TierView::Resolved(
            StreamView {
                stream_url: h.url.text,
                kind: match kind_of_path(h.url.path) {
                    Some(k) => k,
                    None => StreamKind::Hls,
                },
                headers: browser_replayed(h, cookies, now),
                cookies,
            },
        ),
        Err(BrowserFault::Challenge) => TierView::Escalate(EscalateReason::Challenge),
        Err(BrowserFault::NoMatch) => TierView::Escalate(EscalateReason::NotFound),
        Err(BrowserFault::Timeout(_)) => TierView::Escalate(EscalateReason::NotFound),
        Err(e) => TierView::Failed(e.as_error()),
    }
}

/// The browser tier.
pub struct BrowserSniffTier<E> {
    engine: E,
}

impl<E> BrowserSniffTier<E> {
    /// The engine that runs the contexts.
    pub closed spec fn engine(&self) -> E {
        self.engine
    }

    pub fn new(engine: E) -> (r: BrowserSniffTier<E>)
        ensures
            r.engine() == engine,
    {
        BrowserSniffTier { engine }
    }

    pub fn name(&self) -> (r: &'static str)
        ensures
            r@ == "browser"@,
    {
        "browser"
    }

    /// The engine that runs the contexts.
    pub fn inner(&self) -> (r: &E)
        ensures
            *r == self.engine(),
    {
        &self.engine
    }

    /// The context to sniff in.
    pub fn options(&self, ctx: &ResolveCtx) -> (r: ContextOptions)
        ensures
            r@ == seeded_options(
                ctx.egress@,
                ctx.jar.deep_view(),
                ctx.block_resources,
                ctx.block_trackers,
            ),
    {
        seed_context(ctx.egress, ctx.jar, ctx.block_resources, ctx.block_trackers)
    }

    /// What to make of a sniff and of what was stored at its end.
    pub fn try_resolve(
        &self,
        hit: Result<SniffHit, BrowserError>,
        state: StorageState,
        now: i64,
    ) -> (r: TierOutcome)
        ensures
            r@ == sniff_outcome(
                match hit {
                    Ok(h) => Ok(h@),
                    Err(e) => Err(e@),
                },
                state@.cookies,
                now,
            ),
    {
        match hit {
            Ok(h) => {
                let kind = match StreamKind::from_url(&h.url) {
                    Some(k) => k,
                    None => StreamKind::Hls,
                };
                let headers = browser_replay_headers(&h, &state, now);
                TierOutcome::Resolved(
                    StreamResult {
                        stream_url: h.url.text.clone(),
                        kind,
                        headers,
                        cookies: state.cookies,
                    },
                )
            },
            Err(BrowserError::Challenge) => TierOutcome::Escalate(EscalateReason::Challenge),
            Err(BrowserError::NoMatch) => TierOutcome::Escalate(EscalateReason::NotFound),
            Err(BrowserError::Timeout(_)) => TierOutcome::Escalate(EscalateReason::NotFound),
            Err(e) => TierOutcome::Failed(e.into_error()),
        }
    }
}

/// The error of a tier whose engine does not start.
pub fn engine_not_ready(e: &BrowserError) -> (r: CobwebError)
    ensures
        r@ == ErrorView::Browser("engine not ready: "@ + e@.message()),
{
    CobwebError::Browser(cat("engine not ready: ", e.message().as_str()))
}

/// Compile the globs of a request.
pub fn build_globset(patterns: &Vec<String>) -> (r: Result<Globs, CobwebError>)
    ensures
        match r {
            Ok(g) => patterns_fault(patterns.deep_view()) is None && g@ == patterns.deep_view(),
            Err(e) => patterns_fault(patterns.deep_view()) == Some(e@),
        },
{
    Globs::compile(patterns)
}

// ---------------------------------------------------------------------------
// Domains
// ---------------------------------------------------------------------------

/// The registrable domain `psl::domain_str` finds in a host.
pub uninterp spec fn psl_domain(host: Seq<char>) -> Option<Seq<char>>;

/// Calls `psl::domain_str`. The result is named and depends on the host alone.
#[verifier::external_body]
fn call_domain_str(host: &str) -> (r: Option<String>)
    ensures
        r.deep_view() == psl_domain(host@),
{
    psl::domain_str(host).map(str::to_string)
}

/// The domain a host counts for, given its registrable domain: an address
/// literal for itself, a host without a registrable domain too.
pub open spec fn counted_domain(host: Seq<char>, registrable: Option<Seq<char>>) -> Seq<char> {
    if ip_of(host) is Some {
        host
    } else {
        lower(
            match registrable {
                Some(d) => d,
                None => host,
            },
        )
    }
}

/// The domain a URL counts for.
pub open spec fn domain_of(u: UrlView) -> Result<Seq<char>, ErrorView> {
    match u.host {
        Some(h) => Ok(counted_domain(h, psl_domain(h))),
        None => Err(ErrorView::BadRequest("URL has no host: "@ + u.text)),
    }
}

/// The domain a host counts for, given its registrable domain.
pub fn domain_for_host(host: &str, registrable: Option<String>) -> (r: String)
    ensures
        r@ == counted_domain(host@, registrable.deep_view()),
{
    if IpAddr::parse(host).is_some() {
        return host.to_owned();
    }
    match registrable {
        Some(d) => to_lower(d.as_str()),
        None => to_lower(host),
    }
}

/// Registrable domain (`example.com` from `cdn.example.com`), or the bare host
/// for IP literals / unknown suffixes.
pub fn registrable_domain(url: &Url) -> (r: Result<String, CobwebError>)
    ensures
        same_outcome(r, domain_of(url@)),
{
    match &url.host {
        Some(h) => Ok(domain_for_host(h.as_str(), call_domain_str(h.as_str()))),
        None => Err(CobwebError::BadRequest(cat("URL has no host: ", url.text.as_str()))),
    }
}

// ---------------------------------------------------------------------------
// Admission
// ---------------------------------------------------------------------------

/// How far a request has been let.
#[derive(Debug, Clone, Copy, PartialEq, Eq, Structural)]
pub enum Gate {
    /// The egress is vetted next.
    Egress,
    /// It is found out next whether the egress can be reached.
    Reach,
    /// The target is vetted next.
    Target,
    /// The request may go out.
    Open,
    /// It may not.
    Shut,
}

/// What has to be found out before a request gets further.
pub enum Ask {
    /// The addresses of a host, where there is one to look up.
    Lookup(Option<(String, u16)>),
    /// Whether the egress can be reached.
    Reach,
    Nothing,
}

/// What a question stands for.
pub enum AskView {
    Lookup(Option<(Seq<char>, u16)>),
    Reach,
    Nothing,
}

impl View for Ask {
    type V = AskView;

    open spec fn view(&self) -> AskView {
        match *self {
            Ask::Lookup(l) => AskView::Lookup(l.deep_view()),
            Ask::Reach => AskView::Reach,
            Ask::Nothing => AskView::Nothing,
        }
    }
}

/// Which of the guards a request has to pass.
#[derive(Debug, Clone, Copy, PartialEq, Eq, Structural)]
pub struct Guards {
    pub allow_private: bool,
    /// The target is vetted. The egress always is.
    pub vet_target: bool,
}

/// The way of a request from its fields to where it may go out: egress vetted,
/// egress reachable, target vetted, in this order.
pub struct Admission {
    url: Url,
    domain: String,
    egress: Egress,
    guards: Guards,
    gate: Gate,
}

/// What an admission stands for.
#[verifier::ext_equal]
pub struct AdmissionView {
    pub url: UrlView,
    pub domain: Seq<char>,
    pub egress: EgressView,
    pub guards: Guards,
    pub gate: Gate,
}

impl View for Admission {
    type V = AdmissionView;

    closed spec fn view(&self) -> AdmissionView {
        AdmissionView {
            url: self.url@,
            domain: self.domain@,
            egress: self.egress@,
            guards: self.guards,
            gate: self.gate,
        }
    }
}

impl AdmissionView {
    /// A request at the first gate.
    pub open spec fn opened(
        url: UrlView,
        profiles: Seq<EgressView>,
        egress: Option<Seq<char>>,
        proxy_url: Option<Seq<char>>,
        guards: Guards,
    ) -> Result<AdmissionView, ErrorView> {
        match domain_of(url) {
            Ok(domain) => match chosen(profiles, egress, proxy_url) {
                Ok(e) => Ok(AdmissionView::entered(url, domain, e, guards)),
                Err(e) => Err(e),
            },
            Err(e) => Err(e),
        }
    }

    /// A request at the first gate, whose domain and egress are known.
    pub open spec fn entered(
        url: UrlView,
        domain: Seq<char>,
        egress: EgressView,
        guards: Guards,
    ) -> AdmissionView {
        AdmissionView { url, domain, egress, guards, gate: Gate::Egress }
    }

    /// What has to be found out at a gate.
    pub open spec fn ask(self) -> AskView {
        match self.gate {
            Gate::Egress => AskView::Lookup(egress_lookup(self.egress, self.guards.allow_private)),
            Gate::Reach => AskView::Reach,
            Gate::Target => AskView::Lookup(
                url_lookup(self.url, self.egress.proxy is None, self.guards.allow_private),
            ),
            Gate::Open => AskView::Nothing,
            Gate::Shut => AskView::Nothing,
        }
    }

    /// What the guard of a gate says of looked-up addresses.
    pub open spec fn verdict(self, addrs: Option<Seq<IpView>>) -> Result<(), ErrorView> {
        match self.gate {
            Gate::Egress => egress_verdict(self.egress, self.guards.allow_private, addrs),
            Gate::Target => url_verdict(
                self.url,
                self.egress.proxy is None,
                self.guards.allow_private,
                addrs,
            ),
            _ => Ok(()),
        }
    }

    /// Where a request stands that was let through.
    pub open spec fn passed(self) -> AdmissionView {
        AdmissionView {
            gate: match self.gate {
                Gate::Egress => Gate::Reach,
                Gate::Reach => if self.guards.vet_target {
                    Gate::Target
                } else {
                    Gate::Open
                },
                Gate::Target => Gate::Open,
                g => g,
            },
            ..self
        }
    }

    pub open spec fn refused(self) -> AdmissionView {
        AdmissionView { gate: Gate::Shut, ..self }
    }
}

impl Admission {
    /// A request at the first gate.
    pub fn open(
        url: Url,
        registry: &EgressRegistry,
        egress: &Option<String>,
        proxy_url: &Option<String>,
        guards: Guards,
    ) -> (r: Result<Admission, CobwebError>)
        ensures
            same_outcome(
                r,
                AdmissionView::opened(
                    url@,
                    registry.profiles(),
                    egress.deep_view(),
                    proxy_url.deep_view(),
                    guards,
                ),
            ),
    {
        let domain = match registrable_domain(&url) {
            Ok(d) => d,
            Err(e) => {
                return Err(e);
            },
        };
        match registry.resolve(egress, proxy_url) {
            Ok(e) => Ok(Admission::enter(url, domain, e, guards)),
            Err(e) => Err(e),
        }
    }

    /// A request at the first gate, whose domain and egress are known.
    pub fn enter(url: Url, domain: String, egress: Egress, guards: Guards) -> (r: Admission)
        ensures
            r@ == AdmissionView::entered(url@, domain@, egress@, guards),
    {
        Admission { url, domain, egress, guards, gate: Gate::Egress }
    }

    /// What has to be found out next.
    pub fn ask(&self) -> (r: Ask)
        ensures
            r@ == self@.ask(),
    {
        match self.gate {
            Gate::Egress => Ask::Lookup(
                guard_egress_lookup(&self.egress, self.guards.allow_private),
            ),
            Gate::Reach => Ask::Reach,
            Gate::Target => Ask::Lookup(
                guard_url_lookup(&self.url, self.egress.is_direct(), self.guards.allow_private),
            ),
            Gate::Open => Ask::Nothing,
            Gate::Shut => Ask::Nothing,
        }
    }

    /// A lookup was answered, or failed, or was not needed.
    pub fn looked(&mut self, addrs: &Option<Vec<IpAddr>>) -> (r: Result<(), CobwebError>)
        requires
            old(self)@.gate == Gate::Egress || old(self)@.gate == Gate::Target,
        ensures
            same_outcome(r, old(self)@.verdict(addrs.deep_view())),
            final(self)@ == if r is Ok {
                old(self)@.passed()
            } else {
                old(self)@.refused()
            },
    {
        match self.gate {
            Gate::Egress => {
                match guard_egress(&self.egress, self.guards.allow_private, addrs) {
                    Ok(()) => {
                        self.gate = Gate::Reach;
                        Ok(())
                    },
                    Err(e) => {
                        self.gate = Gate::Shut;
                        Err(e)
                    },
                }
            },
            _ => {
                match guard_url(
                    &self.url,
                    self.egress.is_direct(),
                    self.guards.allow_private,
                    addrs,
                ) {
                    Ok(()) => {
                        self.gate = Gate::Open;
                        Ok(())
                    },
                    Err(e) => {
                        self.gate = Gate::Shut;
                        Err(e)
                    },
                }
            },
        }
    }

    /// The egress was found to be reachable, or not.
    pub fn reached(&mut self, result: Result<(), CobwebError>) -> (r: Result<(), CobwebError>)
        requires
            old(self)@.gate == Gate::Reach,
        ensures
            r == result,
            final(self)@ == if r is Ok {
                old(self)@.passed()
            } else {
                old(self)@.refused()
            },
    {
        match &result {
            Ok(()) => {
                self.gate = if self.guards.vet_target {
                    Gate::Target
                } else {
                    Gate::Open
                };
            },
            Err(_) => {
                self.gate = Gate::Shut;
            },
        }
        result
    }

    pub fn gate(&self) -> (r: Gate)
        ensures
            r == self@.gate,
    {
        self.gate
    }

    pub fn url(&self) -> (r: &Url)
        ensures
            r@ == self@.url,
    {
        &self.url
    }

    pub fn domain(&self) -> (r: &str)
        ensures
            r@ == self@.domain,
    {
        self.domain.as_str()
    }

    pub fn egress(&self) -> (r: &Egress)
        ensures
            r@ == self@.egress,
    {
        &self.egress
    }
}

// ---------------------------------------------------------------------------
// Orchestrator
// ---------------------------------------------------------------------------

/// What to do next in a resolution.
pub enum ResolveStep {
    /// Run the fast path.
    Fast,
    /// Run the browser tier.
    Browser,
    /// Hand the challenge to the external solver.
    Delegate,
    /// The solver answered: put this entry into the jar, then run the browser tier
    /// once more with what the jar holds.
    Retry { entry: JarEntry },
    /// It is over. A stream that a tier found is remembered in the jar.
    Done { result: Result<ResolveOutcome, CobwebError>, remember: bool },
}

/// What a step stands for.
pub enum ResolveStepView {
    Fast,
    Browser,
    Delegate,
    Retry { entry: EntryView },
    Done { result: Result<OutcomeView, ErrorView>, remember: bool },
}

impl View for ResolveStep {
    type V = ResolveStepView;

    open spec fn view(&self) -> ResolveStepView {
        match *self {
            ResolveStep::Fast => ResolveStepView::Fast,
            ResolveStep::Browser => ResolveStepView::Browser,
            ResolveStep::Delegate => ResolveStepView::Delegate,
            ResolveStep::Retry { entry } => ResolveStepView::Retry { entry: entry@ },
            ResolveStep::Done { result, remember } => ResolveStepView::Done {
                result: match result {
                    Ok(o) => Ok(o@),
                    Err(e) => Err(e@),
                },
                remember,
            },
        }
    }
}

/// A resolution on its way through the tiers.
pub struct Resolve {
    domain: String,
    mode: Mode,
    has_browser: bool,
    has_delegate: bool,
    last_reason: EscalateReason,
}

/// What a resolution stands for.
#[verifier::ext_equal]
pub struct ResolveView {
    pub domain: Seq<char>,
    pub mode: Mode,
    pub has_browser: bool,
    pub has_delegate: bool,
    pub last_reason: EscalateReason,
}

impl View for Resolve {
    type V = ResolveView;

    closed spec fn view(&self) -> ResolveView {
        ResolveView {
            domain: self.domain@,
            mode: self.mode,
            has_browser: self.has_browser,
            has_delegate: self.has_delegate,
            last_reason: self.last_reason,
        }
    }
}

/// The error of a resolution that no tier could finish.
pub open spec fn unresolved(
    domain: Seq<char>,
    mode: Mode,
    reason: EscalateReason,
    browser_ran: bool,
) -> ErrorView {
    if mode == Mode::Fast {
        ErrorView::NotResolved(domain + ": fast mode and no stream on the fast path"@)
    } else if reason == EscalateReason::Challenge {
        ErrorView::NeedsManualSolve { domain }
    } else if browser_ran {
        ErrorView::NotResolved(domain + ": no matching stream URL after the browser sniff"@)
    } else if reason == EscalateReason::NeedsJs {
        ErrorView::NeedsBrowser(
            domain + ": needs a browser (tier 3) — set browser_engine = \"chromium\""@,
        )
    } else {
        ErrorView::NotResolved(domain + ": no matching stream URL"@)
    }
}

/// Turn the last escalation reason into the right error once every tier we have
/// has been tried.
pub fn finish_unresolved(domain: &str, mode: Mode, reason: EscalateReason, browser_ran: bool) -> (r:
    CobwebError)
    ensures
        r@ == unresolved(domain@, mode, reason, browser_ran),
{
    if mode == Mode::Fast {
        CobwebError::NotResolved(cat(domain, ": fast mode and no stream on the fast path"))
    } else if reason == EscalateReason::Challenge {
        CobwebError::NeedsManualSolve { domain: domain.to_owned() }
    } else if browser_ran {
        CobwebError::NotResolved(cat(domain, ": no matching stream URL after the browser sniff"))
    } else if reason == EscalateReason::NeedsJs {
        CobwebError::NeedsBrowser(
            cat(domain, ": needs a browser (tier 3) — set browser_engine = \"chromium\""),
        )
    } else {
        CobwebError::NotResolved(cat(domain, ": no matching stream URL"))
    }
}

impl ResolveView {
    /// A resolution before any tier has run.
    pub open spec fn started(domain: Seq<char>, mode: Mode, has_browser: bool, has_delegate: bool) -> ResolveView {
        ResolveView {
            domain,
            mode,
            has_browser,
            has_delegate,
            last_reason: EscalateReason::NeedsJs,
        }
    }

    /// The first step.
    pub open spec fn first(self) -> ResolveStepView {
        if self.mode != Mode::Browser {
            ResolveStepView::Fast
        } else {
            self.after_fast_tier()
        }
    }

    /// The step when the fast path is out of the way.
    pub open spec fn after_fast_tier(self) -> ResolveStepView {
        if self.mode != Mode::Fast && self.has_browser {
            ResolveStepView::Browser
        } else {
            self.after_browser_tier()
        }
    }

    /// The step when the browser tier is out of the way.
    pub open spec fn after_browser_tier(self) -> ResolveStepView {
        if self.last_reason == EscalateReason::Challenge && self.mode != Mode::Fast
            && self.has_delegate && self.has_browser {
            ResolveStepView::Delegate
        } else {
            self.end()
        }
    }

    /// Every tier has been tried.
    pub open spec fn end(self) -> ResolveStepView {
        ResolveStepView::Done {
            result: Err(unresolved(self.domain, self.mode, self.last_reason, self.has_browser)),
            remember: false,
        }
    }

    /// A tier found the stream.
    pub open spec fn found(self, stream: StreamView, via: ViaTier) -> ResolveStepView {
        ResolveStepView::Done {
            result: Ok(OutcomeView { stream, via_tier: via, domain: self.domain }),
            remember: true,
        }
    }

    pub open spec fn escalated(self, reason: EscalateReason) -> ResolveView {
        ResolveView { last_reason: reason, ..self }
    }

    /// The fast path has run.
    pub open spec fn fast_done(self, outcome: TierView) -> (ResolveView, ResolveStepView) {
        match outcome {
            TierView::Resolved(s) => (self, self.found(s, ViaTier::Fastpath)),
            TierView::Failed(e) => (self, failed(e)),
            TierView::Escalate(r) => (self.escalated(r), self.escalated(r).after_fast_tier()),
        }
    }

    /// The browser tier has run.
    pub open spec fn browser_done(self, outcome: TierView) -> (ResolveView, ResolveStepView) {
        match outcome {
            TierView::Resolved(s) => (self, self.found(s, ViaTier::Browser)),
            TierView::Failed(e) => (self, failed(e)),
            TierView::Escalate(r) => (self.escalated(r), self.escalated(r).after_browser_tier()),
        }
    }

    /// The external solver has been asked: `entry` remembers what it brought back,
    /// if it answered.
    pub open spec fn delegate_done(self, entry: Option<EntryView>) -> (
        ResolveView,
        ResolveStepView,
    ) {
        match entry {
            Some(entry) => (self, ResolveStepView::Retry { entry }),
            None => (self, self.end()),
        }
    }

    /// The browser tier has run again.
    pub open spec fn retry_done(self, outcome: TierView) -> (ResolveView, ResolveStepView) {
        match outcome {
            TierView::Resolved(s) => (self, self.found(s, ViaTier::Flaresolverr)),
            TierView::Failed(e) => (self, failed(e)),
            TierView::Escalate(r) => (self.escalated(r), self.escalated(r).end()),
        }
    }

    /// What follows a step, once its reply is there.
    pub open spec fn next(self, step: ResolveStepView, reply: ReplyView) -> (
        ResolveView,
        ResolveStepView,
    ) {
        match (step, reply) {
            (ResolveStepView::Fast, ReplyView::Tier(o)) => self.fast_done(o),
            (ResolveStepView::Browser, ReplyView::Tier(o)) => self.browser_done(o),
            (ResolveStepView::Delegate, ReplyView::Solver(e)) => self.delegate_done(e),
            (ResolveStepView::Retry { .. }, ReplyView::Tier(o)) => self.retry_done(o),
            _ => (self, step),
        }
    }
}

/// What comes back of a step.
pub enum ReplyView {
    /// What a tier came to.
    Tier(TierView),
    /// The entry that remembers the external solver's answer, if it gave one.
    Solver(Option<EntryView>),
}

impl ResolveStepView {
    /// Whether a reply is one to this step.
    pub open spec fn takes(self, reply: ReplyView) -> bool {
        match self {
            ResolveStepView::Delegate => reply is Solver,
            ResolveStepView::Done { .. } => false,
            _ => reply is Tier,
        }
    }

    /// How many steps are left at most, this one counted.
    pub open spec fn left(self) -> nat {
        match self {
            ResolveStepView::Fast => 4,
            ResolveStepView::Browser => 3,
            ResolveStepView::Delegate => 2,
            ResolveStepView::Retry { .. } => 1,
            ResolveStepView::Done { .. } => 0,
        }
    }
}

/// A tier failed outright.
pub open spec fn failed(e: ErrorView) -> ResolveStepView {
    ResolveStepView::Done { result: Err(e), remember: false }
}

/// Whether a tier's outcome counts as a challenge: the jar entry is noted as
/// failing and the challenge is counted.
pub open spec fn hit_challenge(outcome: TierView) -> bool {
    outcome == TierView::Escalate(EscalateReason::Challenge)
}

/// Whether a tier's outcome counts as a challenge.
pub fn is_challenged(outcome: &TierOutcome) -> (r: bool)
    ensures
        r == hit_challenge(outcome@),
{
    match outcome {
        TierOutcome::Escalate(reason) => *reason == EscalateReason::Challenge,
        _ => false,
    }
}

impl Resolve {
    /// A resolution before any tier has run.
    pub fn start(domain: &str, mode: Mode, has_browser: bool, has_delegate: bool) -> (r: Resolve)
        ensures
            r@ == ResolveView::started(domain@, mode, has_browser, has_delegate),
    {
        Resolve {
            domain: domain.to_owned(),
            mode,
            has_browser,
            has_delegate,
            last_reason: EscalateReason::NeedsJs,
        }
    }

    /// The first step.
    pub fn first(&self) -> (r: ResolveStep)
        ensures
            r@ == self@.first(),
    {
        if self.mode != Mode::Browser {
            ResolveStep::Fast
        } else {
            self.after_fast_tier()
        }
    }

    fn after_fast_tier(&self) -> (r: ResolveStep)
        ensures
            r@ == self@.after_fast_tier(),
    {
        if self.mode != Mode::Fast && self.has_browser {
            ResolveStep::Browser
        } else {
            self.after_browser_tier()
        }
    }

    fn after_browser_tier(&self) -> (r: ResolveStep)
        ensures
            r@ == self@.after_browser_tier(),
    {
        if self.last_reason == EscalateReason::Challenge && self.mode != Mode::Fast
            && self.has_delegate && self.has_browser {
            ResolveStep::Delegate
        } else {
            self.end()
        }
    }

    fn end(&self) -> (r: ResolveStep)
        ensures
            r@ == self@.end(),
    {
        ResolveStep::Done {
            result: Err(
                finish_unresolved(
                    self.domain.as_str(),
                    self.mode,
                    self.last_reason,
                    self.has_browser,
                ),
            ),
            remember: false,
        }
    }

    fn found(&self, stream: StreamResult, via_tier: ViaTier) -> (r: ResolveStep)
        ensures
            r@ == self@.found(stream@, via_tier),
    {
        ResolveStep::Done {
            result: Ok(ResolveOutcome { stream, via_tier, domain: self.domain.clone() }),
            remember: true,
        }
    }

    /// The fast path has run.
    pub fn fast_done(&mut self, outcome: TierOutcome) -> (r: ResolveStep)
        ensures
            (final(self)@, r@) == old(self)@.fast_done(outcome@),
    {
        match outcome {
            TierOutcome::Resolved(s) => self.found(s, ViaTier::Fastpath),
            TierOutcome::Failed(e) => ResolveStep::Done { result: Err(e), remember: false },
            TierOutcome::Escalate(reason) => {
                self.last_reason = reason;
                self.after_fast_tier()
            },
        }
    }

    /// The browser tier has run.
    pub fn browser_done(&mut self, outcome: TierOutcome) -> (r: ResolveStep)
        ensures
            (final(self)@, r@) == old(self)@.browser_done(outcome@),
    {
        match outcome {
            TierOutcome::Resolved(s) => self.found(s, ViaTier::Browser),
            TierOutcome::Failed(e) => ResolveStep::Done { result: Err(e), remember: false },
            TierOutcome::Escalate(reason) => {
                self.last_reason = reason;
                self.after_browser_tier()
            },
        }
    }

    /// The external solver has been asked. What it brought back is merged into the
    /// stored entry, for one more run of the browser tier; without an answer it is
    /// over.
    pub fn delegate_done(
        &mut self,
        solution: Result<FsSolution, CobwebError>,
        stored: Option<JarEntry>,
        at: &Remember,
    ) -> (r: ResolveStep)
        ensures
            (final(self)@, r@) == old(self)@.delegate_done(
                match solution {
                    Ok(s) => Some(
                        delegate_entry(
                            stored.deep_view(),
                            at.domain@,
                            at.key@,
                            at.default_ttl_secs,
                            s@.cookies,
                            s@.user_agent,
                            at.now,
                            at.now_secs,
                        ),
                    ),
                    Err(_) => None,
                },
            ),
    {
        match solution {
            Ok(s) => ResolveStep::Retry {
                entry: persist_delegate(stored, at, s.cookies, s.user_agent.as_str()),
            },
            Err(_) => self.end(),
        }
    }

    /// The browser tier has run again.
    pub fn retry_done(&mut self, outcome: TierOutcome) -> (r: ResolveStep)
        ensures
            (final(self)@, r@) == old(self)@.retry_done(outcome@),
    {
        match outcome {
            TierOutcome::Resolved(s) => self.found(s, ViaTier::Flaresolverr),
            TierOutcome::Failed(e) => ResolveStep::Done { result: Err(e), remember: false },
            TierOutcome::Escalate(reason) => {
                self.last_reason = reason;
                self.end()
            },
        }
    }
}

/// The counters after a resolution.
pub open spec fn recorded(m: MetricsView, r: Result<OutcomeView, ErrorView>) -> MetricsView {
    match r {
        Ok(o) => m.with_ok(o.domain, o.via_tier),
        Err(ErrorView::NeedsManualSolve { domain }) => m.with_needs_manual(domain),
        Err(_) => m.with_error("unknown"@),
    }
}

/// Record the outcome of a resolution.
pub fn resolve(metrics: &mut Metrics, r: &Result<ResolveOutcome, CobwebError>)
    requires
        old(metrics).wf(),
    ensures
        final(metrics).wf(),
        final(metrics)@ == recorded(
            old(metrics)@,
            match *r {
                Ok(o) => Ok(o@),
                Err(e) => Err(e@),
            },
        ),
{
    match r {
        Ok(o) => metrics.resolve_ok(o.domain.as_str(), o.via_tier),
        Err(CobwebError::NeedsManualSolve { domain }) => metrics.resolve_needs_manual(
            domain.as_str(),
        ),
        Err(_) => metrics.resolve_error("unknown"),
    }
}

/// The stream that `yt-dlp` names.
pub open spec fn ytdlp_stream(urls: Seq<Seq<char>>, seed: Option<EntryView>) -> StreamView {
    let first = if urls.len() > 0 {
        urls[0]
    } else {
        seq![]
    };
    StreamView {
        stream_url: first,
        kind: match url_parsed(first) {
            Ok(u) => match kind_of_path(u.path) {
                Some(k) => k,
                None => StreamKind::Progressive,
            },
            Err(_) => StreamKind::Progressive,
        },
        headers: seq![],
        cookies: jar_cookies(seed),
    }
}

/// The outcome of a resolution that `yt-dlp` answered.
pub fn ytdlp_outcome(urls: &Vec<String>, seed: &Option<JarEntry>, domain: &str) -> (r:
    ResolveOutcome)
    ensures
        r@ == (OutcomeView {
            stream: ytdlp_stream(urls.deep_view(), seed.deep_view()),
            via_tier: ViaTier::Ytdlp,
            domain: domain@,
        }),
{
    assert(urls.deep_view().len() == urls@.len());
    let stream_url: String = if urls.len() > 0 {
        urls[0].clone()
    } else {
        String::new()
    };
    assert(urls@.len() == 0 ==> stream_url@ =~= seq![]);
    let kind = match Url::parse(stream_url.as_str()) {
        Ok(u) => match StreamKind::from_url(&u) {
            Some(k) => k,
            None => StreamKind::Progressive,
        },
        Err(_) => StreamKind::Progressive,
    };
    let headers: Vec<(String, String)> = Vec::new();
    assert(headers.deep_view() =~= seq![]);
    let cookies: Vec<Cookie> = match seed {
        Some(j) => copy_cookies(&j.storage_state.cookies),
        None => Vec::new(),
    };
    assert(cookies.deep_view() =~= jar_cookies(seed.deep_view()));
    ResolveOutcome {
        stream: StreamResult { stream_url, kind, headers, cookies },
        via_tier: ViaTier::Ytdlp,
        domain: domain.to_owned(),
    }
}

// ---------------------------------------------------------------------------
// What is remembered
// ---------------------------------------------------------------------------

/// When and under which key something is remembered.
pub struct Remember<'a> {
    pub domain: &'a str,
    /// The egress's jar key.
    pub key: &'a str,
    pub default_ttl_secs: u64,
    /// Nanoseconds since the epoch.
    pub now: i128,
    /// The same in whole seconds.
    pub now_secs: i64,
}

/// A value that is pinned unless it was before.
pub open spec fn first_pin(pinned: Seq<char>, hs: Seq<(Seq<char>, Seq<char>)>, name: Seq<char>) -> Seq<
    char,
>
    decreases hs.len(),
{
    if hs.len() == 0 {
        pinned
    } else {
        let before = first_pin(pinned, hs.drop_last(), name);
        if before.len() == 0 && hs.last().0 == name {
            hs.last().1
        } else {
            before
        }
    }
}

/// An entry with its time to live taken from the clearance cookie, if any.
pub open spec fn with_ttl_hint(e: EntryView, cookies: Seq<CookieView>, now_secs: i64) -> EntryView {
    match ttl_hint(cookies, "cf_clearance"@, now_secs) {
        Some(secs) => EntryView { ttl_hint_secs: secs, ..e },
        None => e,
    }
}

/// The entry that remembers a resolved stream: its cookies, their time to live,
/// and the user agent and language where the jar pins none.
pub open spec fn success_entry(
    seed: Option<EntryView>,
    domain: Seq<char>,
    key: Seq<char>,
    default_ttl_secs: u64,
    stream: StreamView,
    now: i128,
    now_secs: i64,
) -> EntryView {
    let base = match seed {
        Some(e) => e,
        None => EntryView::fresh(domain, key, default_ttl_secs, now),
    };
    let e = EntryView {
        storage_state: StateView { cookies: stream.cookies, origins: base.storage_state.origins },
        user_agent: first_pin(base.user_agent, stream.headers, "user-agent"@),
        accept_language: first_pin(base.accept_language, stream.headers, "accept-language"@),
        ..base
    };
    with_ttl_hint(e, stream.cookies, now_secs)
}

fn pin_first(pinned: String, hs: &Vec<(String, String)>, name: &str) -> (r: String)
    ensures
        r@ == first_pin(pinned@, hs.deep_view(), name@),
{
    let ghost all = hs.deep_view();
    let ghost start = pinned@;
    let mut out = pinned;
    assert(all.take(0) =~= seq![]);
    for i in 0..hs.len()
        invariant
            all == hs.deep_view(),
            out@ == first_pin(start, all.take(i as int), name@),
    {
        assert(all.take(i + 1).drop_last() =~= all.take(i as int));
        assert(all.take(i + 1).last() == (hs@[i as int].0@, hs@[i as int].1@));
        if out.as_str().unicode_len() == 0 && same(hs[i].0.as_str(), name) {
            out = hs[i].1.clone();
        }
    }
    assert(all.take(hs@.len() as int) =~= all);
    out
}

/// The entry that remembers a resolved stream.
pub fn persist_success(seed: &Option<JarEntry>, at: &Remember, stream: &StreamResult) -> (r:
    JarEntry)
    ensures
        r@ == success_entry(
            seed.deep_view(),
            at.domain@,
            at.key@,
            at.default_ttl_secs,
            stream@,
            at.now,
            at.now_secs,
        ),
{
    let mut entry = match seed {
        Some(j) => j.copy(),
        None => JarEntry::new(at.domain, at.key, at.default_ttl_secs, at.now),
    };
    entry.storage_state.cookies = copy_cookies(&stream.cookies);
    match ttl_hint_from(&stream.cookies, "cf_clearance", at.now_secs) {
        Some(secs) => {
            entry.ttl_hint_secs = secs;
        },
        None => {},
    }
    let ua = pin_first(entry.user_agent.clone(), &stream.headers, "user-agent");
    let al = pin_first(entry.accept_language.clone(), &stream.headers, "accept-language");
    entry.user_agent = ua;
    entry.accept_language = al;
    entry
}

/// The entry that remembers what an external solver brought back.
pub open spec fn delegate_entry(
    stored: Option<EntryView>,
    domain: Seq<char>,
    key: Seq<char>,
    default_ttl_secs: u64,
    cookies: Seq<CookieView>,
    user_agent: Seq<char>,
    now: i128,
    now_secs: i64,
) -> EntryView {
    let base = match stored {
        Some(e) => e,
        None => EntryView::fresh(domain, key, default_ttl_secs, now),
    };
    let all = merged(base.storage_state.cookies, cookies);
    let e = EntryView {
        storage_state: StateView { cookies: all, origins: base.storage_state.origins },
        user_agent: if user_agent.len() > 0 {
            user_agent
        } else {
            base.user_agent
        },
        ..base
    };
    with_ttl_hint(e, all, now_secs)
}

/// The entry that remembers what an external solver brought back: its cookies on
/// top of the stored ones.
pub fn persist_delegate(
    stored: Option<JarEntry>,
    at: &Remember,
    cookies: Vec<Cookie>,
    user_agent: &str,
) -> (r: JarEntry)
    ensures
        r@ == delegate_entry(
            stored.deep_view(),
            at.domain@,
            at.key@,
            at.default_ttl_secs,
            cookies.deep_view(),
            user_agent@,
            at.now,
            at.now_secs,
        ),
{
    let mut entry = match stored {
        Some(j) => j,
        None => JarEntry::new(at.domain, at.key, at.default_ttl_secs, at.now),
    };
    entry.storage_state.merge_from(cookies);
    if user_agent.unicode_len() > 0 {
        entry.user_agent = user_agent.to_owned();
    }
    match ttl_hint_from(&entry.storage_state.cookies, "cf_clearance", at.now_secs) {
        Some(secs) => {
            entry.ttl_hint_secs = secs;
        },
        None => {},
    }
    entry
}

/// The entry that remembers the cookies an evaluation picked up.
pub open spec fn eval_entry(
    seed: Option<EntryView>,
    domain: Seq<char>,
    key: Seq<char>,
    default_ttl_secs: u64,
    cookies: Seq<CookieView>,
    now: i128,
) -> EntryView {
    let base = match seed {
        Some(e) => e,
        None => EntryView::fresh(domain, key, default_ttl_secs, now),
    };
    EntryView {
        storage_state: StateView {
            cookies: merged(base.storage_state.cookies, cookies),
            origins: base.storage_state.origins,
        },
        ..base
    }
}

/// The entry that remembers the cookies an evaluation picked up.
pub fn persist_eval(seed: &Option<JarEntry>, at: &Remember, cookies: Vec<Cookie>) -> (r: JarEntry)
    ensures
        ({
            let base = match seed.deep_view() {
                Some(e) => e,
                None => EntryView::fresh(at.domain@, at.key@, at.default_ttl_secs, at.now),
            };
            r@ == (EntryView {
                storage_state: StateView {
                    cookies: merged(base.storage_state.cookies, cookies.deep_view()),
                    origins: base.storage_state.origins,
                },
                ..base
            })
        }),
        r@ == eval_entry(
            seed.deep_view(),
            at.domain@,
            at.key@,
            at.default_ttl_secs,
            cookies.deep_view(),
            at.now,
        ),
{
    let mut entry = match seed {
        Some(j) => j.copy(),
        None => JarEntry::new(at.domain, at.key, at.default_ttl_secs, at.now),
    };
    entry.storage_state.merge_from(cookies);
    entry
}

// ---------------------------------------------------------------------------
// /v1/navigate: fast path only
// ---------------------------------------------------------------------------

#[derive(Debug)]
pub struct NavigateResult {
    pub html: String,
    pub final_url: String,
    pub status: u16,
}

/// Headers that a caller of `/v1/navigate` may add.
pub open spec fn navigate_allows(name: Seq<char>) -> bool {
    let n = lower(trimmed(name));
    "sec-fetch-"@.is_prefix_of(n) || n == "referer"@ || n == "origin"@ || n == "accept"@ || n
        == "accept-language"@ || n == "accept-encoding"@ || n == "range"@ || n
        == "x-requested-with"@ || n == "upgrade-insecure-requests"@
}

/// Allowlist for caller-supplied headers: only request-shaping headers a browser
/// would send, nothing that routes or authenticates.
pub fn navigate_header_allowed(name: &str) -> (r: bool)
    ensures
        r == navigate_allows(name@),
{
    let n = to_lower(trim(name).as_str());
    starts_with(n.as_str(), "sec-fetch-") || same(n.as_str(), "referer") || same(
        n.as_str(),
        "origin",
    ) || same(n.as_str(), "accept") || same(n.as_str(), "accept-language") || same(
        n.as_str(),
        "accept-encoding",
    ) || same(n.as_str(), "range") || same(n.as_str(), "x-requested-with") || same(
        n.as_str(),
        "upgrade-insecure-requests",
    )
}

/// The caller's headers that are let through, in order.
pub open spec fn navigate_kept(hs: Seq<(Seq<char>, Seq<char>)>) -> Seq<(Seq<char>, Seq<char>)>
    decreases hs.len(),
{
    if hs.len() == 0 {
        seq![]
    } else {
        let front = navigate_kept(hs.drop_last());
        if navigate_allows(hs.last().0) {
            front.push(hs.last())
        } else {
            front
        }
    }
}

/// The extra headers of a `/v1/navigate` request: the referer, then the caller's
/// own that are let through.
pub fn navigate_headers(referer: &Option<String>, extra: &Vec<(String, String)>) -> (r: Vec<
    (String, String),
>)
    ensures
        r.deep_view() == pinned_header("referer"@, referer.deep_view()) + navigate_kept(
            extra.deep_view(),
        ),
{
    let mut h: Vec<(String, String)> = Vec::new();
    assert(h.deep_view() =~= seq![]);
    push_header(&mut h, "referer", copy_opt(referer));
    let ghost front = h.deep_view();
    let ghost all = extra.deep_view();
    assert(h.deep_view() =~= front + navigate_kept(all.take(0)));
    for i in 0..extra.len()
        invariant
            all == extra.deep_view(),
            h.deep_view() == front + navigate_kept(all.take(i as int)),
    {
        assert(all.take(i + 1).drop_last() =~= all.take(i as int));
        assert(all.take(i + 1).last() == (extra@[i as int].0@, extra@[i as int].1@));
        let ghost before = h.deep_view();
        if navigate_header_allowed(extra[i].0.as_str()) {
            h.push((extra[i].0.clone(), extra[i].1.clone()));
            assert(h.deep_view() =~= before.push((extra@[i as int].0@, extra@[i as int].1@)));
            assert(h.deep_view() =~= front + navigate_kept(all.take(i + 1)));
        }
    }
    assert(all.take(extra@.len() as int) =~= all);
    assert(front =~= pinned_header("referer"@, referer.deep_view()));
    h
}

/// The request of `/v1/navigate`.
pub fn navigate_fastpath(
    url: &Url,
    egress: &Egress,
    jar: &Option<JarEntry>,
    referer: &Option<String>,
    extra: &Vec<(String, String)>,
    timeout_ms: u64,
    now: i64,
) -> (r: FetchRequest)
    ensures
        r@ == fast_request(
            url@,
            egress@,
            jar.deep_view(),
            pinned_header("referer"@, referer.deep_view()) + navigate_kept(extra.deep_view()),
            timeout_ms,
            now,
        ),
{
    build_request(url, egress, jar, navigate_headers(referer, extra), timeout_ms, now)
}

/// The answer of `/v1/navigate`: whatever came back, an error status too.
pub fn navigate_result(resp: FetchResponse) -> (r: NavigateResult)
    ensures
        r.html@ == resp@.body,
        r.final_url@ == resp@.final_url.text,
        r.status == resp@.status,
{
    NavigateResult { html: resp.body, final_url: resp.final_url.text, status: resp.status }
}

// ---------------------------------------------------------------------------
// /v1/sniff
// ---------------------------------------------------------------------------

#[derive(Debug)]
pub struct SniffResult {
    pub intercepted_url: String,
    pub headers: Vec<(String, String)>,
}

/// Characters that mean something in a glob.
pub struct GlobChar;

impl CharTest for GlobChar {
    open spec fn holds(&self, c: char) -> bool {
        c == '*' || c == '?' || c == '[' || c == '{'
    }

    fn test(&self, c: char) -> (r: bool) {
        c == '*' || c == '?' || c == '[' || c == '{'
    }
}

/// A pattern as a glob: one without any glob character becomes `*pattern*`.
pub open spec fn as_glob(p: Seq<char>) -> Seq<char> {
    if some_char(p, passes(GlobChar)) {
        p
    } else {
        "*"@ + p + "*"@
    }
}

/// A bare substring pattern (`"m3u8"`) becomes `*m3u8*`; anything already
/// containing glob metacharacters is left alone.
pub fn normalize_sniff_pattern(p: &str) -> (r: String)
    ensures
        r@ == as_glob(p@),
{
    if any_char(p, GlobChar) {
        p.to_owned()
    } else {
        cat3("*", p, "*")
    }
}

/// The debug format of a list of strings.
pub uninterp spec fn list_debug(v: Seq<Seq<char>>) -> Seq<char>;

/// Formats a `Vec<String>` for debugging. The result is named and depends on the
/// strings alone.
#[verifier::external_body]
fn call_list_debug(v: &Vec<String>) -> (r: String)
    ensures
        r@ == list_debug(v.deep_view()),
{
    format!("{:?}", v)
}

/// The error where tiers 3 and up are turned off.
pub fn engine_disabled() -> (r: CobwebError)
    ensures
        r@ == ErrorView::NeedsBrowser(
            "browser engine disabled — set browser_engine = \"chromium\""@,
        ),
{
    CobwebError::NeedsBrowser(
        "browser engine disabled — set browser_engine = \"chromium\"".to_owned(),
    )
}

/// What `/v1/sniff` answers; `shown` are the patterns as text.
pub fn sniff_answer(outcome: TierOutcome, domain: &str, shown: &str) -> (r: Result<
    SniffResult,
    CobwebError,
>)
    ensures
        match outcome@ {
            TierView::Resolved(s) => r matches Ok(a) && a.intercepted_url@ == s.stream_url
                && a.headers.deep_view() == s.headers,
            TierView::Escalate(EscalateReason::Challenge) => r matches Err(e) && e@
                == (ErrorView::NeedsManualSolve { domain: domain@ }),
            TierView::Escalate(_) => r matches Err(e) && e@ == ErrorView::NotResolved(
                domain@ + ": no request matched "@ + shown@ + " within the timeout"@,
            ),
            TierView::Failed(f) => r matches Err(e) && e@ == f,
        },
{
    match outcome {
        TierOutcome::Resolved(s) => Ok(
            SniffResult { intercepted_url: s.stream_url, headers: s.headers },
        ),
        TierOutcome::Escalate(EscalateReason::Challenge) => Err(
            CobwebError::NeedsManualSolve { domain: domain.to_owned() },
        ),
        TierOutcome::Escalate(_) => Err(
            CobwebError::NotResolved(
                cat3(
                    cat(domain, ": no request matched ").as_str(),
                    shown,
                    " within the timeout",
                ),
            ),
        ),
        TierOutcome::Failed(e) => Err(e),
    }
}

/// What `/v1/sniff` answers for the patterns it was asked about.
pub fn browser_sniff(outcome: TierOutcome, domain: &str, patterns: &Vec<String>) -> (r: Result<
    SniffResult,
    CobwebError,
>)
    ensures
        match outcome@ {
            TierView::Resolved(s) => r matches Ok(a) && a.intercepted_url@ == s.stream_url
                && a.headers.deep_view() == s.headers,
            TierView::Escalate(EscalateReason::Challenge) => r matches Err(e) && e@
                == (ErrorView::NeedsManualSolve { domain: domain@ }),
            TierView::Escalate(_) => r matches Err(e) && e@ == ErrorView::NotResolved(
                domain@ + ": no request matched "@ + list_debug(patterns.deep_view())
                    + " within the timeout"@,
            ),
            TierView::Failed(f) => r matches Err(e) && e@ == f,
        },
{
    sniff_answer(outcome, domain, call_list_debug(patterns).as_str())
}

// ---------------------------------------------------------------------------
// Laws
// ---------------------------------------------------------------------------

/// Fast mode never reaches the browser or the external solver, whatever happens:
/// the fast path is its one step.
pub proof fn fast_mode_never_reaches_the_browser(s: ResolveView, outcome: TierView)
    requires
        s.mode == Mode::Fast,
    ensures
        s.first() is Fast,
        s.fast_done(outcome).1 is Done,
{
}

/// Browser mode never runs the fast path.
pub proof fn browser_mode_skips_the_fast_path(s: ResolveView)
    requires
        s.mode == Mode::Browser,
    ensures
        !(s.first() is Fast),
{
}

/// Without a browser no browser tier runs, and the external solver is not asked.
pub proof fn no_browser_no_browser_tier(s: ResolveView, outcome: TierView)
    requires
        !s.has_browser,
    ensures
        !(s.first() is Browser),
        s.fast_done(outcome).1 is Done,
{
}

/// When every tier ends on a challenge the outcome asks for a manual solve.
pub proof fn unsolved_challenges_ask_for_a_person(s: ResolveView)
    requires
        s.mode != Mode::Fast,
    ensures
        s.retry_done(TierView::Escalate(EscalateReason::Challenge)).1 == (ResolveStepView::Done {
            result: Err(ErrorView::NeedsManualSolve { domain: s.domain }),
            remember: false,
        }),
        s.last_reason == EscalateReason::Challenge ==> s.delegate_done(None).1
            == (ResolveStepView::Done {
            result: Err(ErrorView::NeedsManualSolve { domain: s.domain }),
            remember: false,
        }),
        !s.has_delegate ==> s.browser_done(TierView::Escalate(EscalateReason::Challenge)).1
            == (ResolveStepView::Done {
            result: Err(ErrorView::NeedsManualSolve { domain: s.domain }),
            remember: false,
        }),
        !s.has_browser ==> s.fast_done(TierView::Escalate(EscalateReason::Challenge)).1
            == (ResolveStepView::Done {
            result: Err(ErrorView::NeedsManualSolve { domain: s.domain }),
            remember: false,
        }),
{
}

/// Nothing is remembered of a resolution that failed.
pub proof fn only_streams_are_remembered(s: ResolveView, step: ResolveStepView, reply: ReplyView)
    requires
        step.takes(reply),
    ensures
        s.next(step, reply).1 matches ResolveStepView::Done { result, remember } ==> remember
            == (result is Ok),
{
}

/// The tiers run in order and each at most once, the browser tier once more after
/// the external solver: every step leaves fewer to come, so that a resolution is
/// over after four.
pub proof fn tiers_run_in_order(s: ResolveView, step: ResolveStepView, reply: ReplyView)
    requires
        step.takes(reply),
    ensures
        s.first().left() <= 4,
        s.next(step, reply).1.left() < step.left(),
{
}

/// The browser tier is retried once, after the external solver answered and with
/// its cookies merged in: a retry follows the solver's answer and nothing else, and
/// after it the resolution is over.
pub proof fn the_solver_buys_one_retry(s: ResolveView, step: ResolveStepView, reply: ReplyView)
    requires
        step.takes(reply),
    ensures
        s.next(step, reply).1 matches ResolveStepView::Retry { entry } ==> step is Delegate && reply
            == ReplyView::Solver(Some(entry)),
        step is Delegate ==> (reply matches ReplyView::Solver(Some(entry)) ==> s.next(step, reply).1
            == (ResolveStepView::Retry { entry })),
        step is Retry ==> s.next(step, reply).1 is Done,
{
}

/// What is retried with holds every cookie that the solver brought back last under
/// its key, and no key that was stored is lost.
pub proof fn the_retry_has_the_solvers_cookies(
    stored: Option<EntryView>,
    domain: Seq<char>,
    key: Seq<char>,
    default_ttl_secs: u64,
    cookies: Seq<CookieView>,
    user_agent: Seq<char>,
    now: i128,
    now_secs: i64,
    j: int,
)
    requires
        0 <= j < cookies.len(),
        forall|k: int| j < k < cookies.len() ==> !(#[trigger] cookies[k]).same_key(cookies[j]),
    ensures
        ({
            let all = delegate_entry(
                stored,
                domain,
                key,
                default_ttl_secs,
                cookies,
                user_agent,
                now,
                now_secs,
            ).storage_state.cookies;
            &&& all.contains(cookies[j])
            &&& stored matches Some(e) ==> {
                &&& e.storage_state.cookies.len() <= all.len()
                &&& forall|i: int|
                    0 <= i < e.storage_state.cookies.len() ==> all[i].same_key(
                        #[trigger] e.storage_state.cookies[i],
                    )
            }
        }),
{
    let base = match stored {
        Some(e) => e.storage_state.cookies,
        None => EntryView::fresh(domain, key, default_ttl_secs, now).storage_state.cookies,
    };
    let all = merged(base, cookies);
    assert(delegate_entry(
        stored,
        domain,
        key,
        default_ttl_secs,
        cookies,
        user_agent,
        now,
        now_secs,
    ).storage_state.cookies == all);
    merge_stores_the_last_incoming(base, cookies, j);
    lemma_slot_of(all, cookies[j]);
    assert(all.contains(cookies[j])) by {
        assert(all[slot_of(all, cookies[j])->Some_0] == cookies[j]);
    }
    if base.len() > 0 {
        merge_keeps_every_key(base, cookies, base.len() - 1);
    }
    assert forall|i: int| 0 <= i < base.len() implies all[i].same_key(#[trigger] base[i]) by {
        merge_keeps_every_key(base, cookies, i);
    }
}

/// A request goes out only past its guards: the egress is vetted before it is
/// reached, the target after that where it is to be vetted, a gate opens only on
/// a verdict in the request's favour, and a refusal shuts the way for good.
pub proof fn guards_precede_every_fetch(
    url: UrlView,
    domain: Seq<char>,
    egress: EgressView,
    guards: Guards,
)
    ensures
        ({
            let a = AdmissionView::entered(url, domain, egress, guards);
            &&& a.gate == Gate::Egress
            &&& a.passed().gate == Gate::Reach
            &&& a.passed().passed().gate == if guards.vet_target {
                Gate::Target
            } else {
                Gate::Open
            }
            &&& a.passed().passed().passed().gate == Gate::Open
            &&& a.refused().passed().gate == Gate::Shut
            &&& forall|addrs: Option<Seq<IpView>>| #[trigger]
                a.verdict(addrs) == egress_verdict(egress, guards.allow_private, addrs)
            &&& guards.vet_target ==> forall|addrs: Option<Seq<IpView>>| #[trigger]
                a.passed().passed().verdict(addrs) == url_verdict(
                    url,
                    egress.proxy is None,
                    guards.allow_private,
                    addrs,
                )
        }),
{
}

/// What a caller adds to a navigation can neither authenticate nor reroute it.
pub proof fn routing_headers_are_dropped(hs: Seq<(Seq<char>, Seq<char>)>, i: int)
    requires
        0 <= i < navigate_kept(hs).len(),
    ensures
        navigate_allows(navigate_kept(hs)[i].0),
        lower(trimmed(navigate_kept(hs)[i].0)) != "host"@,
        lower(trimmed(navigate_kept(hs)[i].0)) != "authorization"@,
        lower(trimmed(navigate_kept(hs)[i].0)) != "cookie"@,
        lower(trimmed(navigate_kept(hs)[i].0)) != "x-forwarded-for"@,
    decreases hs.len(),
{
    if hs.len() > 0 {
        let front = navigate_kept(hs.drop_last());
        if i < front.len() {
            routing_headers_are_dropped(hs.drop_last(), i);
        }
        lemma_shaping_headers(lower(trimmed(navigate_kept(hs)[i].0)));
    }
}

/// None of the headers that are let through is one that routes or authenticates.
proof fn lemma_shaping_headers(n: Seq<char>)
    requires
        "sec-fetch-"@.is_prefix_of(n) || n == "referer"@ || n == "origin"@ || n == "accept"@ || n
            == "accept-language"@ || n == "accept-encoding"@ || n == "range"@ || n
            == "x-requested-with"@ || n == "upgrade-insecure-requests"@,
    ensures
        n != "host"@,
        n != "authorization"@,
        n != "cookie"@,
        n != "x-forwarded-for"@,
{
    reveal_strlit("sec-fetch-");
    reveal_strlit("referer");
    reveal_strlit("origin");
    reveal_strlit("accept");
    reveal_strlit("accept-language");
    reveal_strlit("accept-encoding");
    reveal_strlit("range");
    reveal_strlit("x-requested-with");
    reveal_strlit("upgrade-insecure-requests");
    reveal_strlit("host");
    reveal_strlit("authorization");
    reveal_strlit("cookie");
    reveal_strlit("x-forwarded-for");
    assert("host"@[0] == 'h');
    assert("authorization"@[0] == 'a' && "authorization"@[1] == 'u');
    assert("cookie"@[0] == 'c');
    assert("x-forwarded-for"@[0] == 'x' && "x-forwarded-for"@[2] == 'f');
    assert("x-requested-with"@[0] == 'x' && "x-requested-with"@[2] == 'r');
    assert("accept"@[0] == 'a' && "accept"@[1] == 'c');
    assert("accept-language"@[0] == 'a' && "accept-language"@[1] == 'c');
    assert("accept-encoding"@[0] == 'a' && "accept-encoding"@[1] == 'c');
    assert("referer"@[0] == 'r');
    assert("origin"@[0] == 'o');
    assert("range"@[0] == 'r');
    assert("upgrade-insecure-requests"@[0] == 'u');
    if "sec-fetch-"@.is_prefix_of(n) {
        assert("sec-fetch-"@[0] == 's');
        assert(n[0] == 's');
    }
}

proof fn lemma_without_other(hs: Seq<(Seq<char>, Seq<char>)>, other: Seq<char>, name: Seq<char>)
    requires
        names_header(hs, name),
        name != other,
    ensures
        names_header(without_header(hs, other), name),
    decreases hs.len(),
{
    let front = hs.drop_last();
    let kept = without_header(front, other);
    let i = choose|i: int| 0 <= i < hs.len() && (#[trigger] hs[i]).0 == name;
    if i < hs.len() - 1 {
        assert(front[i].0 == name);
        lemma_without_other(front, other, name);
        let k = choose|k: int| 0 <= k < kept.len() && (#[trigger] kept[k]).0 == name;
        assert(kept.push(hs.last())[k].0 == name);
    } else {
        assert(kept.push(hs.last())[kept.len() as int].0 == name);
    }
}

/// A browser replay set always names a referer.
pub proof fn replay_sets_name_a_referer(hit: HitView, cookies: Seq<CookieView>, now: i64)
    ensures
        names_header(browser_replayed(hit, cookies, now), "referer"@),
{
    reveal_strlit("referer");
    reveal_strlit("cookie");
    assert("referer"@.len() == 7);
    assert("cookie"@.len() == 6);
    let kept = kept_headers(hit.request_headers);
    let referred = if names_header(kept, "referer"@) {
        kept
    } else {
        kept.push(("referer"@, hit.final_url.text))
    };
    if !names_header(kept, "referer"@) {
        assert(referred[kept.len() as int].0 == "referer"@);
    }
    match header_for(cookies, host_or_empty(hit.url), (now * MICROS_PER_SEC) as i128) {
        Some(c) => {
            lemma_without_other(referred, "cookie"@, "referer"@);
            let w = without_header(referred, "cookie"@);
            let k = choose|k: int| 0 <= k < w.len() && (#[trigger] w[k]).0 == "referer"@;
            assert(w.push(("cookie"@, c))[k].0 == "referer"@);
        },
        None => {},
    }
}

/// What the fast path hands on of a stream holds the session: every cookie that
/// the response set last under its key, and a cookie under every key that the jar
/// had, in the jar's order.
pub proof fn a_fast_stream_keeps_the_session(
    url: UrlView,
    globs: Seq<Seq<char>>,
    jar: Option<EntryView>,
    resp: ResponseView,
    hit: Option<(UrlView, StreamKind)>,
    now: i64,
)
    requires
        fast_verdict(url, globs, jar, resp, hit, now) is Resolved,
    ensures
        ({
            let s = fast_verdict(url, globs, jar, resp, hit, now)->Resolved_0;
            &&& forall|j: int|
                0 <= j < resp.set_cookies.len() && (forall|k: int|
                    j < k < resp.set_cookies.len() ==> !(#[trigger] resp.set_cookies[k]).same_key(
                        resp.set_cookies[j],
                    )) ==> s.cookies.contains(#[trigger] resp.set_cookies[j])
            &&& jar matches Some(e) ==> {
                &&& e.storage_state.cookies.len() <= s.cookies.len()
                &&& forall|i: int|
                    0 <= i < e.storage_state.cookies.len() ==> {
                        let c = #[trigger] e.storage_state.cookies[i];
                        &&& s.cookies[i].name == c.name
                        &&& s.cookies[i].domain == c.domain
                        &&& s.cookies[i].path == c.path
                        &&& s.cookies[i] == c || resp.set_cookies.contains(s.cookies[i])
                    }
            }
        }),
{
    let base = jar_cookies(jar);
    let inc = resp.set_cookies;
    let all = merged(base, inc);
    let s = fast_verdict(url, globs, jar, resp, hit, now)->Resolved_0;
    assert(s.cookies == all);
    assert forall|j: int|
        0 <= j < inc.len() && (forall|k: int|
            j < k < inc.len() ==> !(#[trigger] inc[k]).same_key(inc[j])) implies all.contains(
        #[trigger] inc[j],
    ) by {
        merge_stores_the_last_incoming(base, inc, j);
        lemma_slot_of(all, inc[j]);
        assert(all[slot_of(all, inc[j])->Some_0] == inc[j]);
    }
    if base.len() > 0 {
        merge_keeps_every_key(base, inc, base.len() - 1);
    }
    assert forall|i: int| 0 <= i < base.len() implies {
        let c = #[trigger] base[i];
        &&& all[i].name == c.name
        &&& all[i].domain == c.domain
        &&& all[i].path == c.path
        &&& all[i] == c || inc.contains(all[i])
    } by {
        merge_keeps_every_key(base, inc, i);
    }
}

/// Every cookie that is handed on, is live and covers the page's host is in the
/// cookie header to replay; so a cookie that the response set is.
pub proof fn a_fast_stream_replays_its_cookies(
    url: UrlView,
    globs: Seq<Seq<char>>,
    jar: Option<EntryView>,
    resp: ResponseView,
    hit: Option<(UrlView, StreamKind)>,
    now: i64,
    host: Seq<char>,
    i: int,
    j: int,
)
    requires
        fast_verdict(url, globs, jar, resp, hit, now) is Resolved,
        url.host == Some(host),
    ensures
        ({
            let s = fast_verdict(url, globs, jar, resp, hit, now)->Resolved_0;
            &&& 0 <= i < s.cookies.len() && (s.cookies[i].expires < 0 || s.cookies[i].expires > now
                * 1_000_000) && covers(s.cookies[i].domain, host) ==> replays_cookie(
                s.headers,
                s.cookies[i],
            )
            &&& 0 <= j < resp.set_cookies.len() && (resp.set_cookies[j].expires < 0
                || resp.set_cookies[j].expires > now * 1_000_000) && covers(
                resp.set_cookies[j].domain,
                host,
            ) && (forall|k: int|
                j < k < resp.set_cookies.len() ==> !(#[trigger] resp.set_cookies[k]).same_key(
                    resp.set_cookies[j],
                )) ==> replays_cookie(s.headers, resp.set_cookies[j])
        }),
{
    let s = fast_verdict(url, globs, jar, resp, hit, now)->Resolved_0;
    let at = (now * MICROS_PER_SEC) as i128;
    assert(at == now * 1_000_000);
    if 0 <= i < s.cookies.len() && (s.cookies[i].expires < 0 || s.cookies[i].expires > at)
        && covers(s.cookies[i].domain, host) {
        lemma_replays(url, jar, s.cookies, now, host, i);
    }
    if 0 <= j < resp.set_cookies.len() && (resp.set_cookies[j].expires < 0
        || resp.set_cookies[j].expires > at) && covers(resp.set_cookies[j].domain, host) && (
    forall|k: int|
        j < k < resp.set_cookies.len() ==> !(#[trigger] resp.set_cookies[k]).same_key(
            resp.set_cookies[j],
        )) {
        a_fast_stream_keeps_the_session(url, globs, jar, resp, hit, now);
        assert(s.cookies.contains(resp.set_cookies[j]));
        let w = choose|w: int| 0 <= w < s.cookies.len() && s.cookies[w] == resp.set_cookies[j];
        lemma_replays(url, jar, s.cookies, now, host, w);
    }
}

/// Whether a list of headers has a cookie header with a cookie's pair in it.
pub open spec fn replays_cookie(hs: Seq<(Seq<char>, Seq<char>)>, c: CookieView) -> bool {
    exists|k: int|
        0 <= k < hs.len() && (#[trigger] hs[k]).0 == "cookie"@ && has(
            hs[k].1,
            c.name + seq!['='] + c.value,
        )
}

proof fn lemma_replays(
    url: UrlView,
    jar: Option<EntryView>,
    cookies: Seq<CookieView>,
    now: i64,
    host: Seq<char>,
    i: int,
)
    requires
        url.host == Some(host),
        0 <= i < cookies.len(),
        cookies[i].expires < 0 || cookies[i].expires > now * 1_000_000,
        covers(cookies[i].domain, host),
    ensures
        replays_cookie(replayed(url, jar, cookies, now), cookies[i]),
{
    let at = (now * MICROS_PER_SEC) as i128;
    assert(at == now * 1_000_000);
    every_live_cookie_is_sent(cookies, host, at, i);
    let hs = replayed(url, jar, cookies, now);
    let h = header_for(cookies, host, at)->Some_0;
    assert(hs[hs.len() - 1] == ("cookie"@, h));
}

/// A page that is no challenge and shows a wanted stream resolves to it; one that
/// shows none needs scripts, one that shows another is passed on, and a challenge
/// is one whatever the page shows.
pub proof fn the_fast_path_resolves_what_it_finds(
    url: UrlView,
    globs: Seq<Seq<char>>,
    jar: Option<EntryView>,
    resp: ResponseView,
    u: UrlView,
    kind: StreamKind,
    now: i64,
)
    ensures
        ({
            let challenge = is_challenge(
                resp.status,
                resp.body,
                header_value(resp.headers, "server"@),
            );
            let found = fast_verdict(url, globs, jar, resp, Some((u, kind)), now);
            let nothing = fast_verdict(url, globs, jar, resp, None, now);
            &&& challenge || resp.status == 403 || resp.status == 429 ==> found
                == TierView::Escalate(EscalateReason::Challenge) && nothing == TierView::Escalate(
                EscalateReason::Challenge,
            )
            &&& !challenge && resp.status != 403 && resp.status != 429 ==> {
                &&& nothing == TierView::Escalate(EscalateReason::NeedsJs)
                &&& wanted(globs, u) ==> (found matches TierView::Resolved(s) && s.stream_url
                    == u.text && s.kind == kind)
                &&& !wanted(globs, u) ==> found == TierView::Escalate(EscalateReason::NotFound)
            }
        }),
{
}

/// The answer is judged by the stream that the page itself shows, read against
/// the URL that answered.
pub proof fn the_fast_path_reads_the_page(
    url: UrlView,
    globs: Seq<Seq<char>>,
    jar: Option<EntryView>,
    resp: ResponseView,
    now: i64,
)
    ensures
        fast_outcome(url, globs, jar, resp, now) matches TierView::Resolved(s) ==> (sniffed(
            resp.body,
            resp.final_url.text,
        ) matches Some(hit) && hit.0.text == s.stream_url && hit.1 == s.kind),
        fast_outcome(url, globs, jar, resp, now) == TierView::Escalate(EscalateReason::NeedsJs)
            ==> sniffed(resp.body, resp.final_url.text) is None,
{
}

/// A stream URL is wanted where a pattern matches its path, all of it, or what
/// follows the last slash of its path, and every one is without patterns.
pub proof fn a_pattern_may_match_path_file_or_url(globs: Seq<Seq<char>>, u: UrlView, i: int)
    ensures
        globs.len() == 0 ==> wanted(globs, u),
        any_matches(globs, u.path) ==> wanted(globs, u),
        any_matches(globs, u.text) ==> wanted(globs, u),
        0 <= i < u.path.len() && u.path[i] == '/' && (forall|k: int|
            i < k < u.path.len() ==> #[trigger] u.path[k] != '/') && any_matches(
            globs,
            u.path.skip(i + 1),
        ) ==> wanted(globs, u),
        wanted(globs, u) && globs.len() > 0 && !any_matches(globs, u.path) && !any_matches(
            globs,
            u.text,
        ) ==> any_matches(globs, pieces(u.path, only('/')).last()),
{
    if 0 <= i < u.path.len() && u.path[i] == '/' && (forall|k: int|
        i < k < u.path.len() ==> #[trigger] u.path[k] != '/') {
        the_last_piece_follows_the_last_separator(u.path, only('/'), i);
    }
}

/// The request for a page sends every live cookie of the jar that covers its host,
/// and the user agent and language that the jar pins.
pub proof fn the_jar_goes_out_with_the_request(
    url: UrlView,
    egress: EgressView,
    e: EntryView,
    extra: Seq<(Seq<char>, Seq<char>)>,
    timeout_ms: u64,
    now: i64,
    host: Seq<char>,
    i: int,
)
    requires
        url.host == Some(host),
    ensures
        ({
            let r = fast_request(url, egress, Some(e), extra, timeout_ms, now);
            let cs = e.storage_state.cookies;
            &&& 0 <= i < cs.len() && (cs[i].expires < 0 || cs[i].expires > now * 1_000_000)
                && covers(cs[i].domain, host) ==> (r.cookie_header matches Some(h) && has(
                h,
                cs[i].name + seq!['='] + cs[i].value,
            ))
            &&& r.cookie_header is Some ==> exists|k: int|
                0 <= k < cs.len() && ((#[trigger] cs[k]).expires < 0 || cs[k].expires > now
                    * 1_000_000) && covers(cs[k].domain, host)
            &&& e.user_agent.len() > 0 ==> r.user_agent == Some(e.user_agent)
            &&& e.accept_language.len() > 0 ==> r.accept_language == Some(e.accept_language)
            &&& e.user_agent.len() == 0 ==> r.user_agent is None
            &&& e.accept_language.len() == 0 ==> r.accept_language is None
            &&& r.url == url && r.egress == egress && r.extra_headers == extra && r.timeout_ms
                == timeout_ms
        }),
{
    let at = (now * MICROS_PER_SEC) as i128;
    assert(at == now * 1_000_000);
    let cs = e.storage_state.cookies;
    if 0 <= i < cs.len() && (cs[i].expires < 0 || cs[i].expires > at) && covers(
        cs[i].domain,
        host,
    ) {
        every_live_cookie_is_sent(cs, host, at, i);
    }
    lemma_some_cookie(cs, host, at);
}

proof fn lemma_some_cookie(cs: Seq<CookieView>, host: Seq<char>, at: i128)
    ensures
        header_for(cs, host, at) is Some ==> exists|k: int|
            0 <= k < cs.len() && ((#[trigger] cs[k]).expires < 0 || cs[k].expires > at) && covers(
                cs[k].domain,
                host,
            ),
    decreases cs.len(),
{
    if cs.len() > 0 {
        let front = cs.drop_last();
        let c = cs.last();
        lemma_some_cookie(front, host, at);
        a_live_cookie_joins_the_header(front, c, host, at);
        assert(front.push(c) =~= cs);
        if header_for(cs, host, at) is Some {
            if (c.expires < 0 || c.expires > at) && covers(c.domain, host) {
                assert(cs[cs.len() - 1] == c);
            } else {
                let k = choose|k: int|
                    0 <= k < front.len() && ((#[trigger] front[k]).expires < 0 || front[k].expires
                        > at) && covers(front[k].domain, host);
                assert(cs[k] == front[k]);
            }
        }
    } else {
        a_live_cookie_joins_the_header(
            cs,
            CookieView::plain(seq![], seq![], seq![]),
            host,
            at,
        );
        assert(cs =~= seq![]);
    }
}

/// What is to be replayed names the page as referer and has the user agent and
/// language that the jar pins.
pub proof fn a_fast_stream_replays_the_pins(
    url: UrlView,
    jar: Option<EntryView>,
    cookies: Seq<CookieView>,
    now: i64,
)
    ensures
        replayed(url, jar, cookies, now).contains(("referer"@, url.text)),
        jar matches Some(e) ==> {
            &&& e.user_agent.len() > 0 ==> replayed(url, jar, cookies, now).contains(
                ("user-agent"@, e.user_agent),
            )
            &&& e.accept_language.len() > 0 ==> replayed(url, jar, cookies, now).contains(
                ("accept-language"@, e.accept_language),
            )
        },
{
    let hs = replayed(url, jar, cookies, now);
    let a = pinned_header("user-agent"@, pinned_ua(jar));
    let b = pinned_header("accept-language"@, pinned_language(jar));
    assert(hs[(a.len() + b.len()) as int] == ("referer"@, url.text));
    if let Some(e) = jar {
        if e.user_agent.len() > 0 {
            assert(hs[0] == ("user-agent"@, e.user_agent));
        }
        if e.accept_language.len() > 0 {
            assert(hs[a.len() as int] == ("accept-language"@, e.accept_language));
        }
    }
}

/// The headers of a browser's request that are worth replaying are all kept, under
/// their names in lower case, and no other.
pub proof fn replayable_headers_are_kept(
    hs: Seq<(Seq<char>, Seq<char>)>,
    h: (Seq<char>, Seq<char>),
)
    ensures
        ({
            let n = lower(h.0);
            let worth = n == "user-agent"@ || n == "accept"@ || n == "accept-language"@ || n
                == "referer"@ || n == "origin"@ || n == "authorization"@ || n == "cookie"@ || n
                == "sec-ch-ua"@ || n == "sec-ch-ua-mobile"@ || n == "sec-ch-ua-platform"@ || n
                == "sec-fetch-dest"@ || n == "sec-fetch-mode"@ || n == "sec-fetch-site"@ || (n.len()
                >= 2 && n[0] == 'x' && n[1] == '-');
            &&& kept_headers(seq![]).len() == 0
            &&& worth ==> kept_headers(hs.push(h)) == kept_headers(hs).push((n, h.1))
            &&& !worth ==> kept_headers(hs.push(h)) == kept_headers(hs)
        }),
{
    reveal_strlit("x-");
    let n = lower(h.0);
    assert(hs.push(h).drop_last() =~= hs);
    if n.len() >= 2 && n[0] == 'x' && n[1] == '-' {
        assert("x-"@ =~= n.subrange(0, 2));
    } else if "x-"@.is_prefix_of(n) {
        assert(n[0] == "x-"@[0]);
        assert(n[1] == "x-"@[1]);
    }
}

/// A browser replay set has all that was kept but a stale cookie header, and a
/// cookie header with every stored cookie that is live and covers the stream's
/// host.
pub proof fn a_browser_stream_replays_its_session(
    hit: HitView,
    cookies: Seq<CookieView>,
    now: i64,
    host: Seq<char>,
    i: int,
    j: int,
)
    requires
        hit.url.host == Some(host),
    ensures
        ({
            let hs = browser_replayed(hit, cookies, now);
            let kept = kept_headers(hit.request_headers);
            &&& 0 <= i < cookies.len() && (cookies[i].expires < 0 || cookies[i].expires > now
                * 1_000_000) && covers(cookies[i].domain, host) ==> replays_cookie(hs, cookies[i])
            &&& 0 <= j < kept.len() && kept[j].0 != "cookie"@ ==> hs.contains(kept[j])
            &&& 0 <= j < kept.len() && header_for(
                cookies,
                host,
                (now * 1_000_000) as i128,
            ) is None ==> hs.contains(kept[j])
            &&& forall|k: int|
                0 <= k < hs.len() && (#[trigger] hs[k]).0 == "cookie"@ && header_for(
                    cookies,
                    host,
                    (now * 1_000_000) as i128,
                ) is Some ==> Some(hs[k].1) == header_for(cookies, host, (now * 1_000_000) as i128)
            &&& !names_header(kept, "referer"@) ==> hs.contains(("referer"@, hit.final_url.text))
        }),
{
    let at = (now * MICROS_PER_SEC) as i128;
    assert(at == now * 1_000_000);
    reveal_strlit("referer");
    reveal_strlit("cookie");
    assert("referer"@.len() == 7);
    assert("cookie"@.len() == 6);
    let hs = browser_replayed(hit, cookies, now);
    let kept = kept_headers(hit.request_headers);
    let referred = if names_header(kept, "referer"@) {
        kept
    } else {
        kept.push(("referer"@, hit.final_url.text))
    };
    let w = without_header(referred, "cookie"@);
    if 0 <= i < cookies.len() && (cookies[i].expires < 0 || cookies[i].expires > at) && covers(
        cookies[i].domain,
        host,
    ) {
        every_live_cookie_is_sent(cookies, host, at, i);
        let h = header_for(cookies, host, at)->Some_0;
        assert(hs[w.len() as int] == ("cookie"@, h));
    }
    if 0 <= j < kept.len() {
        assert(referred[j] == kept[j]);
        if kept[j].0 != "cookie"@ {
            lemma_others_stay(referred, "cookie"@, j);
            let k = choose|k: int| 0 <= k < w.len() && w[k] == kept[j];
            if header_for(cookies, host, at) is Some {
                assert(hs[k] == kept[j]);
            }
        }
        if header_for(cookies, host, at) is None {
            assert(hs[j] == kept[j]);
        }
    }
    if !names_header(kept, "referer"@) {
        let r = ("referer"@, hit.final_url.text);
        assert(referred[kept.len() as int] == r);
        lemma_others_stay(referred, "cookie"@, kept.len() as int);
        let k = choose|k: int| 0 <= k < w.len() && w[k] == r;
        if header_for(cookies, host, at) is Some {
            assert(hs[k] == r);
        } else {
            assert(hs[kept.len() as int] == r);
        }
    }
    assert forall|k: int|
        0 <= k < hs.len() && (#[trigger] hs[k]).0 == "cookie"@ && header_for(
            cookies,
            host,
            at,
        ) is Some implies Some(hs[k].1) == header_for(cookies, host, at) by {
        if k < w.len() {
            lemma_name_is_gone(referred, "cookie"@, k);
        }
    }
}

proof fn lemma_others_stay(hs: Seq<(Seq<char>, Seq<char>)>, name: Seq<char>, j: int)
    requires
        0 <= j < hs.len(),
        hs[j].0 != name,
    ensures
        without_header(hs, name).contains(hs[j]),
    decreases hs.len(),
{
    let front = hs.drop_last();
    let kept = without_header(front, name);
    let all = without_header(hs, name);
    if j < front.len() {
        lemma_others_stay(front, name, j);
        let k = choose|k: int| 0 <= k < kept.len() && kept[k] == hs[j];
        assert(all[k] == hs[j]);
    } else {
        assert(all[kept.len() as int] == hs[j]);
    }
}

proof fn lemma_name_is_gone(hs: Seq<(Seq<char>, Seq<char>)>, name: Seq<char>, k: int)
    requires
        0 <= k < without_header(hs, name).len(),
    ensures
        without_header(hs, name)[k].0 != name,
    decreases hs.len(),
{
    if hs.len() > 0 {
        let kept = without_header(hs.drop_last(), name);
        if k < kept.len() {
            lemma_name_is_gone(hs.drop_last(), name, k);
        }
    }
}

/// A sniff that found a stream hands on its URL and all the cookies of the
/// context; one that found none is passed on, and a fault of the browser is not.
pub proof fn a_sniffed_stream_is_handed_on(
    hit: HitView,
    cookies: Seq<CookieView>,
    now: i64,
    ms: u64,
    m: Seq<char>,
)
    ensures
        sniff_outcome(Ok(hit), cookies, now) matches TierView::Resolved(s) && s.stream_url
            == hit.url.text && s.cookies == cookies && s.headers == browser_replayed(
            hit,
            cookies,
            now,
        ) && (match kind_of_path(hit.url.path) {
            Some(k) => s.kind == k,
            None => s.kind == StreamKind::Hls,
        }),
        sniff_outcome(Err(BrowserFault::Challenge), cookies, now) == TierView::Escalate(
            EscalateReason::Challenge,
        ),
        sniff_outcome(Err(BrowserFault::NoMatch), cookies, now) == TierView::Escalate(
            EscalateReason::NotFound,
        ),
        sniff_outcome(Err(BrowserFault::Timeout(ms)), cookies, now) == TierView::Escalate(
            EscalateReason::NotFound,
        ),
        sniff_outcome(Err(BrowserFault::Unavailable(m)), cookies, now) is Failed,
        sniff_outcome(Err(BrowserFault::Cdp(m)), cookies, now) is Failed,
        sniff_outcome(Err(BrowserFault::Other(m)), cookies, now) is Failed,
{
}

/// A stream that a tier found ends the resolution with it, under the tier's name
/// and for the resolution's domain, and an outright failure ends it with its
/// error.
pub proof fn what_a_tier_found_is_the_result(s: ResolveView, stream: StreamView, e: ErrorView)
    ensures
        ({
            let hit = TierView::Resolved(stream);
            let done = |via: ViaTier|
                ResolveStepView::Done {
                    result: Ok(OutcomeView { stream, via_tier: via, domain: s.domain }),
                    remember: true,
                };
            &&& s.fast_done(hit).1 == done(ViaTier::Fastpath)
            &&& s.browser_done(hit).1 == done(ViaTier::Browser)
            &&& s.retry_done(hit).1 == done(ViaTier::Flaresolverr)
        }),
        ({
            let fault = TierView::Failed(e);
            let over = ResolveStepView::Done { result: Err(e), remember: false };
            &&& s.fast_done(fault).1 == over
            &&& s.browser_done(fault).1 == over
            &&& s.retry_done(fault).1 == over
        }),
{
}

/// Where the fast path finds nothing the browser runs, if there is one and it may;
/// where the browser meets a challenge the external solver is asked, if there is
/// one.
pub proof fn a_tier_that_passes_hands_on(s: ResolveView, r: EscalateReason)
    ensures
        s.mode != Mode::Browser ==> s.first() is Fast,
        s.mode == Mode::Browser && s.has_browser ==> s.first() is Browser,
        s.mode != Mode::Fast && s.has_browser ==> s.fast_done(
            TierView::Escalate(r),
        ).1 is Browser,
        s.mode != Mode::Fast && s.has_browser && s.has_delegate ==> s.browser_done(
            TierView::Escalate(EscalateReason::Challenge),
        ).1 is Delegate,
        r != EscalateReason::Challenge ==> s.browser_done(TierView::Escalate(r)).1 is Done,
        s.fast_done(TierView::Escalate(r)).0 == (ResolveView { last_reason: r, ..s }),
        s.browser_done(TierView::Escalate(r)).0 == (ResolveView { last_reason: r, ..s }),
{
}

/// The error of an unfinished resolution says what is missing: a person for a
/// challenge, a browser for a page that needs one, and otherwise that there is no
/// stream; fast mode asks for neither.
pub proof fn unfinished_resolutions_say_what_is_missing(
    domain: Seq<char>,
    r: EscalateReason,
    browser_ran: bool,
    mode: Mode,
)
    ensures
        unresolved(domain, Mode::Fast, r, browser_ran) is NotResolved,
        mode != Mode::Fast ==> unresolved(domain, mode, EscalateReason::Challenge, browser_ran) == (
        ErrorView::NeedsManualSolve { domain }),
        mode != Mode::Fast ==> unresolved(domain, mode, EscalateReason::NeedsJs, false) is NeedsBrowser,
        r != EscalateReason::Challenge ==> unresolved(domain, mode, r, true) is NotResolved,
        mode != Mode::Fast && r == EscalateReason::NotFound ==> unresolved(
            domain,
            mode,
            r,
            browser_ran,
        ) is NotResolved,
{
}

/// What is remembered of a stream is its cookies, on the entry that was there or a
/// new one; what was pinned stays pinned, and a first value is pinned otherwise.
pub proof fn a_success_is_remembered(
    seed: Option<EntryView>,
    domain: Seq<char>,
    key: Seq<char>,
    ttl: u64,
    stream: StreamView,
    now: i128,
    now_secs: i64,
)
    ensures
        ({
            let e = success_entry(seed, domain, key, ttl, stream, now, now_secs);
            &&& e.storage_state.cookies == stream.cookies
            &&& seed matches Some(b) ==> e.domain == b.domain && e.egress == b.egress && e.created
                == b.created && e.storage_state.origins == b.storage_state.origins && e.fail_streak
                == b.fail_streak && e.last_ok == b.last_ok && (b.user_agent.len() > 0
                ==> e.user_agent == b.user_agent) && (b.accept_language.len() > 0
                ==> e.accept_language == b.accept_language)
            &&& seed is None ==> e.domain == domain && e.egress == key && e.created == now
                && e.last_ok is None && e.fail_streak == 0
            &&& (match ttl_hint(stream.cookies, "cf_clearance"@, now_secs) {
                Some(secs) => e.ttl_hint_secs == secs,
                None => e.ttl_hint_secs == (match seed {
                    Some(b) => b.ttl_hint_secs,
                    None => ttl,
                }),
            })
        }),
{
    if let Some(b) = seed {
        if b.user_agent.len() > 0 {
            lemma_pinned(b.user_agent, stream.headers, "user-agent"@);
        }
        if b.accept_language.len() > 0 {
            lemma_pinned(b.accept_language, stream.headers, "accept-language"@);
        }
    }
}

proof fn lemma_pinned(pinned: Seq<char>, hs: Seq<(Seq<char>, Seq<char>)>, name: Seq<char>)
    requires
        pinned.len() > 0,
    ensures
        first_pin(pinned, hs, name) == pinned,
    decreases hs.len(),
{
    if hs.len() > 0 {
        lemma_pinned(pinned, hs.drop_last(), name);
    }
}

/// Where nothing is pinned the first header of the name that says something is
/// pinned.
pub proof fn the_first_value_is_pinned(hs: Seq<(Seq<char>, Seq<char>)>, name: Seq<char>, i: int)
    requires
        0 <= i < hs.len(),
        hs[i].0 == name,
        hs[i].1.len() > 0,
        forall|k: int| 0 <= k < i ==> (#[trigger] hs[k]).0 != name || hs[k].1.len() == 0,
    ensures
        first_pin(seq![], hs, name) == hs[i].1,
    decreases hs.len(),
{
    let front = hs.drop_last();
    if i < front.len() {
        the_first_value_is_pinned(front, name, i);
    } else {
        lemma_unpinned(front, name);
    }
}

proof fn lemma_unpinned(hs: Seq<(Seq<char>, Seq<char>)>, name: Seq<char>)
    requires
        forall|k: int| 0 <= k < hs.len() ==> (#[trigger] hs[k]).0 != name || hs[k].1.len() == 0,
    ensures
        first_pin(seq![], hs, name).len() == 0,
    decreases hs.len(),
{
    if hs.len() > 0 {
        let front = hs.drop_last();
        assert forall|k: int| 0 <= k < front.len() implies (#[trigger] front[k]).0 != name
            || front[k].1.len() == 0 by {
            assert(front[k] == hs[k]);
        }
        lemma_unpinned(front, name);
        assert(hs[hs.len() - 1].0 != name || hs[hs.len() - 1].1.len() == 0);
    }
}

/// The solver's user agent is pinned where it names one, and its clearance cookie
/// tells how long the entry lasts; all else of the entry stays.
pub proof fn a_solution_is_remembered(
    stored: Option<EntryView>,
    domain: Seq<char>,
    key: Seq<char>,
    ttl: u64,
    cookies: Seq<CookieView>,
    user_agent: Seq<char>,
    now: i128,
    now_secs: i64,
)
    ensures
        ({
            let e = delegate_entry(
                stored,
                domain,
                key,
                ttl,
                cookies,
                user_agent,
                now,
                now_secs,
            );
            &&& user_agent.len() > 0 ==> e.user_agent == user_agent
            &&& user_agent.len() == 0 ==> e.user_agent == (match stored {
                Some(b) => b.user_agent,
                None => seq![],
            })
            &&& stored matches Some(b) ==> e.domain == b.domain && e.egress == b.egress && e.created
                == b.created && e.accept_language == b.accept_language && e.storage_state.origins
                == b.storage_state.origins
            &&& stored is None ==> e.domain == domain && e.egress == key && e.created == now
            &&& (match ttl_hint(e.storage_state.cookies, "cf_clearance"@, now_secs) {
                Some(secs) => e.ttl_hint_secs == secs,
                None => e.ttl_hint_secs == (match stored {
                    Some(b) => b.ttl_hint_secs,
                    None => ttl,
                }),
            })
        }),
{
}

/// The cookies that an evaluation picked up are remembered on top of those that
/// were stored: each that came last under its key, and every key that was there.
pub proof fn an_evaluation_is_remembered(
    seed: Option<EntryView>,
    domain: Seq<char>,
    key: Seq<char>,
    ttl: u64,
    cookies: Seq<CookieView>,
    now: i128,
)
    ensures
        ({
            let e = eval_entry(seed, domain, key, ttl, cookies, now);
            let all = e.storage_state.cookies;
            &&& forall|j: int|
                0 <= j < cookies.len() && (forall|k: int|
                    j < k < cookies.len() ==> !(#[trigger] cookies[k]).same_key(cookies[j]))
                    ==> all.contains(#[trigger] cookies[j])
            &&& seed matches Some(b) ==> {
                &&& b.storage_state.cookies.len() <= all.len()
                &&& forall|i: int|
                    0 <= i < b.storage_state.cookies.len() ==> all[i].same_key(
                        #[trigger] b.storage_state.cookies[i],
                    )
                &&& e.user_agent == b.user_agent
                &&& e.accept_language == b.accept_language
                &&& e.ttl_hint_secs == b.ttl_hint_secs
                &&& e.created == b.created
                &&& e.domain == b.domain
                &&& e.egress == b.egress
            }
            &&& seed is None ==> e.domain == domain && e.egress == key && e.ttl_hint_secs == ttl
                && e.created == now
        }),
{
    let base = match seed {
        Some(b) => b.storage_state.cookies,
        None => seq![],
    };
    let all = merged(base, cookies);
    assert(eval_entry(seed, domain, key, ttl, cookies, now).storage_state.cookies == all);
    assert forall|j: int|
        0 <= j < cookies.len() && (forall|k: int|
            j < k < cookies.len() ==> !(#[trigger] cookies[k]).same_key(
                cookies[j],
            )) implies all.contains(#[trigger] cookies[j]) by {
        merge_stores_the_last_incoming(base, cookies, j);
        lemma_slot_of(all, cookies[j]);
        assert(all[slot_of(all, cookies[j])->Some_0] == cookies[j]);
    }
    if base.len() > 0 {
        merge_keeps_every_key(base, cookies, base.len() - 1);
    }
    assert forall|i: int| 0 <= i < base.len() implies all[i].same_key(#[trigger] base[i]) by {
        merge_keeps_every_key(base, cookies, i);
    }
}

/// The caller's request-shaping headers are let through as they are, in order,
/// whatever the case of their names and the space around them, and no other.
pub proof fn shaping_headers_are_let_through(
    hs: Seq<(Seq<char>, Seq<char>)>,
    h: (Seq<char>, Seq<char>),
)
    ensures
        ({
            let n = lower(trimmed(h.0));
            let shaping = n == "referer"@ || n == "origin"@ || n == "accept"@ || n
                == "accept-language"@ || n == "accept-encoding"@ || n == "range"@ || n
                == "x-requested-with"@ || n == "upgrade-insecure-requests"@ || (n.len() >= 10
                && n.take(10) == "sec-fetch-"@);
            &&& navigate_kept(seq![]).len() == 0
            &&& shaping ==> navigate_kept(hs.push(h)) == navigate_kept(hs).push(h)
            &&& !shaping ==> navigate_kept(hs.push(h)) == navigate_kept(hs)
        }),
{
    reveal_strlit("sec-fetch-");
    let n = lower(trimmed(h.0));
    assert(hs.push(h).drop_last() =~= hs);
    if "sec-fetch-"@.is_prefix_of(n) {
        assert(n.take(10) =~= "sec-fetch-"@);
    }
    if n.len() >= 10 && n.take(10) == "sec-fetch-"@ {
        assert(n.subrange(0, 10) =~= n.take(10));
        assert("sec-fetch-"@.is_prefix_of(n));
    }
}

/// A pattern with a glob character is taken as it is; any other may stand anywhere
/// in the URL.
pub proof fn bare_patterns_match_anywhere(p: Seq<char>, i: int)
    ensures
        0 <= i < p.len() && (p[i] == '*' || p[i] == '?' || p[i] == '[' || p[i] == '{') ==> as_glob(p)
            == p,
        !p.contains('*') && !p.contains('?') && !p.contains('[') && !p.contains('{') ==> as_glob(p)
            == seq!['*'] + p + seq!['*'],
{
    reveal_strlit("*");
    assert("*"@ =~= seq!['*']);
    let t = passes(GlobChar);
    if 0 <= i < p.len() && (p[i] == '*' || p[i] == '?' || p[i] == '[' || p[i] == '{') {
        assert(t(p[i]));
        assert(some_char(p, t));
    }
    if !p.contains('*') && !p.contains('?') && !p.contains('[') && !p.contains('{') {
        assert forall|k: int| 0 <= k < p.len() implies !t(#[trigger] p[k]) by {
            assert(p.contains(p[k]));
        }
    }
}

/// An address counts for itself; any other host for its registrable domain in
/// lower case, or for itself where it has none.
pub proof fn hosts_count_for_their_registrable_domain(u: UrlView, host: Seq<char>)
    ensures
        u.host is None ==> domain_of(u) is Err,
        u.host == Some(host) && ip_of(host) is Some ==> domain_of(u) == Ok::<
            Seq<char>,
            ErrorView,
        >(host),
        u.host == Some(host) && ip_of(host) is None ==> (match psl_domain(host) {
            Some(d) => domain_of(u) == Ok::<Seq<char>, ErrorView>(lower(d)),
            None => domain_of(u) == Ok::<Seq<char>, ErrorView>(lower(host)),
        }),
{
}

/// The stream that `yt-dlp` names is the first URL that it printed, with the
/// cookies that went in.
pub proof fn the_first_url_is_the_stream(urls: Seq<Seq<char>>, seed: Option<EntryView>)
    requires
        urls.len() > 0,
    ensures
        ytdlp_stream(urls, seed).stream_url == urls[0],
        ytdlp_stream(urls, seed).headers.len() == 0,
        seed matches Some(e) ==> ytdlp_stream(urls, seed).cookies == e.storage_state.cookies,
        seed is None ==> ytdlp_stream(urls, seed).cookies.len() == 0,
        (url_parsed(urls[0]) matches Ok(u) && kind_of_path(u.path) is Some) ==> Some(
            ytdlp_stream(urls, seed).kind,
        ) == kind_of_path(url_parsed(urls[0])->Ok_0.path),
        (url_parsed(urls[0]) matches Ok(u) && kind_of_path(u.path) is None) ==> ytdlp_stream(
            urls,
            seed,
        ).kind == StreamKind::Progressive,
{
}

/// Every resolution counts once, whatever came of it: a stream as a success of its
/// tier and its domain, a challenge that needs a person as one of its domain, and
/// any other end as an error.
pub proof fn every_resolution_counts_once(
    m: MetricsView,
    r: Result<OutcomeView, ErrorView>,
    domain: Seq<char>,
    via: ViaTier,
)
    requires
        m.resolve_total < u64::MAX,
        m.resolve_ok < u64::MAX,
        m.resolve_needs_manual < u64::MAX,
        m.resolve_error < u64::MAX,
        m.challenges < u64::MAX,
        (m.via)(via) < u64::MAX,
        distinct_keys(m.per_domain),
        m.per_domain.len() < DOMAIN_CAP,
        counts_of(m.per_domain, domain).attempts < u64::MAX,
        counts_of(m.per_domain, domain).ok < u64::MAX,
        counts_of(m.per_domain, domain).challenges < u64::MAX,
    ensures
        ({
            let a = recorded(m, r);
            let c = counts_of(m.per_domain, domain);
            let d = counts_of(a.per_domain, domain);
            let manual = (match r {
                Err(ErrorView::NeedsManualSolve { domain: w }) => true,
                _ => false,
            });
            &&& a.resolve_total == m.resolve_total + 1
            &&& a.resolve_ok - m.resolve_ok == (if r is Ok {
                1int
            } else {
                0int
            })
            &&& a.resolve_needs_manual - m.resolve_needs_manual == (if manual {
                1int
            } else {
                0int
            })
            &&& a.challenges - m.challenges == (if manual {
                1int
            } else {
                0int
            })
            &&& a.resolve_error - m.resolve_error == (if r is Err && !manual {
                1int
            } else {
                0int
            })
            &&& r matches Ok(o) ==> (o.via_tier == via ==> (a.via)(via) == (m.via)(via) + 1)
            &&& r matches Ok(o) ==> (o.via_tier != via ==> (a.via)(via) == (m.via)(via))
            &&& r matches Ok(o) ==> (o.domain == domain ==> d.attempts == c.attempts + 1 && d.ok
                == c.ok + 1 && d.challenges == c.challenges)
            &&& r matches Err(ErrorView::NeedsManualSolve { domain: w }) ==> (w == domain
                ==> d.attempts == c.attempts + 1 && d.ok == c.ok && d.challenges == c.challenges
                + 1)
        }),
{
    let other = if via == ViaTier::Fastpath {
        ViaTier::Browser
    } else {
        ViaTier::Fastpath
    };
    let else_where = domain.push('.');
    assert(else_where.len() != domain.len());
    every_outcome_counts_once(m, domain, via, other, else_where);
}

/// A tier is challenged when a challenge is why it gave up, and never when it found
/// a stream.
pub proof fn only_a_challenge_is_one(s: StreamView, r: EscalateReason)
    ensures
        !hit_challenge(TierView::Resolved(s)),
        hit_challenge(TierView::Escalate(r)) <==> r == EscalateReason::Challenge,
{
}

/// What the guards do not ask to be looked up does not change their verdict.
pub proof fn guards_judge_what_they_asked_for(
    g: AdmissionView,
    a: Option<Seq<IpView>>,
    b: Option<Seq<IpView>>,
)
    requires
        g.gate == Gate::Egress || g.gate == Gate::Target,
    ensures
        g.ask() matches AskView::Lookup(l) && (l is None ==> g.verdict(a) == g.verdict(b)),
{
}

/// An admission is of the request that it was opened for, over the egress that the
/// request names; being let through or refused changes neither.
pub proof fn an_admission_is_of_its_request(
    url: UrlView,
    profiles: Seq<EgressView>,
    egress: Option<Seq<char>>,
    proxy_url: Option<Seq<char>>,
    guards: Guards,
)
    ensures
        AdmissionView::opened(url, profiles, egress, proxy_url, guards) matches Ok(a) ==> {
            &&& a.url == url
            &&& a.guards == guards
            &&& domain_of(url) == Ok::<Seq<char>, ErrorView>(a.domain)
            &&& chosen(profiles, egress, proxy_url) == Ok::<EgressView, ErrorView>(a.egress)
            &&& a.passed() == (AdmissionView { gate: Gate::Reach, ..a })
            &&& a.refused() == (AdmissionView { gate: Gate::Shut, ..a })
            &&& (AdmissionView { gate: Gate::Target, ..a }).passed() == (AdmissionView {
                gate: Gate::Open,
                ..a
            })
        },
        domain_of(url) is Ok && chosen(profiles, egress, proxy_url) is Ok ==> AdmissionView::opened(
            url,
            profiles,
            egress,
            proxy_url,
            guards,
        ) is Ok,
{
}

} // verus!
