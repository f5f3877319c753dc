//! Request and response bodies of the native API.

use vstd::prelude::*;

use crate::fastpath::StreamKind;
use crate::jar::cookie::Cookie;
use crate::json::Json;
use crate::pipeline::{Mode, ViaTier};

verus! {

/// One pattern or several.
#[derive(Debug)]
pub enum OneOrMany {
    One(String),
    Many(Vec<String>),
}

impl OneOrMany {
    /// The patterns.
    pub open spec fn patterns(self) -> Seq<Seq<char>> {
        match self {
            OneOrMany::One(s) => seq![s@],
            OneOrMany::Many(v) => v.deep_view(),
        }
    }

    pub fn into_vec(self) -> (r: Vec<String>)
        ensures
            r.deep_view() == self.patterns(),
    {
        match self {
            OneOrMany::One(s) => {
                let ghost sv = s@;
                let mut v: Vec<String> = Vec::new();
                v.push(s);
                assert(v.deep_view() =~= seq![sv]);
                v
            },
            OneOrMany::Many(v) => v,
        }
    }
}

/// Bounds applied to every caller-supplied timeout, so that no request can hold
/// a browser context for an absurd time.
pub const MIN_TIMEOUT_MS: u64 = 1_000;

pub const MAX_TIMEOUT_MS: u64 = 180_000;

/// A timeout within bounds.
pub open spec fn clamped(ms: u64, least: u64, most: u64) -> u64 {
    if ms < least {
        least
    } else if ms > most {
        most
    } else {
        ms
    }
}

pub fn clamp_timeout_ms(ms: u64) -> (r: u64)
    ensures
        r == clamped(ms, MIN_TIMEOUT_MS, MAX_TIMEOUT_MS),
        MIN_TIMEOUT_MS <= r <= MAX_TIMEOUT_MS,
{
    if ms < MIN_TIMEOUT_MS {
        MIN_TIMEOUT_MS
    } else if ms > MAX_TIMEOUT_MS {
        MAX_TIMEOUT_MS
    } else {
        ms
    }
}

/// The timeout of a request: its own or the configured one, within bounds.
pub open spec fn effective_timeout(explicit: Option<u64>, default_ms: u64) -> u64 {
    clamped(
        match explicit {
            Some(ms) => ms,
            None => default_ms,
        },
        MIN_TIMEOUT_MS,
        MAX_TIMEOUT_MS,
    )
}

fn effective_ms(explicit: Option<u64>, default_ms: u64) -> (r: u64)
    ensures
        r == effective_timeout(explicit, default_ms),
        MIN_TIMEOUT_MS <= r <= MAX_TIMEOUT_MS,
{
    match explicit {
        Some(ms) => clamp_timeout_ms(ms),
        None => clamp_timeout_ms(default_ms),
    }
}

/// `POST /v1/resolve`.
#[derive(Debug)]
pub struct ResolveRequest {
    pub url: String,
    pub egress: Option<String>,
    pub proxy_url: Option<String>,
    pub mode: Option<Mode>,
    pub url_pattern: Option<OneOrMany>,
    pub timeout_ms: Option<u64>,
    pub block_resources: Option<bool>,
    pub block_trackers: Option<bool>,
}

impl ResolveRequest {
    /// In milliseconds.
    pub fn timeout(&self, default_ms: u64) -> (r: u64)
        ensures
            r == effective_timeout(self.timeout_ms, default_ms),
            MIN_TIMEOUT_MS <= r <= MAX_TIMEOUT_MS,
    {
        effective_ms(self.timeout_ms, default_ms)
    }
}

/// `POST /v1/navigate`.
#[derive(Debug)]
pub struct NavigateRequest {
    pub url: String,
    /// Accepted and ignored: there is no browser here to wait on.
    pub wait_for: Option<String>,
    pub timeout_ms: Option<u64>,
    pub proxy_url: Option<String>,
    pub egress: Option<String>,
    pub referer: Option<String>,
    pub extra_headers: Option<Vec<(String, String)>>,
}

impl NavigateRequest {
    /// In milliseconds.
    pub fn timeout(&self, default_ms: u64) -> (r: u64)
        ensures
            r == effective_timeout(self.timeout_ms, default_ms),
            MIN_TIMEOUT_MS <= r <= MAX_TIMEOUT_MS,
    {
        effective_ms(self.timeout_ms, default_ms)
    }
}

#[derive(Debug)]
pub struct NavigateResponse {
    pub html: String,
    pub final_url: String,
    /// Upstream status, so that a caller can tell a reject from a page.
    pub status: u16,
}

/// `POST /v1/eval`.
#[derive(Debug)]
pub struct EvalRequest {
    pub url: String,
    pub js: String,
    pub timeout_ms: Option<u64>,
    pub proxy_url: Option<String>,
    pub egress: Option<String>,
}

impl EvalRequest {
    /// In milliseconds.
    pub fn timeout(&self, default_ms: u64) -> (r: u64)
        ensures
            r == effective_timeout(self.timeout_ms, default_ms),
            MIN_TIMEOUT_MS <= r <= MAX_TIMEOUT_MS,
    {
        effective_ms(self.timeout_ms, default_ms)
    }
}

/// `POST /v1/sniff`.
#[derive(Debug)]
pub struct SniffRequest {
    pub trigger_url: String,
    pub url_pattern: String,
    pub timeout_ms: Option<u64>,
    pub proxy_url: Option<String>,
    pub egress: Option<String>,
    /// Script to run after load.
    pub interact_js: Option<String>,
}

impl SniffRequest {
    /// In milliseconds.
    pub fn timeout(&self, default_ms: u64) -> (r: u64)
        ensures
            r == effective_timeout(self.timeout_ms, default_ms),
            MIN_TIMEOUT_MS <= r <= MAX_TIMEOUT_MS,
    {
        effective_ms(self.timeout_ms, default_ms)
    }
}

/// `POST /v1/session/start`.
#[derive(Debug)]
pub struct SessionStartRequest {
    pub url: String,
    pub proxy_url: Option<String>,
    pub egress: Option<String>,
}

/// `POST /v1/session/{id}/close`.
#[derive(Debug)]
pub struct SessionCloseRequest {
    /// Write the solved cookies back to the jar.
    pub save_cookies: bool,
}

impl Default for SessionCloseRequest {
    /// Callers that close without a body save the cookies.
    fn default() -> (r: SessionCloseRequest)
        ensures
            r.save_cookies,
    {
        SessionCloseRequest { save_cookies: true }
    }
}

#[derive(Debug)]
pub struct ResolveResponse {
    pub stream_url: String,
    pub kind: StreamKind,
    pub headers: Json,
    pub cookies: Vec<Cookie>,
    pub via_tier: ViaTier,
    pub domain: String,
}

#[derive(Debug)]
pub struct SniffResponse {
    pub intercepted_url: String,
    pub headers: Json,
}

#[derive(Debug)]
pub struct EvalResponse {
    pub result: String,
}

/// `GET /health`.
#[derive(Debug)]
pub struct HealthResponse {
    pub ready: bool,
    pub engine: String,
    pub fast_engine: String,
    pub contexts_in_use: usize,
    pub jar_domains: usize,
    pub egress_profiles: Vec<String>,
    pub uptime_secs: u64,
    pub version: String,
}

/// Whatever a caller asks for and whatever is configured, a timeout is within
/// bounds, and one within bounds is taken as it is.
pub proof fn timeouts_are_bounded(explicit: Option<u64>, default_ms: u64)
    ensures
        MIN_TIMEOUT_MS <= effective_timeout(explicit, default_ms) <= MAX_TIMEOUT_MS,
        explicit matches Some(ms) ==> MIN_TIMEOUT_MS <= ms <= MAX_TIMEOUT_MS
            ==> effective_timeout(explicit, default_ms) == ms,
{
}

/// A request without a timeout of its own has the configured one, and one that is
/// out of bounds has the nearest bound.
pub proof fn timeouts_go_to_the_nearest_bound(ms: u64, default_ms: u64)
    ensures
        1_000 <= default_ms <= 180_000 ==> effective_timeout(None, default_ms) == default_ms,
        1_000 <= ms <= 180_000 ==> effective_timeout(Some(ms), default_ms) == ms,
        ms < 1_000 ==> effective_timeout(Some(ms), default_ms) == 1_000,
        ms > 180_000 ==> effective_timeout(Some(ms), default_ms) == 180_000,
        effective_timeout(None, default_ms) == effective_timeout(Some(default_ms), 0),
{
}

/// A value within bounds is itself, any other the nearest bound.
pub proof fn clamping_moves_to_the_nearest_bound(ms: u64, least: u64, most: u64)
    requires
        least <= most,
    ensures
        least <= clamped(ms, least, most) <= most,
        least <= ms <= most ==> clamped(ms, least, most) == ms,
        ms < least ==> clamped(ms, least, most) == least,
        ms > most ==> clamped(ms, least, most) == most,
{
}

} // verus!
