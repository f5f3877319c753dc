//! How contexts of the browser are set up, driven and guarded.
//!
//! One Chromium, launched lazily. Each context gets its own cookie jar and one
//! page in it. Scripts run in isolated worlds.

use vstd::prelude::*;

use super::cdp::{attached_targets_wait, cookie_params, Call, CallView, CdpEvent, EventView};
use super::engine::{BrowserError, BrowserFault, ContextOptions, PageLoad, WaitFor};
use super::sniff::WaitEnd;
use crate::fastpath::{is_challenge, looks_like_cloudflare_challenge};
use crate::ip::{IpAddr, IpView};
use crate::jar::cookie::{copy_cookies, Cookie, CookieView, StateView, StorageState};
use crate::json::{members_are_read_back, or_empty, other_keys_have_no_member, Json, JsonView};
use crate::ssrf::{
    block_reason, first_block_reason, first_refusal, is_localhost, literal, names_localhost,
    one_bad_address_refuses_a_name, port_or_zero, refusal, strip_brackets,
    the_first_refused_address_gives_the_reason, url_verdict,
};
use crate::text::{a_part_occurs_in_the_whole, cat, cat3, has, hex_digit, same};
use crate::weburl::{url_parsed, Url, UrlView};

verus! {

// ---------------------------------------------------------------------------
// Set-up
// ---------------------------------------------------------------------------

/// What a sniff never needs: static media, segments (the manifests themselves
/// are never listed), and hosts of advertising and analytics.
pub open spec fn static_blocks() -> Seq<Seq<char>> {
    seq![
        "*.woff"@,
        "*.woff2"@,
        "*.ttf"@,
        "*.otf"@,
        "*.eot"@,
        "*.png"@,
        "*.jpg"@,
        "*.jpeg"@,
        "*.gif"@,
        "*.webp"@,
        "*.svg"@,
        "*.ico"@,
        "*.bmp"@,
        "*.ts"@,
        "*.ts?*"@,
        "*.m4s"@,
        "*.m4s?*"@,
        "*.mp4"@,
        "*.mp4?*"@,
        "*.m4v"@,
        "*.m4v?*"@,
        "*.webm"@,
        "*.webm?*"@,
        "*.aac"@,
        "*.aac?*"@,
        "*.mp3"@,
        "*.mp3?*"@,
        "*doubleclick.net*"@,
        "*googlesyndication.com*"@,
        "*google-analytics.com*"@,
        "*googletagmanager.com*"@,
        "*adservice.google.com*"@,
        "*histats.com*"@,
        "*popads.net*"@,
        "*propellerads.com*"@,
        "*onclickalgo.com*"@,
        "*rtmark.net*"@,
        "*spbgc.com*"@,
        "*bef77.com*"@,
        "*poptm.com*"@,
        "*adsterra.com*"@,
        "*hilltopads.net*"@,
    ]
}

fn static_block_list() -> (r: Vec<String>)
    ensures
        r.deep_view() == static_blocks(),
{
    let mut v: Vec<String> = Vec::new();
    v.push("*.woff".to_owned());
    v.push("*.woff2".to_owned());
    v.push("*.ttf".to_owned());
    v.push("*.otf".to_owned());
    v.push("*.eot".to_owned());
    v.push("*.png".to_owned());
    v.push("*.jpg".to_owned());
    v.push("*.jpeg".to_owned());
    v.push("*.gif".to_owned());
    v.push("*.webp".to_owned());
    v.push("*.svg".to_owned());
    v.push("*.ico".to_owned());
    v.push("*.bmp".to_owned());
    v.push("*.ts".to_owned());
    v.push("*.ts?*".to_owned());
    v.push("*.m4s".to_owned());
    v.push("*.m4s?*".to_owned());
    v.push("*.mp4".to_owned());
    v.push("*.mp4?*".to_owned());
    v.push("*.m4v".to_owned());
    v.push("*.m4v?*".to_owned());
    v.push("*.webm".to_owned());
    v.push("*.webm?*".to_owned());
    v.push("*.aac".to_owned());
    v.push("*.aac?*".to_owned());
    v.push("*.mp3".to_owned());
    v.push("*.mp3?*".to_owned());
    v.push("*doubleclick.net*".to_owned());
    v.push("*googlesyndication.com*".to_owned());
    v.push("*google-analytics.com*".to_owned());
    v.push("*googletagmanager.com*".to_owned());
    v.push("*adservice.google.com*".to_owned());
    v.push("*histats.com*".to_owned());
    v.push("*popads.net*".to_owned());
    v.push("*propellerads.com*".to_owned());
    v.push("*onclickalgo.com*".to_owned());
    v.push("*rtmark.net*".to_owned());
    v.push("*spbgc.com*".to_owned());
    v.push("*bef77.com*".to_owned());
    v.push("*poptm.com*".to_owned());
    v.push("*adsterra.com*".to_owned());
    v.push("*hilltopads.net*".to_owned());
    assert(v.deep_view() =~= static_blocks());
    v
}

/// What a context blocks: the static list and the patterns of the blocklist, each
/// where it is asked for.
pub open spec fn blocked(resources: bool, trackers: bool, patterns: Seq<Seq<char>>) -> Seq<Seq<char>> {
    (if resources {
        static_blocks()
    } else {
        seq![]
    }) + (if trackers {
        patterns
    } else {
        seq![]
    })
}

/// A copy of a list of strings.
pub fn copy_texts(v: &Vec<String>) -> (r: Vec<String>)
    ensures
        r.deep_view() == v.deep_view(),
{
    let mut r: Vec<String> = Vec::new();
    for i in 0..v.len()
        invariant
            r@.len() == i,
            forall|k: int| 0 <= k < i ==> (#[trigger] r@[k])@ == v@[k]@,
    {
        r.push(v[i].clone());
    }
    assert(r.deep_view() =~= v.deep_view());
    r
}

/// What a context blocks, as one list: a second call of the command would
/// replace the first.
pub fn blocked_urls(resources: bool, trackers: bool, patterns: &Vec<String>) -> (r: Vec<String>)
    ensures
        r.deep_view() == blocked(resources, trackers, patterns.deep_view()),
{
    let mut urls: Vec<String> = if resources {
        static_block_list()
    } else {
        Vec::new()
    };
    let ghost front = urls.deep_view();
    assert(!resources ==> front =~= seq![]);
    if trackers {
        let mut more = copy_texts(patterns);
        let ghost tail = more.deep_view();
        urls.append(&mut more);
        assert(urls.deep_view() =~= front + tail);
    }
    assert(urls.deep_view() =~= blocked(resources, trackers, patterns.deep_view()));
    urls
}

/// The user agent that differs from the browser's own, or an empty one.
pub open spec fn ua_override(wanted: Option<Seq<char>>, default_ua: Seq<char>) -> Seq<char> {
    match wanted {
        Some(u) => if u.len() > 0 && u != default_ua {
            u
        } else {
            seq![]
        },
        None => seq![],
    }
}

/// The user agent to pin on a context, where it differs from the browser's own.
pub fn override_ua(wanted: &Option<String>, default_ua: &str) -> (r: String)
    ensures
        r@ == ua_override(wanted.deep_view(), default_ua@),
{
    match wanted {
        Some(u) => if u.as_str().unicode_len() > 0 && !same(u.as_str(), default_ua) {
            u.clone()
        } else {
            let r = String::new();
            assert(r@ =~= seq![]);
            r
        },
        None => {
            let r = String::new();
            assert(r@ =~= seq![]);
            r
        },
    }
}

/// The user agent a context sends.
pub fn effective_ua(pinned: &str, default_ua: &str) -> (r: String)
    ensures
        r@ == if pinned@.len() == 0 {
            default_ua@
        } else {
            pinned@
        },
{
    if pinned.unicode_len() == 0 {
        default_ua.to_owned()
    } else {
        pinned.to_owned()
    }
}

/// The commands that turn on what a context needs. Every request is paused from
/// here on until the guard has vetted it.
pub open spec fn domain_calls() -> Seq<CallView> {
    seq![
        CallView::PageEnable,
        CallView::NetworkEnable,
        CallView::FetchEnable,
        CallView::LifecycleEvents,
        CallView::GetFrameTree,
    ]
}

/// The commands that turn on what a context needs, in order. The last one
/// answers with the frame tree.
pub fn enable_domains() -> (r: Vec<Call>)
    ensures
        r.deep_view() == domain_calls(),
{
    let mut v: Vec<Call> = Vec::new();
    v.push(Call::PageEnable);
    v.push(Call::NetworkEnable);
    v.push(Call::FetchEnable);
    v.push(Call::LifecycleEvents);
    v.push(Call::GetFrameTree);
    assert(v.deep_view() =~= domain_calls());
    v
}

/// The commands that make a context its caller's: scripts, blocked URLs, user
/// agent and cookies, the last three where there are any.
pub open spec fn seeding_calls(ua: Seq<char>, urls: Seq<Seq<char>>, seed: Option<StateView>) -> Seq<
    CallView,
> {
    seq![CallView::AddStealthScript] + (if urls.len() > 0 {
        seq![CallView::SetBlockedUrls { urls }]
    } else {
        seq![]
    }) + (if ua.len() > 0 {
        seq![CallView::SetUserAgent { user_agent: ua }]
    } else {
        seq![]
    }) + (match seed {
        Some(s) => if s.cookies.len() > 0 {
            seq![CallView::SetCookies { cookies: s.cookies }]
        } else {
            seq![]
        },
        None => seq![],
    })
}

fn push_call(v: &mut Vec<Call>, c: Call)
    ensures
        final(v).deep_view() == old(v).deep_view().push(c@),
{
    let ghost before = v.deep_view();
    let ghost cv = c@;
    v.push(c);
    assert(v.deep_view() =~= before.push(cv));
}

/// Whether a context does without a command that fails: the user agent and the
/// cookies are set as far as the browser takes them.
pub fn best_effort(c: &Call) -> (r: bool)
    ensures
        r == (c@ is SetUserAgent || c@ is SetCookies),
{
    match c {
        Call::SetUserAgent { .. } => true,
        Call::SetCookies { .. } => true,
        _ => false,
    }
}

/// The commands that make a context its caller's.
pub fn seed_calls(ua: &str, urls: Vec<String>, seed: &Option<StorageState>) -> (r: Vec<Call>)
    ensures
        r.deep_view() == seeding_calls(ua@, urls.deep_view(), seed.deep_view()),
{
    let ghost uv = urls.deep_view();
    assert(uv.len() == urls@.len());
    let mut v: Vec<Call> = Vec::new();
    push_call(&mut v, Call::AddStealthScript);
    if urls.len() > 0 {
        push_call(&mut v, Call::SetBlockedUrls { urls });
    }
    if ua.unicode_len() > 0 {
        push_call(&mut v, Call::SetUserAgent { user_agent: ua.to_owned() });
    }
    match seed {
        Some(s) => {
            assert(s@.cookies.len() == s.cookies@.len());
            if s.cookies.len() > 0 {
                push_call(&mut v, Call::SetCookies { cookies: copy_cookies(&s.cookies) });
            }
        },
        None => {},
    }
    assert(v.deep_view() =~= seeding_calls(ua@, uv, seed.deep_view()));
    v
}

/// The commands that bring a sub-frame up to the same instrumentation as the
/// page, the guard included, and then let it run.
pub open spec fn adoption_calls(ua: Seq<char>, urls: Seq<Seq<char>>) -> Seq<CallView> {
    seq![CallView::NetworkEnable, CallView::PageEnable, CallView::FetchEnable] + (if ua.len() > 0 {
        seq![CallView::SetUserAgent { user_agent: ua }]
    } else {
        seq![]
    }) + seq![CallView::AddStealthScript] + (if urls.len() > 0 {
        seq![CallView::SetBlockedUrls { urls }]
    } else {
        seq![]
    }) + seq![CallView::SetAutoAttach, CallView::RunIfWaitingForDebugger]
}

/// The commands that adopt a sub-frame.
pub fn adopt_child(ua: &str, urls: Vec<String>) -> (r: Vec<Call>)
    ensures
        r.deep_view() == adoption_calls(ua@, urls.deep_view()),
{
    let ghost uv = urls.deep_view();
    assert(uv.len() == urls@.len());
    let mut v: Vec<Call> = Vec::new();
    push_call(&mut v, Call::NetworkEnable);
    push_call(&mut v, Call::PageEnable);
    push_call(&mut v, Call::FetchEnable);
    if ua.unicode_len() > 0 {
        push_call(&mut v, Call::SetUserAgent { user_agent: ua.to_owned() });
    }
    push_call(&mut v, Call::AddStealthScript);
    if urls.len() > 0 {
        push_call(&mut v, Call::SetBlockedUrls { urls });
    }
    push_call(&mut v, Call::SetAutoAttach);
    push_call(&mut v, Call::RunIfWaitingForDebugger);
    assert(v.deep_view() =~= adoption_calls(ua@, uv));
    v
}

/// The commands that start a sniff: sub-targets are attached, and wait, from
/// before the page is opened.
pub open spec fn sniffing_calls(url: Seq<char>) -> Seq<CallView> {
    seq![CallView::SetAutoAttach, CallView::Navigate { url }]
}

/// The commands that start a sniff.
pub fn sniff_calls(trigger: &Url) -> (r: Vec<Call>)
    ensures
        r.deep_view() == sniffing_calls(trigger@.text),
{
    let mut v: Vec<Call> = Vec::new();
    push_call(&mut v, Call::SetAutoAttach);
    push_call(&mut v, Call::Navigate { url: trigger.as_str().to_owned() });
    assert(v.deep_view() =~= sniffing_calls(trigger@.text));
    v
}

/// The command that opens a context for an egress. Behind a proxy everything
/// rides it, loopback and private targets too.
pub fn open_context(opts: &ContextOptions) -> (r: Call)
    ensures
        r@ == (CallView::CreateBrowserContext {
            proxy: match opts@.egress.proxy {
                Some(p) => Some(p.text),
                None => None,
            },
        }),
{
    Call::CreateBrowserContext {
        proxy: match &opts.egress.proxy {
            Some(p) => Some(p.text.clone()),
            None => None,
        },
    }
}

/// Contexts in use at once: at least one.
pub fn context_slots(max_contexts: usize) -> (r: usize)
    ensures
        r == if max_contexts == 0 {
            1
        } else {
            max_contexts
        },
{
    if max_contexts == 0 {
        1
    } else {
        max_contexts
    }
}

// ---------------------------------------------------------------------------
// Replies
// ---------------------------------------------------------------------------

/// A string that a reply must hold, or the error that says it does not.
pub open spec fn required_text(reply: JsonView, key: Seq<char>, complaint: Seq<char>) -> Result<
    Seq<char>,
    BrowserFault,
> {
    match reply.str_field(key) {
        Some(s) => Ok(s),
        None => Err(BrowserFault::Cdp(complaint)),
    }
}

fn require_text(reply: &Json, key: &str, complaint: &str) -> (r: Result<String, BrowserError>)
    ensures
        match (r, required_text(reply@, key@, complaint@)) {
            (Ok(s), Ok(t)) => s@ == t,
            (Err(e), Err(f)) => e@ == f,
            _ => false,
        },
{
    match reply.str_at(key) {
        Some(s) => Ok(s),
        None => Err(BrowserError::Cdp(complaint.to_owned())),
    }
}

/// The page that was created.
pub fn created_target(reply: &Json) -> (r: Result<String, BrowserError>)
    ensures
        match (r, required_text(reply@, "targetId"@, "createTarget: no targetId"@)) {
            (Ok(s), Ok(t)) => s@ == t,
            (Err(e), Err(f)) => e@ == f,
            _ => false,
        },
{
    require_text(reply, "targetId", "createTarget: no targetId")
}

/// The session that was attached.
pub fn attached_session(reply: &Json) -> (r: Result<String, BrowserError>)
    ensures
        match (r, required_text(reply@, "sessionId"@, "attachToTarget: no sessionId"@)) {
            (Ok(s), Ok(t)) => s@ == t,
            (Err(e), Err(f)) => e@ == f,
            _ => false,
        },
{
    require_text(reply, "sessionId", "attachToTarget: no sessionId")
}

/// The main frame of a frame tree.
pub fn main_frame(reply: &Json) -> (r: Option<String>)
    ensures
        r.deep_view() == match reply@.field2("frameTree"@, "frame"@) {
            Some(f) => f.str_field("id"@),
            None => None,
        },
{
    match reply.get("frameTree") {
        Some(t) => t.str_at2("frame", "id"),
        None => None,
    }
}

/// The isolated world that was created.
pub fn created_world(reply: &Json) -> (r: Result<i64, BrowserError>)
    ensures
        match reply@.field("executionContextId"@) {
            Some(JsonView::Int(n)) => r == Ok::<i64, BrowserError>(n),
            _ => r matches Err(e) && e@ == BrowserFault::Cdp(
                "createIsolatedWorld: no executionContextId"@,
            ),
        },
{
    match reply.get("executionContextId") {
        Some(v) => match v.as_i64() {
            Some(n) => Ok(n),
            None => Err(
                BrowserError::Cdp("createIsolatedWorld: no executionContextId".to_owned()),
            ),
        },
        None => Err(BrowserError::Cdp("createIsolatedWorld: no executionContextId".to_owned())),
    }
}

/// The value of an evaluation; `thrown` is what was thrown, as JSON text.
pub fn evaluated(reply: Json, thrown: &str) -> (r: Result<Json, BrowserError>)
    ensures
        match r {
            Ok(v) => reply@.field("exceptionDetails"@) is None && v@ == (match reply@.field2(
                "result"@,
                "value"@,
            ) {
                Some(x) => x,
                None => JsonView::Null,
            }),
            Err(e) => reply@.field("exceptionDetails"@) is Some && e@ == BrowserFault::Cdp(
                "eval threw: "@ + thrown@,
            ),
        },
{
    if reply.get("exceptionDetails").is_some() {
        return Err(BrowserError::Cdp(cat("eval threw: ", thrown)));
    }
    match reply.into_field("result") {
        Some(v) => match v.into_field("value") {
            Some(x) => Ok(x),
            None => Ok(Json::Null),
        },
        None => Ok(Json::Null),
    }
}

/// What is wrong with a navigation, if anything.
pub open spec fn nav_fault(reply: JsonView) -> Option<BrowserFault> {
    match reply.str_field("errorText"@) {
        Some(e) => if e.len() > 0 {
            Some(BrowserFault::Cdp("navigate: "@ + e))
        } else {
            None
        },
        None => None,
    }
}

/// What is wrong with a navigation, if anything.
pub fn navigated(reply: &Json) -> (r: Result<(), BrowserError>)
    ensures
        match r {
            Ok(()) => nav_fault(reply@) is None,
            Err(e) => nav_fault(reply@) == Some(e@),
        },
{
    match reply.str_at("errorText") {
        Some(e) => if e.as_str().unicode_len() > 0 {
            Err(BrowserError::Cdp(cat("navigate: ", e.as_str())))
        } else {
            Ok(())
        },
        None => Ok(()),
    }
}

/// The URL a page reports, or where it was sent.
pub open spec fn reported_url(value: Option<JsonView>, fallback: UrlView) -> UrlView {
    match value {
        Some(JsonView::Str(s)) => match url_parsed(s) {
            Ok(u) => u,
            Err(_) => fallback,
        },
        _ => fallback,
    }
}

/// The URL a page reports, or where it was sent.
pub fn current_url(value: &Option<Json>, fallback: &Url) -> (r: Url)
    ensures
        r@ == reported_url(
            match *value {
                Some(j) => Some(j@),
                None => None,
            },
            fallback@,
        ),
{
    match value {
        Some(j) => match j.as_str() {
            Some(s) => match Url::parse(s) {
                Ok(u) => u,
                Err(_) => fallback.copy(),
            },
            None => fallback.copy(),
        },
        None => fallback.copy(),
    }
}

/// The text a page reports, or none.
pub fn page_text(value: &Option<Json>) -> (r: String)
    ensures
        r@ == or_empty(
            match *value {
                Some(j) => j@.str(),
                None => None,
            },
        ),
{
    match value {
        Some(j) => match j.as_str() {
            Some(s) => s.to_owned(),
            None => {
                let r = String::new();
                assert(r@ =~= seq![]);
                r
            },
        },
        None => {
            let r = String::new();
            assert(r@ =~= seq![]);
            r
        },
    }
}

/// A loaded page, told apart from a challenge.
pub fn page_load(html: String, final_url: Url) -> (r: PageLoad)
    ensures
        r.html@ == html@,
        r.final_url@ == final_url@,
        r.challenge == is_challenge(200, html@, None),
{
    let challenge = looks_like_cloudflare_challenge(200, html.as_str(), None);
    PageLoad { html, final_url, challenge }
}

/// The cookie a JSON object stands for: it needs a name and a value.
pub open spec fn json_cookie(v: JsonView) -> Option<CookieView> {
    match (v.str_field("name"@), v.str_field("value"@)) {
        (Some(name), Some(value)) => Some(
            CookieView {
                name,
                value,
                domain: or_empty(v.str_field("domain"@)),
                path: match v.str_field("path"@) {
                    Some(p) => p,
                    None => "/"@,
                },
                expires: match v.field("expires"@) {
                    Some(e) => match e.micros() {
                        Some(n) => n as i128,
                        None => (-1_000_000) as i128,
                    },
                    None => (-1_000_000) as i128,
                },
                http_only: v.bool_field("httpOnly"@) == Some(true),
                secure: v.bool_field("secure"@) == Some(true),
                same_site: v.str_field("sameSite"@),
            },
        ),
        _ => None,
    }
}

/// The cookies of a list; what is no cookie is left out.
pub open spec fn json_cookies(vs: Seq<JsonView>) -> Seq<CookieView>
    decreases vs.len(),
{
    if vs.len() == 0 {
        seq![]
    } else {
        match json_cookie(vs.last()) {
            Some(c) => json_cookies(vs.drop_last()).push(c),
            None => json_cookies(vs.drop_last()),
        }
    }
}

/// The cookies that a member of an object lists.
pub open spec fn listed_cookies(v: JsonView, key: Seq<char>) -> Seq<CookieView> {
    match v.field(key) {
        Some(list) => match list.elements() {
            Some(e) => json_cookies(e),
            None => seq![],
        },
        None => seq![],
    }
}

/// The cookie a JSON object stands for.
pub fn cookie_from_json(v: &Json) -> (r: Option<Cookie>)
    ensures
        r.deep_view() == json_cookie(v@),
{
    let name = match v.str_at("name") {
        Some(s) => s,
        None => {
            return None;
        },
    };
    let value = match v.str_at("value") {
        Some(s) => s,
        None => {
            return None;
        },
    };
    let domain: String = match v.str_at("domain") {
        Some(s) => s,
        None => String::new(),
    };
    assert(domain@ =~= or_empty(v@.str_field("domain"@)));
    let path = match v.str_at("path") {
        Some(s) => s,
        None => "/".to_owned(),
    };
    let expires: i128 = match v.get("expires") {
        Some(e) => match e.as_micros() {
            Some(n) => n,
            None => -1_000_000,
        },
        None => -1_000_000,
    };
    Some(
        Cookie {
            name,
            value,
            domain,
            path,
            expires,
            http_only: v.bool_at("httpOnly") == Some(true),
            secure: v.bool_at("secure") == Some(true),
            same_site: v.str_at("sameSite"),
        },
    )
}

/// The cookies that a member of an object lists.
pub fn cookies_at(v: &Json, key: &str) -> (r: Vec<Cookie>)
    ensures
        r.deep_view() == listed_cookies(v@, key@),
{
    let mut out: Vec<Cookie> = Vec::new();
    assert(out.deep_view() =~= seq![]);
    match v.get(key) {
        Some(list) => match list.as_array() {
            Some(items) => {
                let ghost vs = list@.elements()->Some_0;
                for i in 0..items.len()
                    invariant
                        vs.len() == items@.len(),
                        forall|k: int| 0 <= k < items@.len() ==> (#[trigger] items@[k])@ == vs[k],
                        out.deep_view() == json_cookies(vs.take(i as int)),
                {
                    assert(vs.take(i + 1).drop_last() =~= vs.take(i as int));
                    assert(vs.take(i + 1).last() == items@[i as int]@);
                    let ghost before = out.deep_view();
                    match cookie_from_json(&items[i]) {
                        Some(c) => {
                            let ghost cv = c@;
                            out.push(c);
                            assert(out.deep_view() =~= before.push(cv));
                        },
                        None => {},
                    }
                }
                assert(vs.take(items@.len() as int) =~= vs);
                out
            },
            None => out,
        },
        None => out,
    }
}

/// The storage state a browser reports.
pub fn storage_state(reply: &Json) -> (r: StorageState)
    ensures
        r@ == (StateView { cookies: listed_cookies(reply@, "cookies"@), origins: seq![] }),
{
    StorageState::from_cookies(cookies_at(reply, "cookies"))
}

// ---------------------------------------------------------------------------
// Waiting for a page
// ---------------------------------------------------------------------------

/// The lifecycle event that ends a wait.
pub open spec fn lifecycle_name(wait: WaitFor) -> Seq<char> {
    match wait {
        WaitFor::Load => "load"@,
        WaitFor::DomContentLoaded => "DOMContentLoaded"@,
        WaitFor::NetworkIdle => "networkIdle"@,
        WaitFor::Selector(_) => "DOMContentLoaded"@,
    }
}

/// The lifecycle event that ends a wait.
pub fn lifecycle_target(wait: &WaitFor) -> (r: &'static str)
    ensures
        r@ == lifecycle_name(*wait),
{
    match wait {
        WaitFor::Load => "load",
        WaitFor::DomContentLoaded => "DOMContentLoaded",
        WaitFor::NetworkIdle => "networkIdle",
        WaitFor::Selector(_) => "DOMContentLoaded",
    }
}

/// Where a navigation stands.
#[derive(Debug, Clone, Copy, PartialEq, Eq, Structural)]
pub enum GotoStep {
    /// Wait for an event this long (milliseconds).
    Wait { ms: u64 },
    /// The page is there.
    Arrived,
    /// Take the page as it is: running out of time is no error.
    Settle,
}

/// Wait for an event while time is left.
pub fn goto_turn(now: u64, deadline: u64) -> (r: GotoStep)
    ensures
        r == if now >= deadline {
            GotoStep::Settle
        } else {
            GotoStep::Wait { ms: (deadline - now) as u64 }
        },
{
    if now >= deadline {
        GotoStep::Settle
    } else {
        GotoStep::Wait { ms: deadline - now }
    }
}

/// Whether an event says that the page of a session has come as far as asked.
pub open spec fn says_arrived(e: EventView, session: Seq<char>, wait: WaitFor) -> bool {
    e.session_id == Some(session) && e.method == "Page.lifecycleEvent"@ && e.params.str_field(
        "name"@,
    ) == Some(lifecycle_name(wait))
}

/// Whether an event says that the page of a session has come as far as asked.
pub fn arrives(e: &CdpEvent, session: &str, wait: &WaitFor) -> (r: bool)
    ensures
        r == says_arrived(e@, session@, *wait),
{
    let ours = match &e.session_id {
        Some(s) => same(s.as_str(), session),
        None => false,
    };
    let named = match e.params.str_at("name") {
        Some(n) => same(n.as_str(), lifecycle_target(wait)),
        None => false,
    };
    ours && same(e.method.as_str(), "Page.lifecycleEvent") && named
}

/// A wait ended without an event: lost events are passed over, anything else
/// settles for the page as it is.
pub fn goto_waited(end: WaitEnd) -> (r: Option<GotoStep>)
    ensures
        r == match end {
            WaitEnd::Lagged => None,
            _ => Some(GotoStep::Settle),
        },
{
    match end {
        WaitEnd::Lagged => None,
        _ => Some(GotoStep::Settle),
    }
}

/// How long a selector is waited for, and how often it is looked for.
pub const SELECTOR_WAIT_MS: u64 = 10_000;

pub const SELECTOR_EVERY_MS: u64 = 200;

/// A character as it stands in a JSON string: quotes, backslashes and control
/// characters are escaped, everything else stands for itself.
pub open spec fn json_escape(c: char) -> Seq<char> {
    let u = c as int;
    if c == '"' || c == '\\' {
        seq!['\\', c]
    } else if u == 0x08 {
        seq!['\\', 'b']
    } else if u == 0x09 {
        seq!['\\', 't']
    } else if u == 0x0a {
        seq!['\\', 'n']
    } else if u == 0x0c {
        seq!['\\', 'f']
    } else if u == 0x0d {
        seq!['\\', 'r']
    } else if u < 0x20 {
        seq!['\\', 'u', '0', '0', hex_digit(u / 16), hex_digit(u % 16)]
    } else {
        seq![c]
    }
}

/// Characters as they stand in a JSON string.
pub open spec fn json_escaped(s: Seq<char>) -> Seq<char>
    decreases s.len(),
{
    if s.len() == 0 {
        seq![]
    } else {
        json_escaped(s.drop_last()) + json_escape(s.last())
    }
}

/// A string as JSON writes it.
pub open spec fn json_quoted(s: Seq<char>) -> Seq<char> {
    seq!['"'] + json_escaped(s) + seq!['"']
}

/// Makes a `serde_json::Value` of a string and displays it: the string between
/// quotes, with quotes, backslashes and the characters below space escaped, those
/// without a letter of their own by four lower-case hexadecimal digits.
#[verifier::external_body]
fn call_json_quote(s: &str) -> (r: String)
    ensures
        r@ == json_quoted(s@),
{
    serde_json::Value::from(s).to_string()
}

/// The script that looks for a quoted selector.
pub open spec fn selector_probe(quoted: Seq<char>) -> Seq<char> {
    "document.querySelector("@ + quoted + ") != null"@
}

/// The script that looks for a quoted selector.
pub fn probe_for(quoted: &str) -> (r: String)
    ensures
        r@ == selector_probe(quoted@),
{
    cat3("document.querySelector(", quoted, ") != null")
}

/// The script that looks for the selector of a wait.
pub fn selector_script(wait: &WaitFor) -> (r: Option<String>)
    ensures
        r.deep_view() == match *wait {
            WaitFor::Selector(s) => Some(selector_probe(json_quoted(s@))),
            _ => None,
        },
{
    match wait {
        WaitFor::Selector(s) => Some(probe_for(call_json_quote(s.as_str()).as_str())),
        _ => None,
    }
}

/// Whether the selector was found.
pub fn selector_found(value: &Option<Json>) -> (r: bool)
    ensures
        r == (value matches Some(j) && j@ == JsonView::Bool(true)),
{
    match value {
        Some(j) => match j {
            Json::Bool(b) => *b,
            _ => false,
        },
        None => false,
    }
}

/// Where the wait for a selector stands.
#[derive(Debug, Clone, Copy, PartialEq, Eq, Structural)]
pub enum SelectorStep {
    /// Look for it.
    Probe,
    /// Pause this long (milliseconds).
    Pause { ms: u64 },
    /// It is there, or the time is up: take the page as it is.
    Settle,
}

/// Until when a selector is waited for, from now on.
pub fn selector_deadline(now: u64) -> (r: u64)
    ensures
        r == if now + SELECTOR_WAIT_MS <= u64::MAX {
            (now + SELECTOR_WAIT_MS) as u64
        } else {
            u64::MAX
        },
{
    now.saturating_add(SELECTOR_WAIT_MS)
}

/// Look for the selector while time is left.
pub fn selector_turn(now: u64, until: u64) -> (r: SelectorStep)
    ensures
        r == if now < until {
            SelectorStep::Probe
        } else {
            SelectorStep::Settle
        },
{
    if now < until {
        SelectorStep::Probe
    } else {
        SelectorStep::Settle
    }
}

/// The selector was looked for: one that is not there yet is looked for again
/// after a pause.
pub fn selector_probed(value: &Option<Json>) -> (r: SelectorStep)
    ensures
        r == if value matches Some(j) && j@ == JsonView::Bool(true) {
            SelectorStep::Settle
        } else {
            SelectorStep::Pause { ms: SELECTOR_EVERY_MS }
        },
{
    if selector_found(value) {
        SelectorStep::Settle
    } else {
        SelectorStep::Pause { ms: SELECTOR_EVERY_MS }
    }
}

// ---------------------------------------------------------------------------
// The request guard
// ---------------------------------------------------------------------------

/// How an intercepted request is disposed of.
#[derive(Clone, Copy)]
pub enum FetchDecision {
    Allow,
    Block(&'static str),
}

/// What a decision stands for: the reason of a refusal.
impl View for FetchDecision {
    type V = Option<Seq<char>>;

    open spec fn view(&self) -> Option<Seq<char>> {
        match *self {
            FetchDecision::Allow => None,
            FetchDecision::Block(r) => Some(r@),
        }
    }
}

/// The host and port to look up before a request of the browser can be judged.
pub open spec fn fetch_lookup(
    u: Result<UrlView, Seq<char>>,
    is_direct: bool,
    allow_private: bool,
) -> Option<(Seq<char>, u16)> {
    match u {
        Ok(u) => if (u.scheme == "http"@ || u.scheme == "https"@) && is_direct {
            match u.host {
                Some(h) => if (!allow_private && is_localhost(h)) || literal(h) is Some {
                    None
                } else {
                    Some((h, port_or_zero(u.port)))
                },
                None => None,
            }
        } else {
            None
        },
        Err(_) => None,
    }
}

/// Why a request of the browser is refused. What is no URL, has no host or never
/// reaches the network by name is let through.
pub open spec fn fetch_refusal(
    u: Result<UrlView, Seq<char>>,
    is_direct: bool,
    allow_private: bool,
    addrs: Option<Seq<IpView>>,
) -> Option<Seq<char>> {
    match u {
        Ok(u) => if u.scheme == "http"@ || u.scheme == "https"@ {
            match u.host {
                Some(h) => if !allow_private && is_localhost(h) {
                    Some("localhost"@)
                } else {
                    match literal(h) {
                        Some(ip) => refusal(ip, allow_private),
                        None => match addrs {
                            Some(list) => if is_direct {
                                first_refusal(list, allow_private)
                            } else {
                                None
                            },
                            None => None,
                        },
                    }
                },
                None => None,
            }
        } else {
            None
        },
        Err(_) => None,
    }
}

/// The host and port to look up before `fetch_guard_decision` can decide.
pub fn fetch_guard_lookup(url_s: &str, is_direct: bool, allow_private: bool) -> (r: Option<
    (String, u16),
>)
    ensures
        r.deep_view() == fetch_lookup(url_parsed(url_s@), is_direct, allow_private),
{
    match Url::parse(url_s) {
        Ok(u) => {
            let web = same(u.scheme.as_str(), "http") || same(u.scheme.as_str(), "https");
            if !web || !is_direct {
                return None;
            }
            match &u.host {
                Some(h) => {
                    if !allow_private && names_localhost(h.as_str()) {
                        return None;
                    }
                    let bare = strip_brackets(h.as_str());
                    if IpAddr::parse(bare.as_str()).is_some() {
                        return None;
                    }
                    let port: u16 = match u.port {
                        Some(n) => n,
                        None => 0,
                    };
                    Some((h.clone(), port))
                },
                None => None,
            }
        },
        Err(_) => None,
    }
}

/// Vet a parsed URL that the browser is about to request.
pub fn judge_fetch(u: &Url, is_direct: bool, allow_private: bool, addrs: &Option<Vec<IpAddr>>) -> (r:
    FetchDecision)
    ensures
        r@ == fetch_refusal(Ok(u@), is_direct, allow_private, addrs.deep_view()),
{
    if !same(u.scheme.as_str(), "http") && !same(u.scheme.as_str(), "https") {
        return FetchDecision::Allow;
    }
    let h = match &u.host {
        Some(h) => h,
        None => {
            return FetchDecision::Allow;
        },
    };
    if !allow_private && names_localhost(h.as_str()) {
        return FetchDecision::Block("localhost");
    }
    let bare = strip_brackets(h.as_str());
    let found = match IpAddr::parse(bare.as_str()) {
        Some(ip) => block_reason(&ip, allow_private),
        None => match addrs {
            Some(list) => if is_direct {
                first_block_reason(list, allow_private)
            } else {
                None
            },
            None => None,
        },
    };
    match found {
        Some(reason) => FetchDecision::Block(reason),
        None => FetchDecision::Allow,
    }
}

/// Vet one request URL the browser is about to make: the rules of the entry-point
/// guard, but schemes it never sees (`data:`, `blob:`, ...) pass. `addrs` is what
/// the host was looked up to; without an answer in time the request passes.
pub fn fetch_guard_decision(
    url_s: &str,
    is_direct: bool,
    allow_private: bool,
    addrs: &Option<Vec<IpAddr>>,
) -> (r: FetchDecision)
    ensures
        r@ == fetch_refusal(url_parsed(url_s@), is_direct, allow_private, addrs.deep_view()),
{
    match Url::parse(url_s) {
        Ok(u) => judge_fetch(&u, is_direct, allow_private, addrs),
        Err(_) => FetchDecision::Allow,
    }
}

/// A paused request that the guard has to answer.
pub struct Paused {
    pub session: String,
    pub request: String,
    pub url: String,
}

impl DeepView for Paused {
    type V = (Seq<char>, Seq<char>, Seq<char>);

    open spec fn deep_view(&self) -> (Seq<char>, Seq<char>, Seq<char>) {
        (self.session@, self.request@, self.url@)
    }
}

/// The paused request an event reports, where it is of one of our sessions.
pub open spec fn paused_of(e: EventView, sessions: Seq<Seq<char>>) -> Option<
    (Seq<char>, Seq<char>, Seq<char>),
> {
    match (e.session_id, e.params.str_field("requestId"@)) {
        (Some(s), Some(r)) => if e.method == "Fetch.requestPaused"@ && sessions.contains(s) {
            Some((s, r, or_empty(e.params.str_field2("request"@, "url"@))))
        } else {
            None
        },
        _ => None,
    }
}

/// The paused request an event reports, where it is of one of our sessions.
pub fn paused_request(e: &CdpEvent, sessions: &Vec<String>) -> (r: Option<Paused>)
    ensures
        r.deep_view() == paused_of(e@, sessions.deep_view()),
{
    if !same(e.method.as_str(), "Fetch.requestPaused") {
        return None;
    }
    let session = match &e.session_id {
        Some(s) => s.clone(),
        None => {
            return None;
        },
    };
    let mut ours = false;
    for i in 0..sessions.len()
        invariant
            ours == exists|k: int| 0 <= k < i && (#[trigger] sessions.deep_view()[k]) == session@,
    {
        if same(sessions[i].as_str(), session.as_str()) {
            assert(sessions.deep_view()[i as int] == session@);
            ours = true;
        }
    }
    assert(ours == sessions.deep_view().contains(session@));
    if !ours {
        return None;
    }
    let request = match e.params.str_at("requestId") {
        Some(s) => s,
        None => {
            return None;
        },
    };
    let url: String = match e.params.str_at2("request", "url") {
        Some(s) => s,
        None => String::new(),
    };
    assert(url@ =~= or_empty(e@.params.str_field2("request"@, "url"@)));
    Some(Paused { session, request, url })
}

/// The command that answers a paused request.
pub fn answer_paused(request: &str, decision: &FetchDecision) -> (r: Call)
    ensures
        r@ == match decision@ {
            Some(_) => CallView::FailRequest { request: request@ },
            None => CallView::ContinueRequest { request: request@ },
        },
{
    match decision {
        FetchDecision::Block(_) => Call::FailRequest { request: request.to_owned() },
        FetchDecision::Allow => Call::ContinueRequest { request: request.to_owned() },
    }
}

// ---------------------------------------------------------------------------
// The idle reaper
// ---------------------------------------------------------------------------

/// How often the reaper looks, in seconds.
pub const REAPER_TICK_SECS: u64 = 15;

/// Whether the reaper is started: it is wanted and does not run yet.
pub fn reaper_starts(idle_after_secs: u64, started: bool) -> (r: bool)
    ensures
        r == (idle_after_secs > 0 && !started),
{
    idle_after_secs > 0 && !started
}

/// Whether the browser is torn down: the reaper is on, no context is in use, and
/// none has been for long enough.
pub fn reap_due(idle_after_secs: u64, in_use: usize, idle_ms: u64) -> (r: bool)
    ensures
        r == (idle_after_secs > 0 && in_use == 0 && idle_ms >= idle_after_secs * 1000),
{
    idle_after_secs > 0 && in_use == 0 && idle_ms as u128 >= idle_after_secs as u128 * 1000
}

// ---------------------------------------------------------------------------
// Laws
// ---------------------------------------------------------------------------

/// What the entry-point guard refuses by its address or as a local name, the
/// request guard refuses too.
pub proof fn the_guards_agree(
    u: UrlView,
    is_direct: bool,
    allow_private: bool,
    addrs: Option<Seq<IpView>>,
)
    requires
        u.scheme == "http"@ || u.scheme == "https"@,
        u.host is Some,
    ensures
        url_verdict(u, is_direct, allow_private, addrs) is Err <==> fetch_refusal(
            Ok(u),
            is_direct,
            allow_private,
            addrs,
        ) is Some,
{
}

/// A literal address that is refused is refused on every egress.
pub proof fn browser_literals_are_vetted_on_any_egress(
    u: UrlView,
    ip: IpView,
    is_direct: bool,
    allow_private: bool,
    addrs: Option<Seq<IpView>>,
)
    requires
        u.scheme == "http"@ || u.scheme == "https"@,
        u.host is Some,
        literal(u.host->Some_0) == Some(ip),
        refusal(ip, allow_private) is Some,
    ensures
        fetch_refusal(Ok(u), is_direct, allow_private, addrs) is Some,
{
}

/// Every session is put behind the request guard before it may run: the page when
/// its domains are turned on, and a frame that a sniff attaches, which waits from
/// its start, before it is let run.
pub proof fn every_session_is_guarded(url: Seq<char>, ua: Seq<char>, urls: Seq<Seq<char>>)
    ensures
        domain_calls().contains(CallView::FetchEnable),
        sniffing_calls(url)[0] == CallView::SetAutoAttach,
        sniffing_calls(url)[1] is Navigate,
        JsonView::Object(CallView::SetAutoAttach.params()).field("waitForDebuggerOnStart"@) == Some(
            JsonView::Bool(true),
        ),
        adoption_calls(ua, urls)[2] == CallView::FetchEnable,
        forall|i: int|
            0 <= i < adoption_calls(ua, urls).len() ==> ((#[trigger] adoption_calls(ua, urls)[i])
                == CallView::RunIfWaitingForDebugger <==> i == adoption_calls(ua, urls).len() - 1),
{
    assert(domain_calls()[2] == CallView::FetchEnable);
    attached_targets_wait();
}

/// The manifests that a sniff looks for are not on the static list.
pub proof fn manifests_are_never_blocked_statically()
    ensures
        !static_blocks().contains("*.m3u8"@),
        !static_blocks().contains("*.mpd"@),
{
    reveal_strlit("*.m3u8");
    reveal_strlit("*.mpd");
    reveal_strlit("*.woff");
    reveal_strlit("*.woff2");
    reveal_strlit("*.ttf");
    reveal_strlit("*.otf");
    reveal_strlit("*.eot");
    reveal_strlit("*.png");
    reveal_strlit("*.jpg");
    reveal_strlit("*.jpeg");
    reveal_strlit("*.gif");
    reveal_strlit("*.webp");
    reveal_strlit("*.svg");
    reveal_strlit("*.ico");
    reveal_strlit("*.bmp");
    reveal_strlit("*.ts");
    reveal_strlit("*.ts?*");
    reveal_strlit("*.m4s");
    reveal_strlit("*.m4s?*");
    reveal_strlit("*.mp4");
    reveal_strlit("*.mp4?*");
    reveal_strlit("*.m4v");
    reveal_strlit("*.m4v?*");
    reveal_strlit("*.webm");
    reveal_strlit("*.webm?*");
    reveal_strlit("*.aac");
    reveal_strlit("*.aac?*");
    reveal_strlit("*.mp3");
    reveal_strlit("*.mp3?*");
    reveal_strlit("*doubleclick.net*");
    reveal_strlit("*googlesyndication.com*");
    reveal_strlit("*google-analytics.com*");
    reveal_strlit("*googletagmanager.com*");
    reveal_strlit("*adservice.google.com*");
    reveal_strlit("*histats.com*");
    reveal_strlit("*popads.net*");
    reveal_strlit("*propellerads.com*");
    reveal_strlit("*onclickalgo.com*");
    reveal_strlit("*rtmark.net*");
    reveal_strlit("*spbgc.com*");
    reveal_strlit("*bef77.com*");
    reveal_strlit("*poptm.com*");
    reveal_strlit("*adsterra.com*");
    reveal_strlit("*hilltopads.net*");
    assert forall|i: int| 0 <= i < static_blocks().len() implies #[trigger] static_blocks()[i]
        != "*.m3u8"@ && static_blocks()[i] != "*.mpd"@ by {
        let s = static_blocks()[i];
        if s.len() == 6 {
            assert(s[5] != '8' || s[2] != 'm');
        }
        if s.len() == 5 {
            assert(s[3] != 'p' || s[4] != 'd');
        }
    }
}

/// A context blocks all that it is asked to: the static list, the patterns of the
/// blocklist, both or neither.
pub proof fn a_context_blocks_what_it_is_asked_to(patterns: Seq<Seq<char>>, i: int)
    ensures
        blocked(false, false, patterns).len() == 0,
        blocked(true, false, patterns) == static_blocks(),
        blocked(false, true, patterns) == patterns,
        blocked(true, true, patterns).len() == static_blocks().len() + patterns.len(),
        0 <= i < patterns.len() ==> blocked(true, true, patterns).contains(patterns[i]),
        0 <= i < static_blocks().len() ==> blocked(true, true, patterns).contains(
            static_blocks()[i],
        ),
{
    let all = blocked(true, true, patterns);
    assert(blocked(true, false, patterns) =~= static_blocks());
    assert(blocked(false, true, patterns) =~= patterns);
    if 0 <= i < patterns.len() {
        assert(all[static_blocks().len() + i] == patterns[i]);
    }
    if 0 <= i < static_blocks().len() {
        assert(all[i] == static_blocks()[i]);
    }
}

/// A user agent is pinned where one is wanted that is not the browser's own.
pub proof fn another_user_agent_is_pinned(u: Seq<char>, default_ua: Seq<char>)
    ensures
        u.len() > 0 && u != default_ua ==> ua_override(Some(u), default_ua) == u,
        ua_override(Some(default_ua), default_ua).len() == 0,
        ua_override(None, default_ua).len() == 0,
{
}

/// A context is made its caller's in full: every cookie of the seed, every blocked
/// URL and the user agent are set, each where there is any, and the page's script
/// always.
pub proof fn a_context_is_seeded_in_full(
    ua: Seq<char>,
    urls: Seq<Seq<char>>,
    seed: Option<StateView>,
)
    ensures
        ({
            let calls = seeding_calls(ua, urls, seed);
            &&& calls.contains(CallView::AddStealthScript)
            &&& urls.len() > 0 ==> calls.contains(CallView::SetBlockedUrls { urls })
            &&& ua.len() > 0 ==> calls.contains(CallView::SetUserAgent { user_agent: ua })
            &&& seed matches Some(s) ==> (s.cookies.len() > 0 ==> calls.contains(
                CallView::SetCookies { cookies: s.cookies },
            ))
        }),
{
    let calls = seeding_calls(ua, urls, seed);
    let a: int = if urls.len() > 0 {
        1
    } else {
        0
    };
    let b: int = if ua.len() > 0 {
        1
    } else {
        0
    };
    assert(calls[0] == CallView::AddStealthScript);
    if urls.len() > 0 {
        assert(calls[1] == (CallView::SetBlockedUrls { urls }));
    }
    if ua.len() > 0 {
        assert(calls[1 + a] == (CallView::SetUserAgent { user_agent: ua }));
    }
    if let Some(s) = seed {
        if s.cookies.len() > 0 {
            assert(calls[1 + a + b] == (CallView::SetCookies { cookies: s.cookies }));
        }
    }
}

/// A frame is brought up to what the page has: its network events, its script, the
/// user agent and every blocked URL, and frames below it are attached in turn.
pub proof fn a_frame_is_adopted_in_full(ua: Seq<char>, urls: Seq<Seq<char>>)
    ensures
        ({
            let calls = adoption_calls(ua, urls);
            &&& calls.contains(CallView::NetworkEnable)
            &&& calls.contains(CallView::PageEnable)
            &&& calls.contains(CallView::AddStealthScript)
            &&& calls.contains(CallView::SetAutoAttach)
            &&& calls.last() == CallView::RunIfWaitingForDebugger
            &&& urls.len() > 0 ==> calls.contains(CallView::SetBlockedUrls { urls })
            &&& ua.len() > 0 ==> calls.contains(CallView::SetUserAgent { user_agent: ua })
        }),
{
    let calls = adoption_calls(ua, urls);
    let b: int = if ua.len() > 0 {
        1
    } else {
        0
    };
    assert(calls[0] == CallView::NetworkEnable);
    assert(calls[1] == CallView::PageEnable);
    assert(calls[3 + b] == CallView::AddStealthScript);
    assert(calls[calls.len() - 2] == CallView::SetAutoAttach);
    if urls.len() > 0 {
        assert(calls[4 + b] == (CallView::SetBlockedUrls { urls }));
    }
    if ua.len() > 0 {
        assert(calls[3] == (CallView::SetUserAgent { user_agent: ua }));
    }
}

/// A cookie that is handed to the browser is the cookie that is read back: its
/// name, value, domain, path, marks and same-site rule, and its expiry where it
/// has one; a cookie without one is a session cookie.
pub proof fn cookies_survive_the_browser(c: CookieView)
    ensures
        json_cookie(cookie_params(c)) matches Some(d) && d.name == c.name && d.value == c.value
            && d.domain == c.domain && d.path == c.path && d.secure == c.secure && d.http_only
            == c.http_only && d.same_site == c.same_site && (c.expires >= 0 ==> d.expires
            == c.expires) && (c.expires < 0 ==> d.expires < 0),
{
    reveal_strlit("name");
    reveal_strlit("value");
    reveal_strlit("domain");
    reveal_strlit("path");
    reveal_strlit("expires");
    reveal_strlit("httpOnly");
    reveal_strlit("secure");
    reveal_strlit("sameSite");
    assert("name"@[0] == 'n');
    assert("value"@[0] == 'v');
    assert("domain"@[0] == 'd');
    assert("path"@[0] == 'p');
    assert("expires"@[0] == 'e');
    assert("httpOnly"@[0] == 'h');
    assert("secure"@[0] == 's');
    assert("sameSite"@[0] == 's');
    assert("secure"@[1] == 'e');
    assert("sameSite"@[1] == 'a');
    let ms = cookie_params(c)->Object_0;
    members_are_read_back(ms, 0);
    members_are_read_back(ms, 1);
    members_are_read_back(ms, 2);
    members_are_read_back(ms, 3);
    members_are_read_back(ms, 4);
    members_are_read_back(ms, 5);
    if c.expires >= 0 {
        members_are_read_back(ms, 6);
        if c.same_site is Some {
            members_are_read_back(ms, 7);
        } else {
            other_keys_have_no_member(ms, "sameSite"@);
        }
    } else {
        other_keys_have_no_member(ms, "expires"@);
        if c.same_site is Some {
            members_are_read_back(ms, 6);
        } else {
            other_keys_have_no_member(ms, "sameSite"@);
        }
    }
}

/// Every cookie of a list is read, in order; what has no name or no value is left
/// out.
pub proof fn every_listed_cookie_is_read(vs: Seq<JsonView>, v: JsonView)
    ensures
        json_cookies(seq![]).len() == 0,
        v.str_field("name"@) is Some && v.str_field("value"@) is Some ==> (json_cookie(
            v,
        ) matches Some(c) && json_cookies(vs.push(v)) == json_cookies(vs).push(c)),
        v.str_field("name"@) is None || v.str_field("value"@) is None ==> json_cookies(vs.push(v))
            == json_cookies(vs),
{
    assert(vs.push(v).drop_last() =~= vs);
}

/// The cookies of an object are those that its member lists.
pub proof fn cookies_are_read_from_their_member(v: JsonView, key: Seq<char>, vs: Seq<JsonView>)
    ensures
        v.field(key) == Some(JsonView::Array(vs)) ==> listed_cookies(v, key) == json_cookies(vs),
        v.field(key) is None ==> listed_cookies(v, key).len() == 0,
{
}

/// A page has arrived when the event that was waited for comes for its own
/// session, and not before.
pub proof fn a_page_arrives_with_its_event(e: EventView, session: Seq<char>, wait: WaitFor)
    ensures
        says_arrived(e, session, wait) <==> e.session_id == Some(session) && e.method
            == "Page.lifecycleEvent"@ && e.params.str_field("name"@) == Some(
            match wait {
                WaitFor::Load => "load"@,
                WaitFor::NetworkIdle => "networkIdle"@,
                _ => "DOMContentLoaded"@,
            },
        ),
{
}

/// Every paused request of one of the sessions is answered, by its id and with the
/// URL that it is for; those of others are not.
pub proof fn every_paused_request_is_answered(
    e: EventView,
    sessions: Seq<Seq<char>>,
    session: Seq<char>,
    request: Seq<char>,
    url: Seq<char>,
)
    requires
        e.method == "Fetch.requestPaused"@,
        e.session_id == Some(session),
        e.params.str_field("requestId"@) == Some(request),
        e.params.str_field2("request"@, "url"@) == Some(url),
    ensures
        sessions.contains(session) ==> paused_of(e, sessions) == Some((session, request, url)),
        !sessions.contains(session) ==> paused_of(e, sessions) is None,
{
}

/// The requests of a page are let through where nothing speaks against them, and
/// the names that must be looked up are.
pub proof fn unobjectionable_requests_pass(
    u: UrlView,
    host: Seq<char>,
    allow_private: bool,
    addrs: Seq<IpView>,
    i: int,
)
    requires
        u.scheme == "http"@ || u.scheme == "https"@,
        u.host == Some(host),
        allow_private || !is_localhost(host),
    ensures
        literal(host) is None ==> fetch_lookup(Ok(u), true, allow_private) == Some(
            (host, match u.port {
                Some(p) => p,
                None => 0,
            }),
        ),
        literal(host) is None && (forall|k: int|
            0 <= k < addrs.len() ==> refusal(#[trigger] addrs[k], allow_private) is None)
            ==> fetch_refusal(Ok(u), true, allow_private, Some(addrs)) is None,
        literal(host) is None && 0 <= i < addrs.len() && refusal(addrs[i], allow_private) is Some
            ==> fetch_refusal(Ok(u), true, allow_private, Some(addrs)) is Some,
        literal(host) matches Some(ip) ==> fetch_refusal(Ok(u), true, allow_private, None)
            == refusal(ip, allow_private),
        literal(host) is None ==> fetch_refusal(Ok(u), false, allow_private, Some(addrs)) is None,
{
    the_first_refused_address_gives_the_reason(addrs, allow_private, 0);
    if 0 <= i < addrs.len() && refusal(addrs[i], allow_private) is Some && literal(host) is None {
        one_bad_address_refuses_a_name(u, allow_private, addrs, i);
        the_guards_agree(u, true, allow_private, Some(addrs));
    }
}

/// Where a page says it is is where it is, and where it was sent otherwise.
pub proof fn a_page_says_where_it_is(s: Seq<char>, fallback: UrlView)
    ensures
        url_parsed(s) matches Ok(u) ==> reported_url(Some(JsonView::Str(s)), fallback) == u,
        url_parsed(s) is Err ==> reported_url(Some(JsonView::Str(s)), fallback) == fallback,
        reported_url(None, fallback) == fallback,
{
}

/// A navigation fails where the browser says why, and only there.
pub proof fn a_navigation_fails_with_a_reason(reply: JsonView)
    ensures
        reply.str_field("errorText"@) is None ==> nav_fault(reply) is None,
        reply.str_field("errorText"@) matches Some(e) ==> (e.len() > 0 <==> nav_fault(
            reply,
        ) is Some),
{
}

/// The script looks for the selector that it was given.
pub proof fn a_probe_names_its_selector(q: Seq<char>)
    ensures
        has(selector_probe(q), q),
        selector_probe(q).len() == q.len() + selector_probe(seq![]).len(),
{
    a_part_occurs_in_the_whole("document.querySelector("@, q, ") != null"@);
}

} // verus!
