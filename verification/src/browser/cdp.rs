//! The DevTools protocol as this crate speaks it: the commands it sends, and how
//! an incoming frame is told apart.
//!
//! One WebSocket to the browser. A frame with an `id` answers a call, a frame
//! with a `method` is an event. No command here turns on the `Runtime` domain.

use vstd::prelude::*;

use super::engine::{BrowserError, BrowserFault};
use crate::jar::cookie::{Cookie, CookieView};
use crate::json::{
    member, members_are_read_back, number, number_value, numbers_are_read_back,
    other_keys_have_no_member, text_list, text_value, Json, JsonView, Members,
};
use crate::text::{
    a_part_occurs_in_the_whole, cat, drop_trailing, has, only, same, trailing_runs_are_dropped,
    trim_end_char,
};

verus! {

/// A DevTools event.
pub struct CdpEvent {
    pub method: String,
    pub params: Json,
    pub session_id: Option<String>,
}

/// What an event stands for.
#[verifier::ext_equal]
pub struct EventView {
    pub method: Seq<char>,
    pub params: JsonView,
    pub session_id: Option<Seq<char>>,
}

impl View for CdpEvent {
    type V = EventView;

    open spec fn view(&self) -> EventView {
        EventView {
            method: self.method@,
            params: self.params@,
            session_id: self.session_id.deep_view(),
        }
    }
}

/// High-frequency events that nothing here acts on.
pub open spec fn is_noise(method: Seq<char>) -> bool {
    method == "Network.dataReceived"@
        || method == "Network.responseReceivedExtraInfo"@
        || method == "Network.resourceChangedPriority"@
        || method == "Network.requestServedFromCache"@
        || method == "Network.loadingFailed"@
        || method == "Network.eventSourceMessageReceived"@
        || method == "Network.webSocketCreated"@
        || method == "Network.webSocketClosed"@
        || method == "Network.webSocketFrameSent"@
        || method == "Network.webSocketFrameReceived"@
        || method == "Network.webSocketFrameError"@
        || method == "Network.webSocketWillSendHandshakeRequest"@
        || method == "Network.webSocketHandshakeResponseReceived"@
        || method == "Page.screencastFrame"@
        || method == "Page.frameResized"@
        || method == "Page.frameStartedLoading"@
        || method == "Page.frameStoppedLoading"@
        || method == "Page.frameRequestedNavigation"@
}

/// High-frequency events that nothing here acts on. They are dropped as they
/// come in.
pub fn is_noisy_event(method: &str) -> (r: bool)
    ensures
        r == is_noise(method@),
{
    same(method, "Network.dataReceived")
        || same(method, "Network.responseReceivedExtraInfo")
        || same(method, "Network.resourceChangedPriority")
        || same(method, "Network.requestServedFromCache")
        || same(method, "Network.loadingFailed")
        || same(method, "Network.eventSourceMessageReceived")
        || same(method, "Network.webSocketCreated")
        || same(method, "Network.webSocketClosed")
        || same(method, "Network.webSocketFrameSent")
        || same(method, "Network.webSocketFrameReceived")
        || same(method, "Network.webSocketFrameError")
        || same(method, "Network.webSocketWillSendHandshakeRequest")
        || same(method, "Network.webSocketHandshakeResponseReceived")
        || same(method, "Page.screencastFrame")
        || same(method, "Page.frameResized")
        || same(method, "Page.frameStartedLoading")
        || same(method, "Page.frameStoppedLoading")
        || same(method, "Page.frameRequestedNavigation")
}

/// What an incoming frame is.
pub enum Frame {
    /// The answer to a call: its result, or the text of its error.
    Reply { id: u64, result: Result<Json, String> },
    Event(CdpEvent),
    /// Nothing to act on.
    Ignored,
}

/// What a frame stands for.
pub enum FrameView {
    Reply { id: u64, result: Result<JsonView, Seq<char>> },
    Event(EventView),
    Ignored,
}

impl View for Frame {
    type V = FrameView;

    open spec fn view(&self) -> FrameView {
        match *self {
            Frame::Reply { id, result } => FrameView::Reply {
                id,
                result: match result {
                    Ok(j) => Ok(j@),
                    Err(e) => Err(e@),
                },
            },
            Frame::Event(e) => FrameView::Event(e@),
            Frame::Ignored => FrameView::Ignored,
        }
    }
}

/// A member of an object, or null.
pub open spec fn field_or_null(v: JsonView, key: Seq<char>) -> JsonView {
    match v.field(key) {
        Some(x) => x,
        None => JsonView::Null,
    }
}

/// A whole number that a member holds.
pub open spec fn whole_field(v: JsonView, key: Seq<char>) -> Option<u64> {
    match v.field(key) {
        Some(x) => x.whole(),
        None => None,
    }
}

/// What an incoming frame is: an answer where it has an id, else an event where
/// it has a method that matters.
pub open spec fn frame_of(v: JsonView) -> FrameView {
    match whole_field(v, "id"@) {
        Some(id) => FrameView::Reply {
            id,
            result: match v.field("error"@) {
                Some(e) => Err(
                    match e.str_field("message"@) {
                        Some(m) => m,
                        None => "cdp error"@,
                    },
                ),
                None => Ok(field_or_null(v, "result"@)),
            },
        },
        None => match v.str_field("method"@) {
            Some(method) => if is_noise(method) {
                FrameView::Ignored
            } else {
                FrameView::Event(
                    EventView {
                        method,
                        params: field_or_null(v, "params"@),
                        session_id: v.str_field("sessionId"@),
                    },
                )
            },
            None => FrameView::Ignored,
        },
    }
}

/// Tell an incoming frame apart.
pub fn read_frame(v: Json) -> (r: Frame)
    ensures
        r@ == frame_of(v@),
{
    let id: Option<u64> = match v.get("id") {
        Some(x) => x.as_u64(),
        None => None,
    };
    match id {
        Some(id) => {
            let failed: Option<String> = match v.get("error") {
                Some(e) => Some(
                    match e.str_at("message") {
                        Some(m) => m,
                        None => "cdp error".to_owned(),
                    },
                ),
                None => None,
            };
            let result = match failed {
                Some(m) => Err(m),
                None => Ok(
                    match v.into_field("result") {
                        Some(j) => j,
                        None => Json::Null,
                    },
                ),
            };
            Frame::Reply { id, result }
        },
        None => match v.str_at("method") {
            Some(method) => {
                if is_noisy_event(method.as_str()) {
                    return Frame::Ignored;
                }
                let session_id = v.str_at("sessionId");
                let params = match v.into_field("params") {
                    Some(j) => j,
                    None => Json::Null,
                };
                Frame::Event(CdpEvent { method, params, session_id })
            },
            None => Frame::Ignored,
        },
    }
}

// ---------------------------------------------------------------------------
// Calls in flight
// ---------------------------------------------------------------------------

/// The calls that wait for an answer, each with what is to be told.
pub struct Waiting<T> {
    next_id: u64,
    slots: Vec<(u64, T)>,
}

impl<T> Waiting<T> {
    /// The id of the next call.
    pub closed spec fn next(&self) -> u64 {
        self.next_id
    }

    /// Who waits, by id.
    pub closed spec fn slots(&self) -> Seq<(u64, T)> {
        self.slots@
    }

    /// Ids are handed out once and in order.
    pub open spec fn wf(&self) -> bool {
        &&& forall|i: int| 0 <= i < self.slots().len() ==> (#[trigger] self.slots()[i]).0 < self.next()
        &&& forall|i: int, j: int|
            0 <= i < j < self.slots().len() ==> (#[trigger] self.slots()[i]).0 != (
            #[trigger] self.slots()[j]).0
    }

    pub fn new() -> (r: Waiting<T>)
        ensures
            r.wf(),
            r.next() == 1,
            r.slots() == Seq::<(u64, T)>::empty(),
    {
        Waiting { next_id: 1, slots: Vec::new() }
    }

    /// The id of a call that nobody waits for.
    pub fn issue_silent(&mut self) -> (r: u64)
        requires
            old(self).wf(),
            old(self).next() < u64::MAX,
        ensures
            final(self).wf(),
            r == old(self).next(),
            final(self).next() == r + 1,
            final(self).slots() == old(self).slots(),
    {
        let id: u64 = self.next_id;
        self.next_id = id + 1;
        assert(self.slots() == old(self).slots());
        id
    }

    /// The id of a call that `who` waits for.
    pub fn issue(&mut self, who: T) -> (r: u64)
        requires
            old(self).wf(),
            old(self).next() < u64::MAX,
        ensures
            final(self).wf(),
            r == old(self).next(),
            final(self).next() == r + 1,
            final(self).slots() == old(self).slots().push((r, who)),
    {
        let id: u64 = self.next_id;
        self.next_id = id + 1;
        self.slots.push((id, who));
        let ghost before = old(self).slots();
        assert(self.slots() == before.push((id, who)));
        assert forall|i: int| 0 <= i < self.slots().len() implies (#[trigger] self.slots()[i]).0
            < self.next() by {
            if i < before.len() {
                assert(self.slots()[i] == before[i]);
            }
        }
        assert forall|i: int, j: int| 0 <= i < j < self.slots().len() implies (
        #[trigger] self.slots()[i]).0 != (#[trigger] self.slots()[j]).0 by {
            assert(self.slots()[i] == before[i]);
            if j < before.len() {
                assert(self.slots()[j] == before[j]);
            }
        }
        id
    }

    /// Who waits for an id; nobody does afterwards.
    pub fn take(&mut self, id: u64) -> (r: Option<T>)
        requires
            old(self).wf(),
        ensures
            final(self).wf(),
            final(self).next() == old(self).next(),
            match r {
                Some(t) => exists|i: int|
                    0 <= i < old(self).slots().len() && #[trigger] old(self).slots()[i] == (id, t)
                        && final(self).slots() == old(self).slots().remove(i),
                None => final(self).slots() == old(self).slots() && forall|i: int|
                    0 <= i < old(self).slots().len() ==> (#[trigger] old(self).slots()[i]).0 != id,
            },
    {
        let n: usize = self.slots.len();
        for i in 0..n
            invariant
                n == self.slots@.len(),
                *self == *old(self),
                self.wf(),
                forall|k: int| 0 <= k < i ==> (#[trigger] self.slots@[k]).0 != id,
        {
            if self.slots[i].0 == id {
                let ghost before = self.slots@;
                let (_, t) = self.slots.remove(i);
                assert(before[i as int] == (id, t));
                assert(self.slots@ =~= before.remove(i as int));
                assert(old(self).slots()[i as int] == (id, t));
                return Some(t);
            }
        }
        None
    }

    /// Everybody who waits; nobody does afterwards.
    pub fn drain(&mut self) -> (r: Vec<(u64, T)>)
        ensures
            r@ == old(self).slots(),
            final(self).slots() == Seq::<(u64, T)>::empty(),
            final(self).next() == old(self).next(),
    {
        let mut all: Vec<(u64, T)> = Vec::new();
        all.append(&mut self.slots);
        assert(all@ =~= old(self).slots());
        all
    }
}

/// How a call ended.
pub enum CallEnd {
    Answered(Result<Json, String>),
    /// The waiting side went away.
    Dropped,
    TimedOut,
    /// The call could not be sent.
    WriterGone,
}

/// Why a call failed.
pub open spec fn call_fault(method: Seq<char>, end: CallEnd) -> Option<BrowserFault> {
    match end {
        CallEnd::Answered(Ok(_)) => None,
        CallEnd::Answered(Err(e)) => Some(BrowserFault::Cdp(method + ": "@ + e@)),
        CallEnd::Dropped => Some(BrowserFault::Cdp(method + ": "@ + "response dropped"@)),
        CallEnd::TimedOut => Some(BrowserFault::Cdp(method + ": "@ + "timed out"@)),
        CallEnd::WriterGone => Some(BrowserFault::Cdp("cdp writer gone"@)),
    }
}

/// The outcome of a call.
pub fn call_outcome(method: &str, end: CallEnd) -> (r: Result<Json, BrowserError>)
    ensures
        match r {
            Ok(j) => end == CallEnd::Answered(Ok(j)),
            Err(e) => call_fault(method@, end) == Some(e@),
        },
{
    let what = cat(method, ": ");
    match end {
        CallEnd::Answered(Ok(j)) => Ok(j),
        CallEnd::Answered(Err(e)) => Err(BrowserError::Cdp(cat(what.as_str(), e.as_str()))),
        CallEnd::Dropped => Err(BrowserError::Cdp(cat(what.as_str(), "response dropped"))),
        CallEnd::TimedOut => Err(BrowserError::Cdp(cat(what.as_str(), "timed out"))),
        CallEnd::WriterGone => Err(BrowserError::Cdp("cdp writer gone".to_owned())),
    }
}

// ---------------------------------------------------------------------------
// Commands
// ---------------------------------------------------------------------------

/// Runs in every document before its own scripts.
pub const STEALTH_JS: &'static str = "\nObject.defineProperty(navigator, 'webdriver', { get: () => false });\nwindow.chrome = window.chrome || { runtime: {} };\n";

/// Every command that is ever sent.
pub enum Call {
    /// One browser context, behind a proxy where there is one.
    CreateBrowserContext { proxy: Option<String> },
    /// A blank page in a browser context.
    CreateTarget { context: Option<String> },
    /// A session with a page.
    AttachToTarget { target: String },
    PageEnable,
    /// Network events, with small response buffers.
    NetworkEnable,
    /// Pause every request until it is vetted.
    FetchEnable,
    LifecycleEvents,
    GetFrameTree,
    AddStealthScript,
    SetBlockedUrls { urls: Vec<String> },
    SetUserAgent { user_agent: String },
    SetCookies { cookies: Vec<Cookie> },
    CreateIsolatedWorld { frame: String },
    Evaluate { expression: String, world: i64 },
    Navigate { url: String },
    SetAutoAttach,
    /// Let a paused target run.
    RunIfWaitingForDebugger,
    CloseTarget { target: String },
    DisposeContext { id: String },
    GetResponseBody { request: String },
    GetCookies { context: Option<String> },
    ContinueRequest { request: String },
    FailRequest { request: String },
}

/// What a command stands for.
pub enum CallView {
    CreateBrowserContext { proxy: Option<Seq<char>> },
    CreateTarget { context: Option<Seq<char>> },
    AttachToTarget { target: Seq<char> },
    PageEnable,
    NetworkEnable,
    FetchEnable,
    LifecycleEvents,
    GetFrameTree,
    AddStealthScript,
    SetBlockedUrls { urls: Seq<Seq<char>> },
    SetUserAgent { user_agent: Seq<char> },
    SetCookies { cookies: Seq<CookieView> },
    CreateIsolatedWorld { frame: Seq<char> },
    Evaluate { expression: Seq<char>, world: i64 },
    Navigate { url: Seq<char> },
    SetAutoAttach,
    RunIfWaitingForDebugger,
    CloseTarget { target: Seq<char> },
    DisposeContext { id: Seq<char> },
    GetResponseBody { request: Seq<char> },
    GetCookies { context: Option<Seq<char>> },
    ContinueRequest { request: Seq<char> },
    FailRequest { request: Seq<char> },
}

impl View for Call {
    type V = CallView;

    open spec fn view(&self) -> CallView {
        match *self {
            Call::CreateBrowserContext { proxy } => CallView::CreateBrowserContext { proxy: proxy.deep_view() },
            Call::CreateTarget { context } => CallView::CreateTarget { context: context.deep_view() },
            Call::AttachToTarget { target } => CallView::AttachToTarget { target: target@ },
            Call::PageEnable => CallView::PageEnable,
            Call::NetworkEnable => CallView::NetworkEnable,
            Call::FetchEnable => CallView::FetchEnable,
            Call::LifecycleEvents => CallView::LifecycleEvents,
            Call::GetFrameTree => CallView::GetFrameTree,
            Call::AddStealthScript => CallView::AddStealthScript,
            Call::SetBlockedUrls { urls } => CallView::SetBlockedUrls { urls: urls.deep_view() },
            Call::SetUserAgent { user_agent } => CallView::SetUserAgent { user_agent: user_agent@ },
            Call::SetCookies { cookies } => CallView::SetCookies { cookies: cookies.deep_view() },
            Call::CreateIsolatedWorld { frame } => CallView::CreateIsolatedWorld { frame: frame@ },
            Call::Evaluate { expression, world } => CallView::Evaluate { expression: expression@, world: world },
            Call::Navigate { url } => CallView::Navigate { url: url@ },
            Call::SetAutoAttach => CallView::SetAutoAttach,
            Call::RunIfWaitingForDebugger => CallView::RunIfWaitingForDebugger,
            Call::CloseTarget { target } => CallView::CloseTarget { target: target@ },
            Call::DisposeContext { id } => CallView::DisposeContext { id: id@ },
            Call::GetResponseBody { request } => CallView::GetResponseBody { request: request@ },
            Call::GetCookies { context } => CallView::GetCookies { context: context.deep_view() },
            Call::ContinueRequest { request } => CallView::ContinueRequest { request: request@ },
            Call::FailRequest { request } => CallView::FailRequest { request: request@ },
        }
    }
}

impl DeepView for Call {
    type V = CallView;

    open spec fn deep_view(&self) -> CallView {
        self@
    }
}

/// Strings as JSON.
pub open spec fn text_items(v: Seq<Seq<char>>) -> JsonView {
    JsonView::Array(v.map_values(|s: Seq<char>| JsonView::Str(s)))
}

/// The patterns of the request interception: everything, before it is sent.
pub open spec fn every_request() -> JsonView {
    JsonView::Array(
        seq![
            JsonView::Object(
                seq![
                    ("urlPattern"@, JsonView::Str("*"@)),
                    ("requestStage"@, JsonView::Str("Request"@)),
                ],
            ),
        ],
    )
}

fn every_request_value() -> (r: Json)
    ensures
        r@ == every_request(),
{
    let ms = Members::new().with("urlPattern", text_value("*")).with(
        "requestStage",
        text_value("Request"),
    );
    assert(ms@ =~= seq![
        ("urlPattern"@, JsonView::Str("*"@)),
        ("requestStage"@, JsonView::Str("Request"@)),
    ]);
    let mut v: Vec<Json> = Vec::new();
    v.push(ms.object());
    let r = Json::Array(v);
    assert(r@->Array_0 =~= every_request()->Array_0);
    r
}

/// A cookie as the browser takes it.
pub open spec fn cookie_params(c: CookieView) -> JsonView {
    let base = seq![
        ("name"@, JsonView::Str(c.name)),
        ("value"@, JsonView::Str(c.value)),
        ("domain"@, JsonView::Str(c.domain)),
        ("path"@, JsonView::Str(c.path)),
        ("secure"@, JsonView::Bool(c.secure)),
        ("httpOnly"@, JsonView::Bool(c.http_only)),
    ];
    let dated = if c.expires >= 0 {
        base.push(("expires"@, JsonView::Micros(c.expires)))
    } else {
        base
    };
    JsonView::Object(
        match c.same_site {
            Some(s) => dated.push(("sameSite"@, JsonView::Str(s))),
            None => dated,
        },
    )
}

/// Cookies as the browser takes them.
pub open spec fn cookie_items(cs: Seq<CookieView>) -> JsonView {
    JsonView::Array(cs.map_values(|c: CookieView| cookie_params(c)))
}

/// A cookie as the browser takes it.
pub fn cookie_to_cdp(c: &Cookie) -> (r: Json)
    ensures
        r@ == cookie_params(c@),
{
    let base = Members::new().with("name", text_value(c.name.as_str())).with(
        "value",
        text_value(c.value.as_str()),
    ).with("domain", text_value(c.domain.as_str())).with("path", text_value(c.path.as_str())).with(
        "secure",
        Json::Bool(c.secure),
    ).with("httpOnly", Json::Bool(c.http_only));
    let dated = if c.expires >= 0 {
        base.with("expires", Json::Micros(c.expires))
    } else {
        base
    };
    let all = match &c.same_site {
        Some(s) => dated.with("sameSite", text_value(s.as_str())),
        None => dated,
    };
    assert(all@ =~= cookie_params(c@)->Object_0);
    all.object()
}

fn cookie_list(cs: &Vec<Cookie>) -> (r: Json)
    ensures
        r@ == cookie_items(cs.deep_view()),
{
    let mut out: Vec<Json> = Vec::new();
    for i in 0..cs.len()
        invariant
            out@.len() == i,
            forall|k: int| 0 <= k < i ==> (#[trigger] out@[k])@ == cookie_params(cs@[k]@),
    {
        out.push(cookie_to_cdp(&cs[i]));
    }
    let r = Json::Array(out);
    assert(r@->Array_0 =~= cs.deep_view().map_values(|c: CookieView| cookie_params(c)));
    r
}

impl CallView {
    /// The name of the command.
    pub open spec fn method(self) -> Seq<char> {
        match self {
            CallView::CreateBrowserContext { .. } => "Target.createBrowserContext"@,
            CallView::CreateTarget { .. } => "Target.createTarget"@,
            CallView::AttachToTarget { .. } => "Target.attachToTarget"@,
            CallView::PageEnable => "Page.enable"@,
            CallView::NetworkEnable => "Network.enable"@,
            CallView::FetchEnable => "Fetch.enable"@,
            CallView::LifecycleEvents => "Page.setLifecycleEventsEnabled"@,
            CallView::GetFrameTree => "Page.getFrameTree"@,
            CallView::AddStealthScript => "Page.addScriptToEvaluateOnNewDocument"@,
            CallView::SetBlockedUrls { .. } => "Network.setBlockedURLs"@,
            CallView::SetUserAgent { .. } => "Network.setUserAgentOverride"@,
            CallView::SetCookies { .. } => "Network.setCookies"@,
            CallView::CreateIsolatedWorld { .. } => "Page.createIsolatedWorld"@,
            CallView::Evaluate { .. } => "Runtime.evaluate"@,
            CallView::Navigate { .. } => "Page.navigate"@,
            CallView::SetAutoAttach => "Target.setAutoAttach"@,
            CallView::RunIfWaitingForDebugger => "Runtime.runIfWaitingForDebugger"@,
            CallView::CloseTarget { .. } => "Target.closeTarget"@,
            CallView::DisposeContext { .. } => "Target.disposeBrowserContext"@,
            CallView::GetResponseBody { .. } => "Network.getResponseBody"@,
            CallView::GetCookies { .. } => "Storage.getCookies"@,
            CallView::ContinueRequest { .. } => "Fetch.continueRequest"@,
            CallView::FailRequest { .. } => "Fetch.failRequest"@,
        }
    }

    /// The members of its parameters.
    pub open spec fn params(self) -> Seq<(Seq<char>, JsonView)> {
        match self {
            CallView::CreateBrowserContext { proxy } => {
                let base = seq![("disposeOnDetach"@, JsonView::Bool(true))];
                match proxy {
                    Some(p) => base.push(
                        ("proxyServer"@, JsonView::Str(drop_trailing(p, only('/')))),
                    ),
                    None => base,
                }
            },
            CallView::CreateTarget { context } => {
                let base = seq![("url"@, JsonView::Str("about:blank"@))];
                match context {
                    Some(c) => base.push(("browserContextId"@, JsonView::Str(c))),
                    None => base,
                }
            },
            CallView::AttachToTarget { target } => seq![
                ("targetId"@, JsonView::Str(target)),
                ("flatten"@, JsonView::Bool(true)),
            ],
            CallView::PageEnable => seq![],
            CallView::NetworkEnable => seq![
                ("maxResourceBufferSize"@, JsonView::Int(2_097_152)),
                ("maxTotalBufferSize"@, JsonView::Int(8_388_608)),
            ],
            CallView::FetchEnable => seq![
                ("patterns"@, every_request()),
            ],
            CallView::LifecycleEvents => seq![
                ("enabled"@, JsonView::Bool(true)),
            ],
            CallView::GetFrameTree => seq![],
            CallView::AddStealthScript => seq![
                ("source"@, JsonView::Str(STEALTH_JS@)),
            ],
            CallView::SetBlockedUrls { urls } => seq![
                ("urls"@, text_items(urls)),
            ],
            CallView::SetUserAgent { user_agent } => seq![
                ("userAgent"@, JsonView::Str(user_agent)),
            ],
            CallView::SetCookies { cookies } => seq![
                ("cookies"@, cookie_items(cookies)),
            ],
            CallView::CreateIsolatedWorld { frame } => seq![
                ("frameId"@, JsonView::Str(frame)),
                ("worldName"@, JsonView::Str("cobweb"@)),
                ("grantUniveralAccess"@, JsonView::Bool(true)),
            ],
            CallView::Evaluate { expression, world } => seq![
                ("expression"@, JsonView::Str(expression)),
                ("contextId"@, JsonView::Int(world)),
                ("returnByValue"@, JsonView::Bool(true)),
                ("awaitPromise"@, JsonView::Bool(true)),
            ],
            CallView::Navigate { url } => seq![
                ("url"@, JsonView::Str(url)),
            ],
            CallView::SetAutoAttach => seq![
                ("autoAttach"@, JsonView::Bool(true)),
                ("waitForDebuggerOnStart"@, JsonView::Bool(true)),
                ("flatten"@, JsonView::Bool(true)),
            ],
            CallView::RunIfWaitingForDebugger => seq![],
            CallView::CloseTarget { target } => seq![
                ("targetId"@, JsonView::Str(target)),
            ],
            CallView::DisposeContext { id } => seq![
                ("browserContextId"@, JsonView::Str(id)),
            ],
            CallView::GetResponseBody { request } => seq![
                ("requestId"@, JsonView::Str(request)),
            ],
            CallView::GetCookies { context } => match context {
                Some(c) => seq![("browserContextId"@, JsonView::Str(c))],
                None => seq![],
            },
            CallView::ContinueRequest { request } => seq![
                ("requestId"@, JsonView::Str(request)),
            ],
            CallView::FailRequest { request } => seq![
                ("requestId"@, JsonView::Str(request)),
                ("errorReason"@, JsonView::Str("BlockedByClient"@)),
            ],
        }
    }
}

impl Call {
    /// The name of the command.
    pub fn method(&self) -> (r: &'static str)
        ensures
            r@ == self@.method(),
    {
        match self {
            Call::CreateBrowserContext { .. } => "Target.createBrowserContext",
            Call::CreateTarget { .. } => "Target.createTarget",
            Call::AttachToTarget { .. } => "Target.attachToTarget",
            Call::PageEnable => "Page.enable",
            Call::NetworkEnable => "Network.enable",
            Call::FetchEnable => "Fetch.enable",
            Call::LifecycleEvents => "Page.setLifecycleEventsEnabled",
            Call::GetFrameTree => "Page.getFrameTree",
            Call::AddStealthScript => "Page.addScriptToEvaluateOnNewDocument",
            Call::SetBlockedUrls { .. } => "Network.setBlockedURLs",
            Call::SetUserAgent { .. } => "Network.setUserAgentOverride",
            Call::SetCookies { .. } => "Network.setCookies",
            Call::CreateIsolatedWorld { .. } => "Page.createIsolatedWorld",
            Call::Evaluate { .. } => "Runtime.evaluate",
            Call::Navigate { .. } => "Page.navigate",
            Call::SetAutoAttach => "Target.setAutoAttach",
            Call::RunIfWaitingForDebugger => "Runtime.runIfWaitingForDebugger",
            Call::CloseTarget { .. } => "Target.closeTarget",
            Call::DisposeContext { .. } => "Target.disposeBrowserContext",
            Call::GetResponseBody { .. } => "Network.getResponseBody",
            Call::GetCookies { .. } => "Storage.getCookies",
            Call::ContinueRequest { .. } => "Fetch.continueRequest",
            Call::FailRequest { .. } => "Fetch.failRequest",
        }
    }

    /// Its parameters.
    pub fn params(&self) -> (r: Json)
        ensures
            r@ == JsonView::Object(self@.params()),
    {
        let ms = match self {
            Call::CreateBrowserContext { proxy } => {
                let base = Members::new().with("disposeOnDetach", Json::Bool(true));
                match proxy {
                    Some(p) => base.with(
                        "proxyServer",
                        Json::Str(trim_end_char(p.as_str(), '/')),
                    ),
                    None => base,
                }
            },
            Call::CreateTarget { context } => {
                let base = Members::new().with("url", text_value("about:blank"));
                match context {
                    Some(c) => base.with("browserContextId", text_value(c.as_str())),
                    None => base,
                }
            },
            Call::AttachToTarget { target } => Members::new().with(
                "targetId",
                text_value(target.as_str()),
            ).with(
                "flatten",
                Json::Bool(true),
            ),
            Call::PageEnable => Members::new(),
            Call::NetworkEnable => Members::new().with(
                "maxResourceBufferSize",
                Json::Int(2_097_152),
            ).with(
                "maxTotalBufferSize",
                Json::Int(8_388_608),
            ),
            Call::FetchEnable => Members::new().with(
                "patterns",
                every_request_value(),
            ),
            Call::LifecycleEvents => Members::new().with(
                "enabled",
                Json::Bool(true),
            ),
            Call::GetFrameTree => Members::new(),
            Call::AddStealthScript => Members::new().with(
                "source",
                text_value(STEALTH_JS),
            ),
            Call::SetBlockedUrls { urls } => Members::new().with(
                "urls",
                text_list(urls),
            ),
            Call::SetUserAgent { user_agent } => Members::new().with(
                "userAgent",
                text_value(user_agent.as_str()),
            ),
            Call::SetCookies { cookies } => Members::new().with(
                "cookies",
                cookie_list(cookies),
            ),
            Call::CreateIsolatedWorld { frame } => Members::new().with(
                "frameId",
                text_value(frame.as_str()),
            ).with(
                "worldName",
                text_value("cobweb"),
            ).with(
                "grantUniveralAccess",
                Json::Bool(true),
            ),
            Call::Evaluate { expression, world } => Members::new().with(
                "expression",
                text_value(expression.as_str()),
            ).with(
                "contextId",
                Json::Int(*world),
            ).with(
                "returnByValue",
                Json::Bool(true),
            ).with(
                "awaitPromise",
                Json::Bool(true),
            ),
            Call::Navigate { url } => Members::new().with(
                "url",
                text_value(url.as_str()),
            ),
            Call::SetAutoAttach => Members::new().with(
                "autoAttach",
                Json::Bool(true),
            ).with(
                "waitForDebuggerOnStart",
                Json::Bool(true),
            ).with(
                "flatten",
                Json::Bool(true),
            ),
            Call::RunIfWaitingForDebugger => Members::new(),
            Call::CloseTarget { target } => Members::new().with(
                "targetId",
                text_value(target.as_str()),
            ),
            Call::DisposeContext { id } => Members::new().with(
                "browserContextId",
                text_value(id.as_str()),
            ),
            Call::GetResponseBody { request } => Members::new().with(
                "requestId",
                text_value(request.as_str()),
            ),
            Call::GetCookies { context } => match context {
                Some(c) => Members::new().with("browserContextId", text_value(c.as_str())),
                None => Members::new(),
            },
            Call::ContinueRequest { request } => Members::new().with(
                "requestId",
                text_value(request.as_str()),
            ),
            Call::FailRequest { request } => Members::new().with(
                "requestId",
                text_value(request.as_str()),
            ).with(
                "errorReason",
                text_value("BlockedByClient"),
            ),
        };
        assert(ms@ =~= self@.params());
        ms.object()
    }

    /// The frame that carries the command, to a session where there is one.
    pub fn frame(&self, id: u64, session: &Option<String>) -> (r: Json)
        ensures
            r@ == JsonView::Object(call_frame(self@, id, session.deep_view())),
    {
        let base = Members::new().with("id", number_value(id)).with(
            "method",
            text_value(self.method()),
        ).with("params", self.params());
        let all = match session {
            Some(s) => base.with("sessionId", text_value(s.as_str())),
            None => base,
        };
        assert(all@ =~= call_frame(self@, id, session.deep_view()));
        all.object()
    }
}

/// The members of the frame that carries a command.
pub open spec fn call_frame(c: CallView, id: u64, session: Option<Seq<char>>) -> Seq<
    (Seq<char>, JsonView),
> {
    let base = seq![
        ("id"@, number(id)),
        ("method"@, JsonView::Str(c.method())),
        ("params"@, JsonView::Object(c.params())),
    ];
    match session {
        Some(s) => base.push(("sessionId"@, JsonView::Str(s))),
        None => base,
    }
}

/// Of all commands two are of the `Runtime` domain.
proof fn lemma_runtime_methods(c: CallView)
    ensures
        c.method()[0] == 'R' ==> c is Evaluate || c is RunIfWaitingForDebugger,
        c is Evaluate ==> c.method().len() == 16,
        c is RunIfWaitingForDebugger ==> c.method().len() == 31,
{
    reveal_strlit("Target.createBrowserContext");
    reveal_strlit("Target.createTarget");
    reveal_strlit("Target.attachToTarget");
    reveal_strlit("Page.enable");
    reveal_strlit("Network.enable");
    reveal_strlit("Fetch.enable");
    reveal_strlit("Page.setLifecycleEventsEnabled");
    reveal_strlit("Page.getFrameTree");
    reveal_strlit("Page.addScriptToEvaluateOnNewDocument");
    reveal_strlit("Network.setBlockedURLs");
    reveal_strlit("Network.setUserAgentOverride");
    reveal_strlit("Network.setCookies");
    reveal_strlit("Page.createIsolatedWorld");
    reveal_strlit("Runtime.evaluate");
    reveal_strlit("Page.navigate");
    reveal_strlit("Target.setAutoAttach");
    reveal_strlit("Runtime.runIfWaitingForDebugger");
    reveal_strlit("Target.closeTarget");
    reveal_strlit("Target.disposeBrowserContext");
    reveal_strlit("Network.getResponseBody");
    reveal_strlit("Storage.getCookies");
    reveal_strlit("Fetch.continueRequest");
    reveal_strlit("Fetch.failRequest");
}

/// No command turns on the `Runtime` domain.
pub proof fn runtime_is_never_enabled(c: CallView)
    ensures
        c.method() != "Runtime"@ + ".enable"@,
{
    reveal_strlit("Runtime");
    reveal_strlit(".enable");
    let name = "Runtime"@ + ".enable"@;
    assert(name.len() == 14);
    assert(name[0] == 'R');
    lemma_runtime_methods(c);
}

/// A script runs in the isolated world it is given, never in the page's own.
pub proof fn scripts_run_in_an_isolated_world(c: CallView)
    requires
        c.method() == "Runtime.evaluate"@,
    ensures
        c matches CallView::Evaluate { expression, world } && JsonView::Object(c.params()).field(
            "contextId"@,
        ) == Some(JsonView::Int(world)),
{
    reveal_strlit("Runtime.evaluate");
    assert("Runtime.evaluate"@.len() == 16);
    assert("Runtime.evaluate"@[0] == 'R');
    lemma_runtime_methods(c);
    reveal_strlit("expression");
    reveal_strlit("contextId");
    assert("expression"@.len() == 10);
    assert("contextId"@.len() == 9);
    reveal_with_fuel(member, 3);
    let ps = c.params();
    if let CallView::Evaluate { expression, world } = c {
        assert(ps.skip(1)[0] == ("contextId"@, JsonView::Int(world)));
    }
}

/// A target that is attached waits until it is let run.
pub proof fn attached_targets_wait()
    ensures
        JsonView::Object(CallView::SetAutoAttach.params()).field("waitForDebuggerOnStart"@) == Some(
            JsonView::Bool(true),
        ),
{
    reveal_strlit("autoAttach");
    reveal_strlit("waitForDebuggerOnStart");
    assert("autoAttach"@.len() == 10);
    assert("waitForDebuggerOnStart"@.len() == 22);
    reveal_with_fuel(member, 3);
    let ps = CallView::SetAutoAttach.params();
    assert(ps.skip(1)[0] == ("waitForDebuggerOnStart"@, JsonView::Bool(true)));
}

/// The events that something acts on are all handed on, with their parameters and
/// their session.
pub proof fn events_that_matter_are_handed_on(v: JsonView, method: Seq<char>)
    requires
        v.field("id"@) is None,
        v.str_field("method"@) == Some(method),
        method == "Network.requestWillBeSent"@ || method == "Network.requestWillBeSentExtraInfo"@
            || method == "Network.responseReceived"@ || method == "Network.loadingFinished"@
            || method == "Target.attachedToTarget"@ || method == "Fetch.requestPaused"@ || method
            == "Page.lifecycleEvent"@,
    ensures
        frame_of(v) matches FrameView::Event(e) && e.method == method && e.session_id
            == v.str_field("sessionId"@) && (v.field("params"@) matches Some(p) ==> e.params == p),
{
    lemma_heard(method);
}

proof fn lemma_heard(method: Seq<char>)
    requires
        method == "Network.requestWillBeSent"@ || method == "Network.requestWillBeSentExtraInfo"@
            || method == "Network.responseReceived"@ || method == "Network.loadingFinished"@
            || method == "Target.attachedToTarget"@ || method == "Fetch.requestPaused"@ || method
            == "Page.lifecycleEvent"@,
    ensures
        !is_noise(method),
{
    reveal_strlit("Network.requestWillBeSent");
    reveal_strlit("Network.requestWillBeSentExtraInfo");
    reveal_strlit("Network.responseReceived");
    reveal_strlit("Network.loadingFinished");
    reveal_strlit("Target.attachedToTarget");
    reveal_strlit("Fetch.requestPaused");
    reveal_strlit("Page.lifecycleEvent");
    reveal_strlit("Network.dataReceived");
    reveal_strlit("Network.responseReceivedExtraInfo");
    reveal_strlit("Network.resourceChangedPriority");
    reveal_strlit("Network.requestServedFromCache");
    reveal_strlit("Network.loadingFailed");
    reveal_strlit("Network.eventSourceMessageReceived");
    reveal_strlit("Network.webSocketCreated");
    reveal_strlit("Network.webSocketClosed");
    reveal_strlit("Network.webSocketFrameSent");
    reveal_strlit("Network.webSocketFrameReceived");
    reveal_strlit("Network.webSocketFrameError");
    reveal_strlit("Network.webSocketWillSendHandshakeRequest");
    reveal_strlit("Network.webSocketHandshakeResponseReceived");
    reveal_strlit("Page.screencastFrame");
    reveal_strlit("Page.frameResized");
    reveal_strlit("Page.frameStartedLoading");
    reveal_strlit("Page.frameStoppedLoading");
    reveal_strlit("Page.frameRequestedNavigation");
    let n = method.len();
    assert(n == 25 || n == 34 || n == 24 || n == 23 || n == 19);
    assert(n == 25 ==> method[8] == 'r' && method[10] == 'q');
    assert(n == 34 ==> method[8] == 'r' && method[10] == 'q');
    assert(n == 24 ==> method[8] == 'r');
    assert(n == 23 ==> method[8] == 'l' || method[0] == 'T');
    assert(n == 19 ==> method[0] == 'F' || method[5] == 'l');
    assert(is_noise(method) && n == 23 ==> method[8] == 'w' || method[8] == 'r');
}

/// An answer goes to the call of its id: its result, or the message of its error.
pub proof fn answers_go_to_their_call(v: JsonView, id: u64)
    requires
        v.field("id"@) == Some(number(id)),
    ensures
        v.field("error"@) is None ==> (frame_of(v) matches FrameView::Reply { id: to, result } && to
            == id && (v.field("result"@) matches Some(r) ==> result == Ok::<JsonView, Seq<char>>(
            r,
        ))),
        v.field("error"@) matches Some(e) ==> (frame_of(v) matches FrameView::Reply {
            id: to,
            result,
        } && to == id && (e.str_field("message"@) matches Some(m) ==> result == Err::<
            JsonView,
            Seq<char>,
        >(m)) && result is Err),
{
    numbers_are_read_back(id);
}

/// A command is sent under its id and name, with its parameters, to its session.
pub proof fn a_command_is_sent_in_full(c: CallView, id: u64, session: Seq<char>)
    ensures
        ({
            let plain = JsonView::Object(call_frame(c, id, None));
            let aimed = JsonView::Object(call_frame(c, id, Some(session)));
            &&& plain.field("id"@) == Some(number(id))
            &&& aimed.field("id"@) == Some(number(id))
            &&& plain.str_field("method"@) == Some(c.method())
            &&& aimed.str_field("method"@) == Some(c.method())
            &&& plain.field("params"@) == Some(JsonView::Object(c.params()))
            &&& aimed.field("params"@) == Some(JsonView::Object(c.params()))
            &&& aimed.str_field("sessionId"@) == Some(session)
            &&& plain.str_field("sessionId"@) is None
        }),
{
    reveal_strlit("id");
    reveal_strlit("method");
    reveal_strlit("params");
    reveal_strlit("sessionId");
    assert("id"@[0] == 'i');
    assert("method"@[0] == 'm');
    assert("params"@[0] == 'p');
    assert("sessionId"@[0] == 's');
    let a = call_frame(c, id, None);
    let b = call_frame(c, id, Some(session));
    members_are_read_back(a, 0);
    members_are_read_back(a, 1);
    members_are_read_back(a, 2);
    members_are_read_back(b, 0);
    members_are_read_back(b, 1);
    members_are_read_back(b, 2);
    members_are_read_back(b, 3);
    other_keys_have_no_member(a, "sessionId"@);
}

/// A command names what it is about: the page, the request, the target, the
/// session's cookies, the blocked URLs, the user agent or the script.
pub proof fn commands_name_what_they_are_about(
    text: Seq<char>,
    texts: Seq<Seq<char>>,
    cookies: Seq<CookieView>,
    world: i64,
    i: int,
)
    ensures
        JsonView::Object((CallView::Navigate { url: text }).params()).str_field("url"@) == Some(
            text,
        ),
        JsonView::Object((CallView::GetResponseBody { request: text }).params()).str_field(
            "requestId"@,
        ) == Some(text),
        JsonView::Object((CallView::ContinueRequest { request: text }).params()).str_field(
            "requestId"@,
        ) == Some(text),
        JsonView::Object((CallView::FailRequest { request: text }).params()).str_field(
            "requestId"@,
        ) == Some(text),
        JsonView::Object((CallView::CloseTarget { target: text }).params()).str_field("targetId"@)
            == Some(text),
        JsonView::Object((CallView::AttachToTarget { target: text }).params()).str_field(
            "targetId"@,
        ) == Some(text),
        JsonView::Object((CallView::SetUserAgent { user_agent: text }).params()).str_field(
            "userAgent"@,
        ) == Some(text),
        JsonView::Object((CallView::Evaluate { expression: text, world }).params()).str_field(
            "expression"@,
        ) == Some(text),
        JsonView::Object((CallView::DisposeContext { id: text }).params()).str_field(
            "browserContextId"@,
        ) == Some(text),
        JsonView::Object((CallView::SetBlockedUrls { urls: texts }).params()).field(
            "urls"@,
        ) matches Some(JsonView::Array(vs)) && vs.len() == texts.len() && (0 <= i < texts.len()
            ==> vs[i] == JsonView::Str(texts[i])),
        JsonView::Object((CallView::SetCookies { cookies }).params()).field(
            "cookies"@,
        ) matches Some(JsonView::Array(vs)) && vs.len() == cookies.len() && (0 <= i < cookies.len()
            ==> vs[i] == cookie_params(cookies[i])),
{
    members_are_read_back((CallView::Navigate { url: text }).params(), 0);
    members_are_read_back((CallView::GetResponseBody { request: text }).params(), 0);
    members_are_read_back((CallView::ContinueRequest { request: text }).params(), 0);
    members_are_read_back((CallView::FailRequest { request: text }).params(), 0);
    members_are_read_back((CallView::CloseTarget { target: text }).params(), 0);
    members_are_read_back((CallView::AttachToTarget { target: text }).params(), 0);
    members_are_read_back((CallView::SetUserAgent { user_agent: text }).params(), 0);
    members_are_read_back((CallView::Evaluate { expression: text, world }).params(), 0);
    members_are_read_back((CallView::DisposeContext { id: text }).params(), 0);
    members_are_read_back((CallView::SetBlockedUrls { urls: texts }).params(), 0);
    members_are_read_back((CallView::SetCookies { cookies }).params(), 0);
}

/// A context is behind its proxy, without the slash at the end of the proxy's
/// URL, and direct only where there is none.
pub proof fn a_context_is_behind_its_proxy(p: Seq<char>)
    requires
        p.len() > 0,
        p.last() != '/',
    ensures
        ({
            let bare = JsonView::Object((CallView::CreateBrowserContext { proxy: None }).params());
            let plain = JsonView::Object(
                (CallView::CreateBrowserContext { proxy: Some(p) }).params(),
            );
            let slashed = JsonView::Object(
                (CallView::CreateBrowserContext { proxy: Some(p.push('/')) }).params(),
            );
            &&& plain.str_field("proxyServer"@) == Some(p)
            &&& slashed.str_field("proxyServer"@) == Some(p)
            &&& bare.str_field("proxyServer"@) is None
            &&& plain.bool_field("disposeOnDetach"@) == Some(true)
            &&& bare.bool_field("disposeOnDetach"@) == Some(true)
        }),
{
    reveal_strlit("disposeOnDetach");
    reveal_strlit("proxyServer");
    assert("disposeOnDetach"@[0] == 'd');
    assert("proxyServer"@[0] == 'p');
    let e = Seq::<char>::empty();
    trailing_runs_are_dropped(p, e, only('/'));
    assert(p + e =~= p);
    trailing_runs_are_dropped(p, seq!['/'], only('/'));
    assert(p + seq!['/'] =~= p.push('/'));
    let a = (CallView::CreateBrowserContext { proxy: None }).params();
    let b = (CallView::CreateBrowserContext { proxy: Some(p) }).params();
    let c = (CallView::CreateBrowserContext { proxy: Some(p.push('/')) }).params();
    members_are_read_back(a, 0);
    members_are_read_back(b, 0);
    members_are_read_back(b, 1);
    members_are_read_back(c, 1);
    other_keys_have_no_member(a, "proxyServer"@);
}

/// A call fails in every way but one: that it was answered with a result.
pub proof fn only_an_answer_is_a_success(method: Seq<char>, j: Json, e: String)
    ensures
        call_fault(method, CallEnd::Answered(Ok(j))) is None,
        call_fault(method, CallEnd::Answered(Err(e))) matches Some(BrowserFault::Cdp(m)) && has(
            m,
            method,
        ) && has(m, e@),
        call_fault(method, CallEnd::Dropped) is Some,
        call_fault(method, CallEnd::TimedOut) is Some,
        call_fault(method, CallEnd::WriterGone) is Some,
{
    let n = Seq::<char>::empty();
    let m = method + ": "@ + e@;
    a_part_occurs_in_the_whole(n, method, ": "@ + e@);
    a_part_occurs_in_the_whole(method + ": "@, e@, n);
    assert(n + method + (": "@ + e@) =~= m);
    assert(method + ": "@ + e@ + n =~= m);
}

} // verus!
