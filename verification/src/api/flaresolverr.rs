//! FlareSolverr-compatible surface.
//!
//! `POST /v1` with `{cmd, url, session?, maxTimeout?, proxy?}`. `request.get`
//! runs the browser and answers in FlareSolverr's `solution` shape; `sessions.*`
//! map onto jar entries keyed by the session name.

use vstd::prelude::*;

use crate::api::dto::{clamp_timeout_ms, clamped, MAX_TIMEOUT_MS, MIN_TIMEOUT_MS};
use crate::browser::cdp_engine::{json_cookie, json_cookies};
use crate::browser::engine::{BrowserError, PageLoad};
use crate::egress::{Egress, EgressView};
use crate::error::CobwebError;
use crate::flaresolverr_client::solution_of;
use crate::jar::cookie::{Cookie, CookieView, StateView, StorageState};
use crate::jar::{EntryView, JarEntry, JarSummary, SummaryView};
use crate::json::{
    lemma_member_absent, lemma_member_at, members_are_read_back, number, number_value,
    text_value, Json, JsonView, Members,
};
use crate::pipeline::{domain_of, host_or_empty, registrable_domain};
use crate::text::{cat, cat3, dec, dec_u64, same};
use crate::weburl::{url_parsed, Url, UrlView};

verus! {

/// Egress-key slot of session jar files.
pub const FS_KEY: &'static str = "fs";

/// The program and its version, as an answer names them.
pub const FS_VERSION: &'static str = "cobweb-1.1.0";

#[derive(Debug)]
pub struct V1Request {
    pub cmd: String,
    pub url: Option<String>,
    pub session: Option<String>,
    /// `maxTimeout` on the wire.
    pub max_timeout: Option<u64>,
    pub proxy: Option<FsProxy>,
}

#[derive(Debug)]
pub struct FsProxy {
    pub url: Option<String>,
}

/// When a request began and when it is answered, in milliseconds since the
/// epoch.
#[derive(Debug, Clone, Copy, PartialEq, Eq, Structural)]
pub struct Times {
    pub started: u64,
    pub ended: u64,
}

/// An answer.
pub open spec fn answer_members(
    status: Seq<char>,
    message: Seq<char>,
    at: Times,
    extra: Option<(Seq<char>, JsonView)>,
) -> Seq<(Seq<char>, JsonView)> {
    let common = seq![
        ("status"@, JsonView::Str(status)),
        ("message"@, JsonView::Str(message)),
        ("startTimestamp"@, number(at.started)),
        ("endTimestamp"@, number(at.ended)),
        ("version"@, JsonView::Str(FS_VERSION@)),
    ];
    match extra {
        Some(e) => common.push(e),
        None => common,
    }
}

/// An answer that something went wrong.
pub open spec fn fault_answer(message: Seq<char>, at: Times) -> JsonView {
    JsonView::Object(answer_members("error"@, message, at, None))
}

/// An answer.
pub fn envelope(status: &str, message: &str, at: Times, extra: Option<(&str, Json)>) -> (r: Json)
    ensures
        r@ == JsonView::Object(
            answer_members(
                status@,
                message@,
                at,
                match extra {
                    Some((k, v)) => Some((k@, v@)),
                    None => None,
                },
            ),
        ),
{
    let common = Members::new().with("status", text_value(status)).with(
        "message",
        text_value(message),
    ).with("startTimestamp", number_value(at.started)).with(
        "endTimestamp",
        number_value(at.ended),
    ).with("version", text_value(FS_VERSION));
    assert(common@ =~= answer_members(status@, message@, at, None));
    match extra {
        Some((k, v)) => common.with(k, v).object(),
        None => common.object(),
    }
}

/// An answer that something went wrong.
pub fn fault(message: &str, at: Times) -> (r: Json)
    ensures
        r@ == fault_answer(message@, at),
{
    envelope("error", message, at, None)
}

/// What a request asks for.
pub enum FsCommand {
    /// Load a page.
    Get,
    /// Make a session of this name.
    Create(String),
    /// Name the sessions.
    List,
    /// Remove the session of this name.
    Destroy(String),
    /// Nothing that is done; the answer.
    Answer(Json),
}

/// What a command stands for.
pub enum FsCommandView {
    Get,
    Create(Seq<char>),
    List,
    Destroy(Seq<char>),
    Answer(JsonView),
}

impl View for FsCommand {
    type V = FsCommandView;

    open spec fn view(&self) -> FsCommandView {
        match *self {
            FsCommand::Get => FsCommandView::Get,
            FsCommand::Create(s) => FsCommandView::Create(s@),
            FsCommand::List => FsCommandView::List,
            FsCommand::Destroy(s) => FsCommandView::Destroy(s@),
            FsCommand::Answer(j) => FsCommandView::Answer(j@),
        }
    }
}

/// What a request asks for; a session without a name is named by the clock.
pub open spec fn command_of(cmd: Seq<char>, session: Option<Seq<char>>, at: Times) -> FsCommandView {
    if cmd == "request.get"@ {
        FsCommandView::Get
    } else if cmd == "request.post"@ {
        FsCommandView::Answer(
            fault_answer("request.post is not implemented (use request.get)"@, at),
        )
    } else if cmd == "sessions.create"@ {
        FsCommandView::Create(
            match session {
                Some(s) => s,
                None => "fs"@ + dec(at.ended as nat),
            },
        )
    } else if cmd == "sessions.list"@ {
        FsCommandView::List
    } else if cmd == "sessions.destroy"@ {
        match session {
            Some(s) => FsCommandView::Destroy(s),
            None => FsCommandView::Answer(fault_answer("missing `session`"@, at)),
        }
    } else {
        FsCommandView::Answer(fault_answer("unknown cmd `"@ + cmd + "`"@, at))
    }
}

/// What a request asks for.
pub fn dispatch(req: &V1Request, at: Times) -> (r: FsCommand)
    ensures
        r@ == command_of(req.cmd@, req.session.deep_view(), at),
{
    let cmd = req.cmd.as_str();
    if same(cmd, "request.get") {
        FsCommand::Get
    } else if same(cmd, "request.post") {
        FsCommand::Answer(fault("request.post is not implemented (use request.get)", at))
    } else if same(cmd, "sessions.create") {
        match &req.session {
            Some(s) => FsCommand::Create(s.clone()),
            None => FsCommand::Create(cat("fs", dec_u64(at.ended).as_str())),
        }
    } else if same(cmd, "sessions.list") {
        FsCommand::List
    } else if same(cmd, "sessions.destroy") {
        match &req.session {
            Some(s) => FsCommand::Destroy(s.clone()),
            None => FsCommand::Answer(fault("missing `session`", at)),
        }
    } else {
        FsCommand::Answer(fault(cat3("unknown cmd `", cmd, "`").as_str(), at))
    }
}

// ---------------------------------------------------------------------------
// request.get
// ---------------------------------------------------------------------------

/// The page of a `request.get`, or why there is none.
pub open spec fn get_page(url: Option<Seq<char>>, has_engine: bool) -> Result<UrlView, Seq<char>> {
    match url {
        None => Err("missing `url`"@),
        Some(s) => match url_parsed(s) {
            Err(_) => Err("bad url: "@ + s),
            Ok(u) => if has_engine {
                Ok(u)
            } else {
                Err("browser_engine = \"chromium\" is required for request.*"@)
            },
        },
    }
}

/// The page of a `request.get`, or the message why there is none.
pub fn request_get(req: &V1Request, has_engine: bool) -> (r: Result<Url, String>)
    ensures
        match get_page(req.url.deep_view(), has_engine) {
            Ok(u) => r matches Ok(v) && v@ == u,
            Err(m) => r matches Err(s) && s@ == m,
        },
{
    match &req.url {
        None => Err("missing `url`".to_owned()),
        Some(s) => match Url::parse(s.as_str()) {
            Err(_) => Err(cat("bad url: ", s.as_str())),
            Ok(u) => if has_engine {
                Ok(u)
            } else {
                Err("browser_engine = \"chromium\" is required for request.*".to_owned())
            },
        },
    }
}

/// What can go wrong once the page of a `request.get` is known.
pub enum GetFault {
    NotReady(BrowserError),
    /// The egress or the target was refused.
    Refused(CobwebError),
    Acquire(BrowserError),
    Navigate(BrowserError),
}

/// The answer to what went wrong.
pub fn get_fault(e: &GetFault, at: Times) -> (r: Json)
    ensures
        r@ == fault_answer(
            match *e {
                GetFault::NotReady(b) => "browser not ready: "@ + b@.message(),
                GetFault::Refused(c) => c@.message(),
                GetFault::Acquire(b) => "acquire: "@ + b@.message(),
                GetFault::Navigate(b) => "navigate: "@ + b@.message(),
            },
            at,
        ),
{
    match e {
        GetFault::NotReady(b) => fault(
            cat("browser not ready: ", b.message().as_str()).as_str(),
            at,
        ),
        GetFault::Refused(c) => fault(c.message().as_str(), at),
        GetFault::Acquire(b) => fault(cat("acquire: ", b.message().as_str()).as_str(), at),
        GetFault::Navigate(b) => fault(cat("navigate: ", b.message().as_str()).as_str(), at),
    }
}

/// The proxy that a request brings.
pub fn proxy_url(req: &V1Request) -> (r: Option<String>)
    ensures
        r.deep_view() == match req.proxy {
            Some(p) => p.url.deep_view(),
            None => None,
        },
{
    match &req.proxy {
        Some(p) => match &p.url {
            Some(u) => Some(u.clone()),
            None => None,
        },
        None => None,
    }
}

/// The domain a page counts for, its host where it counts for none.
pub fn page_domain(url: &Url) -> (r: String)
    ensures
        r@ == match domain_of(url@) {
            Ok(d) => d,
            Err(_) => host_or_empty(url@),
        },
{
    match registrable_domain(url) {
        Ok(d) => d,
        Err(_) => {
            let r = String::new();
            assert(r@ =~= host_or_empty(url@));
            r
        },
    }
}

/// The jar slot of a request: that of its session, else that of the page.
pub open spec fn slot_of(
    session: Option<Seq<char>>,
    domain: Seq<char>,
    egress: EgressView,
) -> (Seq<char>, Seq<char>) {
    match session {
        Some(s) => (s, FS_KEY@),
        None => (domain, egress.jar_key()),
    }
}

/// The jar slot of a request.
pub fn jar_slot(req: &V1Request, domain: &str, egress: &Egress) -> (r: (String, String))
    ensures
        (r.0@, r.1@) == slot_of(req.session.deep_view(), domain@, egress@),
{
    match &req.session {
        Some(s) => (s.clone(), FS_KEY.to_owned()),
        None => (domain.to_owned(), egress.jar_key()),
    }
}

/// The time a page is given, in milliseconds, within the bounds of every
/// caller-supplied timeout.
pub fn get_timeout(req: &V1Request) -> (r: u64)
    ensures
        r == clamped(
            match req.max_timeout {
                Some(ms) => ms,
                None => 60_000,
            },
            MIN_TIMEOUT_MS,
            MAX_TIMEOUT_MS,
        ),
        MIN_TIMEOUT_MS <= r <= MAX_TIMEOUT_MS,
{
    let ms: u64 = match req.max_timeout {
        Some(ms) => ms,
        None => 60_000,
    };
    clamp_timeout_ms(ms)
}

/// The entry that remembers a page: its whole storage, in the slot of the
/// request, and the user agent where the browser has one.
pub open spec fn page_entry(
    seed: Option<EntryView>,
    slot: (Seq<char>, Seq<char>),
    state: StateView,
    user_agent: Seq<char>,
    default_ttl_secs: u64,
    now: i128,
) -> EntryView {
    let base = match seed {
        Some(e) => e,
        None => EntryView::fresh(slot.0, slot.1, default_ttl_secs, now),
    };
    EntryView {
        domain: slot.0,
        egress: slot.1,
        storage_state: state,
        user_agent: if user_agent.len() > 0 {
            user_agent
        } else {
            base.user_agent
        },
        ..base
    }
}

/// The entry that remembers a page.
pub fn persist_page(
    seed: Option<JarEntry>,
    slot: (String, String),
    state: &StorageState,
    user_agent: &str,
    default_ttl_secs: u64,
    now: i128,
) -> (r: JarEntry)
    ensures
        r@ == page_entry(
            seed.deep_view(),
            (slot.0@, slot.1@),
            state@,
            user_agent@,
            default_ttl_secs,
            now,
        ),
{
    let mut entry = match seed {
        Some(e) => e,
        None => JarEntry::new(slot.0.as_str(), slot.1.as_str(), default_ttl_secs, now),
    };
    entry.domain = slot.0;
    entry.egress = slot.1;
    entry.storage_state = state.copy();
    if user_agent.unicode_len() > 0 {
        entry.user_agent = user_agent.to_owned();
    }
    entry
}

/// A cookie on the wire.
pub open spec fn cookie_object(c: CookieView) -> JsonView {
    let common = seq![
        ("name"@, JsonView::Str(c.name)),
        ("value"@, JsonView::Str(c.value)),
        ("domain"@, JsonView::Str(c.domain)),
        ("path"@, JsonView::Str(c.path)),
        ("expires"@, JsonView::Micros(c.expires)),
        ("httpOnly"@, JsonView::Bool(c.http_only)),
        ("secure"@, JsonView::Bool(c.secure)),
    ];
    JsonView::Object(
        match c.same_site {
            Some(s) => common.push(("sameSite"@, JsonView::Str(s))),
            None => common,
        },
    )
}

/// A cookie on the wire.
pub fn cookie_json(c: &Cookie) -> (r: Json)
    ensures
        r@ == cookie_object(c@),
{
    let common = Members::new().with("name", text_value(c.name.as_str())).with(
        "value",
        text_value(c.value.as_str()),
    ).with("domain", text_value(c.domain.as_str())).with("path", text_value(c.path.as_str())).with(
        "expires",
        Json::Micros(c.expires),
    ).with("httpOnly", Json::Bool(c.http_only)).with("secure", Json::Bool(c.secure));
    let all = match &c.same_site {
        Some(s) => common.with("sameSite", text_value(s.as_str())),
        None => common,
    };
    assert(all@ =~= cookie_object(c@)->Object_0);
    all.object()
}

/// Cookies on the wire.
pub open spec fn cookie_array(cs: Seq<CookieView>) -> JsonView {
    JsonView::Array(cs.map_values(|c: CookieView| cookie_object(c)))
}

fn cookies_json(cs: &Vec<Cookie>) -> (r: Json)
    ensures
        r@ == cookie_array(cs.deep_view()),
{
    let mut out: Vec<Json> = Vec::new();
    for i in 0..cs.len()
        invariant
            out@.len() == i,
            forall|k: int| 0 <= k < i ==> (#[trigger] out@[k])@ == cookie_object(cs@[k]@),
    {
        out.push(cookie_json(&cs[i]));
    }
    let r = Json::Array(out);
    assert(r@->Array_0 =~= cs.deep_view().map_values(|c: CookieView| cookie_object(c)));
    r
}

/// A page in FlareSolverr's shape.
pub open spec fn solution_members(
    final_url: UrlView,
    html: Seq<char>,
    cookies: Seq<CookieView>,
    user_agent: Seq<char>,
) -> Seq<(Seq<char>, JsonView)> {
    seq![
        ("url"@, JsonView::Str(final_url.text)),
        ("status"@, JsonView::Int(200)),
        ("headers"@, JsonView::Object(seq![])),
        ("response"@, JsonView::Str(html)),
        ("cookies"@, cookie_array(cookies)),
        ("userAgent"@, JsonView::Str(user_agent)),
    ]
}

/// The answer to a `request.get` whose page was loaded.
pub open spec fn page_reply(
    final_url: UrlView,
    html: Seq<char>,
    challenge: bool,
    cookies: Seq<CookieView>,
    user_agent: Seq<char>,
    at: Times,
) -> JsonView {
    let solution = JsonView::Object(solution_members(final_url, html, cookies, user_agent));
    JsonView::Object(
        if challenge {
            answer_members(
                "error"@,
                "landed on a challenge and could not solve it"@,
                at,
                Some(("solution"@, solution)),
            )
        } else {
            answer_members("ok"@, ""@, at, Some(("solution"@, solution)))
        },
    )
}

/// The answer to a `request.get` whose page was loaded: the page in any case,
/// marked as an error where it is a challenge.
pub fn page_answer(page: PageLoad, state: &StorageState, user_agent: &str, at: Times) -> (r: Json)
    ensures
        ({
            let solution = JsonView::Object(
                solution_members(page.final_url@, page.html@, state@.cookies, user_agent@),
            );
            r@ == JsonView::Object(
                if page.challenge {
                    answer_members(
                        "error"@,
                        "landed on a challenge and could not solve it"@,
                        at,
                        Some(("solution"@, solution)),
                    )
                } else {
                    answer_members("ok"@, ""@, at, Some(("solution"@, solution)))
                },
            )
        }),
        r@ == page_reply(
            page.final_url@,
            page.html@,
            page.challenge,
            state@.cookies,
            user_agent@,
            at,
        ),
{
    let empty = Members::new().object();
    let m = Members::new().with("url", text_value(page.final_url.as_str())).with(
        "status",
        Json::Int(200),
    ).with("headers", empty).with("response", Json::Str(page.html)).with(
        "cookies",
        cookies_json(&state.cookies),
    ).with("userAgent", text_value(user_agent));
    assert(m@ =~= solution_members(page.final_url@, page.html@, state@.cookies, user_agent@));
    let solution = m.object();
    if page.challenge {
        envelope(
            "error",
            "landed on a challenge and could not solve it",
            at,
            Some(("solution", solution)),
        )
    } else {
        envelope("ok", "", at, Some(("solution", solution)))
    }
}

// ---------------------------------------------------------------------------
// sessions.*
// ---------------------------------------------------------------------------

/// The jar entry of a new session.
pub fn sessions_create(name: &str, default_ttl_secs: u64, now: i128) -> (r: JarEntry)
    ensures
        r@ == EntryView::fresh(name@, FS_KEY@, default_ttl_secs, now),
{
    JarEntry::new(name, FS_KEY, default_ttl_secs, now)
}

/// The answer to `sessions.create`; the error is that of writing the entry.
pub fn created_answer(name: &str, saved: &Result<(), CobwebError>, at: Times) -> (r: Json)
    ensures
        r@ == match *saved {
            Ok(()) => JsonView::Object(
                answer_members(
                    "ok"@,
                    "Session created successfully"@,
                    at,
                    Some(("session"@, JsonView::Str(name@))),
                ),
            ),
            Err(e) => fault_answer("create session: "@ + e@.message(), at),
        },
{
    match saved {
        Ok(()) => envelope(
            "ok",
            "Session created successfully",
            at,
            Some(("session", text_value(name))),
        ),
        Err(e) => fault(cat("create session: ", e.message().as_str()).as_str(), at),
    }
}

/// The names of the sessions among the jar's entries, in order.
pub open spec fn session_names(rows: Seq<SummaryView>) -> Seq<JsonView>
    decreases rows.len(),
{
    if rows.len() == 0 {
        seq![]
    } else {
        let front = session_names(rows.drop_last());
        if rows.last().egress == FS_KEY@ {
            front.push(JsonView::Str(rows.last().domain))
        } else {
            front
        }
    }
}

/// The answer to `sessions.list`.
pub fn sessions_list(rows: &Vec<JarSummary>, at: Times) -> (r: Json)
    ensures
        r@ == JsonView::Object(
            answer_members(
                "ok"@,
                ""@,
                at,
                Some(("sessions"@, JsonView::Array(session_names(rows.deep_view())))),
            ),
        ),
{
    let ghost all = rows.deep_view();
    let mut out: Vec<Json> = Vec::new();
    let ghost mut shown: Seq<JsonView> = seq![];
    for i in 0..rows.len()
        invariant
            all == rows.deep_view(),
            shown == session_names(all.take(i as int)),
            out@.len() == shown.len(),
            forall|k: int| 0 <= k < out@.len() ==> (#[trigger] out@[k])@ == shown[k],
    {
        assert(all.take(i + 1).drop_last() =~= all.take(i as int));
        assert(all.take(i + 1).last() == rows@[i as int]@);
        if same(rows[i].egress.as_str(), FS_KEY) {
            out.push(text_value(rows[i].domain.as_str()));
            proof {
                shown = shown.push(JsonView::Str(rows@[i as int].domain@));
            }
        }
    }
    assert(all.take(rows@.len() as int) =~= all);
    let list = Json::Array(out);
    assert(list@->Array_0 =~= shown);
    envelope("ok", "", at, Some(("sessions", list)))
}

/// The answer to `sessions.destroy`.
pub fn destroyed_answer(removed: &Result<(), CobwebError>, at: Times) -> (r: Json)
    ensures
        r@ == match *removed {
            Ok(()) => JsonView::Object(
                answer_members("ok"@, "The session has been removed."@, at, None),
            ),
            Err(e) => fault_answer(e@.message(), at),
        },
{
    match removed {
        Ok(()) => envelope("ok", "The session has been removed.", at, None),
        Err(e) => fault(e.message().as_str(), at),
    }
}

/// A session's cookies never share a jar slot with a page fetched without a
/// session, over any egress but a profile that is called as the slot is.
pub proof fn sessions_have_slots_of_their_own(
    session: Seq<char>,
    domain: Seq<char>,
    egress: EgressView,
)
    requires
        egress.name != FS_KEY@,
    ensures
        slot_of(Some(session), domain, egress) != slot_of(None, domain, egress),
{
    reveal_strlit("fs");
    reveal_strlit("direct");
    reveal_strlit("proxy-");
    assert(FS_KEY@.len() == 2);
    assert("direct"@.len() == 6);
    if egress.proxy is Some && "raw:"@.is_prefix_of(egress.name) {
        assert(egress.jar_key()[0] == 'p');
    }
}

/// A cookie on the wire is read back as it was.
pub proof fn cookies_survive_the_wire(c: CookieView)
    ensures
        json_cookie(cookie_object(c)) == Some(c),
{
    reveal_strlit("name");
    reveal_strlit("value");
    reveal_strlit("domain");
    reveal_strlit("path");
    reveal_strlit("expires");
    reveal_strlit("httpOnly");
    reveal_strlit("secure");
    reveal_strlit("sameSite");
    assert("name"@[0] == 'n');
    assert("value"@[0] == 'v');
    assert("domain"@[0] == 'd');
    assert("path"@[0] == 'p');
    assert("expires"@[0] == 'e');
    assert("httpOnly"@[0] == 'h');
    assert("secure"@[0] == 's');
    assert("sameSite"@[0] == 's');
    assert("secure"@[1] == 'e');
    assert("sameSite"@[1] == 'a');
    let ms = cookie_object(c)->Object_0;
    lemma_member_at(ms, 0);
    lemma_member_at(ms, 1);
    lemma_member_at(ms, 2);
    lemma_member_at(ms, 3);
    lemma_member_at(ms, 4);
    lemma_member_at(ms, 5);
    lemma_member_at(ms, 6);
    if c.same_site is Some {
        lemma_member_at(ms, 7);
    } else {
        lemma_member_absent(ms, "sameSite"@);
    }
}

/// An answer says its status, its message, its times and the program, and holds
/// what goes with it.
pub proof fn an_answer_says_what_it_was_given(
    status: Seq<char>,
    message: Seq<char>,
    at: Times,
    key: Seq<char>,
    value: JsonView,
)
    requires
        key == "solution"@ || key == "session"@ || key == "sessions"@,
    ensures
        ({
            let plain = JsonView::Object(answer_members(status, message, at, None));
            let full = JsonView::Object(answer_members(status, message, at, Some((key, value))));
            &&& plain.str_field("status"@) == Some(status)
            &&& full.str_field("status"@) == Some(status)
            &&& plain.str_field("message"@) == Some(message)
            &&& full.str_field("message"@) == Some(message)
            &&& plain.field("startTimestamp"@) == Some(number(at.started))
            &&& full.field("startTimestamp"@) == Some(number(at.started))
            &&& full.field("endTimestamp"@) == Some(number(at.ended))
            &&& full.field(key) == Some(value)
            &&& plain.field(key) is None
        }),
{
    lemma_answer_keys();
    let plain = answer_members(status, message, at, None);
    let full = answer_members(status, message, at, Some((key, value)));
    members_are_read_back(plain, 0);
    members_are_read_back(plain, 1);
    members_are_read_back(plain, 2);
    members_are_read_back(full, 0);
    members_are_read_back(full, 1);
    members_are_read_back(full, 2);
    members_are_read_back(full, 3);
    assert(full[5] == (key, value));
    members_are_read_back(full, 5);
    lemma_member_absent(plain, key);
}

proof fn lemma_answer_keys()
    ensures
        "status"@.len() == 6,
        "message"@.len() == 7,
        "startTimestamp"@.len() == 14,
        "endTimestamp"@.len() == 12,
        "version"@.len() == 7,
        "version"@[0] == 'v',
        "message"@[0] == 'm',
        "solution"@.len() == 8,
        "session"@.len() == 7,
        "session"@[0] == 's',
        "sessions"@.len() == 8,
        "sessions"@[1] == 'e',
        "solution"@[1] == 'o',
{
    reveal_strlit("status");
    reveal_strlit("message");
    reveal_strlit("startTimestamp");
    reveal_strlit("endTimestamp");
    reveal_strlit("version");
    reveal_strlit("solution");
    reveal_strlit("session");
    reveal_strlit("sessions");
}

/// A page that was loaded is read back from its answer in full, by whoever asked:
/// the document, every cookie of the context in order, and the user agent; one
/// that is a challenge is answered as an error.
pub proof fn a_solved_page_is_read_back(
    final_url: UrlView,
    html: Seq<char>,
    cookies: Seq<CookieView>,
    user_agent: Seq<char>,
    at: Times,
)
    ensures
        solution_of(page_reply(final_url, html, false, cookies, user_agent, at)) matches Ok(s)
            && s.cookies == cookies && s.html == html && s.user_agent == user_agent && s.status
            == 200,
        solution_of(page_reply(final_url, html, true, cookies, user_agent, at)) is Err,
        page_reply(final_url, html, false, cookies, user_agent, at).field(
            "solution"@,
        ) matches Some(sol) && sol.str_field("url"@) == Some(final_url.text),
        page_reply(final_url, html, true, cookies, user_agent, at).field(
            "solution"@,
        ) matches Some(sol) && sol.str_field("url"@) == Some(final_url.text) && sol.str_field(
            "response"@,
        ) == Some(html),
{
    let ms = solution_members(final_url, html, cookies, user_agent);
    let sol = JsonView::Object(ms);
    lemma_solution_keys();
    members_are_read_back(ms, 0);
    members_are_read_back(ms, 1);
    members_are_read_back(ms, 3);
    members_are_read_back(ms, 4);
    members_are_read_back(ms, 5);
    lemma_cookies_read_back(cookies);
    reveal_strlit("ok");
    reveal_strlit("error");
    assert("ok"@.len() == 2);
    assert("error"@.len() == 5);
    an_answer_says_what_it_was_given("ok"@, ""@, at, "solution"@, sol);
    an_answer_says_what_it_was_given(
        "error"@,
        "landed on a challenge and could not solve it"@,
        at,
        "solution"@,
        sol,
    );
}

proof fn lemma_solution_keys()
    ensures
        "url"@.len() == 3,
        "status"@.len() == 6,
        "headers"@.len() == 7,
        "headers"@[0] == 'h',
        "response"@.len() == 8,
        "cookies"@.len() == 7,
        "cookies"@[0] == 'c',
        "userAgent"@.len() == 9,
{
    reveal_strlit("url");
    reveal_strlit("status");
    reveal_strlit("headers");
    reveal_strlit("response");
    reveal_strlit("cookies");
    reveal_strlit("userAgent");
}

proof fn lemma_cookies_read_back(cs: Seq<CookieView>)
    ensures
        json_cookies(cookie_array(cs)->Array_0) == cs,
    decreases cs.len(),
{
    let vs = cookie_array(cs)->Array_0;
    if cs.len() > 0 {
        lemma_cookies_read_back(cs.drop_last());
        cookies_survive_the_wire(cs.last());
        assert(vs.drop_last() =~= cookie_array(cs.drop_last())->Array_0);
        assert(vs.last() == cookie_object(cs.last()));
        assert(json_cookies(vs) =~= cs);
    } else {
        assert(json_cookies(vs) =~= cs);
    }
}

/// Each command is what it says: a page, a session of the name that was given, the
/// list of sessions, or the removal of one; anything else is answered with an
/// error.
pub proof fn commands_do_what_they_say(cmd: Seq<char>, name: Seq<char>, at: Times)
    ensures
        command_of("request.get"@, Some(name), at) is Get,
        command_of("request.get"@, None, at) is Get,
        command_of("sessions.create"@, Some(name), at) == FsCommandView::Create(name),
        command_of("sessions.create"@, None, at) is Create,
        command_of("sessions.list"@, None, at) is List,
        command_of("sessions.destroy"@, Some(name), at) == FsCommandView::Destroy(name),
        command_of("sessions.destroy"@, None, at) is Answer,
        command_of("request.post"@, None, at) is Answer,
        cmd != "request.get"@ && cmd != "sessions.create"@ && cmd != "sessions.list"@ && cmd
            != "sessions.destroy"@ ==> command_of(cmd, Some(name), at) is Answer,
{
    reveal_strlit("request.get");
    reveal_strlit("request.post");
    reveal_strlit("sessions.create");
    reveal_strlit("sessions.list");
    reveal_strlit("sessions.destroy");
    assert("request.get"@.len() == 11);
    assert("request.post"@.len() == 12);
    assert("sessions.create"@.len() == 15);
    assert("sessions.list"@.len() == 13);
    assert("sessions.destroy"@.len() == 16);
}

/// A page is loaded where its URL is one and there is a browser, and nowhere else.
pub proof fn a_page_needs_a_url_and_a_browser(url: Seq<char>)
    ensures
        url_parsed(url) matches Ok(u) ==> get_page(Some(url), true) == Ok::<UrlView, Seq<char>>(u)
            && get_page(Some(url), false) is Err,
        url_parsed(url) is Err ==> get_page(Some(url), true) is Err,
        get_page(None, true) is Err,
{
}

/// A page leaves all of its storage in the slot that it was asked for under, and
/// the browser's user agent where it has one; the rest of an entry stays.
pub proof fn a_page_is_remembered_in_full(
    seed: Option<EntryView>,
    slot: (Seq<char>, Seq<char>),
    state: StateView,
    user_agent: Seq<char>,
    ttl: u64,
    now: i128,
)
    ensures
        ({
            let e = page_entry(seed, slot, state, user_agent, ttl, now);
            &&& e.storage_state == state
            &&& e.domain == slot.0
            &&& e.egress == slot.1
            &&& user_agent.len() > 0 ==> e.user_agent == user_agent
            &&& seed matches Some(b) ==> e.created == b.created && e.ttl_hint_secs
                == b.ttl_hint_secs && e.accept_language == b.accept_language && (user_agent.len()
                == 0 ==> e.user_agent == b.user_agent)
            &&& seed is None ==> e.created == now && e.ttl_hint_secs == ttl && e.fail_streak == 0
        }),
{
}

/// A request of a session uses the session's slot, and any other that of its page
/// and egress.
pub proof fn slots_follow_sessions(session: Seq<char>, domain: Seq<char>, egress: EgressView)
    ensures
        slot_of(Some(session), domain, egress) == (session, seq!['f', 's']),
        slot_of(None, domain, egress) == (domain, egress.jar_key()),
{
    reveal_strlit("fs");
    assert(FS_KEY@ =~= seq!['f', 's']);
}

/// The list of sessions has the name of every entry of a session, in order, and no
/// other.
pub proof fn every_session_is_listed(rows: Seq<SummaryView>, row: SummaryView)
    ensures
        session_names(seq![]).len() == 0,
        row.egress == seq!['f', 's'] ==> session_names(rows.push(row)) == session_names(rows).push(
            JsonView::Str(row.domain),
        ),
        row.egress != seq!['f', 's'] ==> session_names(rows.push(row)) == session_names(rows),
{
    reveal_strlit("fs");
    assert(FS_KEY@ =~= seq!['f', 's']);
    assert(rows.push(row).drop_last() =~= rows);
}

} // verus!
