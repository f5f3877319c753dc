//! One manual solve at a time: a live browser context on the shared Chromium,
//! pointed at the challenge and exposed over VNC; on close the solved storage is
//! written back to the jar.

use vstd::prelude::*;

use crate::browser::engine::BrowserError;
use crate::egress::Egress;
use crate::error::{CobwebError, ErrorView};
use crate::jar::cookie::{StateView, StorageState};
use crate::jar::{EntryView, JarEntry};
use crate::pipeline::{domain_of, registrable_domain};
use crate::text::{cat, cat3, dec, dec_u128, same};
use crate::util::constant_time_eq;
use crate::weburl::{url_parsed, Url, UrlView};

verus! {

/// A session left open this long can be reclaimed (nanoseconds).
pub const SESSION_MAX_AGE: u64 = 1_200_000_000_000;

/// The time the page of a session is given to load, in milliseconds.
pub const LOAD_TIMEOUT_MS: u64 = 45_000;

/// The open session as anyone may see it.
#[derive(Debug)]
pub struct SessionInfo {
    pub id: String,
    pub target_url: String,
}

/// The open session as only the one who started it sees it: with the secret that
/// opens its screen.
#[derive(Debug)]
pub struct SessionStarted {
    pub id: String,
    pub target_url: String,
    pub vnc_token: String,
}

/// What an open session is made of, besides its context and its VNC server.
pub struct ActiveSession {
    pub id: String,
    pub target_url: String,
    /// Secret required to open this session's screen.
    pub token: String,
    /// On a clock that never goes back, in nanoseconds.
    pub started: u64,
    /// Port of its VNC server.
    pub port: u16,
    /// Jar coordinates to write the solved state back to.
    pub jar_domain: String,
    pub jar_egress: String,
    pub seed: Option<JarEntry>,
}

/// What an open session stands for.
#[verifier::ext_equal]
pub struct SessionView {
    pub id: Seq<char>,
    pub target_url: Seq<char>,
    pub token: Seq<char>,
    pub started: u64,
    pub port: u16,
    pub jar_domain: Seq<char>,
    pub jar_egress: Seq<char>,
    pub seed: Option<EntryView>,
}

impl View for ActiveSession {
    type V = SessionView;

    open spec fn view(&self) -> SessionView {
        SessionView {
            id: self.id@,
            target_url: self.target_url@,
            token: self.token@,
            started: self.started,
            port: self.port,
            jar_domain: self.jar_domain@,
            jar_egress: self.jar_egress@,
            seed: self.seed.deep_view(),
        }
    }
}

impl DeepView for ActiveSession {
    type V = SessionView;

    open spec fn deep_view(&self) -> SessionView {
        self@
    }
}

impl SessionView {
    /// Whether the session may be reclaimed.
    pub open spec fn stale(self, now: u64) -> bool {
        now >= self.started && now - self.started >= SESSION_MAX_AGE
    }
}

/// The manual-session slot.
pub enum Slot {
    Empty,
    /// Reserved while a session starts.
    Starting,
    Active(ActiveSession),
}

/// What a slot stands for.
pub enum SlotView {
    Empty,
    Starting,
    Active(SessionView),
}

impl View for Slot {
    type V = SlotView;

    open spec fn view(&self) -> SlotView {
        match *self {
            Slot::Empty => SlotView::Empty,
            Slot::Starting => SlotView::Starting,
            Slot::Active(s) => SlotView::Active(s@),
        }
    }
}

/// Why a new session cannot start.
pub open spec fn conflict(slot: SlotView, now: u64) -> Option<ErrorView> {
    match slot {
        SlotView::Active(s) => if s.stale(now) {
            None
        } else {
            Some(ErrorView::Conflict("a manual session is already open ("@ + s.id + ")"@))
        },
        SlotView::Starting => Some(ErrorView::Conflict("a manual session is already starting"@)),
        SlotView::Empty => None,
    }
}

/// Why a session cannot be closed.
pub open spec fn close_fault(slot: SlotView, id: Seq<char>) -> Option<ErrorView> {
    match slot {
        SlotView::Active(s) => if s.id == id {
            None
        } else {
            Some(ErrorView::BadRequest("session id does not match the open one"@))
        },
        SlotView::Starting => Some(ErrorView::Conflict("a manual session is still starting"@)),
        SlotView::Empty => Some(ErrorView::BadRequest("no manual session is open"@)),
    }
}

/// The port of a slot's VNC server for one who knows the id and the secret.
pub open spec fn port_for(slot: SlotView, id: Seq<char>, token: Seq<char>) -> Option<u16> {
    match slot {
        SlotView::Active(s) => if s.id == id && s.token == token {
            Some(s.port)
        } else {
            None
        },
        _ => None,
    }
}

/// Holds the one slot.
pub struct SessionManager {
    slot: Slot,
}

impl View for SessionManager {
    type V = SlotView;

    closed spec fn view(&self) -> SlotView {
        self.slot@
    }
}

impl SessionManager {
    pub fn new() -> (r: SessionManager)
        ensures
            r@ == SlotView::Empty,
    {
        SessionManager { slot: Slot::Empty }
    }

    /// Reserve the slot, or fail if a session is open or starting. A stale
    /// session is handed back to be torn down.
    pub fn reserve_slot(&mut self, now: u64) -> (r: Result<Option<ActiveSession>, CobwebError>)
        ensures
            match conflict(old(self)@, now) {
                Some(f) => r matches Err(e) && e@ == f && final(self)@ == old(self)@,
                None => r matches Ok(s) && final(self)@ == SlotView::Starting && s.deep_view()
                    == match old(self)@ {
                    SlotView::Active(s) => Some(s),
                    _ => None,
                },
            },
    {
        match &self.slot {
            Slot::Active(s) => {
                if !(now >= s.started && now - s.started >= SESSION_MAX_AGE) {
                    return Err(
                        CobwebError::Conflict(
                            cat3("a manual session is already open (", s.id.as_str(), ")"),
                        ),
                    );
                }
            },
            Slot::Starting => {
                return Err(
                    CobwebError::Conflict("a manual session is already starting".to_owned()),
                );
            },
            Slot::Empty => {},
        }
        let mut taken = Slot::Starting;
        std::mem::swap(&mut self.slot, &mut taken);
        match taken {
            Slot::Active(s) => Ok(Some(s)),
            _ => Ok(None),
        }
    }

    /// The start came to something: the session is open, or the slot is free
    /// again.
    pub fn started(&mut self, outcome: Result<ActiveSession, CobwebError>) -> (r: Result<
        SessionStarted,
        CobwebError,
    >)
        requires
            old(self)@ is Starting,
        ensures
            match outcome {
                Ok(s) => final(self)@ == SlotView::Active(s@) && (r matches Ok(i) && i.id@ == s@.id
                    && i.target_url@ == s@.target_url && i.vnc_token@ == s@.token),
                Err(e) => final(self)@ == SlotView::Empty && (r matches Err(f) && f@ == e@),
            },
    {
        match outcome {
            Ok(s) => {
                let info = SessionStarted {
                    id: s.id.clone(),
                    target_url: s.target_url.clone(),
                    vnc_token: s.token.clone(),
                };
                self.slot = Slot::Active(s);
                Ok(info)
            },
            Err(e) => {
                self.slot = Slot::Empty;
                Err(e)
            },
        }
    }

    /// Free the slot of the session with this id, and hand it back to be torn
    /// down.
    pub fn close(&mut self, id: &str) -> (r: Result<ActiveSession, CobwebError>)
        ensures
            match close_fault(old(self)@, id@) {
                Some(f) => r matches Err(e) && e@ == f && final(self)@ == old(self)@,
                None => final(self)@ == SlotView::Empty && (r matches Ok(s) && old(self)@
                    == SlotView::Active(s@)),
            },
    {
        match &self.slot {
            Slot::Active(s) => {
                if !same(s.id.as_str(), id) {
                    return Err(
                        CobwebError::BadRequest(
                            "session id does not match the open one".to_owned(),
                        ),
                    );
                }
            },
            Slot::Starting => {
                return Err(CobwebError::Conflict("a manual session is still starting".to_owned()));
            },
            Slot::Empty => {
                return Err(CobwebError::BadRequest("no manual session is open".to_owned()));
            },
        }
        let mut taken = Slot::Empty;
        std::mem::swap(&mut self.slot, &mut taken);
        match taken {
            Slot::Active(s) => Ok(s),
            _ => Err(CobwebError::BadRequest("no manual session is open".to_owned())),
        }
    }

    /// The open session, without its secret; blank where there is none.
    pub fn current(&self) -> (r: SessionInfo)
        ensures
            match self@ {
                SlotView::Active(s) => r.id@ == s.id && r.target_url@ == s.target_url,
                _ => r.id@ == Seq::<char>::empty() && r.target_url@ == Seq::<char>::empty(),
            },
    {
        match &self.slot {
            Slot::Active(s) => SessionInfo {
                id: s.id.clone(),
                target_url: s.target_url.clone(),
            },
            _ => {
                let r = SessionInfo { id: String::new(), target_url: String::new() };
                assert(r.id@ =~= seq![]);
                assert(r.target_url@ =~= seq![]);
                r
            },
        }
    }

    /// Port of the VNC server, if `id` is the open session and `token` is its
    /// secret.
    pub fn rfb_port(&self, id: &str, token: &str) -> (r: Option<u16>)
        ensures
            r == port_for(self@, id@, token@),
    {
        match &self.slot {
            Slot::Active(s) => if same(s.id.as_str(), id) && constant_time_eq(
                s.token.as_str(),
                token,
            ) {
                Some(s.port)
            } else {
                None
            },
            _ => None,
        }
    }
}

/// The page of a new session and the domain it counts for.
pub open spec fn session_target(raw: Seq<char>) -> Result<(UrlView, Seq<char>), ErrorView> {
    match url_parsed(raw) {
        Ok(u) => match domain_of(u) {
            Ok(d) => Ok((u, d)),
            Err(e) => Err(e),
        },
        Err(_) => Err(ErrorView::BadRequest("not a valid URL: "@ + raw)),
    }
}

/// The page of a new session and the domain it counts for.
pub fn start_target(raw: &str) -> (r: Result<(Url, String), CobwebError>)
    ensures
        match session_target(raw@) {
            Ok(t) => r matches Ok(p) && (p.0@, p.1@) == t,
            Err(f) => r matches Err(e) && e@ == f,
        },
{
    let url = match Url::parse(raw) {
        Ok(u) => u,
        Err(_) => {
            return Err(CobwebError::BadRequest(cat("not a valid URL: ", raw)));
        },
    };
    match registrable_domain(&url) {
        Ok(d) => Ok((url, d)),
        Err(e) => Err(e),
    }
}

/// What can go wrong with the browser of a new session.
pub enum StartFault {
    NotReady(BrowserError),
    /// The browser runs headless.
    NoDisplay,
    Acquire(BrowserError),
    Navigate(BrowserError),
}

/// The error of a session whose browser failed.
pub fn start_fault(e: &StartFault) -> (r: CobwebError)
    ensures
        r@ == ErrorView::Browser(
            match *e {
                StartFault::NotReady(b) => "browser not ready: "@ + b@.message(),
                StartFault::NoDisplay => "no X display (headless) — a VNC solve needs browser.xvfb = true"@,
                StartFault::Acquire(b) => "acquire context: "@ + b@.message(),
                StartFault::Navigate(b) => "navigate: "@ + b@.message(),
            },
        ),
{
    match e {
        StartFault::NotReady(b) => CobwebError::Browser(
            cat("browser not ready: ", b.message().as_str()),
        ),
        StartFault::NoDisplay => CobwebError::Browser(
            "no X display (headless) — a VNC solve needs browser.xvfb = true".to_owned(),
        ),
        StartFault::Acquire(b) => CobwebError::Browser(
            cat("acquire context: ", b.message().as_str()),
        ),
        StartFault::Navigate(b) => CobwebError::Browser(cat("navigate: ", b.message().as_str())),
    }
}

/// A session that has just been opened; its id is made of the wall clock.
pub fn open_session(
    url: &Url,
    domain: String,
    egress: &Egress,
    seed: Option<JarEntry>,
    token: String,
    port: u16,
    wall_nanos: u128,
    now: u64,
) -> (r: ActiveSession)
    ensures
        r@ == (SessionView {
            id: "s"@ + dec(wall_nanos as nat),
            target_url: url@.text,
            token: token@,
            started: now,
            port,
            jar_domain: domain@,
            jar_egress: egress@.jar_key(),
            seed: seed.deep_view(),
        }),
{
    ActiveSession {
        id: cat("s", dec_u128(wall_nanos).as_str()),
        target_url: url.text.clone(),
        token,
        started: now,
        port,
        jar_domain: domain,
        jar_egress: egress.jar_key(),
        seed,
    }
}

/// The entry that a solved session leaves.
pub open spec fn solved(
    s: SessionView,
    state: StateView,
    default_ttl_secs: u64,
    now: i128,
) -> EntryView {
    let base = match s.seed {
        Some(e) => e,
        None => EntryView::fresh(s.jar_domain, s.jar_egress, default_ttl_secs, now),
    };
    EntryView { domain: s.jar_domain, egress: s.jar_egress, storage_state: state, ..base }
}

/// The entry that a solved session leaves: its whole storage, at the session's
/// jar coordinates.
pub fn solved_entry(
    session: &ActiveSession,
    state: StorageState,
    default_ttl_secs: u64,
    now: i128,
) -> (r: JarEntry)
    ensures
        ({
            let base = match session@.seed {
                Some(e) => e,
                None => EntryView::fresh(
                    session@.jar_domain,
                    session@.jar_egress,
                    default_ttl_secs,
                    now,
                ),
            };
            r@ == (EntryView {
                domain: session@.jar_domain,
                egress: session@.jar_egress,
                storage_state: state@,
                ..base
            })
        }),
        r@ == solved(session@, state@, default_ttl_secs, now),
{
    let mut entry = match &session.seed {
        Some(e) => e.copy(),
        None => JarEntry::new(
            session.jar_domain.as_str(),
            session.jar_egress.as_str(),
            default_ttl_secs,
            now,
        ),
    };
    entry.domain = session.jar_domain.clone();
    entry.egress = session.jar_egress.clone();
    entry.storage_state = state;
    entry
}

// ---------------------------------------------------------------------------
// Laws
// ---------------------------------------------------------------------------

/// While a session is open and not stale, or one is starting, no other starts.
pub proof fn one_session_at_a_time(slot: SlotView, now: u64)
    ensures
        slot is Starting ==> conflict(slot, now) is Some,
        slot matches SlotView::Active(s) ==> !s.stale(now) ==> conflict(slot, now) is Some,
{
}

/// A session that was left open does not hold the slot for good.
pub proof fn stale_sessions_can_be_reclaimed(s: SessionView, now: u64)
    requires
        now >= s.started + SESSION_MAX_AGE,
    ensures
        conflict(SlotView::Active(s), now) is None,
{
}

/// The screen of a session opens only to one who knows its secret; the id, which
/// anyone may see, is not enough.
pub proof fn the_id_alone_opens_nothing(s: SessionView, token: Seq<char>)
    requires
        token != s.token,
    ensures
        port_for(SlotView::Active(s), s.id, token) is None,
{
}

/// A free slot can be taken, and an open one is held for twenty minutes and no
/// longer.
pub proof fn a_session_holds_the_slot_for_its_time(s: SessionView, now: u64)
    ensures
        conflict(SlotView::Empty, now) is None,
        now < s.started + 1_200_000_000_000 ==> conflict(SlotView::Active(s), now) is Some,
        now >= s.started + 1_200_000_000_000 ==> conflict(SlotView::Active(s), now) is None,
{
}

/// The open session can be closed by its id, and by no other.
pub proof fn the_open_session_can_be_closed(s: SessionView, id: Seq<char>)
    ensures
        close_fault(SlotView::Active(s), s.id) is None,
        id != s.id ==> close_fault(SlotView::Active(s), id) is Some,
        close_fault(SlotView::Empty, id) is Some,
        close_fault(SlotView::Starting, id) is Some,
{
}

/// The id and the secret together open the screen of the open session.
pub proof fn id_and_secret_open_the_screen(s: SessionView, id: Seq<char>, token: Seq<char>)
    ensures
        port_for(SlotView::Active(s), s.id, s.token) == Some(s.port),
        id != s.id ==> port_for(SlotView::Active(s), id, token) is None,
        port_for(SlotView::Empty, id, token) is None,
        port_for(SlotView::Starting, id, token) is None,
{
}

/// A session is for a page that is a URL with a host, under the domain that it
/// counts for.
pub proof fn a_session_needs_a_page(raw: Seq<char>)
    ensures
        url_parsed(raw) is Err ==> session_target(raw) is Err,
        url_parsed(raw) matches Ok(u) ==> {
            &&& domain_of(u) matches Ok(d) ==> session_target(raw) == Ok::<
                (UrlView, Seq<char>),
                ErrorView,
            >((u, d))
            &&& domain_of(u) is Err ==> session_target(raw) is Err
        },
{
}

/// A solved session leaves all of its storage at its jar coordinates, and keeps
/// what its seed pinned.
pub proof fn a_solved_session_is_remembered_in_full(
    s: SessionView,
    state: StateView,
    ttl: u64,
    now: i128,
)
    ensures
        ({
            let e = solved(s, state, ttl, now);
            &&& e.storage_state == state
            &&& e.domain == s.jar_domain
            &&& e.egress == s.jar_egress
            &&& s.seed matches Some(b) ==> e.user_agent == b.user_agent && e.accept_language
                == b.accept_language && e.created == b.created && e.ttl_hint_secs
                == b.ttl_hint_secs
            &&& s.seed is None ==> e.created == now && e.ttl_hint_secs == ttl
        }),
{
}

} // verus!
