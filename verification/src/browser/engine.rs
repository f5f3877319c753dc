//! The browser engine seam: what a browser tier is asked for and what it answers.

use vstd::prelude::*;

use crate::egress::{Egress, EgressView};
use crate::error::{CobwebError, ErrorView};
use crate::jar::cookie::{StateView, StorageState};
use crate::jar::JarEntry;
use crate::jar::EntryView;
use crate::text::{
    a_part_occurs_in_the_whole, cat, cat3, dec, dec_u64, digit_char, drop_trailing, has, only,
    trim_end_char,
};
use crate::weburl::{Url, UrlView};

verus! {

#[derive(Debug)]
pub enum BrowserError {
    /// Engine could not start.
    Unavailable(String),
    /// Navigation or sniff exceeded its deadline (milliseconds) with no result.
    Timeout(u64),
    /// Landed on a managed-challenge interstitial.
    Challenge,
    /// Navigation finished but nothing matched `url_pattern`.
    NoMatch,
    /// Anything from the DevTools transport itself.
    Cdp(String),
    Other(String),
}

/// What a browser error stands for.
pub enum BrowserFault {
    Unavailable(Seq<char>),
    Timeout(u64),
    Challenge,
    NoMatch,
    Cdp(Seq<char>),
    Other(Seq<char>),
}

impl View for BrowserError {
    type V = BrowserFault;

    open spec fn view(&self) -> BrowserFault {
        match *self {
            BrowserError::Unavailable(m) => BrowserFault::Unavailable(m@),
            BrowserError::Timeout(d) => BrowserFault::Timeout(d),
            BrowserError::Challenge => BrowserFault::Challenge,
            BrowserError::NoMatch => BrowserFault::NoMatch,
            BrowserError::Cdp(m) => BrowserFault::Cdp(m@),
            BrowserError::Other(m) => BrowserFault::Other(m@),
        }
    }
}

/// The thousandths behind the point, without zeros at the end.
pub open spec fn thousandths(n: int) -> Seq<char> {
    drop_trailing(
        seq![digit_char(n / 100), digit_char(n / 10 % 10), digit_char(n % 10)],
        only('0'),
    )
}

/// A number of milliseconds as text, the way a `std::time::Duration` is shown for
/// debugging: in milliseconds below a second, in seconds from there on.
pub open spec fn duration_text(ms: u64) -> Seq<char> {
    if ms == 0 {
        "0ns"@
    } else if ms < 1000 {
        dec(ms as nat) + "ms"@
    } else if ms % 1000 == 0 {
        dec((ms / 1000) as nat) + "s"@
    } else {
        dec((ms / 1000) as nat) + "."@ + thousandths(ms as int % 1000) + "s"@
    }
}

/// A number of milliseconds as text.
pub fn show_millis(ms: u64) -> (r: String)
    ensures
        r@ == duration_text(ms),
{
    if ms == 0 {
        return "0ns".to_owned();
    }
    if ms < 1000 {
        return cat(dec_u64(ms).as_str(), "ms");
    }
    let secs = dec_u64(ms / 1000);
    let rest: u64 = ms % 1000;
    if rest == 0 {
        return cat(secs.as_str(), "s");
    }
    let mut digits = String::new();
    digits.push((48 + (rest / 100) as u8) as char);
    digits.push((48 + (rest / 10 % 10) as u8) as char);
    digits.push((48 + (rest % 10) as u8) as char);
    assert(digits@ =~= seq![
        digit_char(rest as int / 100),
        digit_char(rest as int / 10 % 10),
        digit_char(rest as int % 10),
    ]);
    let kept = trim_end_char(digits.as_str(), '0');
    cat(cat3(secs.as_str(), ".", kept.as_str()).as_str(), "s")
}

impl BrowserFault {
    /// Text for people.
    pub open spec fn message(self) -> Seq<char> {
        match self {
            BrowserFault::Unavailable(m) => "browser engine unavailable: "@ + m,
            BrowserFault::Timeout(d) => "browser timed out after "@ + duration_text(d),
            BrowserFault::Challenge => "landed on a challenge page"@,
            BrowserFault::NoMatch => "no request matched the pattern"@,
            BrowserFault::Cdp(m) => "cdp: "@ + m,
            BrowserFault::Other(m) => m,
        }
    }

    /// The same fault as an error of the pipeline.
    pub open spec fn as_error(self) -> ErrorView {
        match self {
            BrowserFault::Challenge => ErrorView::Browser("landed on a challenge page"@),
            BrowserFault::Unavailable(m) => ErrorView::Browser("engine unavailable: "@ + m),
            BrowserFault::Timeout(d) => ErrorView::Browser("timed out after "@ + duration_text(d)),
            BrowserFault::NoMatch => ErrorView::NotResolved("no request matched the pattern"@),
            BrowserFault::Cdp(m) => ErrorView::Browser("cdp: "@ + m),
            BrowserFault::Other(m) => ErrorView::Other(m),
        }
    }
}

impl BrowserError {
    /// Text for people.
    pub fn message(&self) -> (r: String)
        ensures
            r@ == self@.message(),
    {
        match self {
            BrowserError::Unavailable(m) => cat("browser engine unavailable: ", m.as_str()),
            BrowserError::Timeout(d) => cat(
                "browser timed out after ",
                show_millis(*d).as_str(),
            ),
            BrowserError::Challenge => "landed on a challenge page".to_owned(),
            BrowserError::NoMatch => "no request matched the pattern".to_owned(),
            BrowserError::Cdp(m) => cat("cdp: ", m.as_str()),
            BrowserError::Other(m) => m.clone(),
        }
    }

    /// The same fault as an error of the pipeline. A challenge carries no domain
    /// here; callers that can name it intercept it before converting.
    pub fn into_error(self) -> (r: CobwebError)
        ensures
            r@ == self@.as_error(),
    {
        match self {
            BrowserError::Challenge => CobwebError::Browser("landed on a challenge page".to_owned()),
            BrowserError::Unavailable(m) => CobwebError::Browser(
                cat("engine unavailable: ", m.as_str()),
            ),
            BrowserError::Timeout(d) => CobwebError::Browser(
                cat("timed out after ", show_millis(d).as_str()),
            ),
            BrowserError::NoMatch => CobwebError::NotResolved(
                "no request matched the pattern".to_owned(),
            ),
            BrowserError::Cdp(m) => CobwebError::Browser(cat("cdp: ", m.as_str())),
            BrowserError::Other(m) => CobwebError::Other(m),
        }
    }
}

/// How long `navigate` should wait before returning the page.
#[derive(Debug)]
pub enum WaitFor {
    /// The load event.
    Load,
    /// The DOM is parsed.
    DomContentLoaded,
    /// No request in flight for a while.
    NetworkIdle,
    /// A CSS selector appears in the DOM.
    Selector(String),
}

/// What a context is seeded with on acquire.
#[derive(Debug)]
pub struct ContextOptions {
    pub egress: Egress,
    pub seed: Option<StorageState>,
    pub user_agent: Option<String>,
    pub accept_language: Option<String>,
    /// Block image/font/media requests (cheaper sniffs).
    pub block_resources: bool,
    /// Block the tracker and ad domains of the blocklist.
    pub block_trackers: bool,
}

/// What context options stand for.
#[verifier::ext_equal]
pub struct OptionsView {
    pub egress: EgressView,
    pub seed: Option<StateView>,
    pub user_agent: Option<Seq<char>>,
    pub accept_language: Option<Seq<char>>,
    pub block_resources: bool,
    pub block_trackers: bool,
}

impl View for ContextOptions {
    type V = OptionsView;

    open spec fn view(&self) -> OptionsView {
        OptionsView {
            egress: self.egress@,
            seed: self.seed.deep_view(),
            user_agent: self.user_agent.deep_view(),
            accept_language: self.accept_language.deep_view(),
            block_resources: self.block_resources,
            block_trackers: self.block_trackers,
        }
    }
}

/// A text, unless it is empty.
pub open spec fn nonempty(s: Seq<char>) -> Option<Seq<char>> {
    if s.len() == 0 {
        None
    } else {
        Some(s)
    }
}

/// The user agent that a jar entry pins.
pub open spec fn pinned_ua(jar: Option<EntryView>) -> Option<Seq<char>> {
    match jar {
        Some(j) => nonempty(j.user_agent),
        None => None,
    }
}

/// The language that a jar entry pins.
pub open spec fn pinned_language(jar: Option<EntryView>) -> Option<Seq<char>> {
    match jar {
        Some(j) => nonempty(j.accept_language),
        None => None,
    }
}

/// The storage that a jar entry seeds a context with.
pub open spec fn seed_state(jar: Option<EntryView>) -> Option<StateView> {
    match jar {
        Some(j) => Some(j.storage_state),
        None => None,
    }
}

/// The options of a context for an egress, seeded from the jar.
pub open spec fn seeded_options(
    egress: EgressView,
    jar: Option<EntryView>,
    block_resources: bool,
    block_trackers: bool,
) -> OptionsView {
    OptionsView {
        egress,
        seed: seed_state(jar),
        user_agent: pinned_ua(jar),
        accept_language: pinned_language(jar),
        block_resources,
        block_trackers,
    }
}

/// The user agent that a jar entry pins.
pub fn jar_user_agent(jar: &Option<JarEntry>) -> (r: Option<String>)
    ensures
        r.deep_view() == pinned_ua(jar.deep_view()),
{
    match jar {
        Some(j) => if j.user_agent.as_str().unicode_len() == 0 {
            None
        } else {
            Some(j.user_agent.clone())
        },
        None => None,
    }
}

/// The language that a jar entry pins.
pub fn jar_language(jar: &Option<JarEntry>) -> (r: Option<String>)
    ensures
        r.deep_view() == pinned_language(jar.deep_view()),
{
    match jar {
        Some(j) => if j.accept_language.as_str().unicode_len() == 0 {
            None
        } else {
            Some(j.accept_language.clone())
        },
        None => None,
    }
}

/// The options of a context for an egress, seeded from the jar.
pub fn seed_context(
    egress: &Egress,
    jar: &Option<JarEntry>,
    block_resources: bool,
    block_trackers: bool,
) -> (r: ContextOptions)
    ensures
        r@ == seeded_options(egress@, jar.deep_view(), block_resources, block_trackers),
{
    ContextOptions {
        egress: egress.copy(),
        seed: match jar {
            Some(j) => Some(j.storage_state.copy()),
            None => None,
        },
        user_agent: jar_user_agent(jar),
        accept_language: jar_language(jar),
        block_resources,
        block_trackers,
    }
}

/// A loaded page (post-JS DOM).
#[derive(Debug)]
pub struct PageLoad {
    pub html: String,
    pub final_url: Url,
    pub challenge: bool,
}

/// A network hit that matched `url_pattern` during a sniff.
#[derive(Debug)]
pub struct SniffHit {
    pub url: Url,
    /// Request headers sent for the matched request.
    pub request_headers: Vec<(String, String)>,
    pub final_url: Url,
}

/// What a hit stands for.
#[verifier::ext_equal]
pub struct HitView {
    pub url: UrlView,
    pub request_headers: Seq<(Seq<char>, Seq<char>)>,
    pub final_url: UrlView,
}

impl View for SniffHit {
    type V = HitView;

    open spec fn view(&self) -> HitView {
        HitView {
            url: self.url@,
            request_headers: self.request_headers.deep_view(),
            final_url: self.final_url@,
        }
    }
}

/// A context is seeded with all that the jar has: its storage, and the user agent
/// and language that it pins.
pub proof fn a_context_has_what_the_jar_has(
    egress: EgressView,
    e: EntryView,
    block_resources: bool,
    block_trackers: bool,
)
    ensures
        ({
            let o = seeded_options(egress, Some(e), block_resources, block_trackers);
            let n = seeded_options(egress, None, block_resources, block_trackers);
            &&& o.egress == egress && n.egress == egress
            &&& o.seed == Some(e.storage_state)
            &&& n.seed is None && n.user_agent is None && n.accept_language is None
            &&& e.user_agent.len() > 0 ==> o.user_agent == Some(e.user_agent)
            &&& e.user_agent.len() == 0 ==> o.user_agent is None
            &&& e.accept_language.len() > 0 ==> o.accept_language == Some(e.accept_language)
            &&& e.accept_language.len() == 0 ==> o.accept_language is None
            &&& o.block_resources == block_resources && o.block_trackers == block_trackers
        }),
{
}

/// Whole seconds are shown as such, and what is less than a second in
/// milliseconds.
pub proof fn durations_are_shown_in_their_unit(n: u64)
    ensures
        0 < n < 1000 ==> duration_text(n) == dec(n as nat) + seq!['m', 's'],
        0 < n <= 1_000_000 ==> duration_text((n * 1000) as u64) == dec(n as nat) + seq!['s'],
{
    reveal_strlit("ms");
    reveal_strlit("s");
    assert("ms"@ =~= seq!['m', 's']);
    assert("s"@ =~= seq!['s']);
}

/// A fault keeps its own words, whoever tells it.
pub proof fn faults_keep_their_words(m: Seq<char>)
    ensures
        has(BrowserFault::Unavailable(m).message(), m),
        has(BrowserFault::Cdp(m).message(), m),
        BrowserFault::Other(m).message() == m,
        BrowserFault::Other(m).as_error() == ErrorView::Other(m),
        BrowserFault::NoMatch.as_error() is NotResolved,
        BrowserFault::Cdp(m).as_error() matches ErrorView::Browser(t) && has(t, m),
        BrowserFault::Unavailable(m).as_error() matches ErrorView::Browser(t) && has(t, m),
{
    let e = Seq::<char>::empty();
    a_part_occurs_in_the_whole("browser engine unavailable: "@, m, e);
    a_part_occurs_in_the_whole("engine unavailable: "@, m, e);
    a_part_occurs_in_the_whole("cdp: "@, m, e);
    assert("browser engine unavailable: "@ + m + e =~= "browser engine unavailable: "@ + m);
    assert("engine unavailable: "@ + m + e =~= "engine unavailable: "@ + m);
    assert("cdp: "@ + m + e =~= "cdp: "@ + m);
}

} // verus!
