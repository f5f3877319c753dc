//! An in-memory engine for tests: no Chromium, no DevTools.
//!
//! Scriptable: pick what a sniff, a navigation or an evaluation returns, and
//! whether the engine is ready.

use vstd::prelude::*;

use super::engine::{BrowserError, BrowserFault, ContextOptions, HitView, PageLoad, SniffHit};
use crate::fastpath::copy_headers;
use crate::jar::cookie::{copy_cookies, Cookie, CookieView, StateView, StorageState};
use crate::json::{Json, JsonView};
use crate::text::cat;
use crate::weburl::{url_joined, url_parsed, Url, UrlView};

verus! {

#[derive(Debug)]
pub enum SniffScript {
    /// A network hit matched.
    Hit { url: String, headers: Vec<(String, String)> },
    /// Landed on a challenge page.
    Challenge,
    /// Navigation finished, nothing matched.
    NoMatch,
    /// Never resolved.
    Timeout,
}

/// What a script stands for.
pub enum ScriptView {
    Hit { url: Seq<char>, headers: Seq<(Seq<char>, Seq<char>)> },
    Challenge,
    NoMatch,
    Timeout,
}

impl DeepView for SniffScript {
    type V = ScriptView;

    open spec fn deep_view(&self) -> ScriptView {
        match *self {
            SniffScript::Hit { url, headers } => ScriptView::Hit {
                url: url@,
                headers: headers.deep_view(),
            },
            SniffScript::Challenge => ScriptView::Challenge,
            SniffScript::NoMatch => ScriptView::NoMatch,
            SniffScript::Timeout => ScriptView::Timeout,
        }
    }
}

impl SniffScript {
    fn copy(&self) -> (r: SniffScript)
        ensures
            r.deep_view() == self.deep_view(),
    {
        match self {
            SniffScript::Hit { url, headers } => SniffScript::Hit {
                url: url.clone(),
                headers: copy_headers(headers),
            },
            SniffScript::Challenge => SniffScript::Challenge,
            SniffScript::NoMatch => SniffScript::NoMatch,
            SniffScript::Timeout => SniffScript::Timeout,
        }
    }
}

pub struct MockEngine {
    ready: bool,
    /// Consumed one per `acquire`; the last entry repeats.
    scripts: Vec<SniffScript>,
    /// Cookies that a context reports.
    storage_cookies: Vec<Cookie>,
    nav_html: String,
    eval_result: Json,
    acquired: usize,
}

/// What a mock engine stands for.
#[verifier::ext_equal]
pub struct MockView {
    pub ready: bool,
    pub scripts: Seq<ScriptView>,
    pub storage_cookies: Seq<CookieView>,
    pub nav_html: Seq<char>,
    pub eval_result: JsonView,
    pub acquired: nat,
}

impl View for MockEngine {
    type V = MockView;

    closed spec fn view(&self) -> MockView {
        MockView {
            ready: self.ready,
            scripts: self.scripts.deep_view(),
            storage_cookies: self.storage_cookies.deep_view(),
            nav_html: self.nav_html@,
            eval_result: self.eval_result@,
            acquired: self.acquired as nat,
        }
    }
}

/// An engine that is ready and never matches.
pub open spec fn plain_mock() -> MockView {
    MockView {
        ready: true,
        scripts: seq![ScriptView::NoMatch],
        storage_cookies: seq![CookieView::plain("cf_clearance"@, "mock"@, ".example.test"@)],
        nav_html: "<html><body>mock</body></html>"@,
        eval_result: JsonView::Null,
        acquired: 0,
    }
}

impl Default for MockEngine {
    fn default() -> (r: MockEngine)
        ensures
            r@ == plain_mock(),
    {
        let mut scripts: Vec<SniffScript> = Vec::new();
        scripts.push(SniffScript::NoMatch);
        let mut storage_cookies: Vec<Cookie> = Vec::new();
        storage_cookies.push(Cookie::new("cf_clearance", "mock", ".example.test"));
        let r = MockEngine {
            ready: true,
            scripts,
            storage_cookies,
            nav_html: "<html><body>mock</body></html>".to_owned(),
            eval_result: Json::Null,
            acquired: 0,
        };
        assert(r@ =~= plain_mock());
        r
    }
}

/// The script of the next context, and the scripts that are left.
pub open spec fn next_script(scripts: Seq<ScriptView>) -> (ScriptView, Seq<ScriptView>) {
    if scripts.len() > 1 {
        (scripts[0], scripts.skip(1))
    } else if scripts.len() == 1 {
        (scripts[0], scripts)
    } else {
        (ScriptView::NoMatch, scripts)
    }
}

impl MockEngine {
    pub fn with_sniff(script: SniffScript) -> (r: MockEngine)
        ensures
            r@ == (MockView { scripts: seq![script.deep_view()], ..plain_mock() }),
    {
        let ghost sv = script.deep_view();
        let mut v: Vec<SniffScript> = Vec::new();
        v.push(script);
        assert(v.deep_view() =~= seq![sv]);
        MockEngine::with_sniffs(v)
    }

    /// One script per `acquire` call; the final one repeats.
    pub fn with_sniffs(scripts: Vec<SniffScript>) -> (r: MockEngine)
        ensures
            r@ == (MockView {
                scripts: if scripts@.len() == 0 {
                    seq![ScriptView::NoMatch]
                } else {
                    scripts.deep_view()
                },
                ..plain_mock()
            }),
    {
        let mut r = MockEngine::default();
        if scripts.len() > 0 {
            r.scripts = scripts;
        }
        r
    }

    pub fn unavailable() -> (r: MockEngine)
        ensures
            r@ == (MockView { ready: false, ..plain_mock() }),
    {
        let mut r = MockEngine::default();
        r.ready = false;
        r
    }

    pub fn nav_html(self, html: &str) -> (r: MockEngine)
        ensures
            r@ == (MockView { nav_html: html@, ..self@ }),
    {
        let mut r = self;
        r.nav_html = html.to_owned();
        r
    }

    pub fn eval_result(self, v: Json) -> (r: MockEngine)
        ensures
            r@ == (MockView { eval_result: v@, ..self@ }),
    {
        let mut r = self;
        r.eval_result = v;
        r
    }

    /// How many contexts have been acquired.
    pub fn acquired(&self) -> (r: usize)
        ensures
            r == self@.acquired,
    {
        self.acquired
    }

    pub fn ensure_ready(&self) -> (r: Result<(), BrowserError>)
        ensures
            r is Ok == self@.ready,
            r matches Err(e) ==> e@ == BrowserFault::Unavailable("mock engine set to unavailable"@),
    {
        if self.ready {
            Ok(())
        } else {
            Err(BrowserError::Unavailable("mock engine set to unavailable".to_owned()))
        }
    }

    /// A context that reflects its seed and plays the next script.
    pub fn acquire(&mut self, opts: &ContextOptions) -> (r: MockContext)
        requires
            old(self)@.acquired < usize::MAX,
        ensures
            final(self)@ == (MockView {
                acquired: old(self)@.acquired + 1,
                scripts: next_script(old(self)@.scripts).1,
                ..old(self)@
            }),
            r@ == (MockContextView {
                sniff: next_script(old(self)@.scripts).0,
                storage_cookies: (match opts@.seed {
                    Some(s) => s.cookies,
                    None => seq![],
                }) + old(self)@.storage_cookies,
                nav_html: old(self)@.nav_html,
                eval_result: old(self)@.eval_result,
            }),
    {
        self.acquired = self.acquired + 1;
        let mut cookies: Vec<Cookie> = match &opts.seed {
            Some(s) => copy_cookies(&s.cookies),
            None => Vec::new(),
        };
        let ghost seeded = cookies.deep_view();
        assert(opts.seed is None ==> seeded =~= seq![]);
        let mut own = copy_cookies(&self.storage_cookies);
        let ghost layered = own.deep_view();
        cookies.append(&mut own);
        assert(cookies.deep_view() =~= seeded + layered);
        let ghost before = self.scripts.deep_view();
        let sniff = if self.scripts.len() > 1 {
            let s = self.scripts.remove(0);
            assert(before[0] == s.deep_view());
            assert(self.scripts.deep_view() =~= before.skip(1));
            s
        } else if self.scripts.len() == 1 {
            assert(before[0] == self.scripts@[0].deep_view());
            self.scripts[0].copy()
        } else {
            SniffScript::NoMatch
        };
        MockContext {
            sniff,
            storage_cookies: cookies,
            nav_html: self.nav_html.clone(),
            eval_result: self.eval_result.copy(),
        }
    }
}

pub struct MockContext {
    sniff: SniffScript,
    storage_cookies: Vec<Cookie>,
    nav_html: String,
    eval_result: Json,
}

/// What a mock context stands for.
#[verifier::ext_equal]
pub struct MockContextView {
    pub sniff: ScriptView,
    pub storage_cookies: Seq<CookieView>,
    pub nav_html: Seq<char>,
    pub eval_result: JsonView,
}

impl View for MockContext {
    type V = MockContextView;

    closed spec fn view(&self) -> MockContextView {
        MockContextView {
            sniff: self.sniff.deep_view(),
            storage_cookies: self.storage_cookies.deep_view(),
            nav_html: self.nav_html@,
            eval_result: self.eval_result@,
        }
    }
}

/// The URL of a scripted hit: absolute, or relative to the page.
pub open spec fn scripted_url(url: Seq<char>, trigger: Seq<char>) -> Result<UrlView, Seq<char>> {
    match url_parsed(url) {
        Ok(u) => Ok(u),
        Err(_) => url_joined(trigger, url),
    }
}

impl MockContext {
    pub fn navigate(&self, url: &Url) -> (r: PageLoad)
        ensures
            r.html@ == self@.nav_html,
            r.final_url@ == url@,
            r.challenge == (self@.sniff is Challenge),
    {
        let challenge = match &self.sniff {
            SniffScript::Challenge => true,
            _ => false,
        };
        PageLoad { html: self.nav_html.clone(), final_url: url.copy(), challenge }
    }

    pub fn sniff(&self, trigger: &Url, timeout_ms: u64) -> (r: Result<SniffHit, BrowserError>)
        ensures
            match self@.sniff {
                ScriptView::Hit { url, headers } => match scripted_url(url, trigger@.text) {
                    Ok(u) => r matches Ok(h) && h@ == (HitView {
                        url: u,
                        request_headers: headers,
                        final_url: trigger@,
                    }),
                    Err(m) => r matches Err(e) && e@ == BrowserFault::Other(
                        "mock bad url: "@ + m,
                    ),
                },
                ScriptView::Challenge => r matches Err(e) && e@ == BrowserFault::Challenge,
                ScriptView::NoMatch => r matches Err(e) && e@ == BrowserFault::NoMatch,
                ScriptView::Timeout => r matches Err(e) && e@ == BrowserFault::Timeout(timeout_ms),
            },
    {
        match &self.sniff {
            SniffScript::Hit { url, headers } => {
                let found = match Url::parse(url.as_str()) {
                    Ok(u) => Ok(u),
                    Err(_) => trigger.join(url.as_str()),
                };
                match found {
                    Ok(u) => Ok(
                        SniffHit {
                            url: u,
                            request_headers: copy_headers(headers),
                            final_url: trigger.copy(),
                        },
                    ),
                    Err(m) => Err(BrowserError::Other(cat("mock bad url: ", m.as_str()))),
                }
            },
            SniffScript::Challenge => Err(BrowserError::Challenge),
            SniffScript::NoMatch => Err(BrowserError::NoMatch),
            SniffScript::Timeout => Err(BrowserError::Timeout(timeout_ms)),
        }
    }

    pub fn eval(&self) -> (r: Json)
        ensures
            r@ == self@.eval_result,
    {
        self.eval_result.copy()
    }

    pub fn user_agent(&self) -> (r: String)
        ensures
            r@ == "Mozilla/5.0 (mock) Chrome/147"@,
    {
        "Mozilla/5.0 (mock) Chrome/147".to_owned()
    }

    pub fn storage_state(&self) -> (r: StorageState)
        ensures
            r@ == (StateView { cookies: self@.storage_cookies, origins: seq![] }),
    {
        StorageState::from_cookies(copy_cookies(&self.storage_cookies))
    }
}

/// Scripts are played in order, and the last one again and again.
pub proof fn scripts_are_played_in_order(scripts: Seq<ScriptView>)
    ensures
        scripts.len() > 1 ==> next_script(scripts) == (scripts[0], scripts.skip(1)),
        scripts.len() == 1 ==> next_script(scripts) == (scripts[0], scripts),
        scripts.len() == 0 ==> next_script(scripts).0 is NoMatch,
{
}

/// A scripted URL is taken as it is where it is one, and relative to the page
/// otherwise.
pub proof fn scripted_urls_may_be_relative(url: Seq<char>, trigger: Seq<char>)
    ensures
        url_parsed(url) is Ok ==> scripted_url(url, trigger) == url_parsed(url),
        url_parsed(url) is Err ==> scripted_url(url, trigger) == url_joined(trigger, url),
{
}

} // verus!
