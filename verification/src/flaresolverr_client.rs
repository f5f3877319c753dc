//! Outbound delegate to an external FlareSolverr: what is sent and how the
//! answer is read. The caller makes the request.

use vstd::prelude::*;

use crate::browser::cdp_engine::{cookies_at, listed_cookies};
use crate::error::{same_outcome, CobwebError, ErrorView};
use crate::jar::cookie::{Cookie, CookieView};
use crate::json::{
    lemma_member_absent, members_are_read_back, number, number_value, numbers_are_read_back,
    or_empty, text_value, Json, JsonView, Members,
};
use crate::text::{cat, drop_trailing, only, trim_end_char};
use crate::weburl::{Url, UrlView};

verus! {

/// The longest time an external solver is given, in milliseconds.
pub const MAX_SOLVE_MS: u64 = 180_000;

pub struct FlaresolverrClient {
    endpoint: String,
}

impl View for FlaresolverrClient {
    type V = Seq<char>;

    /// The endpoint, without trailing slashes.
    closed spec fn view(&self) -> Seq<char> {
        self.endpoint@
    }
}

/// What an external solver brought back.
#[derive(Debug)]
pub struct FsSolution {
    pub cookies: Vec<Cookie>,
    pub user_agent: String,
    pub html: String,
    pub status: u16,
}

/// What a solution stands for.
#[verifier::ext_equal]
pub struct SolutionView {
    pub cookies: Seq<CookieView>,
    pub user_agent: Seq<char>,
    pub html: Seq<char>,
    pub status: u16,
}

impl View for FsSolution {
    type V = SolutionView;

    open spec fn view(&self) -> SolutionView {
        SolutionView {
            cookies: self.cookies.deep_view(),
            user_agent: self.user_agent@,
            html: self.html@,
            status: self.status,
        }
    }
}

/// The body of a request to solve a page.
pub open spec fn solve_body(url: UrlView, proxy: Option<UrlView>, timeout_ms: u64) -> JsonView {
    let common = seq![
        ("cmd"@, JsonView::Str("request.get"@)),
        ("url"@, JsonView::Str(url.text)),
        (
            "maxTimeout"@,
            number(
                if timeout_ms < MAX_SOLVE_MS {
                    timeout_ms
                } else {
                    MAX_SOLVE_MS
                },
            ),
        ),
    ];
    match proxy {
        Some(p) => JsonView::Object(
            common.push(("proxy"@, JsonView::Object(seq![("url"@, JsonView::Str(p.text))]))),
        ),
        None => JsonView::Object(common),
    }
}

/// A status as it is kept: its low sixteen bits, zero where there is none.
pub open spec fn short_status(v: Option<JsonView>) -> u16 {
    match v {
        Some(j) => match j.whole() {
            Some(n) => (n % 65_536) as u16,
            None => 0,
        },
        None => 0,
    }
}

/// What an answer says.
pub open spec fn solution_of(v: JsonView) -> Result<SolutionView, ErrorView> {
    if v.str_field("status"@) != Some("ok"@) {
        Err(
            ErrorView::Browser(
                "flaresolverr: "@ + match v.str_field("message"@) {
                    Some(m) => m,
                    None => "no message"@,
                },
            ),
        )
    } else {
        match v.field("solution"@) {
            Some(sol) => Ok(
                SolutionView {
                    cookies: listed_cookies(sol, "cookies"@),
                    user_agent: or_empty(sol.str_field("userAgent"@)),
                    html: or_empty(sol.str_field("response"@)),
                    status: short_status(sol.field("status"@)),
                },
            ),
            None => Err(ErrorView::Upstream("flaresolverr: no solution"@)),
        }
    }
}

fn text_or_empty(v: &Json, key: &str) -> (r: String)
    ensures
        r@ == or_empty(v@.str_field(key@)),
{
    match v.str_at(key) {
        Some(s) => s,
        None => {
            let r = String::new();
            assert(r@ =~= seq![]);
            r
        },
    }
}

impl FlaresolverrClient {
    pub fn new(endpoint: &str) -> (r: FlaresolverrClient)
        ensures
            r@ == drop_trailing(endpoint@, only('/')),
    {
        FlaresolverrClient { endpoint: trim_end_char(endpoint, '/') }
    }

    /// The client of a configured endpoint, unless it is blank.
    pub fn configured(endpoint: &Option<String>) -> (r: Option<FlaresolverrClient>)
        ensures
            match endpoint.deep_view() {
                Some(e) => if e.len() > 0 {
                    r matches Some(c) && c@ == drop_trailing(e, only('/'))
                } else {
                    r is None
                },
                None => r is None,
            },
    {
        match endpoint {
            Some(e) => if e.as_str().unicode_len() > 0 {
                Some(FlaresolverrClient::new(e.as_str()))
            } else {
                None
            },
            None => None,
        }
    }

    /// Where to post.
    pub fn target(&self) -> (r: String)
        ensures
            r@ == self@ + "/v1"@,
    {
        cat(self.endpoint.as_str(), "/v1")
    }

    /// What to post, to have a page solved through a proxy, if any.
    pub fn request(&self, url: &Url, proxy: &Option<Url>, timeout_ms: u64) -> (r: Json)
        ensures
            r@ == solve_body(url@, proxy.deep_view(), timeout_ms),
    {
        let limit: u64 = if timeout_ms < MAX_SOLVE_MS {
            timeout_ms
        } else {
            MAX_SOLVE_MS
        };
        let common = Members::new().with("cmd", text_value("request.get")).with(
            "url",
            text_value(url.as_str()),
        ).with("maxTimeout", number_value(limit));
        match proxy {
            Some(p) => {
                let inner = Members::new().with("url", text_value(p.as_str()));
                assert(inner@ =~= seq![("url"@, JsonView::Str(p@.text))]);
                let all = common.with("proxy", inner.object());
                assert(all@ =~= solve_body(url@, proxy.deep_view(), timeout_ms)->Object_0);
                all.object()
            },
            None => {
                assert(common@ =~= solve_body(url@, proxy.deep_view(), timeout_ms)->Object_0);
                common.object()
            },
        }
    }

    /// Read the answer: the cookies and the user agent, so that the jar can ride
    /// them.
    pub fn solve(&self, answer: &Json) -> (r: Result<FsSolution, CobwebError>)
        ensures
            same_outcome(r, solution_of(answer@)),
    {
        let ok = match answer.str_at("status") {
            Some(s) => crate::text::same(s.as_str(), "ok"),
            None => false,
        };
        if !ok {
            let msg = match answer.str_at("message") {
                Some(m) => m,
                None => "no message".to_owned(),
            };
            return Err(CobwebError::Browser(cat("flaresolverr: ", msg.as_str())));
        }
        match answer.get("solution") {
            Some(sol) => {
                let status: u16 = match sol.get("status") {
                    Some(j) => match j.as_u64() {
                        Some(n) => (n % 65_536) as u16,
                        None => 0,
                    },
                    None => 0,
                };
                Ok(
                    FsSolution {
                        cookies: cookies_at(sol, "cookies"),
                        user_agent: text_or_empty(sol, "userAgent"),
                        html: text_or_empty(sol, "response"),
                        status,
                    },
                )
            },
            None => Err(CobwebError::Upstream("flaresolverr: no solution".to_owned())),
        }
    }
}

/// An answer that is not marked as good never brings cookies back.
pub proof fn refused_solves_bring_nothing(v: JsonView)
    requires
        v.str_field("status"@) != Some("ok"@),
    ensures
        solution_of(v) is Err,
{
}

/// The solver is asked for the page by its URL, within the longest time it may
/// take, and through the proxy where there is one.
pub proof fn the_solver_is_asked_for_the_page(url: UrlView, p: UrlView, timeout_ms: u64)
    ensures
        ({
            let plain = solve_body(url, None, timeout_ms);
            let proxied = solve_body(url, Some(p), timeout_ms);
            &&& plain.str_field("cmd"@) == Some("request.get"@)
            &&& plain.str_field("url"@) == Some(url.text)
            &&& proxied.str_field("cmd"@) == Some("request.get"@)
            &&& proxied.str_field("url"@) == Some(url.text)
            &&& plain.field("maxTimeout"@) matches Some(v) && v.whole() == Some(
                if timeout_ms < 180_000 {
                    timeout_ms
                } else {
                    180_000
                },
            )
            &&& proxied.field("maxTimeout"@) == plain.field("maxTimeout"@)
            &&& plain.field("proxy"@) is None
            &&& proxied.str_field2("proxy"@, "url"@) == Some(p.text)
        }),
{
    reveal_strlit("cmd");
    reveal_strlit("url");
    reveal_strlit("maxTimeout");
    reveal_strlit("proxy");
    assert("cmd"@[0] == 'c');
    assert("url"@[0] == 'u');
    assert("maxTimeout"@[0] == 'm');
    assert("proxy"@[0] == 'p');
    let a = solve_body(url, None, timeout_ms)->Object_0;
    let b = solve_body(url, Some(p), timeout_ms)->Object_0;
    members_are_read_back(a, 0);
    members_are_read_back(a, 1);
    members_are_read_back(a, 2);
    members_are_read_back(b, 0);
    members_are_read_back(b, 1);
    members_are_read_back(b, 2);
    members_are_read_back(b, 3);
    lemma_member_absent(a, "proxy"@);
    let inner = seq![("url"@, JsonView::Str(p.text))];
    members_are_read_back(inner, 0);
    numbers_are_read_back(
        if timeout_ms < 180_000 {
            timeout_ms
        } else {
            180_000
        },
    );
}

/// An answer that is marked as good brings back all that its solution holds.
pub proof fn a_good_answer_brings_its_solution(v: JsonView, sol: JsonView)
    requires
        v.str_field("status"@) == Some("ok"@),
    ensures
        v.field("solution"@) == Some(sol) ==> (solution_of(v) matches Ok(s) && s.cookies
            == listed_cookies(sol, "cookies"@) && (sol.str_field("userAgent"@) matches Some(u)
            ==> s.user_agent == u) && (sol.str_field("response"@) matches Some(h) ==> s.html == h)),
        v.field("solution"@) is None ==> solution_of(v) is Err,
{
}

} // verus!
