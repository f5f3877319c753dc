//! One error type for the whole crate, plus its mapping to HTTP responses.

use vstd::prelude::*;

use crate::json::{members_are_read_back, Json, JsonView, Members};
use crate::text::{a_part_occurs_in_the_whole, cat, cat3, has};

verus! {

#[derive(Debug)]
pub enum CobwebError {
    Config(String),
    /// The request named an egress that is not configured.
    UnknownEgress(String),
    /// The egress is configured but its proxy failed the health check. It is
    /// never replaced by `direct`.
    EgressUnavailable { name: String, reason: String },
    /// The target needs a browser that this request may not launch.
    NeedsBrowser(String),
    /// A challenge that no tier could solve.
    NeedsManualSolve { domain: String },
    /// The tiers ran but found no stream URL.
    NotResolved(String),
    BadRequest(String),
    /// The target is refused by the address guard.
    Blocked(String),
    Conflict(String),
    Upstream(String),
    Browser(String),
    NotImplemented(String),
    Io(String),
    Other(String),
}

/// What an error stands for.
pub enum ErrorView {
    Config(Seq<char>),
    UnknownEgress(Seq<char>),
    EgressUnavailable { name: Seq<char>, reason: Seq<char> },
    NeedsBrowser(Seq<char>),
    NeedsManualSolve { domain: Seq<char> },
    NotResolved(Seq<char>),
    BadRequest(Seq<char>),
    Blocked(Seq<char>),
    Conflict(Seq<char>),
    Upstream(Seq<char>),
    Browser(Seq<char>),
    NotImplemented(Seq<char>),
    Io(Seq<char>),
    Other(Seq<char>),
}

impl View for CobwebError {
    type V = ErrorView;

    open spec fn view(&self) -> ErrorView {
        match *self {
            CobwebError::Config(m) => ErrorView::Config(m@),
            CobwebError::UnknownEgress(m) => ErrorView::UnknownEgress(m@),
            CobwebError::EgressUnavailable { name, reason } => ErrorView::EgressUnavailable {
                name: name@,
                reason: reason@,
            },
            CobwebError::NeedsBrowser(m) => ErrorView::NeedsBrowser(m@),
            CobwebError::NeedsManualSolve { domain } => ErrorView::NeedsManualSolve {
                domain: domain@,
            },
            CobwebError::NotResolved(m) => ErrorView::NotResolved(m@),
            CobwebError::BadRequest(m) => ErrorView::BadRequest(m@),
            CobwebError::Blocked(m) => ErrorView::Blocked(m@),
            CobwebError::Conflict(m) => ErrorView::Conflict(m@),
            CobwebError::Upstream(m) => ErrorView::Upstream(m@),
            CobwebError::Browser(m) => ErrorView::Browser(m@),
            CobwebError::NotImplemented(m) => ErrorView::NotImplemented(m@),
            CobwebError::Io(m) => ErrorView::Io(m@),
            CobwebError::Other(m) => ErrorView::Other(m@),
        }
    }
}

/// Whether an outcome is the one that is expected.
pub open spec fn same_outcome<T: View>(
    r: Result<T, CobwebError>,
    expected: Result<T::V, ErrorView>,
) -> bool {
    match (r, expected) {
        (Ok(v), Ok(w)) => v@ == w,
        (Err(e), Err(f)) => e@ == f,
        _ => false,
    }
}

impl ErrorView {
    /// Short machine-readable tag.
    pub open spec fn kind(self) -> Seq<char> {
        match self {
            ErrorView::Config(_) => "config"@,
            ErrorView::UnknownEgress(_) => "unknown_egress"@,
            ErrorView::EgressUnavailable { .. } => "egress_unavailable"@,
            ErrorView::NeedsBrowser(_) => "needs_browser"@,
            ErrorView::NeedsManualSolve { .. } => "needs_manual_solve"@,
            ErrorView::NotResolved(_) => "not_resolved"@,
            ErrorView::BadRequest(_) => "bad_request"@,
            ErrorView::Blocked(_) => "blocked"@,
            ErrorView::Conflict(_) => "conflict"@,
            ErrorView::Upstream(_) => "upstream"@,
            ErrorView::Browser(_) => "browser"@,
            ErrorView::NotImplemented(_) => "not_implemented"@,
            ErrorView::Io(_) => "io"@,
            ErrorView::Other(_) => "internal"@,
        }
    }

    /// HTTP status code.
    pub open spec fn status(self) -> u16 {
        match self {
            ErrorView::Config(_) => 500,
            ErrorView::UnknownEgress(_) => 400,
            ErrorView::EgressUnavailable { .. } => 502,
            ErrorView::NeedsBrowser(_) => 422,
            ErrorView::NeedsManualSolve { .. } => 422,
            ErrorView::NotResolved(_) => 422,
            ErrorView::BadRequest(_) => 400,
            ErrorView::Blocked(_) => 403,
            ErrorView::Conflict(_) => 409,
            ErrorView::Upstream(_) => 502,
            ErrorView::Browser(_) => 502,
            ErrorView::NotImplemented(_) => 501,
            ErrorView::Io(_) => 500,
            ErrorView::Other(_) => 500,
        }
    }

    /// Text for people.
    pub open spec fn message(self) -> Seq<char> {
        match self {
            ErrorView::Config(m) => "config error: "@ + m,
            ErrorView::UnknownEgress(m) => "unknown egress `"@ + m + "`"@,
            ErrorView::EgressUnavailable { name, reason } => "egress `"@ + name + "` is unavailable: "@ + reason,
            ErrorView::NeedsBrowser(m) => "would need a browser: "@ + m,
            ErrorView::NeedsManualSolve { domain } => "challenge on `"@ + domain + "` needs a manual solve"@,
            ErrorView::NotResolved(m) => "no stream URL found for "@ + m,
            ErrorView::BadRequest(m) => "bad request: "@ + m,
            ErrorView::Blocked(m) => "blocked target: "@ + m,
            ErrorView::Conflict(m) => "conflict: "@ + m,
            ErrorView::Upstream(m) => "upstream fetch failed: "@ + m,
            ErrorView::Browser(m) => "browser tier failed: "@ + m,
            ErrorView::NotImplemented(m) => "not implemented until a later milestone: "@ + m,
            ErrorView::Io(m) => m,
            ErrorView::Other(m) => m,
        }
    }

    /// The members of the JSON body: the text and the tag, and for a challenge
    /// the domain to solve.
    pub open spec fn body(self) -> Seq<(Seq<char>, JsonView)> {
        let common = seq![
            ("error"@, JsonView::Str(self.message())),
            ("kind"@, JsonView::Str(self.kind())),
        ];
        match self {
            ErrorView::NeedsManualSolve { domain } => common.push(
                ("domain"@, JsonView::Str(domain)),
            ).push(("needs_manual_solve"@, JsonView::Bool(true))),
            _ => common,
        }
    }
}

impl CobwebError {
    /// Short machine-readable tag, useful for metrics and client branching.
    pub fn kind(&self) -> (r: &'static str)
        ensures
            r@ == self@.kind(),
    {
        match self {
            CobwebError::Config(_) => "config",
            CobwebError::UnknownEgress(_) => "unknown_egress",
            CobwebError::EgressUnavailable { .. } => "egress_unavailable",
            CobwebError::NeedsBrowser(_) => "needs_browser",
            CobwebError::NeedsManualSolve { .. } => "needs_manual_solve",
            CobwebError::NotResolved(_) => "not_resolved",
            CobwebError::BadRequest(_) => "bad_request",
            CobwebError::Blocked(_) => "blocked",
            CobwebError::Conflict(_) => "conflict",
            CobwebError::Upstream(_) => "upstream",
            CobwebError::Browser(_) => "browser",
            CobwebError::NotImplemented(_) => "not_implemented",
            CobwebError::Io(_) => "io",
            CobwebError::Other(_) => "internal",
        }
    }

    /// The HTTP status code of the response.
    pub fn status(&self) -> (r: u16)
        ensures
            r == self@.status(),
    {
        match self {
            CobwebError::Config(_) => 500,
            CobwebError::UnknownEgress(_) => 400,
            CobwebError::EgressUnavailable { .. } => 502,
            CobwebError::NeedsBrowser(_) => 422,
            CobwebError::NeedsManualSolve { .. } => 422,
            CobwebError::NotResolved(_) => 422,
            CobwebError::BadRequest(_) => 400,
            CobwebError::Blocked(_) => 403,
            CobwebError::Conflict(_) => 409,
            CobwebError::Upstream(_) => 502,
            CobwebError::Browser(_) => 502,
            CobwebError::NotImplemented(_) => 501,
            CobwebError::Io(_) => 500,
            CobwebError::Other(_) => 500,
        }
    }

    /// Text for people.
    pub fn message(&self) -> (r: String)
        ensures
            r@ == self@.message(),
    {
        match self {
            CobwebError::Config(m) => cat("config error: ", m.as_str()),
            CobwebError::UnknownEgress(m) => cat3("unknown egress `", m.as_str(), "`"),
            CobwebError::EgressUnavailable { name, reason } => cat(
                cat3("egress `", name.as_str(), "` is unavailable: ").as_str(),
                reason.as_str(),
            ),
            CobwebError::NeedsBrowser(m) => cat("would need a browser: ", m.as_str()),
            CobwebError::NeedsManualSolve { domain } => cat3(
                "challenge on `",
                domain.as_str(),
                "` needs a manual solve",
            ),
            CobwebError::NotResolved(m) => cat("no stream URL found for ", m.as_str()),
            CobwebError::BadRequest(m) => cat("bad request: ", m.as_str()),
            CobwebError::Blocked(m) => cat("blocked target: ", m.as_str()),
            CobwebError::Conflict(m) => cat("conflict: ", m.as_str()),
            CobwebError::Upstream(m) => cat("upstream fetch failed: ", m.as_str()),
            CobwebError::Browser(m) => cat("browser tier failed: ", m.as_str()),
            CobwebError::NotImplemented(m) => cat("not implemented until a later milestone: ", m.as_str()),
            CobwebError::Io(m) => m.clone(),
            CobwebError::Other(m) => m.clone(),
        }
    }

    /// The JSON body of the response.
    pub fn body(&self) -> (r: Json)
        ensures
            r@ == JsonView::Object(self@.body()),
    {
        let common = Members::new().with("error", Json::Str(self.message())).with(
            "kind",
            Json::Str(self.kind().to_owned()),
        );
        let all = match self {
            CobwebError::NeedsManualSolve { domain } => common.with(
                "domain",
                Json::Str(domain.clone()),
            ).with("needs_manual_solve", Json::Bool(true)),
            _ => common,
        };
        assert(all@ =~= self@.body());
        all.object()
    }
}

/// An error keeps the words that it was made with.
pub proof fn errors_keep_their_words(m: Seq<char>, n: Seq<char>)
    ensures
        has(ErrorView::Config(m).message(), m),
        has(ErrorView::UnknownEgress(m).message(), m),
        has((ErrorView::EgressUnavailable { name: m, reason: n }).message(), m),
        has((ErrorView::EgressUnavailable { name: m, reason: n }).message(), n),
        has(ErrorView::NeedsBrowser(m).message(), m),
        has((ErrorView::NeedsManualSolve { domain: m }).message(), m),
        has(ErrorView::NotResolved(m).message(), m),
        has(ErrorView::BadRequest(m).message(), m),
        has(ErrorView::Blocked(m).message(), m),
        has(ErrorView::Conflict(m).message(), m),
        has(ErrorView::Upstream(m).message(), m),
        has(ErrorView::Browser(m).message(), m),
        ErrorView::Io(m).message() == m,
        ErrorView::Other(m).message() == m,
{
    lemma_behind("config error: "@, m);
    lemma_behind("would need a browser: "@, m);
    lemma_behind("no stream URL found for "@, m);
    lemma_behind("bad request: "@, m);
    lemma_behind("blocked target: "@, m);
    lemma_behind("conflict: "@, m);
    lemma_behind("upstream fetch failed: "@, m);
    lemma_behind("browser tier failed: "@, m);
    a_part_occurs_in_the_whole("unknown egress `"@, m, "`"@);
    a_part_occurs_in_the_whole("challenge on `"@, m, "` needs a manual solve"@);
    lemma_behind("egress `"@ + m + "` is unavailable: "@, n);
    a_part_occurs_in_the_whole("egress `"@, m, "` is unavailable: "@ + n);
    assert("egress `"@ + m + ("` is unavailable: "@ + n) =~= "egress `"@ + m
        + "` is unavailable: "@ + n);
}

proof fn lemma_behind(a: Seq<char>, m: Seq<char>)
    ensures
        has(a + m, m),
{
    let e = Seq::<char>::empty();
    a_part_occurs_in_the_whole(a, m, e);
    assert(a + m + e =~= a + m);
}

/// The body of an error says its text and its tag; that of a challenge also names
/// the domain to solve.
pub proof fn error_bodies_say_what_is_wrong(e: ErrorView)
    ensures
        JsonView::Object(e.body()).str_field("error"@) == Some(e.message()),
        JsonView::Object(e.body()).str_field("kind"@) == Some(e.kind()),
        e matches ErrorView::NeedsManualSolve { domain } ==> JsonView::Object(e.body()).str_field(
            "domain"@,
        ) == Some(domain) && JsonView::Object(e.body()).bool_field("needs_manual_solve"@) == Some(
            true,
        ),
{
    reveal_strlit("error");
    reveal_strlit("kind");
    reveal_strlit("domain");
    reveal_strlit("needs_manual_solve");
    assert("error"@[0] == 'e');
    assert("kind"@[0] == 'k');
    assert("domain"@[0] == 'd');
    assert("needs_manual_solve"@[0] == 'n');
    let ms = e.body();
    members_are_read_back(ms, 0);
    members_are_read_back(ms, 1);
    if e is NeedsManualSolve {
        members_are_read_back(ms, 2);
        members_are_read_back(ms, 3);
    }
}

/// What a caller got wrong, may not do or must wait for is theirs; what another
/// server, the browser or the egress got wrong is a bad gateway; the rest is ours.
pub proof fn statuses_say_whose_fault_it_is(e: ErrorView)
    ensures
        e is BadRequest || e is UnknownEgress ==> e.status() == 400,
        e is Blocked ==> e.status() == 403,
        e is Conflict ==> e.status() == 409,
        e is NeedsBrowser || e is NeedsManualSolve || e is NotResolved ==> e.status() == 422,
        e is Upstream || e is Browser || e is EgressUnavailable ==> e.status() == 502,
        e is Config || e is Io || e is Other ==> e.status() == 500,
{
}

} // verus!
