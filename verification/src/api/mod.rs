//! The HTTP surface: requests, answers and who may ask.

use vstd::prelude::*;

use crate::config::{ServerConfig, ServerView};
use crate::json::{text_value, Json, JsonView, Members};
use crate::text::{affixes_come_off, after_prefix, strip_prefix};
use crate::util::constant_time_eq;

pub mod blocklist;
pub mod dto;
pub mod flaresolverr;
pub mod native;
pub mod settings;

verus! {

/// The largest request body, in bytes.
pub const BODY_LIMIT: usize = 2_097_152;

/// The key a request brings: its own header, else a bearer token.
pub open spec fn provided_key(x_api_key: Option<Seq<char>>, authorization: Option<Seq<char>>) -> Option<
    Seq<char>,
> {
    match x_api_key {
        Some(k) => Some(k),
        None => match authorization {
            Some(a) => after_prefix(a, "Bearer "@),
            None => None,
        },
    }
}

/// Whether a request may pass: without a configured key any may.
pub open spec fn may_pass(
    server: ServerView,
    x_api_key: Option<Seq<char>>,
    authorization: Option<Seq<char>>,
) -> bool {
    match server.effective_api_key() {
        None => true,
        Some(key) => provided_key(x_api_key, authorization) == Some(key),
    }
}

/// Whether a request may pass.
pub fn require_api_key(
    server: &ServerConfig,
    x_api_key: &Option<String>,
    authorization: &Option<String>,
) -> (r: bool)
    ensures
        r == may_pass(server@, x_api_key.deep_view(), authorization.deep_view()),
{
    let key = match server.effective_api_key() {
        None => {
            return true;
        },
        Some(k) => k,
    };
    let provided: Option<String> = match x_api_key {
        Some(k) => Some(k.clone()),
        None => match authorization {
            Some(a) => strip_prefix(a.as_str(), "Bearer "),
            None => None,
        },
    };
    match provided {
        Some(p) => constant_time_eq(p.as_str(), key.as_str()),
        None => false,
    }
}

/// The status and the body of a refusal.
pub fn unauthorized() -> (r: (u16, Json))
    ensures
        r.0 == 401,
        r.1@ == JsonView::Object(
            seq![
                ("error"@, JsonView::Str("missing or invalid API key"@)),
                ("kind"@, JsonView::Str("unauthorized"@)),
            ],
        ),
{
    let m = Members::new().with("error", text_value("missing or invalid API key")).with(
        "kind",
        text_value("unauthorized"),
    );
    assert(m@ =~= seq![
        ("error"@, JsonView::Str("missing or invalid API key"@)),
        ("kind"@, JsonView::Str("unauthorized"@)),
    ]);
    (401, m.object())
}

/// Where a key is configured, a request without it is refused, whichever header
/// it uses.
pub proof fn a_configured_key_is_required(
    server: ServerView,
    x_api_key: Option<Seq<char>>,
    authorization: Option<Seq<char>>,
)
    requires
        may_pass(server, x_api_key, authorization),
        server.effective_api_key() is Some,
    ensures
        provided_key(x_api_key, authorization) == server.effective_api_key(),
        x_api_key is Some ==> x_api_key == server.effective_api_key(),
        x_api_key is None ==> authorization is Some,
{
}

/// The configured key lets a request pass in either header, and no other text
/// does.
pub proof fn the_right_key_passes(server: ServerView, key: Seq<char>, other: Seq<char>)
    requires
        server.effective_api_key() == Some(key),
    ensures
        may_pass(server, Some(key), None),
        may_pass(server, None, Some(seq!['B', 'e', 'a', 'r', 'e', 'r', ' '] + key)),
        other != key ==> !may_pass(server, Some(other), None) && !may_pass(
            server,
            None,
            Some(seq!['B', 'e', 'a', 'r', 'e', 'r', ' '] + other),
        ),
        !may_pass(server, None, None),
{
    reveal_strlit("Bearer ");
    let b = seq!['B', 'e', 'a', 'r', 'e', 'r', ' '];
    assert("Bearer "@ =~= b);
    affixes_come_off(b, key);
    affixes_come_off(b, other);
}

/// Without a configured key every request passes.
pub proof fn without_a_key_all_pass(
    server: ServerView,
    x_api_key: Option<Seq<char>>,
    authorization: Option<Seq<char>>,
)
    requires
        server.effective_api_key() is None,
    ensures
        may_pass(server, x_api_key, authorization),
{
}

} // verus!
