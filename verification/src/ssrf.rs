//! The address guard.
//!
//! Every request made on a caller's behalf goes through here first. An address
//! that is not globally routable is refused. Two tiers of "bad":
//!   * **hard-blocked**: `0.0.0.0` / `::`, `169.254.169.254`, multicast,
//!     broadcast, documentation, benchmarking, reserved. Refused regardless of
//!     configuration.
//!   * **private**: loopback, RFC1918, the rest of link-local, CGNAT, ULA.
//!     Refused unless `allow_private_targets` is set.
//!
//! Names are looked up outside this crate. Each guard says which name it needs
//! looked up, and decides on the addresses that came back.

use vstd::prelude::*;

use crate::egress::{Egress, EgressView};
use crate::error::{same_outcome, CobwebError, ErrorView};
use crate::ip::{ip_of, IpAddr, IpView};
use crate::text::{
    affixes_come_off, after_prefix, before_suffix, cat, cat3, ends_with, lower, lower_char,
    same, starts_with, strip_prefix, strip_suffix, to_lower,
};
use crate::settings::{DnsBackend, DnsModel};
use crate::weburl::{Url, UrlView};

verus! {

/// Why an IPv4 address is refused whatever the configuration says.
pub open spec fn v4_hard(a: u8, b: u8, c: u8, d: u8) -> Option<Seq<char>> {
    if a == 0 && b == 0 && c == 0 && d == 0 {
        Some("unspecified (0.0.0.0)"@)
    } else if a == 0 {
        Some("this-network (0.0.0.0/8)"@)
    } else if a == 169 && b == 254 && c == 169 && d == 254 {
        Some("cloud metadata (169.254.169.254)"@)
    } else if a == 255 && b == 255 && c == 255 && d == 255 {
        Some("broadcast"@)
    } else if (a == 192 && b == 0 && c == 2) || (a == 198 && b == 51 && c == 100) || (a == 203 && b
        == 0 && c == 113) {
        Some("documentation"@)
    } else if 224 <= a <= 239 {
        Some("multicast"@)
    } else if a == 192 && b == 0 && c == 0 {
        Some("IETF protocol assignments (192.0.0.0/24)"@)
    } else if a == 198 && 18 <= b <= 19 {
        Some("benchmarking (198.18.0.0/15)"@)
    } else if a >= 240 {
        Some("reserved (240.0.0.0/4)"@)
    } else {
        None
    }
}

/// Why an IPv4 address is refused unless private targets are allowed.
pub open spec fn v4_private(a: u8, b: u8, c: u8, d: u8) -> Option<Seq<char>> {
    if a == 127 {
        Some("loopback (127.0.0.0/8)"@)
    } else if a == 10 || (a == 172 && 16 <= b <= 31) || (a == 192 && b == 168) {
        Some("private (RFC1918)"@)
    } else if a == 169 && b == 254 {
        Some("link-local (169.254.0.0/16)"@)
    } else if a == 100 && 64 <= b <= 127 {
        Some("carrier-grade NAT (100.64.0.0/10)"@)
    } else {
        None
    }
}

pub open spec fn v6_hard(s: Seq<u16>) -> Option<Seq<char>> {
    if s[0] == 0 && s[1] == 0 && s[2] == 0 && s[3] == 0 && s[4] == 0 && s[5] == 0 && s[6] == 0
        && s[7] == 0 {
        Some("unspecified (::)"@)
    } else if s[0] >= 0xff00 {
        Some("multicast"@)
    } else if s[0] == 0x2001 && s[1] == 0x0db8 {
        Some("documentation (2001:db8::/32)"@)
    } else {
        None
    }
}

pub open spec fn v6_private(s: Seq<u16>) -> Option<Seq<char>> {
    if s[0] == 0 && s[1] == 0 && s[2] == 0 && s[3] == 0 && s[4] == 0 && s[5] == 0 && s[6] == 0
        && s[7] == 1 {
        Some("loopback (::1)"@)
    } else if 0xfc00 <= s[0] <= 0xfdff {
        Some("unique-local (fc00::/7)"@)
    } else if 0xfe80 <= s[0] <= 0xfebf {
        Some("link-local (fe80::/10)"@)
    } else {
        None
    }
}

/// Whether an IPv6 address carries an IPv4 address in its last two groups:
/// `::ffff:a.b.c.d`, the NAT64 prefix `64:ff9b::/96`, or `::a.b.c.d` other than
/// `::` and `::1`.
pub open spec fn carries_v4(s: Seq<u16>) -> bool {
    let zero5 = s[0] == 0 && s[1] == 0 && s[2] == 0 && s[3] == 0 && s[4] == 0;
    let mapped = zero5 && s[5] == 0xffff;
    let nat64 = s[0] == 0x0064 && s[1] == 0xff9b && s[2] == 0 && s[3] == 0 && s[4] == 0 && s[5]
        == 0;
    let compatible = zero5 && s[5] == 0 && (s[6] != 0 || s[7] > 1);
    mapped || nat64 || compatible
}

/// The class of an IPv4 address: why it is refused, and whether always.
pub open spec fn v4_class(a: u8, b: u8, c: u8, d: u8) -> Option<(Seq<char>, bool)> {
    match v4_hard(a, b, c, d) {
        Some(r) => Some((r, true)),
        None => match v4_private(a, b, c, d) {
            Some(r) => Some((r, false)),
            None => None,
        },
    }
}

/// The class of an address: why it is refused, and whether always.
pub open spec fn class_of(ip: IpView) -> Option<(Seq<char>, bool)> {
    match ip {
        IpView::V4(a, b, c, d) => v4_class(a, b, c, d),
        IpView::V6(s) => if carries_v4(s) {
            v4_class((s[6] / 256) as u8, (s[6] % 256) as u8, (s[7] / 256) as u8, (s[7] % 256) as u8)
        } else {
            match v6_hard(s) {
                Some(r) => Some((r, true)),
                None => match v6_private(s) {
                    Some(r) => Some((r, false)),
                    None => None,
                },
            }
        },
    }
}

/// Why an address must be refused, given the configuration.
pub open spec fn refusal(ip: IpView, allow_private: bool) -> Option<Seq<char>> {
    match class_of(ip) {
        Some((reason, hard)) => if hard || !allow_private {
            Some(reason)
        } else {
            None
        },
        None => None,
    }
}

fn ipv4_hard_reason(a: u8, b: u8, c: u8, d: u8) -> (r: Option<&'static str>)
    ensures
        r.deep_view() == v4_hard(a, b, c, d),
{
    if a == 0 && b == 0 && c == 0 && d == 0 {
        return Some("unspecified (0.0.0.0)");
    }
    if a == 0 {
        return Some("this-network (0.0.0.0/8)");
    }
    if a == 169 && b == 254 && c == 169 && d == 254 {
        return Some("cloud metadata (169.254.169.254)");
    }
    if a == 255 && b == 255 && c == 255 && d == 255 {
        return Some("broadcast");
    }
    if (a == 192 && b == 0 && c == 2) || (a == 198 && b == 51 && c == 100) || (a == 203 && b == 0
        && c == 113) {
        return Some("documentation");
    }
    if 224 <= a && a <= 239 {
        return Some("multicast");
    }
    if a == 192 && b == 0 && c == 0 {
        return Some("IETF protocol assignments (192.0.0.0/24)");
    }
    if a == 198 && 18 <= b && b <= 19 {
        return Some("benchmarking (198.18.0.0/15)");
    }
    if a >= 240 {
        return Some("reserved (240.0.0.0/4)");
    }
    None
}

fn ipv4_private_reason(a: u8, b: u8, c: u8, d: u8) -> (r: Option<&'static str>)
    ensures
        r.deep_view() == v4_private(a, b, c, d),
{
    if a == 127 {
        return Some("loopback (127.0.0.0/8)");
    }
    if a == 10 || (a == 172 && 16 <= b && b <= 31) || (a == 192 && b == 168) {
        return Some("private (RFC1918)");
    }
    if a == 169 && b == 254 {
        return Some("link-local (169.254.0.0/16)");
    }
    if a == 100 && 64 <= b && b <= 127 {
        return Some("carrier-grade NAT (100.64.0.0/10)");
    }
    None
}

fn classify_v4(a: u8, b: u8, c: u8, d: u8) -> (r: Option<(&'static str, bool)>)
    ensures
        r.deep_view() == v4_class(a, b, c, d),
{
    match ipv4_hard_reason(a, b, c, d) {
        Some(r) => Some((r, true)),
        None => match ipv4_private_reason(a, b, c, d) {
            Some(r) => Some((r, false)),
            None => None,
        },
    }
}

fn classify_v6(s: &[u16; 8]) -> (r: Option<(&'static str, bool)>)
    ensures
        r.deep_view() == class_of(IpView::V6(s@)),
{
    let zero5 = s[0] == 0 && s[1] == 0 && s[2] == 0 && s[3] == 0 && s[4] == 0;
    let mapped = zero5 && s[5] == 0xffff;
    let nat64 = s[0] == 0x0064 && s[1] == 0xff9b && s[2] == 0 && s[3] == 0 && s[4] == 0 && s[5]
        == 0;
    let compatible = zero5 && s[5] == 0 && (s[6] != 0 || s[7] > 1);
    if mapped || nat64 || compatible {
        return classify_v4(
            (s[6] / 256) as u8,
            (s[6] % 256) as u8,
            (s[7] / 256) as u8,
            (s[7] % 256) as u8,
        );
    }
    if zero5 && s[5] == 0 && s[6] == 0 && s[7] == 0 {
        return Some(("unspecified (::)", true));
    }
    if s[0] >= 0xff00 {
        return Some(("multicast", true));
    }
    if s[0] == 0x2001 && s[1] == 0x0db8 {
        return Some(("documentation (2001:db8::/32)", true));
    }
    if zero5 && s[5] == 0 && s[6] == 0 && s[7] == 1 {
        return Some(("loopback (::1)", false));
    }
    if 0xfc00 <= s[0] && s[0] <= 0xfdff {
        return Some(("unique-local (fc00::/7)", false));
    }
    if 0xfe80 <= s[0] && s[0] <= 0xfebf {
        return Some(("link-local (fe80::/10)", false));
    }
    None
}

/// Why an address should be refused, and whether even with private targets
/// allowed.
fn classify(ip: &IpAddr) -> (r: Option<(&'static str, bool)>)
    ensures
        r.deep_view() == class_of(ip@),
{
    match ip {
        IpAddr::V4(a, b, c, d) => classify_v4(*a, *b, *c, *d),
        IpAddr::V6(s) => classify_v6(s),
    }
}

/// `Some(reason)` if this address must be refused given `allow_private`.
pub fn block_reason(ip: &IpAddr, allow_private: bool) -> (r: Option<&'static str>)
    ensures
        r.deep_view() == refusal(ip@, allow_private),
{
    match classify(ip) {
        Some((reason, hard)) => if hard || !allow_private {
            Some(reason)
        } else {
            None
        },
        None => None,
    }
}

/// The host without the brackets of an IPv6 literal.
pub open spec fn bare_host(host: Seq<char>) -> Seq<char> {
    match after_prefix(host, "["@) {
        Some(s) => match before_suffix(s, "]"@) {
            Some(t) => t,
            None => host,
        },
        None => host,
    }
}

/// The host without the brackets of an IPv6 literal. A bracketed address does
/// not parse as an address.
pub fn strip_brackets(host: &str) -> (r: String)
    ensures
        r@ == bare_host(host@),
{
    match strip_prefix(host, "[") {
        Some(s) => match strip_suffix(s.as_str(), "]") {
            Some(t) => t,
            None => host.to_owned(),
        },
        None => host.to_owned(),
    }
}

/// `localhost` or a name below it, in any case.
pub open spec fn is_localhost(host: Seq<char>) -> bool {
    lower(host) == "localhost"@ || ".localhost"@.is_suffix_of(lower(host))
}

pub fn names_localhost(host: &str) -> (r: bool)
    ensures
        r == is_localhost(host@),
{
    let l = to_lower(host);
    same(l.as_str(), "localhost") || ends_with(l.as_str(), ".localhost")
}

/// The address a host is a literal of.
pub open spec fn literal(host: Seq<char>) -> Option<IpView> {
    ip_of(bare_host(host))
}

/// Why the first refused address of a list is refused.
pub open spec fn first_refusal(addrs: Seq<IpView>, allow_private: bool) -> Option<Seq<char>>
    decreases addrs.len(),
{
    if addrs.len() == 0 {
        None
    } else if refusal(addrs[0], allow_private) is Some {
        refusal(addrs[0], allow_private)
    } else {
        first_refusal(addrs.skip(1), allow_private)
    }
}

pub fn first_block_reason(addrs: &Vec<IpAddr>, allow_private: bool) -> (r: Option<&'static str>)
    ensures
        r.deep_view() == first_refusal(addrs.deep_view(), allow_private),
{
    let ghost all = addrs.deep_view();
    assert(all.skip(0) =~= all);
    for i in 0..addrs.len()
        invariant
            all == addrs.deep_view(),
            first_refusal(all.skip(i as int), allow_private) == first_refusal(all, allow_private),
    {
        assert(all.skip(i as int)[0] == addrs@[i as int]@);
        assert(all.skip(i as int).skip(1) =~= all.skip(i + 1));
        match block_reason(&addrs[i], allow_private) {
            Some(r) => {
                return Some(r);
            },
            None => {},
        }
    }
    assert(all.skip(addrs@.len() as int) =~= seq![]);
    None
}

/// The text of a refusal.
pub open spec fn refused_text(host: Seq<char>, reason: Seq<char>) -> Seq<char> {
    "refusing to fetch `"@ + host + "`: resolves to a "@ + reason + " address"@
}

fn blocked(host: &str, reason: &str) -> (r: CobwebError)
    ensures
        r@ == ErrorView::Blocked(refused_text(host@, reason@)),
{
    let m = cat3(
        cat3("refusing to fetch `", host, "`: resolves to a ").as_str(),
        reason,
        " address",
    );
    CobwebError::Blocked(m)
}

/// The host and port that must be looked up before a URL can be judged: a name,
/// on the direct egress.
pub open spec fn url_lookup(
    u: UrlView,
    is_direct: bool,
    allow_private: bool,
) -> Option<(Seq<char>, u16)> {
    if (u.scheme == "http"@ || u.scheme == "https"@) && is_direct {
        match u.host {
            Some(h) => if literal(h) is Some || (!allow_private && is_localhost(h)) {
                None
            } else {
                Some((h, port_or_zero(u.port)))
            },
            None => None,
        }
    } else {
        None
    }
}

pub open spec fn port_or_zero(p: Option<u16>) -> u16 {
    match p {
        Some(n) => n,
        None => 0,
    }
}

/// What the guard says of a target URL, given the addresses its host was looked
/// up to (`None` where the lookup failed or was not needed).
pub open spec fn url_verdict(
    u: UrlView,
    is_direct: bool,
    allow_private: bool,
    addrs: Option<Seq<IpView>>,
) -> Result<(), ErrorView> {
    if u.scheme != "http"@ && u.scheme != "https"@ {
        Err(
            ErrorView::Blocked(
                "unsupported URL scheme `"@ + u.scheme + "` (only http/https)"@,
            ),
        )
    } else {
        match u.host {
            None => Err(ErrorView::BadRequest("URL has no host: "@ + u.text)),
            Some(h) => if !allow_private && is_localhost(h) {
                Err(ErrorView::Blocked("refusing to fetch `"@ + h + "`: localhost"@))
            } else {
                host_verdict(h, is_direct, allow_private, addrs)
            },
        }
    }
}

/// What the guard says of a host that is no local name.
pub open spec fn host_verdict(
    h: Seq<char>,
    resolve: bool,
    allow_private: bool,
    addrs: Option<Seq<IpView>>,
) -> Result<(), ErrorView> {
    let found = match literal(h) {
        Some(ip) => refusal(ip, allow_private),
        None => match addrs {
            Some(list) => if resolve {
                first_refusal(list, allow_private)
            } else {
                None
            },
            None => None,
        },
    };
    match found {
        Some(reason) => Err(ErrorView::Blocked(refused_text(h, reason))),
        None => Ok(()),
    }
}

/// The host and port to look up before `guard_url` can decide.
pub fn guard_url_lookup(url: &Url, is_direct: bool, allow_private: bool) -> (r: Option<
    (String, u16),
>)
    ensures
        r.deep_view() == url_lookup(url@, is_direct, allow_private),
{
    let web = same(url.scheme.as_str(), "http") || same(url.scheme.as_str(), "https");
    if !web || !is_direct {
        return None;
    }
    match &url.host {
        Some(h) => {
            if !allow_private && names_localhost(h.as_str()) {
                return None;
            }
            let bare = strip_brackets(h.as_str());
            match IpAddr::parse(bare.as_str()) {
                Some(_) => None,
                None => {
                    let port: u16 = match url.port {
                        Some(n) => n,
                        None => 0,
                    };
                    Some((h.clone(), port))
                },
            }
        },
        None => None,
    }
}

fn guard_host(
    host: &str,
    resolve: bool,
    allow_private: bool,
    addrs: &Option<Vec<IpAddr>>,
) -> (r: Result<(), CobwebError>)
    ensures
        same_outcome(r, host_verdict(host@, resolve, allow_private, addrs.deep_view())),
{
    let bare = strip_brackets(host);
    let found = match IpAddr::parse(bare.as_str()) {
        Some(ip) => block_reason(&ip, allow_private),
        None => match addrs {
            Some(list) => if resolve {
                first_block_reason(list, allow_private)
            } else {
                None
            },
            None => None,
        },
    };
    match found {
        Some(reason) => Err(blocked(host, reason)),
        None => Ok(()),
    }
}

/// Guard a target URL before fetching it.
///
/// * `is_direct`: whether the chosen egress is `direct`. Looked-up addresses
///   only count for it; a proxied egress resolves at the proxy.
/// * `allow_private`: `[server].allow_private_targets`.
/// * `addrs`: what the name asked for by `guard_url_lookup` resolved to.
///
/// Always enforced: the scheme must be http or https, and a literal non-global
/// address or `localhost` in the URL is refused.
pub fn guard_url(
    url: &Url,
    is_direct: bool,
    allow_private: bool,
    addrs: &Option<Vec<IpAddr>>,
) -> (r: Result<(), CobwebError>)
    ensures
        same_outcome(r, url_verdict(url@, is_direct, allow_private, addrs.deep_view())),
{
    if !same(url.scheme.as_str(), "http") && !same(url.scheme.as_str(), "https") {
        return Err(
            CobwebError::Blocked(
                cat3("unsupported URL scheme `", url.scheme.as_str(), "` (only http/https)"),
            ),
        );
    }
    match &url.host {
        None => Err(CobwebError::BadRequest(cat("URL has no host: ", url.text.as_str()))),
        Some(h) => {
            if !allow_private && names_localhost(h.as_str()) {
                return Err(
                    CobwebError::Blocked(cat3("refusing to fetch `", h.as_str(), "`: localhost")),
                );
            }
            guard_host(h.as_str(), is_direct, allow_private, addrs)
        },
    }
}

/// Whether an egress came from the request itself rather than from the
/// configuration.
pub open spec fn is_raw(e: EgressView) -> bool {
    "raw:"@.is_prefix_of(e.name)
}

/// The proxy host and port that must be looked up before an egress can be judged.
pub open spec fn egress_lookup(e: EgressView, allow_private: bool) -> Option<(Seq<char>, u16)> {
    match e.proxy {
        Some(p) => match p.host {
            Some(h) => if is_raw(e) && literal(h) is None && (allow_private || !is_localhost(h)) {
                Some((h, port_or_zero(p.port)))
            } else {
                None
            },
            None => None,
        },
        None => None,
    }
}

/// What the guard says of an egress: a configured profile is trusted; the proxy
/// host of one that the request supplied is judged like a direct target.
pub open spec fn egress_verdict(
    e: EgressView,
    allow_private: bool,
    addrs: Option<Seq<IpView>>,
) -> Result<(), ErrorView> {
    match e.proxy {
        Some(p) => if !is_raw(e) {
            Ok(())
        } else {
            match p.host {
                None => Err(ErrorView::BadRequest("proxy_url has no host"@)),
                Some(h) => if !allow_private && is_localhost(h) {
                    Err(ErrorView::Blocked(refused_text(h, "localhost"@)))
                } else {
                    host_verdict(h, true, allow_private, addrs)
                },
            }
        },
        None => Ok(()),
    }
}

/// The proxy host and port to look up before `guard_egress` can decide.
pub fn guard_egress_lookup(egress: &Egress, allow_private: bool) -> (r: Option<(String, u16)>)
    ensures
        r.deep_view() == egress_lookup(egress@, allow_private),
{
    if !starts_with(egress.name.as_str(), "raw:") {
        return None;
    }
    match &egress.proxy {
        Some(p) => match &p.host {
            Some(h) => {
                if !allow_private && names_localhost(h.as_str()) {
                    return None;
                }
                let bare = strip_brackets(h.as_str());
                match IpAddr::parse(bare.as_str()) {
                    Some(_) => None,
                    None => {
                        let port: u16 = match p.port {
                            Some(n) => n,
                            None => 0,
                        };
                        Some((h.clone(), port))
                    },
                }
            },
            None => None,
        },
        None => None,
    }
}

/// Vet the proxy host of a caller-supplied egress before using it.
pub fn guard_egress(egress: &Egress, allow_private: bool, addrs: &Option<Vec<IpAddr>>) -> (r:
    Result<(), CobwebError>)
    ensures
        same_outcome(r, egress_verdict(egress@, allow_private, addrs.deep_view())),
{
    if !starts_with(egress.name.as_str(), "raw:") {
        return Ok(());
    }
    match &egress.proxy {
        Some(p) => match &p.host {
            None => Err(CobwebError::BadRequest("proxy_url has no host".to_owned())),
            Some(h) => {
                if !allow_private && names_localhost(h.as_str()) {
                    return Err(blocked(h.as_str(), "localhost"));
                }
                guard_host(h.as_str(), true, allow_private, addrs)
            },
        },
        None => Ok(()),
    }
}

/// Redirect hops that are followed at most.
pub const MAX_REDIRECTS: usize = 10;

/// Why a redirect to a host must be refused. Names are left to the resolver.
pub open spec fn redirect_refusal(host: Seq<char>, allow_private: bool) -> Option<Seq<char>> {
    match literal(host) {
        Some(ip) => refusal(ip, allow_private),
        None => if !allow_private && is_localhost(bare_host(host)) {
            Some("loopback (localhost)"@)
        } else {
            None
        },
    }
}

/// Why a redirect to `host` must be refused, if it must.
pub fn redirect_block_reason(host: &str, allow_private: bool) -> (r: Option<&'static str>)
    ensures
        r.deep_view() == redirect_refusal(host@, allow_private),
{
    let bare = strip_brackets(host);
    match IpAddr::parse(bare.as_str()) {
        Some(ip) => block_reason(&ip, allow_private),
        None => if !allow_private && names_localhost(bare.as_str()) {
            Some("loopback (localhost)")
        } else {
            None
        },
    }
}

/// Why a redirect hop is not followed. `previous` counts the requests made so
/// far, the first one included.
pub open spec fn hop_refusal(previous: nat, host: Seq<char>, allow_private: bool) -> Option<
    Seq<char>,
> {
    if previous > MAX_REDIRECTS {
        Some("too many redirects"@)
    } else {
        match redirect_refusal(host, allow_private) {
            Some(reason) => Some(
                "ssrf: refusing redirect to `"@ + host + "`: "@ + reason + " address"@,
            ),
            None => None,
        }
    }
}

/// The redirect policy: at most `MAX_REDIRECTS` hops, each hop's host vetted.
/// `None` follows, `Some` is the error.
pub fn redirect_policy(previous: usize, host: &str, allow_private: bool) -> (r: Option<String>)
    ensures
        r.deep_view() == hop_refusal(previous as nat, host@, allow_private),
{
    if previous > MAX_REDIRECTS {
        return Some("too many redirects".to_owned());
    }
    match redirect_block_reason(host, allow_private) {
        Some(reason) => Some(
            cat3(
                cat3("ssrf: refusing redirect to `", host, "`: ").as_str(),
                reason,
                " address",
            ),
        ),
        None => None,
    }
}

/// What the connect-time resolver says of the addresses of a name.
pub open spec fn resolver_refusal(host: Seq<char>, addrs: Seq<IpView>, allow_private: bool) -> Option<
    Seq<char>,
> {
    match first_refusal(addrs, allow_private) {
        Some(reason) => Some(
            "ssrf: refusing `"@ + host + "`: resolves to a "@ + reason + " address"@,
        ),
        None => None,
    }
}

/// The check that runs on every address a connection is about to use, on every
/// redirect hop as well. `None` lets the addresses through.
pub fn vet_resolved(host: &str, addrs: &Vec<IpAddr>, allow_private: bool) -> (r: Option<String>)
    ensures
        r.deep_view() == resolver_refusal(host@, addrs.deep_view(), allow_private),
{
    match first_block_reason(addrs, allow_private) {
        Some(reason) => Some(
            cat3(
                cat3("ssrf: refusing `", host, "`: resolves to a ").as_str(),
                reason,
                " address",
            ),
        ),
        None => None,
    }
}

/// The addresses of a name: those the configured servers gave, else those the
/// system gave. `custom` is what the servers answered, if they did.
pub open spec fn addresses(
    dns: DnsModel,
    custom: Option<Seq<IpView>>,
    system: Result<Seq<IpView>, Seq<char>>,
) -> Result<Seq<IpView>, Seq<char>> {
    match (dns, custom) {
        (DnsModel::Custom(_), Some(a)) => Ok(a),
        _ => system,
    }
}

/// The addresses a connection to a name may use, or why none.
pub open spec fn guarded(
    host: Seq<char>,
    found: Result<Seq<IpView>, Seq<char>>,
    allow_private: bool,
) -> Result<Seq<IpView>, Seq<char>> {
    match found {
        Ok(a) => match resolver_refusal(host, a, allow_private) {
            Some(reason) => Err(reason),
            None => Ok(a),
        },
        Err(e) => Err(e),
    }
}

/// Looks names up for outbound connections, and refuses what the guard refuses.
pub struct GuardedResolver {
    allow_private: bool,
}

impl GuardedResolver {
    /// Whether private addresses may be connected to.
    pub closed spec fn allows_private(&self) -> bool {
        self.allow_private
    }

    pub fn new(allow_private: bool) -> (r: GuardedResolver)
        ensures
            r.allows_private() == allow_private,
    {
        GuardedResolver { allow_private }
    }

    /// Whether the system has to be asked, given what the configured servers
    /// answered.
    pub fn needs_system(&self, dns: &DnsBackend, custom: &Option<Vec<IpAddr>>) -> (r: bool)
        ensures
            r == (dns@ is System || custom is None),
    {
        match dns {
            DnsBackend::System => true,
            DnsBackend::Custom(_) => custom.is_none(),
        }
    }

    /// The addresses a connection to `host` may use. What the system answered
    /// counts only where it has to be asked.
    pub fn resolve(
        &self,
        host: &str,
        dns: &DnsBackend,
        custom: Option<Vec<IpAddr>>,
        system: Result<Vec<IpAddr>, String>,
    ) -> (r: Result<Vec<IpAddr>, String>)
        ensures
            match guarded(
                host@,
                addresses(
                    dns@,
                    custom.deep_view(),
                    match system {
                        Ok(a) => Ok(a.deep_view()),
                        Err(e) => Err(e@),
                    },
                ),
                self.allows_private(),
            ) {
                Ok(a) => r matches Ok(v) && v.deep_view() == a,
                Err(m) => r matches Err(e) && e@ == m,
            },
    {
        let found: Result<Vec<IpAddr>, String> = match (dns, custom) {
            (DnsBackend::Custom(_), Some(a)) => Ok(a),
            _ => system,
        };
        match found {
            Ok(a) => match vet_resolved(host, &a, self.allow_private) {
                Some(reason) => Err(reason),
                None => Ok(a),
            },
            Err(e) => Err(e),
        }
    }
}

// ---------------------------------------------------------------------------
// Laws
// ---------------------------------------------------------------------------

/// No connection is made to an address that the guard refuses, whoever resolved
/// the name.
pub proof fn connections_use_vetted_addresses(
    host: Seq<char>,
    found: Result<Seq<IpView>, Seq<char>>,
    allow_private: bool,
)
    ensures
        guarded(host, found, allow_private) matches Ok(a) ==> first_refusal(a, allow_private) is None,
{
}

/// Allowing private targets only ever lifts refusals: what is refused with it
/// is refused without it, for the same reason.
pub proof fn allowing_private_only_relaxes(ip: IpView)
    ensures
        refusal(ip, true) is Some ==> refusal(ip, false) == refusal(ip, true),
{
}

/// A hard-blocked address is refused whatever the configuration says.
pub proof fn hard_blocks_ignore_configuration(ip: IpView, allow_private: bool)
    requires
        class_of(ip) is Some,
        class_of(ip)->Some_0.1,
    ensures
        refusal(ip, allow_private) == Some(class_of(ip)->Some_0.0),
{
}

/// The cloud metadata address is always refused, also inside an IPv6 address.
pub proof fn metadata_address_is_always_refused(s: Seq<u16>, allow_private: bool)
    requires
        s.len() == 8,
        carries_v4(s),
        s[6] == 0xa9fe,
        s[7] == 0xa9fe,
    ensures
        refusal(IpView::V4(169, 254, 169, 254), allow_private) is Some,
        refusal(IpView::V6(s), allow_private) is Some,
{
}

/// An IPv6 address that carries an IPv4 address is judged as that address.
pub proof fn embedded_v4_is_judged_as_v4(s: Seq<u16>, allow_private: bool)
    requires
        s.len() == 8,
        carries_v4(s),
    ensures
        refusal(IpView::V6(s), allow_private) == refusal(
            IpView::V4(
                (s[6] / 256) as u8,
                (s[6] % 256) as u8,
                (s[7] / 256) as u8,
                (s[7] % 256) as u8,
            ),
            allow_private,
        ),
{
}

/// A refused address literal in a URL is refused on every egress, whatever was
/// looked up.
pub proof fn literals_are_vetted_on_any_egress(
    u: UrlView,
    ip: IpView,
    is_direct: bool,
    allow_private: bool,
    addrs: Option<Seq<IpView>>,
)
    requires
        u.host is Some,
        literal(u.host->Some_0) == Some(ip),
        refusal(ip, allow_private) is Some,
    ensures
        url_verdict(u, is_direct, allow_private, addrs) is Err,
{
}

/// On the direct egress a name is refused as soon as one of the addresses it
/// resolves to is.
pub proof fn one_bad_address_refuses_a_name(
    u: UrlView,
    allow_private: bool,
    addrs: Seq<IpView>,
    i: int,
)
    requires
        u.host is Some,
        literal(u.host->Some_0) is None,
        0 <= i < addrs.len(),
        refusal(addrs[i], allow_private) is Some,
    ensures
        url_verdict(u, true, allow_private, Some(addrs)) is Err,
{
    lemma_first_refusal(addrs, allow_private, i);
}

proof fn lemma_first_refusal(addrs: Seq<IpView>, allow_private: bool, i: int)
    requires
        0 <= i < addrs.len(),
        refusal(addrs[i], allow_private) is Some,
    ensures
        first_refusal(addrs, allow_private) is Some,
    decreases addrs.len(),
{
    if i > 0 && refusal(addrs[0], allow_private) is None {
        assert(addrs.skip(1)[i - 1] == addrs[i]);
        lemma_first_refusal(addrs.skip(1), allow_private, i - 1);
    }
}

/// Where no lookup is asked for, the verdict does not depend on one.
pub proof fn verdict_needs_only_the_lookup_asked_for(
    u: UrlView,
    is_direct: bool,
    allow_private: bool,
    a: Option<Seq<IpView>>,
    b: Option<Seq<IpView>>,
)
    requires
        url_lookup(u, is_direct, allow_private) is None,
    ensures
        url_verdict(u, is_direct, allow_private, a) == url_verdict(u, is_direct, allow_private, b),
{
}

/// A profile from the configuration is trusted, even with a private proxy.
pub proof fn configured_profiles_are_trusted(
    e: EgressView,
    allow_private: bool,
    addrs: Option<Seq<IpView>>,
)
    requires
        !is_raw(e),
    ensures
        egress_verdict(e, allow_private, addrs) is Ok,
        egress_lookup(e, allow_private) is None,
{
}

/// A redirect hop to a refused address literal is not followed.
pub proof fn redirect_hops_are_vetted(previous: nat, host: Seq<char>, ip: IpView, allow_private: bool)
    requires
        literal(host) == Some(ip),
        refusal(ip, allow_private) is Some,
    ensures
        hop_refusal(previous, host, allow_private) is Some,
{
}

/// A local name is refused on every egress unless private targets are allowed.
pub proof fn local_names_are_refused(
    u: UrlView,
    host: Seq<char>,
    is_direct: bool,
    addrs: Option<Seq<IpView>>,
)
    requires
        u.host == Some(host),
        is_localhost(host),
    ensures
        url_verdict(u, is_direct, false, addrs) is Err,
{
}

/// Only web pages with a host get past the guard.
pub proof fn only_web_targets_pass(
    u: UrlView,
    is_direct: bool,
    allow_private: bool,
    addrs: Option<Seq<IpView>>,
)
    requires
        url_verdict(u, is_direct, allow_private, addrs) is Ok,
    ensures
        u.scheme == "http"@ || u.scheme == "https"@,
        u.host is Some,
{
}

/// Loopback, private, link-local and carrier addresses are refused, and let
/// through only where private targets are allowed.
pub proof fn private_ranges_are_refused(a: u8, b: u8, c: u8, d: u8)
    requires
        a == 127 || a == 10 || (a == 172 && 16 <= b < 32) || (a == 192 && b == 168) || (a == 169
            && b == 254) || (a == 100 && 64 <= b < 128),
    ensures
        refusal(IpView::V4(a, b, c, d), false) is Some,
        !(a == 169 && c == 169 && d == 254) ==> refusal(IpView::V4(a, b, c, d), true) is None,
{
}

/// Addresses that no server on the Internet has are refused whatever is
/// configured.
pub proof fn special_ranges_are_always_refused(a: u8, b: u8, c: u8, d: u8, allow_private: bool)
    requires
        a == 0 || a >= 224 || (a == 169 && b == 254 && c == 169 && d == 254) || (a == 192 && b == 0
            && (c == 0 || c == 2)) || (a == 198 && b == 51 && c == 100) || (a == 203 && b == 0 && c
            == 113) || (a == 198 && (b == 18 || b == 19)),
    ensures
        refusal(IpView::V4(a, b, c, d), allow_private) is Some,
{
}

/// Every other address is let through.
pub proof fn public_addresses_pass(a: u8, b: u8, c: u8, d: u8, allow_private: bool)
    requires
        0 < a < 224,
        a != 10 && a != 127,
        a == 100 ==> !(64 <= b < 128),
        a == 169 ==> b != 254,
        a == 172 ==> !(16 <= b < 32),
        a == 192 ==> b != 168 && !(b == 0 && (c == 0 || c == 2)),
        a == 198 ==> b != 18 && b != 19 && !(b == 51 && c == 100),
        a == 203 ==> !(b == 0 && c == 113),
    ensures
        refusal(IpView::V4(a, b, c, d), allow_private) is None,
{
}

/// Of the IPv6 addresses the loopback, the unique-local and the link-local ones
/// are private; the unspecified, multicast and documentation ones are always
/// refused; any other that carries no IPv4 address is let through.
pub proof fn v6_ranges_are_told_apart(s: Seq<u16>, allow_private: bool)
    requires
        s.len() == 8,
    ensures
        ({
            let ip = IpView::V6(s);
            let zero7 = s[0] == 0 && s[1] == 0 && s[2] == 0 && s[3] == 0 && s[4] == 0 && s[5] == 0
                && s[6] == 0;
            let carrier = (s[0] == 0 && s[1] == 0 && s[2] == 0 && s[3] == 0 && s[4] == 0) || (s[0]
                == 0x64 && s[1] == 0xff9b);
            &&& zero7 && s[7] == 1 || 0xfc00 <= s[0] < 0xfe00 || 0xfe80 <= s[0] < 0xfec0
                ==> refusal(ip, false) is Some && refusal(ip, true) is None
            &&& zero7 && s[7] == 0 || s[0] >= 0xff00 || (s[0] == 0x2001 && s[1] == 0xdb8)
                ==> refusal(ip, allow_private) is Some
            &&& !carrier && !(0xfc00 <= s[0] < 0xfe00) && !(0xfe80 <= s[0] < 0xfec0) && s[0]
                < 0xff00 && !(s[0] == 0x2001 && s[1] == 0xdb8) ==> refusal(ip, allow_private) is None
        }),
{
}

/// An IPv4 address is judged the same behind each of the IPv6 prefixes that carry
/// one.
pub proof fn carried_addresses_are_judged(a: u8, b: u8, c: u8, d: u8, allow_private: bool)
    ensures
        ({
            let hi = (a * 256 + b) as u16;
            let lo = (c * 256 + d) as u16;
            let want = refusal(IpView::V4(a, b, c, d), allow_private);
            &&& refusal(
                IpView::V6(seq![0u16, 0u16, 0u16, 0u16, 0u16, 0xffffu16, hi, lo]),
                allow_private,
            ) == want
            &&& refusal(
                IpView::V6(seq![0x64u16, 0xff9bu16, 0u16, 0u16, 0u16, 0u16, hi, lo]),
                allow_private,
            ) == want
            &&& a > 0 ==> refusal(
                IpView::V6(seq![0u16, 0u16, 0u16, 0u16, 0u16, 0u16, hi, lo]),
                allow_private,
            ) == want
        }),
{
    let hi = (a * 256 + b) as u16;
    let lo = (c * 256 + d) as u16;
    assert(hi / 256 == a && hi % 256 == b);
    assert(lo / 256 == c && lo % 256 == d);
}

/// A list of addresses is refused exactly where one of them is, for the reason of
/// the first.
pub proof fn the_first_refused_address_gives_the_reason(
    addrs: Seq<IpView>,
    allow_private: bool,
    i: int,
)
    ensures
        (forall|k: int|
            0 <= k < addrs.len() ==> refusal(#[trigger] addrs[k], allow_private) is None)
            ==> first_refusal(addrs, allow_private) is None,
        0 <= i < addrs.len() && refusal(addrs[i], allow_private) is Some && (forall|k: int|
            0 <= k < i ==> refusal(#[trigger] addrs[k], allow_private) is None) ==> first_refusal(
            addrs,
            allow_private,
        ) == refusal(addrs[i], allow_private),
    decreases addrs.len(),
{
    if addrs.len() > 0 {
        let rest = addrs.skip(1);
        the_first_refused_address_gives_the_reason(rest, allow_private, i - 1);
        assert forall|k: int| 0 <= k < rest.len() implies #[trigger] rest[k] == addrs[k + 1] by {}
        if forall|k: int|
            0 <= k < addrs.len() ==> refusal(#[trigger] addrs[k], allow_private) is None {
            assert(refusal(addrs[0], allow_private) is None);
            assert forall|k: int| 0 <= k < rest.len() implies refusal(
                #[trigger] rest[k],
                allow_private,
            ) is None by {
                assert(refusal(addrs[k + 1], allow_private) is None);
            }
        }
        if 0 < i < addrs.len() && refusal(addrs[i], allow_private) is Some && (forall|k: int|
            0 <= k < i ==> refusal(#[trigger] addrs[k], allow_private) is None) {
            assert(refusal(addrs[0], allow_private) is None);
            assert(rest[i - 1] == addrs[i]);
            assert forall|k: int| 0 <= k < i - 1 implies refusal(
                #[trigger] rest[k],
                allow_private,
            ) is None by {
                assert(refusal(addrs[k + 1], allow_private) is None);
            }
        }
    }
}

/// A web page passes where nothing speaks against it: its address is not refused,
/// or its name is no local one and none of the addresses that it was looked up to
/// is; behind a proxy a name needs no lookup.
pub proof fn unobjectionable_targets_pass(
    u: UrlView,
    host: Seq<char>,
    is_direct: bool,
    allow_private: bool,
    addrs: Seq<IpView>,
)
    requires
        u.scheme == "http"@ || u.scheme == "https"@,
        u.host == Some(host),
        allow_private || !is_localhost(host),
    ensures
        literal(host) matches Some(ip) ==> (refusal(ip, allow_private) is None ==> url_verdict(
            u,
            is_direct,
            allow_private,
            None,
        ) is Ok),
        literal(host) is None && (forall|k: int|
            0 <= k < addrs.len() ==> refusal(#[trigger] addrs[k], allow_private) is None)
            ==> url_verdict(u, is_direct, allow_private, Some(addrs)) is Ok,
        literal(host) is None ==> url_verdict(u, false, allow_private, Some(addrs)) is Ok,
        literal(host) is None && !is_localhost(host) ==> url_lookup(u, true, allow_private) == Some(
            (host, match u.port {
                Some(p) => p,
                None => 0,
            }),
        ),
        url_lookup(u, false, allow_private) is None,
{
    the_first_refused_address_gives_the_reason(addrs, allow_private, 0);
}

/// An address is read through the brackets of a literal, and a host without them
/// as it is.
pub proof fn brackets_come_off(h: Seq<char>)
    requires
        h.len() > 0 ==> h[0] != '[',
    ensures
        bare_host(seq!['['] + h + seq![']']) == h,
        bare_host(h) == h,
{
    reveal_strlit("[");
    reveal_strlit("]");
    assert("["@ =~= seq!['[']);
    assert("]"@ =~= seq![']']);
    let b = seq!['['] + h + seq![']'];
    assert(b =~= seq!['['] + (h + seq![']']));
    affixes_come_off(seq!['['], h + seq![']']);
    affixes_come_off(seq![']'], h);
    if "["@.is_prefix_of(h) {
        assert(h[0] == "["@[0]);
    }
}

/// The local names are `localhost` and all below it, in any case.
pub proof fn local_names_are_told_in_any_case(h: Seq<char>, sub: Seq<char>)
    ensures
        lower(h) == "localhost"@ ==> is_localhost(h) && is_localhost(sub + seq!['.'] + h),
        is_localhost(h) && lower(h) != "localhost"@ ==> h.len() >= 10 && h[h.len() - 10] == '.'
            && lower(h.skip(h.len() - 9)) == "localhost"@,
{
    reveal_strlit("localhost");
    reveal_strlit(".localhost");
    let dotted = ".localhost"@;
    assert(dotted =~= seq!['.'] + "localhost"@);
    if lower(h) == "localhost"@ {
        let s = lower(sub + seq!['.'] + h);
        assert(s =~= lower(sub) + dotted);
        affixes_come_off(dotted, lower(sub));
        assert(dotted.is_suffix_of(s));
    }
    if is_localhost(h) && lower(h) != "localhost"@ {
        let l = lower(h);
        assert(dotted.is_suffix_of(l));
        assert(l.len() >= 10);
        let o = l.len() - 10;
        assert(l.subrange(o, l.len() as int) =~= dotted);
        assert(l[o] == dotted[0]);
        assert(l[o] == lower_char(h[o]));
        assert(lower(h.skip(o + 1)) =~= "localhost"@) by {
            assert forall|k: int| 0 <= k < 9 implies lower(h.skip(o + 1))[k] == "localhost"@[k] by {
                assert(l[o + 1 + k] == dotted[k + 1]);
            }
        }
    }
}

/// A proxy that a request supplies is judged like a direct target: by its address
/// or by those that its name was looked up to, and never if it is local.
pub proof fn supplied_proxies_are_judged(
    e: EgressView,
    p: UrlView,
    host: Seq<char>,
    rest: Seq<char>,
    allow_private: bool,
    addrs: Seq<IpView>,
    i: int,
)
    requires
        e.name == seq!['r', 'a', 'w', ':'] + rest,
        e.proxy == Some(p),
        p.host == Some(host),
    ensures
        !allow_private && is_localhost(host) ==> egress_verdict(
            e,
            allow_private,
            Some(addrs),
        ) is Err,
        literal(host) matches Some(ip) ==> (refusal(ip, allow_private) is Some ==> egress_verdict(
            e,
            allow_private,
            None,
        ) is Err),
        literal(host) is None && 0 <= i < addrs.len() && refusal(addrs[i], allow_private) is Some
            ==> egress_verdict(e, allow_private, Some(addrs)) is Err,
        literal(host) is None && (allow_private || !is_localhost(host)) ==> egress_lookup(
            e,
            allow_private,
        ) == Some(
            (host, match p.port {
                Some(n) => n,
                None => 0,
            }),
        ),
        literal(host) is None && (allow_private || !is_localhost(host)) && (forall|k: int|
            0 <= k < addrs.len() ==> refusal(#[trigger] addrs[k], allow_private) is None)
            ==> egress_verdict(e, allow_private, Some(addrs)) is Ok,
{
    reveal_strlit("raw:");
    let raw = seq!['r', 'a', 'w', ':'];
    assert("raw:"@ =~= raw);
    assert(e.name.subrange(0, 4) =~= raw);
    assert(is_raw(e));
    the_first_refused_address_gives_the_reason(addrs, allow_private, 0);
    if 0 <= i < addrs.len() && refusal(addrs[i], allow_private) is Some {
        lemma_first_refusal(addrs, allow_private, i);
    }
}

/// Ten hops are followed where nothing speaks against their hosts, and no more; a
/// local name is not followed unless private targets are allowed.
pub proof fn hops_are_followed_up_to_the_limit(previous: nat, host: Seq<char>, allow_private: bool)
    ensures
        previous > 10 ==> hop_refusal(previous, host, allow_private) is Some,
        previous <= 10 && literal(host) is None && !is_localhost(bare_host(host)) ==> hop_refusal(
            previous,
            host,
            allow_private,
        ) is None,
        previous <= 10 ==> (literal(host) matches Some(ip) ==> (refusal(ip, allow_private) is None
            ==> hop_refusal(previous, host, allow_private) is None)),
        literal(host) is None && is_localhost(bare_host(host)) && !allow_private ==> hop_refusal(
            previous,
            host,
            allow_private,
        ) is Some,
{
}

/// The addresses of a name are those that the configured servers gave; the system
/// is asked where none are configured or they did not answer. All of them are
/// used, or none.
pub proof fn looked_up_addresses_are_all_used(
    servers: DnsModel,
    custom: Seq<IpView>,
    system: Result<Seq<IpView>, Seq<char>>,
    host: Seq<char>,
    addrs: Seq<IpView>,
    allow_private: bool,
    i: int,
)
    ensures
        servers is Custom ==> addresses(servers, Some(custom), system) == Ok::<
            Seq<IpView>,
            Seq<char>,
        >(custom),
        !(servers is Custom) ==> addresses(servers, Some(custom), system) == system,
        addresses(servers, None, system) == system,
        (forall|k: int|
            0 <= k < addrs.len() ==> refusal(#[trigger] addrs[k], allow_private) is None)
            ==> guarded(host, Ok(addrs), allow_private) == Ok::<Seq<IpView>, Seq<char>>(addrs),
        0 <= i < addrs.len() && refusal(addrs[i], allow_private) is Some ==> guarded(
            host,
            Ok(addrs),
            allow_private,
        ) is Err,
{
    the_first_refused_address_gives_the_reason(addrs, allow_private, 0);
    if 0 <= i < addrs.len() && refusal(addrs[i], allow_private) is Some {
        lemma_first_refusal(addrs, allow_private, i);
    }
}

} // verus!
