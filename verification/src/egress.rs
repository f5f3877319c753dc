//! Named egress profiles.
//!
//! A request either names a profile or passes a raw `proxy_url`. Both resolve to
//! an [`Egress`]. Named profiles are **fail-closed**: if the proxy is configured
//! but unreachable the request errors, it never falls back to `direct`.

use vstd::prelude::*;

use crate::config::{proxyless, proxyless_text, Config};
use crate::error::{same_outcome, CobwebError, ErrorView};
use crate::text::{
    ascending, cat, cat3, dec, dec_u64, same, sort_unique, starts_with, trim, trimmed,
};
use crate::util::{
    find_key, index_of_key, lemma_index_of_key, lookup, setting_a_key_sets_it_alone, upserted,
};
use crate::weburl::{url_parsed, Url, UrlView};

verus! {

/// A resolved exit: a name plus an optional proxy. Without one it is direct.
#[derive(Debug)]
pub struct Egress {
    pub name: String,
    pub proxy: Option<Url>,
}

/// What an egress stands for.
#[verifier::ext_equal]
pub struct EgressView {
    pub name: Seq<char>,
    pub proxy: Option<UrlView>,
}

impl View for Egress {
    type V = EgressView;

    open spec fn view(&self) -> EgressView {
        EgressView { name: self.name@, proxy: self.proxy.deep_view() }
    }
}

impl DeepView for Egress {
    type V = EgressView;

    open spec fn deep_view(&self) -> EgressView {
        self@
    }
}

pub open spec fn direct_egress() -> EgressView {
    EgressView { name: "direct"@, proxy: None }
}

impl EgressView {
    /// The key that names this egress's jar files.
    pub open spec fn jar_key(self) -> Seq<char> {
        match self.proxy {
            None => "direct"@,
            Some(p) => if !"raw:"@.is_prefix_of(self.name) {
                self.name
            } else {
                "proxy-"@ + (match p.host {
                    Some(h) => h,
                    None => "proxy"@,
                }) + "-"@ + dec(
                    match p.port {
                        Some(n) => n as nat,
                        None => 0,
                    },
                )
            },
        }
    }
}

/// The egress a raw `proxy_url` stands for.
pub open spec fn raw_egress(raw: Seq<char>) -> Result<EgressView, ErrorView> {
    let t = trimmed(raw);
    if t.len() == 0 {
        Ok(direct_egress())
    } else {
        match url_parsed(t) {
            Ok(u) => Ok(EgressView { name: "raw:"@ + t, proxy: Some(u) }),
            Err(_) => Err(ErrorView::BadRequest("proxy_url is not a valid URL: "@ + t)),
        }
    }
}

impl Egress {
    pub fn direct() -> (r: Egress)
        ensures
            r@ == direct_egress(),
    {
        Egress { name: "direct".to_owned(), proxy: None }
    }

    /// Build from a raw `proxy_url` field. An empty string is treated as direct.
    pub fn from_raw_proxy(raw: &str) -> (r: Result<Egress, CobwebError>)
        ensures
            same_outcome(r, raw_egress(raw@)),
    {
        let t = trim(raw);
        if t.as_str().unicode_len() == 0 {
            return Ok(Egress::direct());
        }
        match Url::parse(t.as_str()) {
            Ok(u) => Ok(Egress { name: cat("raw:", t.as_str()), proxy: Some(u) }),
            Err(_) => Err(
                CobwebError::BadRequest(cat("proxy_url is not a valid URL: ", t.as_str())),
            ),
        }
    }

    pub fn is_direct(&self) -> (r: bool)
        ensures
            r == (self@.proxy is None),
    {
        self.proxy.is_none()
    }

    /// Stable key used to name this egress's jar files. A clearance cookie is
    /// bound to the exit address, so a raw proxy is keyed on its `host:port`.
    /// Named profiles just use their name.
    pub fn jar_key(&self) -> (r: String)
        ensures
            r@ == self@.jar_key(),
    {
        match &self.proxy {
            None => "direct".to_owned(),
            Some(p) => {
                if !starts_with(self.name.as_str(), "raw:") {
                    return self.name.clone();
                }
                let host: &str = match &p.host {
                    Some(h) => h.as_str(),
                    None => "proxy",
                };
                let port: u64 = match p.port {
                    Some(n) => n as u64,
                    None => 0,
                };
                cat(cat3("proxy-", host, "-").as_str(), dec_u64(port).as_str())
            },
        }
    }

    /// A copy.
    pub fn copy(&self) -> (r: Egress)
        ensures
            r@ == self@,
    {
        Egress {
            name: self.name.clone(),
            proxy: match &self.proxy {
                Some(p) => Some(p.copy()),
                None => None,
            },
        }
    }
}

/// The profile a configured egress stands for.
pub open spec fn profile_of(name: Seq<char>, proxy: Seq<char>) -> Result<EgressView, ErrorView> {
    if trimmed(proxy).len() == 0 {
        if name == "direct"@ {
            Ok(EgressView { name, proxy: None })
        } else {
            Err(ErrorView::Config(proxyless(name)))
        }
    } else {
        match url_parsed(trimmed(proxy)) {
            Ok(u) => Ok(EgressView { name, proxy: Some(u) }),
            Err(_) => Err(
                ErrorView::Config("egress `"@ + name + "`: bad proxy URL "@ + proxy),
            ),
        }
    }
}

/// The profiles of configured egresses, or the first error.
pub open spec fn profiles_of(cfg: Seq<(Seq<char>, Seq<char>)>) -> Result<
    Seq<EgressView>,
    ErrorView,
>
    decreases cfg.len(),
{
    if cfg.len() == 0 {
        Ok(seq![])
    } else {
        match profiles_of(cfg.drop_last()) {
            Ok(front) => match profile_of(cfg.last().0, cfg.last().1) {
                Ok(p) => Ok(front.push(p)),
                Err(e) => Err(e),
            },
            Err(e) => Err(e),
        }
    }
}

/// The first profile of a name.
pub open spec fn find_profile(ps: Seq<EgressView>, name: Seq<char>) -> Option<EgressView>
    decreases ps.len(),
{
    if ps.len() == 0 {
        None
    } else if ps[0].name == name {
        Some(ps[0])
    } else {
        find_profile(ps.skip(1), name)
    }
}

/// The profiles with `direct` among them.
pub open spec fn with_direct(ps: Seq<EgressView>) -> Seq<EgressView> {
    if find_profile(ps, "direct"@) is Some {
        ps
    } else {
        ps.push(direct_egress())
    }
}

/// What a request field says, if anything.
pub open spec fn given(field: Option<Seq<char>>) -> Option<Seq<char>> {
    match field {
        Some(s) => if trimmed(s).len() == 0 {
            None
        } else {
            Some(trimmed(s))
        },
        None => None,
    }
}

fn given_field(field: &Option<String>) -> (r: Option<String>)
    ensures
        r.deep_view() == given(field.deep_view()),
{
    match field {
        Some(s) => {
            let t = trim(s.as_str());
            if t.as_str().unicode_len() == 0 {
                None
            } else {
                Some(t)
            }
        },
        None => None,
    }
}

/// The egress that the fields `egress` and `proxy_url` of a request stand for.
pub open spec fn chosen(
    ps: Seq<EgressView>,
    egress: Option<Seq<char>>,
    proxy_url: Option<Seq<char>>,
) -> Result<EgressView, ErrorView> {
    match given(proxy_url) {
        Some(raw) => raw_egress(raw),
        None => match given(egress) {
            None => Ok(direct_egress()),
            Some(name) => match find_profile(ps, name) {
                Some(p) => Ok(p),
                None => Err(ErrorView::UnknownEgress(name)),
            },
        },
    }
}

/// How long the result of a health check counts, in milliseconds.
pub const HEALTHCHECK_TTL_MS: u64 = 30_000;

/// What to do before an egress is used.
pub enum HealthStep {
    /// Nothing stands in the way.
    Ready,
    /// It was found unreachable a moment ago.
    Refuse(CobwebError),
    /// Try to connect to this address, and report back.
    Probe { address: Option<String> },
}

/// What a step stands for.
pub enum StepView {
    Ready,
    Refuse(ErrorView),
    Probe { address: Option<Seq<char>> },
}

impl View for HealthStep {
    type V = StepView;

    open spec fn view(&self) -> StepView {
        match *self {
            HealthStep::Ready => StepView::Ready,
            HealthStep::Refuse(e) => StepView::Refuse(e@),
            HealthStep::Probe { address } => StepView::Probe { address: address.deep_view() },
        }
    }
}

/// The address a proxy is reached at. A proxy without a host is not reachable.
pub open spec fn proxy_address(p: UrlView) -> Option<Seq<char>> {
    match p.host {
        Some(h) => Some(
            h + ":"@ + dec(
                match p.port {
                    Some(n) => n as nat,
                    None => 1080,
                },
            ),
        ),
        None => None,
    }
}

/// The step before an egress is used, given the last checks by name: whether it
/// was reachable, and when it was checked.
pub open spec fn health_step(
    checks: Seq<(Seq<char>, (bool, u64))>,
    e: EgressView,
    now_ms: u64,
) -> StepView {
    match e.proxy {
        None => StepView::Ready,
        Some(p) => match index_of_key(checks, e.name) {
            Some(i) => if now_ms - checks[i].1.1 < HEALTHCHECK_TTL_MS {
                if checks[i].1.0 {
                    StepView::Ready
                } else {
                    StepView::Refuse(
                        ErrorView::EgressUnavailable {
                            name: e.name,
                            reason: "proxy unreachable (cached)"@,
                        },
                    )
                }
            } else {
                StepView::Probe { address: proxy_address(p) }
            },
            None => StepView::Probe { address: proxy_address(p) },
        },
    }
}

/// The checks after one more has been made.
pub open spec fn checked(
    checks: Seq<(Seq<char>, (bool, u64))>,
    name: Seq<char>,
    ok: bool,
    now_ms: u64,
) -> Seq<(Seq<char>, (bool, u64))> {
    upserted(checks, name, (ok, now_ms))
}

pub struct EgressRegistry {
    profiles: Vec<Egress>,
    /// Name, whether it was reachable, and when that was found out.
    health: Vec<(String, (bool, u64))>,
}

impl EgressRegistry {
    /// The configured profiles.
    pub closed spec fn profiles(&self) -> Seq<EgressView> {
        self.profiles.deep_view()
    }

    /// The last health check of each name.
    pub closed spec fn checks(&self) -> Seq<(Seq<char>, (bool, u64))> {
        self.health.deep_view()
    }

    /// The profiles of a configuration; `direct` always exists.
    pub fn from_config(cfg: &Config) -> (r: Result<EgressRegistry, CobwebError>)
        ensures
            match (r, profiles_of(cfg@.egress)) {
                (Ok(reg), Ok(ps)) => reg.profiles() == with_direct(ps) && reg.checks() == Seq::<
                    (Seq<char>, (bool, u64)),
                >::empty(),
                (Err(e), Err(f)) => e@ == f,
                _ => false,
            },
    {
        let ghost list = cfg@.egress;
        let mut profiles: Vec<Egress> = Vec::new();
        assert(profiles.deep_view() =~= seq![]);
        assert(list.take(0) =~= seq![]);
        for i in 0..cfg.egress.len()
            invariant
                list == cfg@.egress,
                profiles_of(list.take(i as int)) == Ok::<Seq<EgressView>, ErrorView>(
                    profiles.deep_view(),
                ),
        {
            let name: &String = &cfg.egress[i].0;
            let proxy: &String = &cfg.egress[i].1.proxy;
            assert(list.take(i + 1).drop_last() =~= list.take(i as int));
            assert(list.take(i + 1).last() == (name@, proxy@));
            let ghost before = profiles.deep_view();
            let t = trim(proxy.as_str());
            if t.as_str().unicode_len() == 0 {
                if !same(name.as_str(), "direct") {
                    proof {
                        lemma_profiles_error(list, i + 1);
                    }
                    return Err(CobwebError::Config(proxyless_text(name.as_str())));
                }
                profiles.push(Egress { name: name.clone(), proxy: None });
                assert(profiles.deep_view() =~= before.push(
                    EgressView { name: name@, proxy: None },
                ));
            } else {
                match Url::parse(t.as_str()) {
                    Ok(u) => {
                        let ghost uv = u@;
                        profiles.push(Egress { name: name.clone(), proxy: Some(u) });
                        assert(profiles.deep_view() =~= before.push(
                            EgressView { name: name@, proxy: Some(uv) },
                        ));
                    },
                    Err(_) => {
                        proof {
                            lemma_profiles_error(list, i + 1);
                        }
                        return Err(
                            CobwebError::Config(
                                cat(
                                    cat3("egress `", name.as_str(), "`: bad proxy URL ").as_str(),
                                    proxy.as_str(),
                                ),
                            ),
                        );
                    },
                }
            }
        }
        assert(list.take(cfg.egress@.len() as int) =~= list);
        let found = position(&profiles, "direct");
        let ghost before = profiles.deep_view();
        if found.is_none() {
            let d = Egress::direct();
            profiles.push(d);
            assert(profiles.deep_view() =~= before.push(direct_egress()));
        }
        let health: Vec<(String, (bool, u64))> = Vec::new();
        assert(health.deep_view() =~= seq![]);
        Ok(EgressRegistry { profiles, health })
    }

    /// The names of the profiles, in order.
    pub fn names(&self) -> (r: Vec<String>)
        ensures
            ascending(r.deep_view()),
            forall|x: Seq<char>|
                #![auto]
                r.deep_view().contains(x) <==> exists|i: int|
                    0 <= i < self.profiles().len() && self.profiles()[i].name == x,
    {
        let mut v: Vec<String> = Vec::new();
        for i in 0..self.profiles.len()
            invariant
                v@.len() == i,
                forall|k: int| 0 <= k < i ==> (#[trigger] v@[k])@ == self.profiles()[k].name,
        {
            v.push(self.profiles[i].name.clone());
        }
        let r = sort_unique(&v);
        proof {
            assert forall|x: Seq<char>|
                #![auto]
                r.deep_view().contains(x) <==> exists|i: int|
                    0 <= i < self.profiles().len() && self.profiles()[i].name == x by {
                if r.deep_view().contains(x) {
                    assert(v.deep_view().contains(x));
                    let k = choose|k: int| 0 <= k < v.deep_view().len() && v.deep_view()[k] == x;
                    assert(v@[k]@ == self.profiles()[k].name);
                }
                if exists|i: int| 0 <= i < self.profiles().len() && self.profiles()[i].name == x {
                    let i = choose|i: int|
                        0 <= i < self.profiles().len() && self.profiles()[i].name == x;
                    assert(v@[i]@ == self.profiles()[i].name);
                    assert(v.deep_view()[i] == x);
                }
            }
        }
        r
    }

    /// Resolve the fields `egress` and `proxy_url` of a request to one egress.
    ///
    /// - both empty: `direct`
    /// - `proxy_url` set: the raw proxy, and a named profile is ignored
    /// - `egress` set: the named profile, or `UnknownEgress`
    pub fn resolve(&self, egress: &Option<String>, proxy_url: &Option<String>) -> (r: Result<
        Egress,
        CobwebError,
    >)
        ensures
            same_outcome(
                r,
                chosen(self.profiles(), egress.deep_view(), proxy_url.deep_view()),
            ),
    {
        match given_field(proxy_url) {
            Some(raw) => {
                return Egress::from_raw_proxy(raw.as_str());
            },
            None => {},
        }
        match given_field(egress) {
            None => Ok(Egress::direct()),
            Some(name) => match position(&self.profiles, name.as_str()) {
                Some(i) => Ok(self.profiles[i].copy()),
                None => Err(CobwebError::UnknownEgress(name)),
            },
        }
    }

    /// Fail-closed gate. `direct` is always up. A proxied egress is probed, and
    /// the result counts for `HEALTHCHECK_TTL_MS`.
    pub fn ensure_available(&self, e: &Egress, now_ms: u64) -> (r: HealthStep)
        ensures
            r@ == health_step(self.checks(), e@, now_ms),
    {
        match &e.proxy {
            None => HealthStep::Ready,
            Some(p) => {
                match find_key(&self.health, e.name.as_str()) {
                    Some(i) => {
                        let (ok, at): (bool, u64) = self.health[i].1;
                        assert(self.checks()[i as int].1 == (ok, at));
                        if now_ms < at || now_ms - at < HEALTHCHECK_TTL_MS {
                            return if ok {
                                HealthStep::Ready
                            } else {
                                HealthStep::Refuse(
                                    CobwebError::EgressUnavailable {
                                        name: e.name.clone(),
                                        reason: "proxy unreachable (cached)".to_owned(),
                                    },
                                )
                            };
                        }
                    },
                    None => {},
                }
                let address = match &p.host {
                    Some(h) => {
                        let port: u64 = match p.port {
                            Some(n) => n as u64,
                            None => 1080,
                        };
                        Some(cat3(h.as_str(), ":", dec_u64(port).as_str()))
                    },
                    None => None,
                };
                HealthStep::Probe { address }
            },
        }
    }

    /// Record what probing an egress found.
    pub fn probed(&mut self, e: &Egress, ok: bool, now_ms: u64) -> (r: Result<(), CobwebError>)
        ensures
            final(self).profiles() == old(self).profiles(),
            final(self).checks() == checked(old(self).checks(), e@.name, ok, now_ms),
            r is Ok == ok,
            r matches Err(x) ==> x@ == (ErrorView::EgressUnavailable {
                name: e@.name,
                reason: "cannot connect to proxy "@ + (match e@.proxy {
                    Some(p) => p.text,
                    None => seq![],
                }),
            }),
    {
        let ghost before = self.checks();
        match find_key(&self.health, e.name.as_str()) {
            Some(i) => {
                self.health.set(i, (e.name.clone(), (ok, now_ms)));
                assert(self.checks() =~= before.update(i as int, (e@.name, (ok, now_ms))));
            },
            None => {
                self.health.push((e.name.clone(), (ok, now_ms)));
                assert(self.checks() =~= before.push((e@.name, (ok, now_ms))));
            },
        }
        if ok {
            Ok(())
        } else {
            let shown: String = match &e.proxy {
                Some(p) => p.text.clone(),
                None => String::new(),
            };
            assert(e@.proxy is None ==> shown@ =~= seq![]);
            Err(
                CobwebError::EgressUnavailable {
                    name: e.name.clone(),
                    reason: cat("cannot connect to proxy ", shown.as_str()),
                },
            )
        }
    }
}

fn position(ps: &Vec<Egress>, name: &str) -> (r: Option<usize>)
    ensures
        match r {
            Some(i) => i < ps@.len() && find_profile(ps.deep_view(), name@) == Some(
                ps@[i as int]@,
            ),
            None => find_profile(ps.deep_view(), name@) is None,
        },
{
    let ghost all = ps.deep_view();
    assert(all.skip(0) =~= all);
    for i in 0..ps.len()
        invariant
            all == ps.deep_view(),
            find_profile(all.skip(i as int), name@) == find_profile(all, name@),
    {
        assert(all.skip(i as int)[0] == ps@[i as int]@);
        assert(all.skip(i as int).skip(1) =~= all.skip(i + 1));
        if same(ps[i].name.as_str(), name) {
            return Some(i);
        }
    }
    None
}

proof fn lemma_profiles_error(cfg: Seq<(Seq<char>, Seq<char>)>, k: int)
    requires
        0 <= k <= cfg.len(),
        profiles_of(cfg.take(k)) is Err,
    ensures
        profiles_of(cfg) == profiles_of(cfg.take(k)),
    decreases cfg.len() - k,
{
    if k < cfg.len() {
        assert(cfg.take(k + 1).drop_last() =~= cfg.take(k));
        lemma_profiles_error(cfg, k + 1);
    } else {
        assert(cfg.take(k) =~= cfg);
    }
}

// ---------------------------------------------------------------------------
// Laws
// ---------------------------------------------------------------------------

/// A proxied egress never becomes direct: naming it gives it, its error, or an
/// unknown-egress error.
pub proof fn naming_a_profile_never_falls_back(
    ps: Seq<EgressView>,
    egress: Option<Seq<char>>,
    proxy_url: Option<Seq<char>>,
)
    requires
        given(egress) is Some,
        given(proxy_url) is None,
    ensures
        match chosen(ps, egress, proxy_url) {
            Ok(e) => e.name == given(egress)->Some_0 && ps.contains(e),
            Err(e) => e == ErrorView::UnknownEgress(given(egress)->Some_0),
        },
{
    lemma_find_profile(ps, given(egress)->Some_0);
}

proof fn lemma_find_profile(ps: Seq<EgressView>, name: Seq<char>)
    ensures
        find_profile(ps, name) matches Some(p) ==> p.name == name && ps.contains(p),
    decreases ps.len(),
{
    if ps.len() > 0 && ps[0].name != name {
        lemma_find_profile(ps.skip(1), name);
        if find_profile(ps.skip(1), name) is Some {
            let p = find_profile(ps, name)->Some_0;
            let k = choose|k: int| 0 <= k < ps.skip(1).len() && ps.skip(1)[k] == p;
            assert(ps[k + 1] == p);
        }
    } else if ps.len() > 0 {
        assert(ps[0] == find_profile(ps, name)->Some_0);
    }
}

/// A configured profile other than `direct` always has a proxy: naming it never
/// sends a request out directly.
pub proof fn only_direct_goes_out_directly(
    cfg: Seq<(Seq<char>, Seq<char>)>,
    egress: Option<Seq<char>>,
    proxy_url: Option<Seq<char>>,
)
    requires
        profiles_of(cfg) is Ok,
        given(egress) is Some,
        given(egress)->Some_0 != "direct"@,
        given(proxy_url) is None,
    ensures
        chosen(with_direct(profiles_of(cfg)->Ok_0), egress, proxy_url) matches Ok(e)
            ==> e.proxy is Some,
{
    let ps = with_direct(profiles_of(cfg)->Ok_0);
    lemma_proxied_profiles(cfg);
    lemma_find_profile(ps, given(egress)->Some_0);
}

proof fn lemma_proxied_profiles(cfg: Seq<(Seq<char>, Seq<char>)>)
    requires
        profiles_of(cfg) is Ok,
    ensures
        forall|i: int|
            0 <= i < profiles_of(cfg)->Ok_0.len() ==> (#[trigger] profiles_of(cfg)->Ok_0[i]).name
                == "direct"@ || profiles_of(cfg)->Ok_0[i].proxy is Some,
    decreases cfg.len(),
{
    if cfg.len() > 0 {
        lemma_proxied_profiles(cfg.drop_last());
        let front = profiles_of(cfg.drop_last())->Ok_0;
        assert forall|i: int| 0 <= i < profiles_of(cfg)->Ok_0.len() implies (
        #[trigger] profiles_of(cfg)->Ok_0[i]).name == "direct"@ || profiles_of(cfg)->Ok_0[i].proxy
            is Some by {
            if i < front.len() {
                assert(profiles_of(cfg)->Ok_0[i] == front[i]);
            }
        }
    }
}

/// A proxied egress whose last probe failed is refused until the check is
/// `HEALTHCHECK_TTL_MS` old, and then probed again: it is never used unprobed.
pub proof fn unreachable_egress_fails_closed(
    checks: Seq<(Seq<char>, (bool, u64))>,
    e: EgressView,
    at: u64,
    now_ms: u64,
)
    requires
        e.proxy is Some,
        at <= now_ms,
    ensures
        !(health_step(checked(checks, e.name, false, at), e, now_ms) is Ready),
        now_ms - at < HEALTHCHECK_TTL_MS ==> health_step(
            checked(checks, e.name, false, at),
            e,
            now_ms,
        ) is Refuse,
{
    let after = checked(checks, e.name, false, at);
    lemma_index_of_key(checks, e.name);
    lemma_index_of_key(after, e.name);
    match index_of_key(after, e.name) {
        Some(i) => {
            match index_of_key(checks, e.name) {
                Some(j) => {
                    if i < j {
                        assert(after[i] == checks[i]);
                    } else if i > j {
                        assert(after[j].0 == e.name);
                    }
                },
                None => {
                    if i < checks.len() {
                        assert(after[i] == checks[i]);
                    }
                },
            }
        },
        None => {
            match index_of_key(checks, e.name) {
                Some(j) => {
                    assert(after[j].0 == e.name);
                },
                None => {
                    assert(after[checks.len() as int].0 == e.name);
                },
            }
        },
    }
}

/// A raw proxy never uses the jar of the direct egress.
pub proof fn raw_jar_keys_are_not_direct(e: EgressView)
    requires
        e.proxy is Some,
        "raw:"@.is_prefix_of(e.name),
    ensures
        e.jar_key() != direct_egress().jar_key(),
{
    reveal_strlit("proxy-");
    reveal_strlit("direct");
    assert(e.jar_key()[0] == 'p');
}

/// A request goes out where its fields say: over the proxy that it supplies before
/// any profile, over the first profile of the name, and directly where it says
/// nothing.
pub proof fn a_request_goes_out_where_it_says(
    ps: Seq<EgressView>,
    name: Seq<char>,
    egress: Option<Seq<char>>,
    raw: Seq<char>,
    blank: Option<Seq<char>>,
    i: int,
)
    requires
        blank matches Some(s) ==> trimmed(s).len() == 0,
        trimmed(raw).len() > 0,
        trimmed(name).len() > 0,
    ensures
        chosen(ps, egress, Some(raw)) == raw_egress(trimmed(raw)),
        chosen(ps, blank, blank) == Ok::<EgressView, ErrorView>(direct_egress()),
        0 <= i < ps.len() && ps[i].name == trimmed(name) && (forall|k: int|
            0 <= k < i ==> (#[trigger] ps[k]).name != trimmed(name)) ==> chosen(
            ps,
            Some(name),
            blank,
        ) == Ok::<EgressView, ErrorView>(ps[i]),
        (forall|k: int| 0 <= k < ps.len() ==> (#[trigger] ps[k]).name != trimmed(name)) ==> chosen(
            ps,
            Some(name),
            blank,
        ) == Err::<EgressView, ErrorView>(ErrorView::UnknownEgress(trimmed(name))),
        direct_egress().proxy is None,
{
    lemma_first_profile(ps, trimmed(name), i);
}

proof fn lemma_first_profile(ps: Seq<EgressView>, name: Seq<char>, i: int)
    ensures
        0 <= i < ps.len() && ps[i].name == name && (forall|k: int|
            0 <= k < i ==> (#[trigger] ps[k]).name != name) ==> find_profile(ps, name) == Some(
            ps[i],
        ),
        (forall|k: int| 0 <= k < ps.len() ==> (#[trigger] ps[k]).name != name) ==> find_profile(
            ps,
            name,
        ) is None,
    decreases ps.len(),
{
    if ps.len() > 0 {
        let rest = ps.skip(1);
        lemma_first_profile(rest, name, i - 1);
        assert forall|k: int| 0 <= k < rest.len() implies #[trigger] rest[k] == ps[k + 1] by {}
        if forall|k: int| 0 <= k < ps.len() ==> (#[trigger] ps[k]).name != name {
            assert(ps[0].name != name);
            assert forall|k: int| 0 <= k < rest.len() implies (#[trigger] rest[k]).name != name by {
                assert(ps[k + 1].name != name);
            }
        }
        if 0 < i < ps.len() && ps[i].name == name && (forall|k: int|
            0 <= k < i ==> (#[trigger] ps[k]).name != name) {
            assert(ps[0].name != name);
            assert(rest[i - 1] == ps[i]);
            assert forall|k: int| 0 <= k < i - 1 implies (#[trigger] rest[k]).name != name by {
                assert(ps[k + 1].name != name);
            }
        }
    }
}

/// A supplied proxy is taken as the URL that it is, under a name of its own, and
/// one that is no URL is an error, never the direct egress.
pub proof fn a_supplied_proxy_is_used(raw: Seq<char>)
    requires
        trimmed(raw).len() > 0,
    ensures
        url_parsed(trimmed(raw)) matches Ok(u) ==> (raw_egress(raw) matches Ok(e) && e.proxy == Some(
            u,
        ) && e.name == seq!['r', 'a', 'w', ':'] + trimmed(raw)),
        url_parsed(trimmed(raw)) is Err ==> raw_egress(raw) is Err,
{
    reveal_strlit("raw:");
    assert("raw:"@ =~= seq!['r', 'a', 'w', ':']);
}

/// Every configured egress is a profile with its proxy, in order; one with a bad
/// proxy, or without one, refuses the configuration, but for `direct`.
pub proof fn every_configured_egress_is_a_profile(
    cfg: Seq<(Seq<char>, Seq<char>)>,
    name: Seq<char>,
    proxy: Seq<char>,
)
    ensures
        profiles_of(seq![]) matches Ok(ps) && ps.len() == 0,
        profiles_of(cfg) is Err ==> profiles_of(cfg.push((name, proxy))) is Err,
        profiles_of(cfg) matches Ok(ps) ==> {
            &&& trimmed(proxy).len() > 0 ==> (url_parsed(trimmed(proxy)) matches Ok(u)
                ==> profiles_of(cfg.push((name, proxy))) == Ok::<Seq<EgressView>, ErrorView>(
                ps.push((EgressView { name, proxy: Some(u) })),
            ))
            &&& trimmed(proxy).len() > 0 && url_parsed(trimmed(proxy)) is Err ==> profiles_of(
                cfg.push((name, proxy)),
            ) is Err
            &&& trimmed(proxy).len() == 0 && name != "direct"@ ==> profiles_of(
                cfg.push((name, proxy)),
            ) is Err
            &&& trimmed(proxy).len() == 0 && name == "direct"@ ==> profiles_of(
                cfg.push((name, proxy)),
            ) == Ok::<Seq<EgressView>, ErrorView>(ps.push((EgressView { name, proxy: None })))
        },
{
    assert(cfg.push((name, proxy)).drop_last() =~= cfg);
}

/// The direct egress can always be named, and every profile still can.
pub proof fn direct_is_always_there(ps: Seq<EgressView>, i: int)
    ensures
        find_profile(with_direct(ps), "direct"@) is Some,
        0 <= i < ps.len() ==> with_direct(ps)[i] == ps[i],
        with_direct(ps).len() <= ps.len() + 1,
        (forall|k: int| 0 <= k < ps.len() ==> (#[trigger] ps[k]).name != "direct"@) ==> with_direct(
            ps,
        ).last() == direct_egress(),
{
    let all = with_direct(ps);
    lemma_first_profile(ps, "direct"@, 0);
    if find_profile(ps, "direct"@) is None {
        lemma_no_profile(ps, "direct"@);
        assert forall|k: int| 0 <= k < ps.len() implies (#[trigger] all[k]).name != "direct"@ by {
            assert(all[k] == ps[k]);
        }
        assert(all[ps.len() as int] == direct_egress());
        lemma_first_profile(all, "direct"@, ps.len() as int);
    }
}

proof fn lemma_no_profile(ps: Seq<EgressView>, name: Seq<char>)
    requires
        find_profile(ps, name) is None,
    ensures
        forall|k: int| 0 <= k < ps.len() ==> (#[trigger] ps[k]).name != name,
    decreases ps.len(),
{
    if ps.len() > 0 {
        let rest = ps.skip(1);
        lemma_no_profile(rest, name);
        assert forall|k: int| 0 <= k < ps.len() implies (#[trigger] ps[k]).name != name by {
            if k > 0 {
                assert(rest[k - 1] == ps[k]);
            }
        }
    }
}

/// An egress that was reached a moment ago is used, one whose check is old or
/// missing is probed at its host and port, and one without a proxy needs neither.
pub proof fn a_reachable_egress_is_used(
    checks: Seq<(Seq<char>, (bool, u64))>,
    e: EgressView,
    p: UrlView,
    host: Seq<char>,
    ok: bool,
    at: u64,
    now_ms: u64,
)
    requires
        e.proxy == Some(p),
        p.host == Some(host),
        at <= now_ms,
    ensures
        now_ms - at < 30_000 ==> health_step(checked(checks, e.name, true, at), e, now_ms) is Ready,
        now_ms - at >= 30_000 ==> (health_step(
            checked(checks, e.name, ok, at),
            e,
            now_ms,
        ) matches StepView::Probe { address } && address == Some(
            host + seq![':'] + dec(
                match p.port {
                    Some(n) => n as nat,
                    None => 1080,
                },
            ),
        )),
        lookup(checks, e.name) is None ==> health_step(checks, e, now_ms) is Probe,
        health_step(checks, (EgressView { name: e.name, proxy: None }), now_ms) is Ready,
{
    reveal_strlit(":");
    assert(":"@ =~= seq![':']);
    setting_a_key_sets_it_alone(checks, e.name, (true, at), e.name);
    setting_a_key_sets_it_alone(checks, e.name, (ok, at), e.name);
    lemma_index_of_key(checked(checks, e.name, true, at), e.name);
    lemma_index_of_key(checked(checks, e.name, ok, at), e.name);
}

/// A check says nothing of another egress.
pub proof fn checks_are_kept_apart(
    checks: Seq<(Seq<char>, (bool, u64))>,
    e: EgressView,
    name: Seq<char>,
    ok: bool,
    at: u64,
    now_ms: u64,
)
    requires
        name != e.name,
    ensures
        health_step(checked(checks, name, ok, at), e, now_ms) == health_step(checks, e, now_ms),
{
    setting_a_key_sets_it_alone(checks, name, (ok, at), e.name);
    lemma_index_of_key(checked(checks, name, ok, at), e.name);
    lemma_index_of_key(checks, e.name);
}

/// A profile keeps its jar under its own name, and a supplied proxy under its host
/// and port.
pub proof fn jars_are_kept_by_egress(e: EgressView, p: UrlView, host: Seq<char>, port: u16)
    requires
        e.proxy == Some(p),
        p.host == Some(host),
        p.port == Some(port),
    ensures
        !(e.name.len() >= 4 && e.name.take(4) == seq!['r', 'a', 'w', ':']) ==> e.jar_key() == e.name,
        e.name.len() >= 4 && e.name.take(4) == seq!['r', 'a', 'w', ':'] ==> e.jar_key()
            == "proxy-"@ + host + seq!['-'] + dec(port as nat),
        (EgressView { name: e.name, proxy: None }).jar_key() == "direct"@,
{
    reveal_strlit("raw:");
    reveal_strlit("-");
    assert("-"@ =~= seq!['-']);
    assert("raw:"@ =~= seq!['r', 'a', 'w', ':']);
    if e.name.len() >= 4 {
        assert(e.name.subrange(0, 4) =~= e.name.take(4));
    }
}

} // verus!
