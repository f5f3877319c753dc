//! Runtime-configurable settings: DNS servers plus a handful of timeout and
//! lifetime knobs, held in one document that the caller persists.

use vstd::prelude::*;

use crate::browser::cdp_engine::copy_texts;
use crate::error::{same_outcome, CobwebError, ErrorView};
use crate::ip::{ip_of, lemma_single_digits, IpAddr, IpView};
use crate::text::cat;

verus! {

/// How names are looked up for outbound connections.
#[derive(Debug)]
pub enum DnsBackend {
    /// The system resolver only.
    System,
    /// These servers first; the system resolver where they fail.
    Custom(Vec<IpAddr>),
}

/// What a backend stands for.
pub enum DnsModel {
    System,
    Custom(Seq<IpView>),
}

impl View for DnsBackend {
    type V = DnsModel;

    open spec fn view(&self) -> DnsModel {
        match *self {
            DnsBackend::System => DnsModel::System,
            DnsBackend::Custom(ips) => DnsModel::Custom(ips.deep_view()),
        }
    }
}

#[derive(Debug)]
pub struct ResolvedDns {
    pub servers: Vec<String>,
    pub backend: DnsBackend,
}

/// What resolved servers stand for.
pub struct ResolvedModel {
    pub servers: Seq<Seq<char>>,
    pub backend: DnsModel,
}

impl View for ResolvedDns {
    type V = ResolvedModel;

    open spec fn view(&self) -> ResolvedModel {
        ResolvedModel { servers: self.servers.deep_view(), backend: self.backend@ }
    }
}

/// The addresses of servers, or the first one that is none.
pub open spec fn server_ips(servers: Seq<Seq<char>>) -> Result<Seq<IpView>, Seq<char>>
    decreases servers.len(),
{
    if servers.len() == 0 {
        Ok(seq![])
    } else {
        match server_ips(servers.drop_last()) {
            Ok(front) => match ip_of(servers.last()) {
                Some(ip) => Ok(front.push(ip)),
                None => Err(servers.last()),
            },
            Err(bad) => Err(bad),
        }
    }
}

/// The backend of a list of servers: none means the system's, and every one has
/// to be an address.
pub open spec fn dns_of(servers: Seq<Seq<char>>) -> Result<ResolvedModel, ErrorView> {
    if servers.len() == 0 {
        Ok(ResolvedModel { servers: seq![], backend: DnsModel::System })
    } else {
        match server_ips(servers) {
            Ok(ips) => Ok(ResolvedModel { servers, backend: DnsModel::Custom(ips) }),
            Err(s) => Err(ErrorView::BadRequest("dns_servers: not an IP address: "@ + s)),
        }
    }
}

proof fn lemma_bad_server(servers: Seq<Seq<char>>, i: int)
    requires
        0 <= i < servers.len(),
        server_ips(servers.take(i)) is Ok,
        ip_of(servers[i]) is None,
    ensures
        server_ips(servers) == Err::<Seq<IpView>, Seq<char>>(servers[i]),
    decreases servers.len() - i,
{
    lemma_bad_prefix(servers, i, servers.len() as int);
    assert(servers.take(servers.len() as int) =~= servers);
}

proof fn lemma_bad_prefix(servers: Seq<Seq<char>>, i: int, n: int)
    requires
        0 <= i < n <= servers.len(),
        server_ips(servers.take(i)) is Ok,
        ip_of(servers[i]) is None,
    ensures
        server_ips(servers.take(n)) == Err::<Seq<IpView>, Seq<char>>(servers[i]),
    decreases n - i,
{
    assert(servers.take(n).drop_last() =~= servers.take(n - 1));
    if n > i + 1 {
        lemma_bad_prefix(servers, i, n - 1);
    }
}

/// The backend of a list of servers.
pub fn build_dns(servers: &Vec<String>) -> (r: Result<ResolvedDns, CobwebError>)
    ensures
        same_outcome(r, dns_of(servers.deep_view())),
{
    let ghost all = servers.deep_view();
    assert(all.len() == servers@.len());
    if servers.len() == 0 {
        let none: Vec<String> = Vec::new();
        assert(none.deep_view() =~= seq![]);
        return Ok(ResolvedDns { servers: none, backend: DnsBackend::System });
    }
    let mut ips: Vec<IpAddr> = Vec::new();
    assert(ips.deep_view() =~= seq![]);
    for i in 0..servers.len()
        invariant
            all == servers.deep_view(),
            all.len() == servers@.len(),
            all.len() > 0,
            server_ips(all.take(i as int)) == Ok::<Seq<IpView>, Seq<char>>(ips.deep_view()),
    {
        assert(all.take(i + 1).drop_last() =~= all.take(i as int));
        assert(all.take(i + 1).last() == servers@[i as int]@);
        match IpAddr::parse(servers[i].as_str()) {
            Some(ip) => {
                let ghost before = ips.deep_view();
                let ghost ipv = ip@;
                ips.push(ip);
                assert(ips.deep_view() =~= before.push(ipv));
            },
            None => {
                proof {
                    lemma_bad_server(all, i as int);
                }
                return Err(
                    CobwebError::BadRequest(
                        cat("dns_servers: not an IP address: ", servers[i].as_str()),
                    ),
                );
            },
        }
    }
    assert(all.take(servers@.len() as int) =~= all);
    Ok(ResolvedDns { servers: copy_texts(servers), backend: DnsBackend::Custom(ips) })
}

/// What is wrong with a list of servers: one that is no address, or that no
/// resolver could be made for them.
pub open spec fn lookup_fault(servers: Seq<Seq<char>>, made: Result<(), Seq<char>>) -> Option<
    ErrorView,
> {
    match dns_of(servers) {
        Ok(dns) => match (dns.backend, made) {
            (DnsModel::Custom(_), Err(e)) => Some(ErrorView::Other("build DNS resolver: "@ + e)),
            _ => None,
        },
        Err(e) => Some(e),
    }
}

/// What making a resolver came to.
pub open spec fn resolver_made(made: Result<(), String>) -> Result<(), Seq<char>> {
    match made {
        Ok(()) => Ok(()),
        Err(e) => Err(e@),
    }
}

/// The backend of a list of servers; `made` says whether a resolver could be made
/// for them.
fn made_dns(servers: &Vec<String>, made: &Result<(), String>) -> (r: Result<
    ResolvedDns,
    CobwebError,
>)
    ensures
        match lookup_fault(servers.deep_view(), resolver_made(*made)) {
            Some(f) => r matches Err(e) && e@ == f,
            None => r matches Ok(d) && dns_of(servers.deep_view()) == Ok::<ResolvedModel, ErrorView>(
                d@,
            ),
        },
{
    let dns = match build_dns(servers) {
        Ok(d) => d,
        Err(e) => {
            return Err(e);
        },
    };
    match (&dns.backend, made) {
        (DnsBackend::Custom(_), Err(e)) => Err(
            CobwebError::Other(cat("build DNS resolver: ", e.as_str())),
        ),
        _ => Ok(dns),
    }
}

/// The servers that are asked unless others are configured.
pub open spec fn default_servers() -> Seq<Seq<char>> {
    seq!["1.1.1.1"@, "1.0.0.1"@]
}

/// The addresses of the servers that are asked unless others are configured.
pub open spec fn default_server_ips() -> Seq<IpView> {
    seq![IpView::V4(1, 1, 1, 1), IpView::V4(1, 0, 0, 1)]
}

fn default_dns_servers() -> (r: Vec<String>)
    ensures
        r.deep_view() == default_servers(),
{
    let mut v: Vec<String> = Vec::new();
    v.push("1.1.1.1".to_owned());
    v.push("1.0.0.1".to_owned());
    assert(v.deep_view() =~= default_servers());
    v
}

/// The lookup of the default servers.
pub open spec fn default_lookup() -> ResolvedModel {
    ResolvedModel {
        servers: default_servers(),
        backend: DnsModel::Custom(default_server_ips()),
    }
}

/// The default servers are addresses.
pub proof fn the_default_servers_are_addresses()
    ensures
        dns_of(default_servers()) == Ok::<ResolvedModel, ErrorView>(default_lookup()),
{
    reveal_strlit("1.1.1.1");
    reveal_strlit("1.0.0.1");
    assert("1.1.1.1"@ =~= seq!['1', '.', '1', '.', '1', '.', '1']);
    assert("1.0.0.1"@ =~= seq!['1', '.', '0', '.', '0', '.', '1']);
    lemma_single_digits('1', '1', '1', '1');
    lemma_single_digits('1', '0', '0', '1');
    let all = default_servers();
    let first = all.drop_last();
    assert(first.drop_last() =~= Seq::<Seq<char>>::empty());
    assert(first.last() == "1.1.1.1"@);
    reveal_with_fuel(server_ips, 3);
    assert(server_ips(first)->Ok_0 =~= seq![IpView::V4(1, 1, 1, 1)]);
    assert(server_ips(all)->Ok_0 =~= default_server_ips());
}

fn default_dns() -> (r: ResolvedDns)
    ensures
        r@ == default_lookup(),
{
    let mut ips: Vec<IpAddr> = Vec::new();
    ips.push(IpAddr::V4(1, 1, 1, 1));
    ips.push(IpAddr::V4(1, 0, 0, 1));
    assert(ips.deep_view() =~= default_server_ips());
    ResolvedDns { servers: default_dns_servers(), backend: DnsBackend::Custom(ips) }
}

/// The persisted document.
#[derive(Debug)]
pub struct SettingsDoc {
    pub dns_servers: Vec<String>,
    pub nav_timeout_ms: u64,
    pub jar_default_ttl_secs: u64,
    pub jar_fail_streak: u32,
    pub flaresolverr_session_ttl_secs: u64,
    pub idle_shutdown_secs: u64,
}

/// What the settings, or a document of them, stand for.
#[verifier::ext_equal]
pub struct SettingsModel {
    pub dns_servers: Seq<Seq<char>>,
    pub nav_timeout_ms: u64,
    pub jar_default_ttl_secs: u64,
    pub jar_fail_streak: u32,
    pub flaresolverr_session_ttl_secs: u64,
    pub idle_shutdown_secs: u64,
}

impl View for SettingsDoc {
    type V = SettingsModel;

    open spec fn view(&self) -> SettingsModel {
        SettingsModel {
            dns_servers: self.dns_servers.deep_view(),
            nav_timeout_ms: self.nav_timeout_ms,
            jar_default_ttl_secs: self.jar_default_ttl_secs,
            jar_fail_streak: self.jar_fail_streak,
            flaresolverr_session_ttl_secs: self.flaresolverr_session_ttl_secs,
            idle_shutdown_secs: self.idle_shutdown_secs,
        }
    }
}

impl SettingsModel {
    pub open spec fn defaults() -> SettingsModel {
        SettingsModel {
            dns_servers: default_servers(),
            nav_timeout_ms: 30_000,
            jar_default_ttl_secs: 2700,
            jar_fail_streak: 3,
            flaresolverr_session_ttl_secs: 1800,
            idle_shutdown_secs: 900,
        }
    }

    /// A document as it is taken over: servers that are no addresses, or that no
    /// resolver could be made for, give way to the default ones, and a streak is
    /// at least one.
    pub open spec fn loaded(self, made: Result<(), Seq<char>>) -> SettingsModel {
        SettingsModel {
            dns_servers: if lookup_fault(self.dns_servers, made) is None {
                self.dns_servers
            } else {
                default_servers()
            },
            jar_fail_streak: at_least_one(self.jar_fail_streak),
            ..self
        }
    }

    /// The settings after a change that was accepted.
    pub open spec fn patched(self, p: PatchModel) -> SettingsModel {
        SettingsModel {
            dns_servers: match p.dns_servers {
                Some(s) => s,
                None => self.dns_servers,
            },
            nav_timeout_ms: match p.nav_timeout_ms {
                Some(v) => v,
                None => self.nav_timeout_ms,
            },
            jar_default_ttl_secs: match p.jar_default_ttl_secs {
                Some(v) => v,
                None => self.jar_default_ttl_secs,
            },
            jar_fail_streak: match p.jar_fail_streak {
                Some(v) => at_least_one(v),
                None => self.jar_fail_streak,
            },
            flaresolverr_session_ttl_secs: match p.flaresolverr_session_ttl_secs {
                Some(v) => v,
                None => self.flaresolverr_session_ttl_secs,
            },
            idle_shutdown_secs: match p.idle_shutdown_secs {
                Some(v) => v,
                None => self.idle_shutdown_secs,
            },
        }
    }
}

impl Default for SettingsDoc {
    fn default() -> (r: SettingsDoc)
        ensures
            r@ == SettingsModel::defaults(),
    {
        SettingsDoc {
            dns_servers: default_dns_servers(),
            nav_timeout_ms: 30_000,
            jar_default_ttl_secs: 2700,
            jar_fail_streak: 3,
            flaresolverr_session_ttl_secs: 1800,
            idle_shutdown_secs: 900,
        }
    }
}

pub open spec fn at_least_one(n: u32) -> u32 {
    if n == 0 {
        1
    } else {
        n
    }
}

fn max_one(n: u32) -> (r: u32)
    ensures
        r == at_least_one(n),
{
    if n == 0 {
        1
    } else {
        n
    }
}

/// The settings as the API shows them.
#[derive(Debug)]
pub struct SettingsView {
    pub dns_servers: Vec<String>,
    pub nav_timeout_ms: u64,
    pub jar_default_ttl_secs: u64,
    pub jar_fail_streak: u32,
    pub flaresolverr_session_ttl_secs: u64,
    pub idle_shutdown_secs: u64,
}

impl View for SettingsView {
    type V = SettingsModel;

    open spec fn view(&self) -> SettingsModel {
        SettingsModel {
            dns_servers: self.dns_servers.deep_view(),
            nav_timeout_ms: self.nav_timeout_ms,
            jar_default_ttl_secs: self.jar_default_ttl_secs,
            jar_fail_streak: self.jar_fail_streak,
            flaresolverr_session_ttl_secs: self.flaresolverr_session_ttl_secs,
            idle_shutdown_secs: self.idle_shutdown_secs,
        }
    }
}

/// A change: only the fields that are present are changed.
#[derive(Debug)]
pub struct SettingsPatch {
    pub dns_servers: Option<Vec<String>>,
    pub nav_timeout_ms: Option<u64>,
    pub jar_default_ttl_secs: Option<u64>,
    pub jar_fail_streak: Option<u32>,
    pub flaresolverr_session_ttl_secs: Option<u64>,
    pub idle_shutdown_secs: Option<u64>,
}

/// What a change stands for.
#[verifier::ext_equal]
pub struct PatchModel {
    pub dns_servers: Option<Seq<Seq<char>>>,
    pub nav_timeout_ms: Option<u64>,
    pub jar_default_ttl_secs: Option<u64>,
    pub jar_fail_streak: Option<u32>,
    pub flaresolverr_session_ttl_secs: Option<u64>,
    pub idle_shutdown_secs: Option<u64>,
}

impl View for SettingsPatch {
    type V = PatchModel;

    open spec fn view(&self) -> PatchModel {
        PatchModel {
            dns_servers: self.dns_servers.deep_view(),
            nav_timeout_ms: self.nav_timeout_ms,
            jar_default_ttl_secs: self.jar_default_ttl_secs,
            jar_fail_streak: self.jar_fail_streak,
            flaresolverr_session_ttl_secs: self.flaresolverr_session_ttl_secs,
            idle_shutdown_secs: self.idle_shutdown_secs,
        }
    }
}

impl PatchModel {
    /// The change that changes nothing.
    pub open spec fn empty() -> PatchModel {
        PatchModel {
            dns_servers: None,
            nav_timeout_ms: None,
            jar_default_ttl_secs: None,
            jar_fail_streak: None,
            flaresolverr_session_ttl_secs: None,
            idle_shutdown_secs: None,
        }
    }

    /// What is wrong with a change: a server that is no address, or a resolver
    /// that could not be made for the servers.
    pub open spec fn fault(self, made: Result<(), Seq<char>>) -> Option<ErrorView> {
        match self.dns_servers {
            Some(servers) => lookup_fault(servers, made),
            None => None,
        }
    }
}

impl Default for SettingsPatch {
    fn default() -> (r: SettingsPatch)
        ensures
            r@ == PatchModel::empty(),
    {
        SettingsPatch {
            dns_servers: None,
            nav_timeout_ms: None,
            jar_default_ttl_secs: None,
            jar_fail_streak: None,
            flaresolverr_session_ttl_secs: None,
            idle_shutdown_secs: None,
        }
    }
}

/// Live settings store.
pub struct RuntimeSettings {
    dns: ResolvedDns,
    nav_timeout_ms: u64,
    jar_default_ttl_secs: u64,
    jar_fail_streak: u32,
    flaresolverr_session_ttl_secs: u64,
    idle_shutdown_secs: u64,
}

impl RuntimeSettings {
    /// What the settings stand for.
    pub closed spec fn model(&self) -> SettingsModel {
        SettingsModel {
            dns_servers: self.dns.servers.deep_view(),
            nav_timeout_ms: self.nav_timeout_ms,
            jar_default_ttl_secs: self.jar_default_ttl_secs,
            jar_fail_streak: self.jar_fail_streak,
            flaresolverr_session_ttl_secs: self.flaresolverr_session_ttl_secs,
            idle_shutdown_secs: self.idle_shutdown_secs,
        }
    }

    /// What names are looked up with.
    pub closed spec fn dns(&self) -> ResolvedModel {
        self.dns@
    }

    /// The lookups use the servers shown, and a streak is at least one.
    pub open spec fn wf(&self) -> bool {
        &&& self.model().jar_fail_streak >= 1
        &&& dns_of(self.model().dns_servers) == Ok::<ResolvedModel, ErrorView>(self.dns())
    }

    /// The settings of the document that was persisted, or the defaults. Servers
    /// that are no addresses, or that no resolver could be made for, give way to
    /// the default ones; `made` says whether one could be made for the servers of
    /// the document.
    pub fn new(persisted: Option<SettingsDoc>, made: &Result<(), String>) -> (r: RuntimeSettings)
        ensures
            r.wf(),
            r.model() == match persisted {
                Some(d) => d@.loaded(resolver_made(*made)),
                None => SettingsModel::defaults(),
            },
    {
        proof {
            the_default_servers_are_addresses();
        }
        let doc = match persisted {
            Some(d) => d,
            None => SettingsDoc::default(),
        };
        let dns = match made_dns(&doc.dns_servers, made) {
            Ok(d) => d,
            Err(_) => default_dns(),
        };
        RuntimeSettings {
            dns,
            nav_timeout_ms: doc.nav_timeout_ms,
            jar_default_ttl_secs: doc.jar_default_ttl_secs,
            jar_fail_streak: max_one(doc.jar_fail_streak),
            flaresolverr_session_ttl_secs: doc.flaresolverr_session_ttl_secs,
            idle_shutdown_secs: doc.idle_shutdown_secs,
        }
    }

    pub fn view(&self) -> (r: SettingsView)
        ensures
            r@ == self.model(),
    {
        SettingsView {
            dns_servers: copy_texts(&self.dns.servers),
            nav_timeout_ms: self.nav_timeout_ms,
            jar_default_ttl_secs: self.jar_default_ttl_secs,
            jar_fail_streak: self.jar_fail_streak,
            flaresolverr_session_ttl_secs: self.flaresolverr_session_ttl_secs,
            idle_shutdown_secs: self.idle_shutdown_secs,
        }
    }

    /// What is to be persisted.
    pub fn document(&self) -> (r: SettingsDoc)
        ensures
            r@ == self.model(),
    {
        SettingsDoc {
            dns_servers: copy_texts(&self.dns.servers),
            nav_timeout_ms: self.nav_timeout_ms,
            jar_default_ttl_secs: self.jar_default_ttl_secs,
            jar_fail_streak: self.jar_fail_streak,
            flaresolverr_session_ttl_secs: self.flaresolverr_session_ttl_secs,
            idle_shutdown_secs: self.idle_shutdown_secs,
        }
    }

    /// Apply a partial update and return the fresh settings. The servers are
    /// checked before anything is changed, so that a bad request never partially
    /// applies; `made` says whether a resolver could be made for them.
    pub fn apply(&mut self, patch: &SettingsPatch, made: &Result<(), String>) -> (r: Result<
        SettingsView,
        CobwebError,
    >)
        requires
            old(self).wf(),
        ensures
            final(self).wf(),
            match patch@.fault(resolver_made(*made)) {
                Some(f) => r matches Err(e) && e@ == f && final(self).model() == old(self).model()
                    && final(self).dns() == old(self).dns(),
                None => r matches Ok(v) && v@ == old(self).model().patched(patch@) && final(self).model() == old(self).model().patched(patch@) && match patch@.dns_servers {
                    Some(s) => Ok::<ResolvedModel, ErrorView>(final(self).dns()) == dns_of(s),
                    None => final(self).dns() == old(self).dns(),
                },
            },
    {
        match &patch.dns_servers {
            Some(servers) => {
                match made_dns(servers, made) {
                    Ok(dns) => {
                        self.dns = dns;
                    },
                    Err(e) => {
                        return Err(e);
                    },
                }
            },
            None => {},
        }
        match patch.nav_timeout_ms {
            Some(v) => {
                self.nav_timeout_ms = v;
            },
            None => {},
        }
        match patch.jar_default_ttl_secs {
            Some(v) => {
                self.jar_default_ttl_secs = v;
            },
            None => {},
        }
        match patch.jar_fail_streak {
            Some(v) => {
                self.jar_fail_streak = max_one(v);
            },
            None => {},
        }
        match patch.flaresolverr_session_ttl_secs {
            Some(v) => {
                self.flaresolverr_session_ttl_secs = v;
            },
            None => {},
        }
        match patch.idle_shutdown_secs {
            Some(v) => {
                self.idle_shutdown_secs = v;
            },
            None => {},
        }
        Ok(self.view())
    }

    pub fn nav_timeout_ms(&self) -> (r: u64)
        ensures
            r == self.model().nav_timeout_ms,
    {
        self.nav_timeout_ms
    }

    pub fn jar_default_ttl_secs(&self) -> (r: u64)
        ensures
            r == self.model().jar_default_ttl_secs,
    {
        self.jar_default_ttl_secs
    }

    pub fn jar_fail_streak(&self) -> (r: u32)
        ensures
            r == self.model().jar_fail_streak,
    {
        self.jar_fail_streak
    }

    pub fn flaresolverr_session_ttl_secs(&self) -> (r: u64)
        ensures
            r == self.model().flaresolverr_session_ttl_secs,
    {
        self.flaresolverr_session_ttl_secs
    }

    pub fn idle_shutdown_secs(&self) -> (r: u64)
        ensures
            r == self.model().idle_shutdown_secs,
    {
        self.idle_shutdown_secs
    }

    /// After how many idle seconds the browser stops: never, which is zero,
    /// where it is kept warm.
    pub fn browser_idle_secs(&self, prewarm: bool) -> (r: u64)
        ensures
            r == if prewarm {
                0
            } else {
                self.model().idle_shutdown_secs
            },
    {
        if prewarm {
            0
        } else {
            self.idle_shutdown_secs
        }
    }

    /// What names are looked up with.
    pub fn dns_snapshot(&self) -> (r: &ResolvedDns)
        ensures
            r@ == self.dns(),
    {
        &self.dns
    }
}

/// A change touches only the fields that are present.
pub proof fn absent_fields_keep_their_value(s: SettingsModel, p: PatchModel)
    ensures
        p.dns_servers is None ==> s.patched(p).dns_servers == s.dns_servers,
        p.nav_timeout_ms is None ==> s.patched(p).nav_timeout_ms == s.nav_timeout_ms,
        p.jar_default_ttl_secs is None ==> s.patched(p).jar_default_ttl_secs
            == s.jar_default_ttl_secs,
        p.jar_fail_streak is None ==> s.patched(p).jar_fail_streak == s.jar_fail_streak,
        p.flaresolverr_session_ttl_secs is None ==> s.patched(p).flaresolverr_session_ttl_secs
            == s.flaresolverr_session_ttl_secs,
        p.idle_shutdown_secs is None ==> s.patched(p).idle_shutdown_secs == s.idle_shutdown_secs,
        s.patched(PatchModel::empty()) == s,
{
}

/// Applying a change twice is applying it once.
pub proof fn changes_are_idempotent(s: SettingsModel, p: PatchModel)
    ensures
        s.patched(p).patched(p) == s.patched(p),
{
}

/// What was persisted after a change is what a restart loads, where a resolver can
/// be made for the servers again.
pub proof fn settings_survive_a_restart(s: SettingsModel)
    requires
        dns_of(s.dns_servers) is Ok,
        s.jar_fail_streak >= 1,
    ensures
        s.loaded(Ok(())) == s,
{
}

/// Where no resolver can be made for the servers that were persisted, a restart
/// takes the default ones and keeps everything else.
pub proof fn a_restart_falls_back_to_the_default_servers(s: SettingsModel, e: Seq<char>)
    requires
        s.dns_servers.len() > 0,
        s.jar_fail_streak >= 1,
    ensures
        s.loaded(Err(e)) == (SettingsModel { dns_servers: default_servers(), ..s }),
{
}

/// A change with a server that is no address is refused, whatever else it holds.
pub proof fn one_bad_server_refuses_the_change(p: PatchModel, made: Result<(), Seq<char>>)
    requires
        p.dns_servers matches Some(s) && s.len() > 0 && server_ips(s) is Err,
    ensures
        p.fault(made) matches Some(ErrorView::BadRequest(_)),
{
}

/// A field that is present takes the value that it says, whatever else a change
/// holds; a streak is at least one.
pub proof fn present_fields_take_their_value(s: SettingsModel, p: PatchModel)
    ensures
        p.dns_servers matches Some(v) ==> s.patched(p).dns_servers == v,
        p.nav_timeout_ms matches Some(v) ==> s.patched(p).nav_timeout_ms == v,
        p.jar_default_ttl_secs matches Some(v) ==> s.patched(p).jar_default_ttl_secs == v,
        p.jar_fail_streak matches Some(v) ==> (v >= 1 ==> s.patched(p).jar_fail_streak == v) && (v
            == 0 ==> s.patched(p).jar_fail_streak == 1),
        p.flaresolverr_session_ttl_secs matches Some(v) ==> s.patched(
            p,
        ).flaresolverr_session_ttl_secs == v,
        p.idle_shutdown_secs matches Some(v) ==> s.patched(p).idle_shutdown_secs == v,
{
}

/// The servers that are asked are all that are named, in their order, by their
/// addresses; without any the system is asked.
pub proof fn every_named_server_is_asked(servers: Seq<Seq<char>>, i: int)
    requires
        forall|k: int| 0 <= k < servers.len() ==> ip_of(#[trigger] servers[k]) is Some,
    ensures
        servers.len() == 0 ==> (dns_of(servers) matches Ok(d) && d.backend is System),
        servers.len() > 0 ==> (dns_of(servers) matches Ok(d) && d.servers == servers
            && (d.backend matches DnsModel::Custom(ips) && ips.len() == servers.len() && (0 <= i
            < servers.len() ==> Some(ips[i]) == ip_of(servers[i])))),
{
    lemma_server_ips(servers, i);
}

proof fn lemma_server_ips(servers: Seq<Seq<char>>, i: int)
    requires
        forall|k: int| 0 <= k < servers.len() ==> ip_of(#[trigger] servers[k]) is Some,
    ensures
        server_ips(servers) matches Ok(ips) && ips.len() == servers.len() && (0 <= i < servers.len()
            ==> Some(ips[i]) == ip_of(servers[i])),
    decreases servers.len(),
{
    if servers.len() > 0 {
        let front = servers.drop_last();
        assert forall|k: int| 0 <= k < front.len() implies ip_of(#[trigger] front[k]) is Some by {
            assert(front[k] == servers[k]);
        }
        lemma_server_ips(front, i);
        assert(ip_of(servers[servers.len() - 1]) is Some);
    }
}

/// A server that is no address refuses a list, wherever it stands.
pub proof fn any_bad_server_refuses_a_list(
    servers: Seq<Seq<char>>,
    made: Result<(), Seq<char>>,
    i: int,
)
    requires
        0 <= i < servers.len(),
        ip_of(servers[i]) is None,
    ensures
        dns_of(servers) is Err,
        lookup_fault(servers, made) is Some,
{
    lemma_some_bad(servers, i);
}

proof fn lemma_some_bad(servers: Seq<Seq<char>>, i: int)
    requires
        0 <= i < servers.len(),
        ip_of(servers[i]) is None,
    ensures
        server_ips(servers) is Err,
    decreases servers.len(),
{
    if i < servers.len() - 1 {
        lemma_some_bad(servers.drop_last(), i);
    }
}

/// A change is refused only over its servers: those that are addresses and that a
/// resolver was made for are taken, and a change without servers always is.
pub proof fn sound_changes_are_taken(p: PatchModel, servers: Seq<Seq<char>>)
    ensures
        p.dns_servers is None ==> forall|made: Result<(), Seq<char>>| #[trigger]
            p.fault(made) is None,
        p.dns_servers == Some(servers) && (forall|k: int|
            0 <= k < servers.len() ==> ip_of(#[trigger] servers[k]) is Some) ==> p.fault(
            Ok(()),
        ) is None,
        p.dns_servers == Some(servers) && servers.len() == 0 ==> forall|made: Result<
            (),
            Seq<char>,
        >| #[trigger]
            p.fault(made) is None,
{
    if forall|k: int| 0 <= k < servers.len() ==> ip_of(#[trigger] servers[k]) is Some {
        lemma_server_ips(servers, 0);
    }
}

} // verus!
