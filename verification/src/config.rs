//! Configuration: plain data that the program reads once at startup.

use vstd::prelude::*;

use crate::error::{CobwebError, ErrorView};
use crate::ip::{ip_of, IpAddr, IpView};
use crate::text::{cat, cat3, parse_u64, parsed_nat, same, trim, trimmed};
use crate::weburl::{url_parsed, Url};

verus! {

/// Top-level config file.
#[derive(Debug)]
pub struct Config {
    pub server: ServerConfig,
    pub browser: BrowserConfig,
    pub jar: JarConfig,
    /// `[egress.<name>]` tables, by name. Every request picks one by name (or
    /// passes a raw `proxy_url`).
    pub egress: Vec<(String, EgressConfig)>,
    pub flaresolverr: FlaresolverrConfig,
    pub ytdlp: YtdlpConfig,
    pub blocklist: BlocklistConfig,
    pub settings: SettingsConfig,
    pub log: LogConfig,
}

#[derive(Debug)]
pub struct ServerConfig {
    /// Address to bind. Defaults to loopback: the API fetches on behalf of its
    /// callers, so it must not face an untrusted network.
    pub bind: String,
    pub port: u16,
    pub browser_engine: BrowserEngine,
    /// Concurrent browser contexts; requests beyond this queue.
    pub max_contexts: usize,
    /// Relaxes the address guard for the operator's own network.
    pub allow_private_targets: bool,
    /// Shared secret required on every request except `GET /health`.
    pub api_key: Option<String>,
}

#[derive(Debug, Clone, Copy, PartialEq, Eq, Structural)]
pub enum BrowserEngine {
    /// Tiers 3-4 disabled.
    Disabled,
    /// Full pipeline.
    Chromium,
}

/// `[browser]`: how the tier-3 Chromium is launched.
#[derive(Debug)]
pub struct BrowserConfig {
    /// Chromium binary. `"auto"` searches for common names.
    pub chromium_path: String,
    /// Pass `--no-sandbox`.
    pub no_sandbox: bool,
    /// Launch at startup and never shut down when idle.
    pub prewarm: bool,
    /// Run headful on a virtual display.
    pub xvfb: bool,
    /// Extra flags appended to the command line.
    pub extra_args: Vec<String>,
}

/// `[jar]`: just the on-disk path.
#[derive(Debug)]
pub struct JarConfig {
    pub path: String,
}

#[derive(Debug)]
pub struct EgressConfig {
    /// SOCKS5/HTTP proxy URL. Empty for none, which only `direct` may have.
    pub proxy: String,
}

#[derive(Debug)]
pub struct FlaresolverrConfig {
    /// Unset disables the outbound delegate.
    pub endpoint: Option<String>,
}

#[derive(Debug)]
pub struct YtdlpConfig {
    pub enabled: bool,
    pub bin: String,
    pub hosts: Vec<String>,
}

/// `[blocklist]`: operational knobs. The lists themselves are runtime state.
#[derive(Debug)]
pub struct BlocklistConfig {
    /// Where the source list and the master switch are persisted.
    pub state_path: String,
    /// How often to re-fetch every enabled source (seconds).
    pub refresh_interval_secs: u64,
    /// Extra domains to block.
    pub extra_domains: Vec<String>,
    /// Domains to never block, even if a source lists them.
    pub allow_domains: Vec<String>,
}

/// `[settings]`: where the runtime settings are persisted.
#[derive(Debug)]
pub struct SettingsConfig {
    pub state_path: String,
}

#[derive(Debug)]
pub struct LogConfig {
    pub level: String,
}

/// What decisions read of a configuration.
#[verifier::ext_equal]
pub struct ConfigView {
    pub server: ServerView,
    /// Names and proxies.
    pub egress: Seq<(Seq<char>, Seq<char>)>,
}

#[verifier::ext_equal]
pub struct ServerView {
    pub bind: Seq<char>,
    pub port: u16,
    pub browser_engine: BrowserEngine,
    pub max_contexts: usize,
    pub allow_private_targets: bool,
    pub api_key: Option<Seq<char>>,
}

impl View for ServerConfig {
    type V = ServerView;

    open spec fn view(&self) -> ServerView {
        ServerView {
            bind: self.bind@,
            port: self.port,
            browser_engine: self.browser_engine,
            max_contexts: self.max_contexts,
            allow_private_targets: self.allow_private_targets,
            api_key: self.api_key.deep_view(),
        }
    }
}

impl DeepView for EgressConfig {
    type V = Seq<char>;

    open spec fn deep_view(&self) -> Seq<char> {
        self.proxy@
    }
}

impl View for Config {
    type V = ConfigView;

    open spec fn view(&self) -> ConfigView {
        ConfigView { server: self.server@, egress: self.egress.deep_view() }
    }
}

/// `127.0.0.1`.
pub open spec fn loopback() -> IpView {
    IpView::V4(127, 0, 0, 1)
}

/// Who can reach the API.
#[derive(Debug, Clone, Copy, PartialEq, Eq, Structural)]
pub enum Exposure {
    /// Programs on this machine.
    Local,
    /// Anyone on the network who has the key.
    Keyed,
    /// Anyone on the network.
    Open,
}

/// `::1`.
pub open spec fn v6_loopback() -> Seq<u16> {
    seq![0u16, 0u16, 0u16, 0u16, 0u16, 0u16, 0u16, 1u16]
}

/// Whether an address is this machine's own.
pub open spec fn is_loopback(ip: IpView) -> bool {
    match ip {
        IpView::V4(a, _, _, _) => a == 127,
        IpView::V6(s) => s == v6_loopback(),
    }
}

impl ServerView {
    /// Who can reach the API.
    pub open spec fn exposure(self) -> Exposure {
        if is_loopback(self.listen_ip()) {
            Exposure::Local
        } else if self.effective_api_key() is Some {
            Exposure::Keyed
        } else {
            Exposure::Open
        }
    }

    /// The configured key; a blank one counts as none.
    pub open spec fn effective_api_key(self) -> Option<Seq<char>> {
        match self.api_key {
            Some(k) => if trimmed(k).len() == 0 {
                None
            } else {
                Some(trimmed(k))
            },
            None => None,
        }
    }

    /// The address to listen on; loopback where `bind` is none.
    pub open spec fn listen_ip(self) -> IpView {
        match ip_of(self.bind) {
            Some(ip) => ip,
            None => loopback(),
        }
    }
}

impl Default for ServerConfig {
    fn default() -> (r: ServerConfig)
        ensures
            r@ == (ServerView {
                bind: "127.0.0.1"@,
                port: 8191,
                browser_engine: BrowserEngine::Disabled,
                max_contexts: 2,
                allow_private_targets: false,
                api_key: None,
            }),
    {
        ServerConfig {
            bind: "127.0.0.1".to_owned(),
            port: 8191,
            browser_engine: BrowserEngine::Disabled,
            max_contexts: 2,
            allow_private_targets: false,
            api_key: None,
        }
    }
}

impl ServerConfig {
    /// The configured API key, or `None` if unset or blank.
    pub fn effective_api_key(&self) -> (r: Option<String>)
        ensures
            r.deep_view() == self@.effective_api_key(),
    {
        match &self.api_key {
            Some(k) => {
                let t = trim(k.as_str());
                if t.as_str().unicode_len() == 0 {
                    None
                } else {
                    Some(t)
                }
            },
            None => None,
        }
    }

    /// Where to listen.
    pub fn listen_addr(&self) -> (r: (IpAddr, u16))
        ensures
            r.0@ == self@.listen_ip(),
            r.1 == self@.port,
    {
        let ip = match IpAddr::parse(self.bind.as_str()) {
            Some(ip) => ip,
            None => IpAddr::V4(127, 0, 0, 1),
        };
        (ip, self.port)
    }

    /// Who can reach the API.
    pub fn exposure(&self) -> (r: Exposure)
        ensures
            r == self@.exposure(),
    {
        let (ip, _) = self.listen_addr();
        let local = match ip {
            IpAddr::V4(a, _, _, _) => a == 127,
            IpAddr::V6(s) => s[0] == 0 && s[1] == 0 && s[2] == 0 && s[3] == 0 && s[4] == 0 && s[5]
                == 0 && s[6] == 0 && s[7] == 1,
        };
        proof {
            match ip@ {
                IpView::V6(s) => {
                    assert(s.len() == 8);
                    assert(local <==> s =~= v6_loopback());
                },
                _ => {},
            }
        }
        if local {
            Exposure::Local
        } else if self.effective_api_key().is_some() {
            Exposure::Keyed
        } else {
            Exposure::Open
        }
    }
}

impl Default for BrowserConfig {
    fn default() -> (r: BrowserConfig)
        ensures
            r.chromium_path@ == "auto"@,
            !r.no_sandbox && !r.prewarm && !r.xvfb,
            r.extra_args.deep_view() == Seq::<Seq<char>>::empty(),
    {
        let r = BrowserConfig {
            chromium_path: "auto".to_owned(),
            no_sandbox: false,
            prewarm: false,
            xvfb: false,
            extra_args: Vec::new(),
        };
        assert(r.extra_args.deep_view() =~= seq![]);
        r
    }
}

impl Default for JarConfig {
    fn default() -> (r: JarConfig)
        ensures
            r.path@ == "/data/jar"@,
    {
        JarConfig { path: "/data/jar".to_owned() }
    }
}

impl Default for FlaresolverrConfig {
    fn default() -> (r: FlaresolverrConfig)
        ensures
            r.endpoint is None,
    {
        FlaresolverrConfig { endpoint: None }
    }
}

impl Default for YtdlpConfig {
    fn default() -> (r: YtdlpConfig)
        ensures
            !r.enabled,
            r.bin@ == "yt-dlp"@,
            r.hosts.deep_view() == Seq::<Seq<char>>::empty(),
    {
        let r = YtdlpConfig { enabled: false, bin: "yt-dlp".to_owned(), hosts: Vec::new() };
        assert(r.hosts.deep_view() =~= seq![]);
        r
    }
}

impl Default for BlocklistConfig {
    fn default() -> (r: BlocklistConfig)
        ensures
            r.state_path@ == "/data/blocklist/state.json"@,
            r.refresh_interval_secs == 86_400,
            r.extra_domains.deep_view() == Seq::<Seq<char>>::empty(),
            r.allow_domains.deep_view() == Seq::<Seq<char>>::empty(),
    {
        let r = BlocklistConfig {
            state_path: "/data/blocklist/state.json".to_owned(),
            refresh_interval_secs: 86_400,
            extra_domains: Vec::new(),
            allow_domains: Vec::new(),
        };
        assert(r.extra_domains.deep_view() =~= seq![]);
        assert(r.allow_domains.deep_view() =~= seq![]);
        r
    }
}

impl Default for SettingsConfig {
    fn default() -> (r: SettingsConfig)
        ensures
            r.state_path@ == "/data/settings.json"@,
    {
        SettingsConfig { state_path: "/data/settings.json".to_owned() }
    }
}

impl Default for LogConfig {
    fn default() -> (r: LogConfig)
        ensures
            r.level@ == "info"@,
    {
        LogConfig { level: "info".to_owned() }
    }
}

/// What is wrong with a configured egress, if anything. Only `direct` may do
/// without a proxy.
pub open spec fn egress_fault(name: Seq<char>, proxy: Seq<char>) -> Option<ErrorView> {
    if proxy.len() == 0 {
        if name == "direct"@ {
            None
        } else {
            Some(ErrorView::Config(proxyless(name)))
        }
    } else if url_parsed(proxy) is Err {
        Some(ErrorView::Config("egress `"@ + name + "`: proxy is not a valid URL: "@ + proxy))
    } else {
        None
    }
}

/// What is said of a profile that has no proxy and needs one.
pub open spec fn proxyless(name: Seq<char>) -> Seq<char> {
    "egress `"@ + name + "`: only `direct` may have no proxy"@
}

/// What is said of a profile that has no proxy and needs one.
pub(crate) fn proxyless_text(name: &str) -> (r: String)
    ensures
        r@ == proxyless(name@),
{
    cat3("egress `", name, "`: only `direct` may have no proxy")
}

/// What is wrong with the first configured egress that something is wrong with.
pub open spec fn first_egress_fault(egress: Seq<(Seq<char>, Seq<char>)>) -> Option<ErrorView>
    decreases egress.len(),
{
    if egress.len() == 0 {
        None
    } else {
        match egress_fault(egress[0].0, egress[0].1) {
            Some(e) => Some(e),
            None => first_egress_fault(egress.skip(1)),
        }
    }
}

/// What is wrong with a configuration, if anything: the bind address, then the
/// egress profiles, then the number of contexts.
pub open spec fn config_fault(c: ConfigView) -> Option<ErrorView> {
    if ip_of(c.server.bind) is None {
        Some(ErrorView::Config("server.bind is not a valid IP address: "@ + c.server.bind))
    } else if c.egress.len() == 0 {
        Some(
            ErrorView::Config(
                "no [egress.*] profiles configured; at least `direct` is required"@,
            ),
        )
    } else {
        match first_egress_fault(c.egress) {
            Some(e) => Some(e),
            None => if c.server.max_contexts == 0 {
                Some(ErrorView::Config("server.max_contexts must be >= 1"@))
            } else {
                None
            },
        }
    }
}

impl Config {
    /// A minimal usable default.
    pub fn minimal() -> (r: Config)
        ensures
            r@ == (ConfigView {
                server: ServerView {
                    bind: "127.0.0.1"@,
                    port: 8191,
                    browser_engine: BrowserEngine::Disabled,
                    max_contexts: 2,
                    allow_private_targets: false,
                    api_key: None,
                },
                egress: seq![("direct"@, Seq::<char>::empty())],
            }),
            r.jar.path@ == "/data/jar"@,
            r.browser.chromium_path@ == "auto"@,
            !r.browser.xvfb,
            !r.browser.no_sandbox,
            !r.browser.prewarm,
            r.browser.extra_args.deep_view() == Seq::<Seq<char>>::empty(),
            r.flaresolverr.endpoint is None,
            !r.ytdlp.enabled,
            r.ytdlp.bin@ == "yt-dlp"@,
            r.ytdlp.hosts.deep_view() == Seq::<Seq<char>>::empty(),
            r.blocklist.extra_domains.deep_view() == Seq::<Seq<char>>::empty(),
            r.blocklist.allow_domains.deep_view() == Seq::<Seq<char>>::empty(),
            r.blocklist.state_path@ == "/data/blocklist/state.json"@,
            r.blocklist.refresh_interval_secs == 86_400,
            r.settings.state_path@ == "/data/settings.json"@,
            r.log.level@ == "info"@,
    {
        let mut egress: Vec<(String, EgressConfig)> = Vec::new();
        egress.push(("direct".to_owned(), EgressConfig { proxy: String::new() }));
        let r = Config {
            server: ServerConfig::default(),
            browser: BrowserConfig::default(),
            jar: JarConfig::default(),
            egress,
            flaresolverr: FlaresolverrConfig::default(),
            ytdlp: YtdlpConfig::default(),
            blocklist: BlocklistConfig::default(),
            settings: SettingsConfig::default(),
            log: LogConfig::default(),
        };
        assert(r.egress@[0].1.proxy@ =~= Seq::<char>::empty());
        assert(r@.egress =~= seq![("direct"@, Seq::<char>::empty())]);
        r
    }

    /// Refuse a configuration that cannot work.
    pub fn validate(&self) -> (r: Result<(), CobwebError>)
        ensures
            match r {
                Ok(()) => config_fault(self@) is None,
                Err(e) => config_fault(self@) == Some(e@),
            },
    {
        if IpAddr::parse(self.server.bind.as_str()).is_none() {
            return Err(
                CobwebError::Config(
                    cat("server.bind is not a valid IP address: ", self.server.bind.as_str()),
                ),
            );
        }
        let ghost all = self@.egress;
        assert(all.len() == self.egress@.len());
        if self.egress.len() == 0 {
            return Err(
                CobwebError::Config(
                    "no [egress.*] profiles configured; at least `direct` is required".to_owned(),
                ),
            );
        }
        assert(all.skip(0) =~= all);
        for i in 0..self.egress.len()
            invariant
                all == self@.egress,
                ip_of(self@.server.bind) is Some,
                all.len() > 0,
                first_egress_fault(all.skip(i as int)) == first_egress_fault(all),
        {
            let name: &String = &self.egress[i].0;
            let proxy: &String = &self.egress[i].1.proxy;
            assert(all.skip(i as int)[0] == (name@, proxy@));
            assert(all.skip(i as int).skip(1) =~= all.skip(i + 1));
            if proxy.as_str().unicode_len() == 0 {
                if !same(name.as_str(), "direct") {
                    return Err(CobwebError::Config(proxyless_text(name.as_str())));
                }
            } else {
                match Url::parse(proxy.as_str()) {
                    Ok(_) => {},
                    Err(_) => {
                        return Err(
                            CobwebError::Config(
                                cat(
                                    cat3(
                                        "egress `",
                                        name.as_str(),
                                        "`: proxy is not a valid URL: ",
                                    ).as_str(),
                                    proxy.as_str(),
                                ),
                            ),
                        );
                    },
                }
            }
        }
        if self.server.max_contexts == 0 {
            return Err(CobwebError::Config("server.max_contexts must be >= 1".to_owned()));
        }
        Ok(())
    }
}

/// A configuration that passes listens where it says.
pub proof fn valid_configuration_binds_where_it_says(c: ConfigView)
    requires
        config_fault(c) is None,
    ensures
        ip_of(c.server.bind) == Some(c.server.listen_ip()),
        c.server.max_contexts >= 1,
        c.egress.len() >= 1,
{
}

/// How many worker threads to run: as many as the environment asks for, or two.
pub fn worker_threads(asked: &Option<String>) -> (r: usize)
    ensures
        r == match asked.deep_view() {
            Some(s) => match parsed_nat(s, usize::MAX as nat) {
                Some(n) => if n >= 1 {
                    n as usize
                } else {
                    2
                },
                None => 2,
            },
            None => 2,
        },
{
    match asked {
        Some(s) => match parse_u64(s.as_str()) {
            Some(n) => if n >= 1 && n <= usize::MAX as u64 {
                n as usize
            } else {
                2
            },
            None => 2,
        },
        None => 2,
    }
}

/// The log filter of a configured level.
pub fn log_filter(level: &str) -> (r: String)
    ensures
        r@ == "warn,cobweb="@ + level@ + ",tower_http=info"@,
{
    cat3("warn,cobweb=", level, ",tower_http=info")
}

/// Any one egress that is wrong refuses a configuration, and the first one says
/// why.
pub proof fn the_first_bad_egress_is_named(egress: Seq<(Seq<char>, Seq<char>)>, i: int)
    ensures
        (forall|k: int|
            0 <= k < egress.len() ==> egress_fault((#[trigger] egress[k]).0, egress[k].1) is None)
            ==> first_egress_fault(egress) is None,
        0 <= i < egress.len() && egress_fault(egress[i].0, egress[i].1) is Some
            ==> first_egress_fault(egress) is Some,
        0 <= i < egress.len() && egress_fault(egress[i].0, egress[i].1) is Some && (forall|k: int|
            0 <= k < i ==> egress_fault((#[trigger] egress[k]).0, egress[k].1) is None)
            ==> first_egress_fault(egress) == egress_fault(egress[i].0, egress[i].1),
    decreases egress.len(),
{
    if egress.len() > 0 {
        let rest = egress.skip(1);
        the_first_bad_egress_is_named(rest, i - 1);
        assert forall|k: int| 0 <= k < rest.len() implies #[trigger] rest[k] == egress[k + 1] by {}
        if forall|k: int|
            0 <= k < egress.len() ==> egress_fault((#[trigger] egress[k]).0, egress[k].1) is None {
            assert(egress_fault(egress[0].0, egress[0].1) is None);
            assert forall|k: int| 0 <= k < rest.len() implies egress_fault(
                (#[trigger] rest[k]).0,
                rest[k].1,
            ) is None by {
                assert(egress_fault(egress[k + 1].0, egress[k + 1].1) is None);
            }
        }
        if 0 < i < egress.len() {
            assert(rest[i - 1] == egress[i]);
            if forall|k: int|
                0 <= k < i ==> egress_fault((#[trigger] egress[k]).0, egress[k].1) is None {
                assert(egress_fault(egress[0].0, egress[0].1) is None);
                assert forall|k: int| 0 <= k < i - 1 implies egress_fault(
                    (#[trigger] rest[k]).0,
                    rest[k].1,
                ) is None by {
                    assert(egress_fault(egress[k + 1].0, egress[k + 1].1) is None);
                }
            }
        }
    }
}

/// A configuration passes exactly where it can work: it listens on an address, has
/// an egress, every egress but `direct` has a proxy that is a URL, and there is
/// room for a context.
pub proof fn workable_configurations_pass(c: ConfigView, i: int)
    ensures
        ip_of(c.server.bind) is Some && c.egress.len() > 0 && c.server.max_contexts > 0 && (
        forall|k: int|
            0 <= k < c.egress.len() ==> ((#[trigger] c.egress[k]).1.len() == 0 && c.egress[k].0
                == "direct"@) || (c.egress[k].1.len() > 0 && url_parsed(c.egress[k].1) is Ok))
            ==> config_fault(c) is None,
        ip_of(c.server.bind) is None ==> config_fault(c) is Some,
        c.egress.len() == 0 ==> config_fault(c) is Some,
        c.server.max_contexts == 0 ==> config_fault(c) is Some,
        0 <= i < c.egress.len() && c.egress[i].1.len() == 0 && c.egress[i].0 != "direct"@
            ==> config_fault(c) is Some,
        0 <= i < c.egress.len() && c.egress[i].1.len() > 0 && url_parsed(c.egress[i].1) is Err
            ==> config_fault(c) is Some,
{
    the_first_bad_egress_is_named(c.egress, i);
}

/// Only programs on this machine reach a server that listens on an address of
/// 127/8 or on ::1; any other needs a key that says something to be closed.
pub proof fn exposure_follows_address_and_key(s: ServerView, a: u8, b: u8, c: u8, d: u8)
    requires
        ip_of(s.bind) == Some(IpView::V4(a, b, c, d)),
    ensures
        a == 127 ==> s.exposure() == Exposure::Local,
        a != 127 && s.api_key is None ==> s.exposure() == Exposure::Open,
        a != 127 ==> (s.api_key matches Some(k) ==> (trimmed(k).len() > 0 ==> s.exposure()
            == Exposure::Keyed) && (trimmed(k).len() == 0 ==> s.exposure() == Exposure::Open)),
{
}

/// The key in force is the configured one without the space around it; a blank one
/// is none.
pub proof fn blank_keys_are_none(s: ServerView, k: Seq<char>)
    requires
        s.api_key == Some(k),
    ensures
        trimmed(k).len() > 0 ==> s.effective_api_key() == Some(trimmed(k)),
        trimmed(k).len() == 0 ==> s.effective_api_key() is None,
{
}

} // verus!
