use cobweb::config::{
    log_filter, worker_threads, BlocklistConfig, BrowserEngine, Config, EgressConfig, Exposure,
};
use cobweb::egress::{Egress, EgressRegistry, HealthStep};
use cobweb::error::CobwebError;
use cobweb::ip::IpAddr;
use cobweb::weburl::Url;

fn minimal() -> Config {
    Config::minimal()
}

#[test]
fn blocklist_section_is_optional() {
    assert_eq!(minimal().blocklist.state_path, "/data/blocklist/state.json");
    assert_eq!(BlocklistConfig::default().refresh_interval_secs, 86_400);
}

#[test]
fn the_minimal_configuration_switches_nothing_on() {
    let c = minimal();
    assert!(!c.browser.xvfb && !c.browser.no_sandbox && !c.browser.prewarm);
    assert!(c.browser.extra_args.is_empty());
    assert!(!c.ytdlp.enabled);
    assert_eq!(c.ytdlp.bin, "yt-dlp");
    assert!(c.ytdlp.hosts.is_empty());
    assert!(c.blocklist.extra_domains.is_empty() && c.blocklist.allow_domains.is_empty());
    assert!(c.flaresolverr.endpoint.is_none());
}

#[test]
fn rejects_config_with_no_egress() {
    let mut cfg = minimal();
    cfg.server.port = 9000;
    cfg.egress = Vec::new();
    assert!(matches!(cfg.validate(), Err(CobwebError::Config(_))));
}

#[test]
fn browser_engine_defaults_to_none() {
    assert!(minimal().server.browser_engine == BrowserEngine::Disabled);
}

#[test]
fn bind_defaults_to_loopback() {
    let cfg = minimal();
    assert_eq!(cfg.server.bind, "127.0.0.1");
    let (ip, port) = cfg.server.listen_addr();
    assert!(matches!(ip, IpAddr::V4(127, 0, 0, 1)));
    assert_eq!(port, 8191);
    assert!(cfg.validate().is_ok());
}

#[test]
fn honours_explicit_bind() {
    let mut cfg = minimal();
    cfg.server.bind = "0.0.0.0".to_string();
    assert!(cfg.validate().is_ok());
    let (ip, port) = cfg.server.listen_addr();
    assert!(matches!(ip, IpAddr::V4(0, 0, 0, 0)));
    assert_eq!(port, 8191);
}

#[test]
fn rejects_invalid_bind() {
    let mut cfg = minimal();
    cfg.server.bind = "not-an-ip".to_string();
    assert!(matches!(cfg.validate(), Err(CobwebError::Config(_))));
}

#[test]
fn rejects_a_proxy_that_is_no_url_and_no_contexts() {
    let mut cfg = minimal();
    cfg.egress.push((
        "vpn".to_string(),
        EgressConfig { proxy: "not a url".to_string() },
    ));
    assert!(matches!(cfg.validate(), Err(CobwebError::Config(_))));
    let mut cfg = minimal();
    cfg.server.max_contexts = 0;
    assert!(matches!(cfg.validate(), Err(CobwebError::Config(_))));
}

#[test]
fn only_direct_may_do_without_a_proxy() {
    let mut cfg = minimal();
    cfg.egress.push(("vpn".to_string(), EgressConfig { proxy: String::new() }));
    match cfg.validate() {
        Err(CobwebError::Config(m)) => {
            assert_eq!(m, "egress `vpn`: only `direct` may have no proxy")
        }
        _ => panic!("not refused"),
    }
    cfg.egress[1].1.proxy = "  ".to_string();
    assert!(matches!(
        EgressRegistry::from_config(&cfg),
        Err(CobwebError::Config(_))
    ));
    cfg.egress[1].1.proxy = "socks5://127.0.0.1:1080".to_string();
    assert!(cfg.validate().is_ok());
    let registry = EgressRegistry::from_config(&cfg).unwrap();
    assert!(registry.resolve(&some("vpn"), &None).unwrap().proxy.is_some());
    assert!(registry.resolve(&some("direct"), &None).unwrap().proxy.is_none());
}

#[test]
fn a_blank_key_counts_as_none() {
    let mut cfg = minimal();
    cfg.server.api_key = Some("  ".to_string());
    assert_eq!(cfg.server.effective_api_key(), None);
    cfg.server.api_key = Some(" k ".to_string());
    assert_eq!(cfg.server.effective_api_key().as_deref(), Some("k"));
}

#[test]
fn exposure_depends_on_the_address_and_the_key() {
    let mut cfg = minimal();
    assert!(cfg.server.exposure() == Exposure::Local);
    cfg.server.bind = "::1".to_string();
    assert!(cfg.server.exposure() == Exposure::Local);
    cfg.server.bind = "0.0.0.0".to_string();
    assert!(cfg.server.exposure() == Exposure::Open);
    cfg.server.api_key = Some("k".to_string());
    assert!(cfg.server.exposure() == Exposure::Keyed);
}

#[test]
fn the_environment_may_ask_for_threads() {
    assert_eq!(worker_threads(&None), 2);
    assert_eq!(worker_threads(&Some("8".to_string())), 8);
    assert_eq!(worker_threads(&Some("0".to_string())), 2);
    assert_eq!(worker_threads(&Some("many".to_string())), 2);
    assert_eq!(log_filter("debug"), "warn,cobweb=debug,tower_http=info");
}

fn registry() -> EgressRegistry {
    let mut cfg = minimal();
    cfg.egress = vec![
        ("direct".to_string(), EgressConfig { proxy: String::new() }),
        (
            "mullvad".to_string(),
            EgressConfig { proxy: "socks5://127.0.0.1:1080".to_string() },
        ),
    ];
    EgressRegistry::from_config(&cfg).unwrap()
}

fn some(s: &str) -> Option<String> {
    Some(s.to_string())
}

#[test]
fn resolves_named_profile() {
    let e = registry().resolve(&some("mullvad"), &None).unwrap();
    assert_eq!(e.name, "mullvad");
    assert!(e.proxy.is_some());
}

#[test]
fn unknown_named_profile_errors() {
    let err = registry().resolve(&some("nope"), &None).unwrap_err();
    assert!(matches!(err, CobwebError::UnknownEgress(_)));
}

#[test]
fn raw_proxy_url_takes_precedence_and_is_backcompat() {
    let e = registry()
        .resolve(&some("mullvad"), &some("socks5://10.0.0.1:9050"))
        .unwrap();
    assert_eq!(e.proxy.as_ref().unwrap().host_str(), Some("10.0.0.1"));
}

#[test]
fn empty_fields_resolve_to_direct() {
    let r = registry();
    assert!(r.resolve(&None, &None).unwrap().is_direct());
    assert!(r.resolve(&some(""), &some("")).unwrap().is_direct());
}

#[test]
fn direct_is_always_available() {
    assert!(matches!(
        registry().ensure_available(&Egress::direct(), 0),
        HealthStep::Ready
    ));
}

#[test]
fn unreachable_proxy_fails_closed() {
    let mut r = registry();
    let e = Egress {
        name: "dead".to_string(),
        proxy: Some(Url::parse("socks5://127.0.0.1:1").unwrap()),
    };
    match r.ensure_available(&e, 0) {
        HealthStep::Probe { address } => assert_eq!(address.as_deref(), Some("127.0.0.1:1")),
        _ => panic!("not probed"),
    }
    let err = r.probed(&e, false, 0).unwrap_err();
    assert!(matches!(err, CobwebError::EgressUnavailable { .. }));
    assert!(matches!(r.ensure_available(&e, 1), HealthStep::Refuse(_)));
    assert!(matches!(
        r.ensure_available(&e, 31_000),
        HealthStep::Probe { .. }
    ));
}

#[test]
fn health_is_remembered_for_a_while() {
    let mut r = registry();
    let e = r.resolve(&some("mullvad"), &None).unwrap();
    assert!(matches!(r.ensure_available(&e, 0), HealthStep::Probe { .. }));
    r.probed(&e, true, 0).unwrap();
    assert!(matches!(r.ensure_available(&e, 29_000), HealthStep::Ready));
}

#[test]
fn jar_keys_name_the_exit() {
    assert_eq!(Egress::direct().jar_key(), "direct");
    assert_eq!(
        registry().resolve(&some("mullvad"), &None).unwrap().jar_key(),
        "mullvad"
    );
    assert_eq!(
        Egress::from_raw_proxy("socks5://10.0.0.1:9050").unwrap().jar_key(),
        "proxy-10.0.0.1-9050"
    );
    assert!(matches!(
        Egress::from_raw_proxy("::::"),
        Err(CobwebError::BadRequest(_))
    ));
}

#[test]
fn profiles_are_named_in_order() {
    let names = registry().names();
    assert!(names.contains(&"direct".to_string()));
    assert!(names.contains(&"mullvad".to_string()));
}
