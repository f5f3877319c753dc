use cobweb::api::require_api_key;
use cobweb::api::settings::patch;
use cobweb::config::ServerConfig;
use cobweb::error::CobwebError;
use cobweb::jar::Jar;
use cobweb::settings::{DnsBackend, RuntimeSettings, SettingsDoc, SettingsPatch};

fn made() -> Result<(), String> {
    Ok(())
}

#[test]
fn defaults_match_todays_config_defaults_except_dns() {
    let s = RuntimeSettings::new(None, &made());
    assert_eq!(s.view().dns_servers, vec!["1.1.1.1", "1.0.0.1"]);
    assert_eq!(s.nav_timeout_ms(), 30_000);
    assert_eq!(s.jar_default_ttl_secs(), 2700);
    assert_eq!(s.jar_fail_streak(), 3);
    assert_eq!(s.flaresolverr_session_ttl_secs(), 1800);
    assert_eq!(s.idle_shutdown_secs(), 900);
}

#[test]
fn apply_partial_update_only_touches_given_fields() {
    let mut s = RuntimeSettings::new(None, &made());
    s.apply(
        &SettingsPatch { nav_timeout_ms: Some(5_000), ..Default::default() },
        &made(),
    )
    .unwrap();
    assert_eq!(s.nav_timeout_ms(), 5_000);
    assert_eq!(s.jar_default_ttl_secs(), 2700, "untouched field keeps its value");
}

#[test]
fn apply_rejects_a_non_ip_dns_server_and_changes_nothing() {
    let mut s = RuntimeSettings::new(None, &made());
    let err = s
        .apply(
            &SettingsPatch {
                dns_servers: Some(vec!["dns.example.com".to_string()]),
                nav_timeout_ms: Some(1),
                ..Default::default()
            },
            &made(),
        )
        .unwrap_err();
    assert_eq!(err.kind(), "bad_request");
    assert_eq!(s.view().dns_servers, vec!["1.1.1.1", "1.0.0.1"], "unchanged");
    assert_eq!(s.nav_timeout_ms(), 30_000, "unchanged");
}

#[test]
fn apply_empty_dns_servers_means_system_only() {
    let mut s = RuntimeSettings::new(None, &made());
    s.apply(
        &SettingsPatch { dns_servers: Some(Vec::new()), ..Default::default() },
        &made(),
    )
    .unwrap();
    assert!(s.view().dns_servers.is_empty());
    assert!(matches!(s.dns_snapshot().backend, DnsBackend::System));
}

#[test]
fn apply_valid_dns_servers_builds_a_custom_backend() {
    let mut s = RuntimeSettings::new(None, &made());
    s.apply(
        &SettingsPatch { dns_servers: Some(vec!["9.9.9.9".to_string()]), ..Default::default() },
        &made(),
    )
    .unwrap();
    assert_eq!(s.view().dns_servers, vec!["9.9.9.9"]);
    assert!(matches!(s.dns_snapshot().backend, DnsBackend::Custom(_)));
}

#[test]
fn persists_and_reloads() {
    let mut s = RuntimeSettings::new(None, &made());
    s.apply(
        &SettingsPatch {
            jar_fail_streak: Some(7),
            idle_shutdown_secs: Some(60),
            ..Default::default()
        },
        &made(),
    )
    .unwrap();
    let reloaded = RuntimeSettings::new(Some(s.document()), &made());
    assert_eq!(reloaded.jar_fail_streak(), 7);
    assert_eq!(reloaded.idle_shutdown_secs(), 60);
}

#[test]
fn a_corrupt_server_falls_back_to_the_default_ones() {
    let doc = SettingsDoc {
        dns_servers: vec!["8.8.8.8".to_string(), "nonsense".to_string()],
        jar_fail_streak: 0,
        ..Default::default()
    };
    let s = RuntimeSettings::new(Some(doc), &made());
    assert_eq!(s.view().dns_servers, vec!["1.1.1.1", "1.0.0.1"]);
    assert_eq!(s.jar_fail_streak(), 1, "a streak is at least one");
    match &s.dns_snapshot().backend {
        DnsBackend::Custom(ips) => assert_eq!(ips.len(), 2),
        DnsBackend::System => panic!("no servers"),
    }
}

#[test]
fn a_resolver_that_cannot_be_made_refuses_the_change() {
    let mut s = RuntimeSettings::new(None, &made());
    let bad: Result<(), String> = Err("no runtime".to_string());
    let p = SettingsPatch {
        dns_servers: Some(vec!["9.9.9.9".to_string()]),
        nav_timeout_ms: Some(1),
        ..Default::default()
    };
    match s.apply(&p, &bad) {
        Err(CobwebError::Other(m)) => assert_eq!(m, "build DNS resolver: no runtime"),
        _ => panic!("accepted"),
    }
    assert_eq!(s.nav_timeout_ms(), 30_000);
    let none = SettingsPatch { dns_servers: Some(Vec::new()), ..Default::default() };
    assert!(s.apply(&none, &bad).is_ok(), "the system resolver needs none");
}

#[test]
fn the_first_bad_server_is_named() {
    let mut s = RuntimeSettings::new(None, &made());
    let p = SettingsPatch {
        dns_servers: Some(vec![
            "1.1.1.1".to_string(),
            "first.bad".to_string(),
            "second.bad".to_string(),
        ]),
        ..Default::default()
    };
    match s.apply(&p, &made()) {
        Err(CobwebError::BadRequest(m)) => {
            assert_eq!(m, "dns_servers: not an IP address: first.bad")
        }
        _ => panic!("accepted"),
    }
}

#[test]
fn a_change_applied_twice_is_a_change_applied_once() {
    let mut s = RuntimeSettings::new(None, &made());
    let p = SettingsPatch { jar_fail_streak: Some(0), ..Default::default() };
    assert_eq!(s.apply(&p, &made()).unwrap().jar_fail_streak, 1);
    assert_eq!(s.apply(&p, &made()).unwrap().jar_fail_streak, 1);
}

#[test]
fn a_prewarmed_browser_is_never_stopped() {
    let s = RuntimeSettings::new(None, &made());
    assert_eq!(s.browser_idle_secs(true), 0);
    assert_eq!(s.browser_idle_secs(false), 900);
}

#[test]
fn a_change_reaches_the_jar() {
    let mut s = RuntimeSettings::new(None, &made());
    let mut jar = Jar::new("/jar", 2700, 3);
    let p = SettingsPatch {
        jar_default_ttl_secs: Some(10),
        jar_fail_streak: Some(9),
        ..Default::default()
    };
    patch(&mut s, &mut jar, &p, &made()).unwrap();
    assert_eq!(jar.default_ttl(), 10);
}

#[test]
fn get_returns_the_documented_defaults() {
    let body = RuntimeSettings::new(None, &made()).view();
    assert_eq!(body.dns_servers, vec!["1.1.1.1", "1.0.0.1"]);
    assert_eq!(body.nav_timeout_ms, 30_000);
    assert_eq!(body.jar_default_ttl_secs, 2700);
    assert_eq!(body.jar_fail_streak, 3);
    assert_eq!(body.flaresolverr_session_ttl_secs, 1800);
    assert_eq!(body.idle_shutdown_secs, 900);
}

#[test]
fn patch_updates_only_the_given_fields_and_persists() {
    let mut s = RuntimeSettings::new(None, &made());
    let mut jar = Jar::new("/jar", 2700, 3);
    let p = SettingsPatch {
        nav_timeout_ms: Some(5000),
        jar_fail_streak: Some(7),
        ..Default::default()
    };
    let body = patch(&mut s, &mut jar, &p, &made()).unwrap();
    assert_eq!(body.nav_timeout_ms, 5000);
    assert_eq!(body.jar_fail_streak, 7);
    assert_eq!(body.jar_default_ttl_secs, 2700, "untouched field kept");
    let again = s.view();
    assert_eq!(again.dns_servers, body.dns_servers);
    assert_eq!(again.nav_timeout_ms, body.nav_timeout_ms);
    assert_eq!(again.jar_default_ttl_secs, body.jar_default_ttl_secs);
    assert_eq!(again.jar_fail_streak, body.jar_fail_streak);
    assert_eq!(again.flaresolverr_session_ttl_secs, body.flaresolverr_session_ttl_secs);
    assert_eq!(again.idle_shutdown_secs, body.idle_shutdown_secs);
    let kept = RuntimeSettings::new(Some(s.document()), &made()).view();
    assert_eq!(kept.nav_timeout_ms, 5000);
    assert_eq!(kept.jar_fail_streak, 7);
}

#[test]
fn patch_dns_servers_accepts_ips_and_rejects_a_hostname() {
    let mut s = RuntimeSettings::new(None, &made());
    let mut jar = Jar::new("/jar", 2700, 3);
    let p = |v: &str| SettingsPatch {
        dns_servers: Some(vec![v.to_string()]),
        ..Default::default()
    };
    let body = patch(&mut s, &mut jar, &p("9.9.9.9"), &made()).unwrap();
    assert_eq!(body.dns_servers, vec!["9.9.9.9"]);
    let err = patch(&mut s, &mut jar, &p("not-an-ip.example.com"), &made()).unwrap_err();
    assert_eq!(err.status(), 400);
    assert_eq!(s.view().dns_servers, vec!["9.9.9.9"]);
}

#[test]
fn patch_empty_dns_servers_falls_back_to_system_resolver() {
    let mut s = RuntimeSettings::new(None, &made());
    let mut jar = Jar::new("/jar", 2700, 3);
    let p = SettingsPatch { dns_servers: Some(Vec::new()), ..Default::default() };
    let body = patch(&mut s, &mut jar, &p, &made()).unwrap();
    assert!(body.dns_servers.is_empty());
}

#[test]
fn settings_routes_require_the_configured_api_key() {
    let mut server = ServerConfig::default();
    server.api_key = Some("s3cret".to_string());
    assert!(!require_api_key(&server, &None, &None), "no key provided");
    assert!(require_api_key(&server, &Some("s3cret".to_string()), &None));
}

#[test]
fn servers_without_a_resolver_give_way_at_a_restart() {
    let none: Result<(), String> = Err("no sockets".to_string());
    let doc = || SettingsDoc {
        dns_servers: vec!["9.9.9.9".to_string()],
        jar_fail_streak: 7,
        ..Default::default()
    };
    let s = RuntimeSettings::new(Some(doc()), &none);
    assert_eq!(s.view().dns_servers, vec!["1.1.1.1", "1.0.0.1"]);
    assert_eq!(s.jar_fail_streak(), 7, "the rest is kept");
    assert!(matches!(&s.dns_snapshot().backend, DnsBackend::Custom(ips) if ips.len() == 2));
    let kept = RuntimeSettings::new(Some(doc()), &made());
    assert_eq!(kept.view().dns_servers, vec!["9.9.9.9"]);
    let system = SettingsDoc { dns_servers: Vec::new(), ..Default::default() };
    let s = RuntimeSettings::new(Some(system), &none);
    assert!(matches!(s.dns_snapshot().backend, DnsBackend::System), "nothing to make");
    assert_eq!(RuntimeSettings::new(None, &none).view().dns_servers.len(), 2);
}
