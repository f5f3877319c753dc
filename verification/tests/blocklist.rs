use cobweb::api::native::removal_answer;
use cobweb::api::require_api_key;
use cobweb::blocklist::{
    domain_to_patterns, parse_list, source_body, source_request, Blocklist, BlocklistSource,
    BlocklistSourceView, BlocklistState, Fetched,
};
use cobweb::config::{BlocklistConfig, ServerConfig};
use cobweb::error::CobwebError;
use cobweb::fastpath::FetchResponse;
use cobweb::json::Json;
use cobweb::weburl::Url;

#[test]
fn parses_hosts_format() {
    let text = "\
        # comment\n\
        0.0.0.0 ads.example.com\n\
        127.0.0.1 tracker.example.net other.example.net\n\
        0.0.0.0 0.0.0.0\n\
        127.0.0.1 localhost\n\
        \n";
    let domains = parse_list(text);
    assert_eq!(
        domains,
        vec!["ads.example.com", "tracker.example.net", "other.example.net"]
    );
}

#[test]
fn parses_bare_domains_and_abp_rules() {
    let text = "\
        ! abp comment\n\
        ||abp-tracker.example.com^\n\
        bare-domain.example.org\n\
        ||scoped.example.net^$third-party\n";
    let domains = parse_list(text);
    assert_eq!(
        domains,
        vec![
            "abp-tracker.example.com",
            "bare-domain.example.org",
            "scoped.example.net"
        ]
    );
}

#[test]
fn skips_placeholders_and_dotless_entries() {
    let text = "0.0.0.0 localhost\n0.0.0.0 broadcasthost\nlocalhost.localdomain\nnodot\n";
    assert!(parse_list(text).is_empty());
}

#[test]
fn listed_domains_are_lower_case_and_bare() {
    assert_eq!(
        parse_list("  ADS.Example.COM.  \r\n||Path.example.org/x^\n::1 V6.example.net\n"),
        vec!["ads.example.com", "path.example.org", "v6.example.net"]
    );
}

#[test]
fn rules_that_are_no_domain_rules_are_skipped() {
    assert!(parse_list("example.com##.ad-banner\n").is_empty());
    for rule in [
        "example.com#@#.ad",
        "example.com#?#div:has(.ad)",
        "example.com##+js(nowebrtc.js)",
        "~example.com,other.example##.ad",
        "@@||example.com^",
        "example.com/banner.js",
        "*.example.com",
        "/ads.example.com/",
        "||example.com##.ad^",
    ] {
        assert!(parse_list(rule).is_empty(), "{}", rule);
    }
}

#[test]
fn a_comment_may_follow_the_host_names() {
    assert_eq!(parse_list("0.0.0.0 a.com # see b.com\n"), vec!["a.com"]);
    assert_eq!(parse_list("0.0.0.0 a.com b.com#c.com d.com\n"), vec!["a.com", "b.com"]);
    assert_eq!(parse_list("a_b.example.org # why\n"), vec!["a_b.example.org"]);
}

#[test]
fn domain_to_patterns_covers_host_and_subdomains() {
    let p = domain_to_patterns("ads.example.com");
    assert_eq!(
        p,
        [
            "*://ads.example.com/*".to_string(),
            "*://*.ads.example.com/*".to_string()
        ]
    );
}

fn cfg() -> BlocklistConfig {
    BlocklistConfig {
        state_path: "/tmp/state.json".to_string(),
        refresh_interval_secs: 86_400,
        extra_domains: vec!["extra.example.com".to_string()],
        allow_domains: vec!["allowed.example.com".to_string()],
    }
}

/// What a fetch of a fixture gives.
fn fetch(bodies: &[(&str, &str)], src: &str) -> Result<String, CobwebError> {
    let req = source_request(src)?;
    for (u, body) in bodies {
        if req.url.as_str() == *u {
            return source_body(
                src,
                FetchResponse {
                    status: 200,
                    final_url: req.url,
                    headers: Vec::new(),
                    body: body.to_string(),
                    set_cookies: Vec::new(),
                },
            );
        }
    }
    Err(CobwebError::Upstream(format!("no such fixture: {}", src)))
}

fn add(
    bl: &mut Blocklist,
    bodies: &[(&str, &str)],
    src: &str,
    id: &str,
) -> Result<BlocklistSourceView, CobwebError> {
    bl.add_source(src, fetch(bodies, src), id.to_string(), 1, 2)
}

fn refresh(bl: &mut Blocklist, bodies: &[(&str, &str)]) {
    let results: Vec<Fetched> = bl
        .targets()
        .into_iter()
        .map(|(id, u)| Fetched { id, body: fetch(bodies, &u) })
        .collect();
    bl.refreshed(&results, 3);
}

fn has(bl: &Blocklist, pattern: &str) -> bool {
    bl.snapshot().contains(&pattern.to_string())
}

#[test]
fn add_source_fetches_immediately_and_computes_patterns() {
    let bodies = [(
        "http://fixture.invalid/hosts.txt",
        "0.0.0.0 tracked.example.com\n0.0.0.0 allowed.example.com\n",
    )];
    let mut bl = Blocklist::new(cfg(), None);
    let view = add(&mut bl, &bodies, "http://fixture.invalid/hosts.txt", "a").unwrap();
    assert!(view.last_error.is_none());
    assert_eq!(view.domain_count, 2);
    assert!(bl.snapshot().is_empty(), "master switch still off");

    bl.set_enabled(true);
    assert!(has(&bl, "*://tracked.example.com/*"));
    assert!(has(&bl, "*://extra.example.com/*"));
    assert!(!bl.snapshot().iter().any(|p| p.contains("allowed.example.com")));
}

#[test]
fn add_source_with_failing_fetch_is_still_recorded() {
    let mut bl = Blocklist::new(cfg(), None);
    let view = add(&mut bl, &[], "http://missing.invalid/hosts.txt", "a").unwrap();
    assert!(view.last_error.is_some());
    assert_eq!(view.domain_count, 0);
    assert_eq!(bl.status().sources.len(), 1, "kept despite the failed fetch");
}

#[test]
fn add_source_rejects_a_malformed_url() {
    let mut bl = Blocklist::new(cfg(), None);
    let err = add(&mut bl, &[], "not a url", "a").unwrap_err();
    assert_eq!(err.kind(), "bad_request");
    assert!(bl.status().sources.is_empty());
}

#[test]
fn toggling_and_removing_a_source_never_touches_the_network() {
    let bodies = [(
        "http://fixture.invalid/hosts.txt",
        "0.0.0.0 tracked.example.com\n",
    )];
    let mut bl = Blocklist::new(cfg(), None);
    bl.set_enabled(true);
    let view = add(&mut bl, &bodies, "http://fixture.invalid/hosts.txt", "a").unwrap();
    assert!(has(&bl, "*://tracked.example.com/*"));

    bl.set_source_enabled(&view.id, false).unwrap();
    assert!(!has(&bl, "*://tracked.example.com/*"));
    assert!(has(&bl, "*://extra.example.com/*"));

    bl.set_source_enabled(&view.id, true).unwrap();
    assert!(has(&bl, "*://tracked.example.com/*"));

    assert!(bl.remove_source(&view.id));
    assert!(!has(&bl, "*://tracked.example.com/*"));
    assert!(!bl.remove_source(&view.id), "already gone");
}

#[test]
fn set_source_enabled_unknown_id_is_bad_request() {
    let mut bl = Blocklist::new(cfg(), None);
    let err = bl.set_source_enabled("nope", true).unwrap_err();
    assert_eq!(err.kind(), "bad_request");
}

#[test]
fn set_enabled_false_empties_patterns_without_losing_source_data() {
    let bodies = [(
        "http://fixture.invalid/hosts.txt",
        "0.0.0.0 tracked.example.com\n",
    )];
    let mut bl = Blocklist::new(cfg(), None);
    bl.set_enabled(true);
    add(&mut bl, &bodies, "http://fixture.invalid/hosts.txt", "a").unwrap();
    assert!(!bl.snapshot().is_empty());

    bl.set_enabled(false);
    assert!(bl.snapshot().is_empty());

    bl.set_enabled(true);
    assert!(has(&bl, "*://tracked.example.com/*"));
}

#[test]
fn refresh_updates_only_enabled_sources_and_keeps_failed_ones_last_known_good() {
    let bodies = [("http://a.invalid/hosts.txt", "0.0.0.0 a.example.com\n")];
    let mut bl = Blocklist::new(cfg(), None);
    bl.set_enabled(true);
    let a = add(&mut bl, &bodies, "http://a.invalid/hosts.txt", "a").unwrap();
    let b = add(&mut bl, &bodies, "http://b.invalid/hosts.txt", "b").unwrap();
    assert!(b.last_error.is_some());
    bl.set_source_enabled(&a.id, false).unwrap();

    assert_eq!(
        bl.targets(),
        vec![("b".to_string(), "http://b.invalid/hosts.txt".to_string())]
    );
    refresh(&mut bl, &bodies);
    let status = bl.status();
    let a_after = status.sources.iter().find(|s| s.id == a.id).unwrap();
    let b_after = status.sources.iter().find(|s| s.id == b.id).unwrap();
    assert_eq!(a_after.domain_count, 1, "disabled source untouched");
    assert_eq!(a_after.last_fetch_at, Some(2));
    assert!(b_after.last_error.is_some());
    assert_eq!(b_after.last_fetch_at, Some(3));
}

#[test]
fn a_failed_refresh_keeps_the_last_good_domains() {
    let good = [("http://a.invalid/hosts.txt", "0.0.0.0 a.example.com\n")];
    let mut bl = Blocklist::new(cfg(), None);
    bl.set_enabled(true);
    add(&mut bl, &good, "http://a.invalid/hosts.txt", "a").unwrap();
    refresh(&mut bl, &[]);
    assert!(has(&bl, "*://a.example.com/*"));
    assert!(bl.status().sources[0].last_error.is_some());
    refresh(
        &mut bl,
        &[("http://a.invalid/hosts.txt", "0.0.0.0 b.example.com\n")],
    );
    assert!(!has(&bl, "*://a.example.com/*"));
    assert!(has(&bl, "*://b.example.com/*"));
    assert!(bl.status().sources[0].last_error.is_none());
}

#[test]
fn nothing_is_fetched_while_the_master_switch_is_off() {
    let mut bl = Blocklist::new(cfg(), None);
    add(&mut bl, &[], "http://a.invalid/hosts.txt", "a").unwrap();
    assert!(bl.targets().is_empty());
}

#[test]
fn new_loads_persisted_state_and_recomputes_patterns() {
    let state = BlocklistState {
        enabled: true,
        sources: vec![BlocklistSource {
            id: "a".to_string(),
            url: "http://fixture.invalid/hosts.txt".to_string(),
            enabled: true,
            added_at: 0,
            last_fetch_at: Some(0),
            last_error: None,
            domains: vec!["tracked.example.com".to_string()],
        }],
    };
    let reloaded = Blocklist::new(cfg(), Some(state));
    assert!(has(&reloaded, "*://tracked.example.com/*"));
    assert_eq!(reloaded.state().sources.len(), 1);
}

#[test]
fn patterns_are_in_order_and_unrepeated() {
    let mut bl = Blocklist::new(cfg(), None);
    bl.set_enabled(true);
    let bodies = [(
        "http://a.invalid/l",
        "zz.example.com\naa.example.com\nextra.example.com\naa.example.com\n",
    )];
    add(&mut bl, &bodies, "http://a.invalid/l", "a").unwrap();
    assert_eq!(
        *bl.snapshot(),
        vec![
            "*://aa.example.com/*",
            "*://*.aa.example.com/*",
            "*://extra.example.com/*",
            "*://*.extra.example.com/*",
            "*://zz.example.com/*",
            "*://*.zz.example.com/*",
        ]
    );
}

#[test]
fn refreshes_are_at_least_a_minute_apart() {
    let mut c = cfg();
    c.refresh_interval_secs = 5;
    assert_eq!(Blocklist::new(c, None).refresh_interval(), 60);
    assert_eq!(Blocklist::new(cfg(), None).refresh_interval(), 86_400);
}

#[test]
fn an_error_status_is_a_failed_fetch() {
    let resp = |status: u16| FetchResponse {
        status,
        final_url: Url::parse("http://a.invalid/l").unwrap(),
        headers: Vec::new(),
        body: "x".to_string(),
        set_cookies: Vec::new(),
    };
    assert_eq!(source_body("http://a.invalid/l", resp(399)).unwrap(), "x");
    match source_body("http://a.invalid/l", resp(404)) {
        Err(CobwebError::Upstream(m)) => assert_eq!(m, "GET http://a.invalid/l: HTTP 404"),
        _ => panic!("accepted"),
    }
    assert!(matches!(source_request("nope"), Err(CobwebError::Config(_))));
    assert_eq!(source_request("http://a.invalid/l").unwrap().timeout_ms, 30_000);
}

fn empty_cfg() -> BlocklistConfig {
    BlocklistConfig::default()
}

#[test]
fn full_lifecycle_add_toggle_delete() {
    let bodies = [(
        "http://up.invalid/hosts.txt",
        "0.0.0.0 tracker.example.com\n",
    )];
    let mut bl = Blocklist::new(empty_cfg(), None);
    let status = bl.status();
    assert!(!status.enabled);
    assert_eq!(status.sources.len(), 0);

    let added = add(&mut bl, &bodies, "http://up.invalid/hosts.txt", "x1").unwrap();
    assert!(added.last_error.is_none());
    assert_eq!(added.domain_count, 1);
    assert_eq!(bl.status().pattern_count, 0);

    let status = bl.set_enabled(true);
    assert!(status.enabled);
    assert_eq!(status.pattern_count, 2, "one domain, two patterns");

    let view = bl.set_source_enabled("x1", false).unwrap();
    assert!(!view.enabled);
    assert_eq!(bl.status().pattern_count, 0);

    bl.set_source_enabled("x1", true).unwrap();
    assert_eq!(bl.status().pattern_count, 2);

    let removed = bl.remove_source("x1");
    match removal_answer(removed).get("removed") {
        Some(Json::Bool(b)) => assert!(*b),
        _ => panic!("no answer"),
    }
    assert_eq!(bl.status().sources.len(), 0);
    assert_eq!(bl.status().pattern_count, 0);
}

#[test]
fn add_source_with_unreachable_url_is_kept_with_an_error() {
    let mut bl = Blocklist::new(empty_cfg(), None);
    let added = add(&mut bl, &[], "http://up.invalid/missing.txt", "x1").unwrap();
    assert_eq!(
        added.last_error.as_deref(),
        Some("upstream fetch failed: no such fixture: http://up.invalid/missing.txt")
    );
    assert_eq!(added.domain_count, 0);
    assert_eq!(bl.status().sources.len(), 1, "kept despite the failed fetch");
}

#[test]
fn toggle_unknown_source_id_is_bad_request() {
    let mut bl = Blocklist::new(empty_cfg(), None);
    assert_eq!(bl.set_source_enabled("nope", true).unwrap_err().status(), 400);
}

#[test]
fn manual_refresh_endpoint_updates_domain_counts() {
    let bodies = [("http://up.invalid/hosts.txt", "0.0.0.0 a.example.com\n")];
    let mut bl = Blocklist::new(empty_cfg(), None);
    add(&mut bl, &bodies, "http://up.invalid/hosts.txt", "x1").unwrap();
    bl.set_enabled(true);
    refresh(&mut bl, &bodies);
    assert_eq!(bl.status().sources[0].domain_count, 1);
}

#[test]
fn blocklist_routes_require_the_configured_api_key() {
    let mut server = ServerConfig::default();
    server.api_key = Some("s3cret".to_string());
    assert!(!require_api_key(&server, &None, &None), "no key provided");
    assert!(require_api_key(&server, &Some("s3cret".to_string()), &None));
}
