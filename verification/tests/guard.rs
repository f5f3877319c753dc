use cobweb::browser::cdp::CdpEvent;
use cobweb::browser::cdp_engine::{
    answer_paused, fetch_guard_decision, fetch_guard_lookup, paused_request, FetchDecision,
};
use cobweb::egress::Egress;
use cobweb::error::CobwebError;
use cobweb::ip::IpAddr;
use cobweb::json::{text_value, Members};
use cobweb::settings::DnsBackend;
use cobweb::ssrf::{
    block_reason, first_block_reason, guard_egress, guard_egress_lookup, guard_url,
    guard_url_lookup, redirect_block_reason, redirect_policy, strip_brackets, vet_resolved,
    GuardedResolver,
};
use cobweb::weburl::Url;

fn ip(s: &str) -> IpAddr {
    IpAddr::parse(s).unwrap()
}

fn url(s: &str) -> Url {
    Url::parse(s).unwrap()
}

#[test]
fn blocks_the_usual_private_and_meta_ranges() {
    for s in [
        "127.0.0.1",
        "127.10.20.30",
        "10.0.0.1",
        "172.16.5.5",
        "192.168.1.1",
        "169.254.1.2",
        "169.254.169.254",
        "100.64.0.1",
        "0.0.0.0",
        "::1",
        "fd00::1",
        "fe80::1",
        "::ffff:127.0.0.1",
        "::ffff:10.0.0.1",
        "64:ff9b::7f00:1",
    ] {
        assert!(block_reason(&ip(s), false).is_some(), "{} should be blocked", s);
    }
}

#[test]
fn allow_private_still_blocks_hard_ranges() {
    assert!(block_reason(&ip("10.0.0.1"), true).is_none());
    assert!(block_reason(&ip("127.0.0.1"), true).is_none());
    assert!(block_reason(&ip("fd00::1"), true).is_none());
    assert!(block_reason(&ip("169.254.169.254"), true).is_some());
    assert!(block_reason(&ip("0.0.0.0"), true).is_some());
    assert!(block_reason(&ip("255.255.255.255"), true).is_some());
    assert!(block_reason(&ip("224.0.0.1"), true).is_some());
}

#[test]
fn passes_public_addresses() {
    for s in ["1.1.1.1", "8.8.8.8", "93.184.216.34", "2606:4700:4700::1111"] {
        assert!(block_reason(&ip(s), false).is_none(), "{} should pass", s);
    }
}

#[test]
fn each_range_is_refused_for_its_own_reason() {
    for (s, reason) in [
        ("0.0.0.0", "unspecified (0.0.0.0)"),
        ("0.1.2.3", "this-network (0.0.0.0/8)"),
        ("169.254.169.254", "cloud metadata (169.254.169.254)"),
        ("255.255.255.255", "broadcast"),
        ("192.0.2.7", "documentation"),
        ("198.51.100.7", "documentation"),
        ("203.0.113.7", "documentation"),
        ("224.0.0.1", "multicast"),
        ("192.0.0.1", "IETF protocol assignments (192.0.0.0/24)"),
        ("198.18.0.1", "benchmarking (198.18.0.0/15)"),
        ("198.19.255.255", "benchmarking (198.18.0.0/15)"),
        ("240.0.0.1", "reserved (240.0.0.0/4)"),
    ] {
        assert_eq!(block_reason(&ip(s), true), Some(reason), "{}", s);
    }
}

#[test]
fn guard_url_rejects_literals_on_any_egress() {
    let u = url("http://169.254.169.254/latest/meta-data/");
    assert!(guard_url(&u, false, false, &None).is_err());
    assert!(guard_url(&u, false, true, &None).is_err());

    let lo = url("http://127.0.0.1:8096/x");
    assert!(guard_url(&lo, true, false, &None).is_err());
    assert!(guard_url(&lo, true, true, &None).is_ok());
}

#[test]
fn guard_url_rejects_bracketed_ipv6_literals() {
    for s in [
        "http://[::1]/",
        "http://[::1]:8080/x",
        "http://[fd00::1]/",
        "http://[fe80::1]/",
    ] {
        let u = url(s);
        assert!(guard_url(&u, true, false, &None).is_err(), "{} on direct", s);
        assert!(guard_url(&u, false, false, &None).is_err(), "{} on proxied", s);
    }
    let u = url("http://[fd00::1]/");
    assert!(guard_url(&u, true, true, &None).is_ok());
}

#[test]
fn guard_url_rejects_non_http_schemes() {
    let u = url("file:///etc/passwd");
    assert!(matches!(
        guard_url(&u, true, true, &None),
        Err(CobwebError::Blocked(_))
    ));
}

#[test]
fn guard_url_asks_for_names_on_the_direct_egress_only() {
    let u = url("https://example.com/x");
    assert_eq!(
        guard_url_lookup(&u, true, false),
        Some(("example.com".to_string(), 443))
    );
    assert_eq!(guard_url_lookup(&u, false, false), None);
    assert_eq!(guard_url_lookup(&url("http://10.0.0.1/"), true, false), None);
}

#[test]
fn one_private_address_refuses_a_name() {
    let u = url("http://rebind.example.com/");
    let good = Some(vec![ip("93.184.216.34")]);
    let mixed = Some(vec![ip("93.184.216.34"), ip("10.0.0.7")]);
    assert!(guard_url(&u, true, false, &good).is_ok());
    assert!(guard_url(&u, true, false, &mixed).is_err());
    assert!(guard_url(&u, true, true, &mixed).is_ok());
    assert!(guard_url(&u, false, false, &mixed).is_ok());
    assert!(guard_url(&u, true, false, &None).is_ok());
    assert_eq!(
        first_block_reason(&vec![ip("1.1.1.1"), ip("127.0.0.1")], false),
        block_reason(&ip("127.0.0.1"), false)
    );
}

#[test]
fn localhost_names_are_refused_unless_relaxed() {
    for s in ["http://localhost/", "http://a.LOCALHOST:81/"] {
        assert!(guard_url(&url(s), false, false, &None).is_err(), "{}", s);
        assert!(guard_url(&url(s), false, true, &None).is_ok(), "{}", s);
    }
}

fn raw_egress(u: &str) -> Egress {
    Egress::from_raw_proxy(u).unwrap()
}

fn named_egress(name: &str, u: &str) -> Egress {
    Egress { name: name.to_string(), proxy: Some(url(u)) }
}

#[test]
fn guard_egress_blocks_a_raw_proxy_url_pointing_at_a_private_host() {
    for u in [
        "http://127.0.0.1:2375/",
        "http://10.0.0.5:6379",
        "http://169.254.169.254/",
        "socks5://[::1]:1080",
    ] {
        let e = raw_egress(u);
        assert!(guard_egress(&e, false, &None).is_err(), "{} should be blocked", u);
    }
}

#[test]
fn guard_egress_allows_a_raw_proxy_url_pointing_at_a_public_host() {
    let e = raw_egress("socks5://93.184.216.34:1080");
    assert!(guard_egress(&e, false, &None).is_ok());
}

#[test]
fn guard_egress_trusts_a_named_config_profile_even_if_private() {
    let e = named_egress("mullvad", "socks5://10.0.0.9:1080");
    assert!(guard_egress(&e, false, &None).is_ok());
    assert_eq!(guard_egress_lookup(&e, false), None);
}

#[test]
fn guard_egress_allows_direct() {
    assert!(guard_egress(&Egress::direct(), false, &None).is_ok());
}

#[test]
fn guard_egress_looks_up_the_name_of_a_raw_proxy() {
    let e = raw_egress("socks5://proxy.example.com:1080");
    assert_eq!(
        guard_egress_lookup(&e, false),
        Some(("proxy.example.com".to_string(), 1080))
    );
    assert!(guard_egress(&e, false, &Some(vec![ip("192.168.0.2")])).is_err());
    assert!(guard_egress(&e, false, &Some(vec![ip("93.184.216.34")])).is_ok());
}

#[test]
fn redirect_block_reason_vets_literals_and_localhost() {
    for h in [
        "127.0.0.1",
        "10.0.0.5",
        "192.168.1.1",
        "169.254.169.254",
        "[::1]",
        "[fd00::1]",
        "localhost",
        "a.localhost",
    ] {
        assert!(redirect_block_reason(h, false).is_some(), "{} must be refused", h);
    }
    for h in ["93.184.216.34", "example.com", "cdn.example.org"] {
        assert!(redirect_block_reason(h, false).is_none(), "{} must be allowed", h);
    }
    assert!(redirect_block_reason("192.168.1.1", true).is_none());
    assert!(redirect_block_reason("localhost", true).is_none());
    assert!(redirect_block_reason("169.254.169.254", true).is_some());
    assert!(redirect_block_reason("0.0.0.0", true).is_some());
}

#[test]
fn redirects_end_after_ten_hops() {
    assert!(redirect_policy(9, "example.com", false).is_none());
    assert!(redirect_policy(11, "example.com", false).is_some());
    assert!(redirect_policy(0, "192.168.1.1", false).is_some());
}

#[test]
fn guarded_resolver_blocks_localhost_and_allows_it_when_relaxed() {
    let loopback = || Ok(vec![ip("127.0.0.1")]);
    let strict = GuardedResolver::new(false);
    assert!(strict.needs_system(&DnsBackend::System, &None));
    assert!(strict
        .resolve("localhost", &DnsBackend::System, None, loopback())
        .is_err());
    let relaxed = GuardedResolver::new(true);
    assert!(relaxed
        .resolve("localhost", &DnsBackend::System, None, loopback())
        .is_ok());
}

#[test]
fn guarded_resolver_falls_back_to_system_dns_when_the_custom_server_is_unreachable() {
    let resolver = GuardedResolver::new(true);
    let custom = DnsBackend::Custom(vec![ip("127.0.0.1")]);
    assert!(resolver.needs_system(&custom, &None));
    let found = resolver
        .resolve("localhost", &custom, None, Ok(vec![ip("127.0.0.1")]))
        .unwrap();
    assert_eq!(found.len(), 1);
}

#[test]
fn the_configured_servers_answer_first() {
    let resolver = GuardedResolver::new(false);
    let custom = DnsBackend::Custom(vec![ip("9.9.9.9")]);
    let answered = Some(vec![ip("93.184.216.34")]);
    assert!(!resolver.needs_system(&custom, &answered));
    assert!(resolver
        .resolve("example.com", &custom, answered, Err("not asked".to_string()))
        .is_ok());
    assert_eq!(
        resolver
            .resolve("x.example", &DnsBackend::System, None, Err("no such name".to_string()))
            .unwrap_err(),
        "no such name"
    );
}

#[test]
fn the_resolver_says_why_it_refuses() {
    assert_eq!(
        vet_resolved("evil.example", &vec![ip("10.1.2.3")], false).unwrap(),
        format!(
            "ssrf: refusing `evil.example`: resolves to a {} address",
            block_reason(&ip("10.1.2.3"), false).unwrap()
        )
    );
    assert!(vet_resolved("ok.example", &vec![ip("1.1.1.1")], false).is_none());
}

#[test]
fn brackets_come_off_in_pairs() {
    assert_eq!(strip_brackets("[::1]"), "::1");
    assert_eq!(strip_brackets("example.com"), "example.com");
}

#[test]
fn addresses_are_read_as_they_are_written() {
    assert!(matches!(IpAddr::parse("1.2.3.4"), Some(IpAddr::V4(1, 2, 3, 4))));
    assert!(IpAddr::parse("01.2.3.4").is_none());
    assert!(IpAddr::parse("1.2.3").is_none());
    assert!(IpAddr::parse("1.2.3.256").is_none());
    assert!(IpAddr::parse("").is_none());
    assert!(IpAddr::parse("1::2::3").is_none());
    assert!(IpAddr::parse("12345::").is_none());
    match IpAddr::parse("2001:db8::ff00:42:8329") {
        Some(IpAddr::V6(s)) => {
            assert_eq!(s, [0x2001, 0xdb8, 0, 0, 0, 0xff00, 0x42, 0x8329])
        }
        _ => panic!("not read"),
    }
    match IpAddr::parse("::ffff:1.2.3.4") {
        Some(IpAddr::V6(s)) => assert_eq!(s, [0, 0, 0, 0, 0, 0xffff, 0x102, 0x304]),
        _ => panic!("not read"),
    }
}

#[test]
fn fetch_guard_blocks_literal_private_and_metadata_addresses() {
    for u in [
        "http://127.0.0.1:8096/",
        "http://169.254.169.254/latest/meta-data/",
        "http://10.0.0.5:6379",
        "http://[::1]/",
    ] {
        assert!(
            matches!(
                fetch_guard_decision(u, true, false, &None),
                FetchDecision::Block(_)
            ),
            "{} should be blocked",
            u
        );
    }
}

#[test]
fn fetch_guard_blocks_literal_private_even_on_a_proxied_egress() {
    assert!(matches!(
        fetch_guard_decision("http://127.0.0.1/", false, false, &None),
        FetchDecision::Block(_)
    ));
}

#[test]
fn fetch_guard_allows_public_addresses() {
    assert!(matches!(
        fetch_guard_decision("https://1.1.1.1/", true, false, &None),
        FetchDecision::Allow
    ));
    assert!(matches!(
        fetch_guard_decision(
            "https://example.com/",
            true,
            false,
            &Some(vec![ip("93.184.216.34")])
        ),
        FetchDecision::Allow
    ));
}

#[test]
fn fetch_guard_allows_non_http_schemes_untouched() {
    for u in ["data:text/plain,hi", "blob:https://example.com/abc", "about:blank"] {
        assert!(matches!(
            fetch_guard_decision(u, true, false, &None),
            FetchDecision::Allow
        ));
    }
}

#[test]
fn fetch_guard_respects_allow_private_targets() {
    assert!(matches!(
        fetch_guard_decision("http://10.0.0.5/", true, true, &None),
        FetchDecision::Allow
    ));
    assert!(matches!(
        fetch_guard_decision("http://169.254.169.254/", true, true, &None),
        FetchDecision::Block(_)
    ));
}

#[test]
fn fetch_guard_judges_the_addresses_of_a_name() {
    assert_eq!(
        fetch_guard_lookup("https://example.com/a", true, false),
        Some(("example.com".to_string(), 443))
    );
    assert_eq!(fetch_guard_lookup("https://example.com/a", false, false), None);
    assert!(matches!(
        fetch_guard_decision(
            "https://example.com/a",
            true,
            false,
            &Some(vec![ip("192.168.1.1")])
        ),
        FetchDecision::Block(_)
    ));
}

#[test]
fn browser_guard_refuses_private_targets() {
    let event = CdpEvent {
        method: "Fetch.requestPaused".to_string(),
        params: Members::new()
            .with("requestId", text_value("r1"))
            .with(
                "request",
                Members::new()
                    .with("url", text_value("http://127.0.0.1:9/p"))
                    .object(),
            )
            .object(),
        session_id: Some("s1".to_string()),
    };
    let paused = paused_request(&event, &vec!["s1".to_string()]).unwrap();
    assert_eq!(paused.url, "http://127.0.0.1:9/p");
    let decision = fetch_guard_decision(&paused.url, true, false, &None);
    let call = answer_paused(&paused.request, &decision);
    assert_eq!(call.method(), "Fetch.failRequest");
    assert!(paused_request(&event, &vec!["other".to_string()]).is_none());
}

#[test]
fn browser_guard_refuses_redirect_to_metadata() {
    let decision =
        fetch_guard_decision("http://169.254.169.254/latest/meta-data/", true, true, &None);
    assert_eq!(answer_paused("r", &decision).method(), "Fetch.failRequest");
    let fine = fetch_guard_decision("http://127.0.0.1/hop", true, true, &None);
    assert_eq!(answer_paused("r", &fine).method(), "Fetch.continueRequest");
}
