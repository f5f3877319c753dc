use cobweb::egress::Egress;
use cobweb::error::CobwebError;
use cobweb::fastpath::{
    assemble_response, client_key, looks_like_cloudflare_challenge, parse_set_cookie, pick_stream,
    sniff_stream_url, strict_text, text_of_bytes, ttl_hint_from, unescape_slashes,
    unwrap_candidate, BodyReader, ClientKind, StreamKind, MAX_BODY_BYTES,
};
use cobweb::jar::cookie::MICROS_PER_SEC;
use cobweb::weburl::Url;

const NOW: i64 = 1_700_000_000;

fn base() -> Url {
    Url::parse("https://example.com/embed/movie/123").unwrap()
}

#[test]
fn sniffs_keyed_player_config() {
    let html = r#"<script>var player = {"file":"https://cdn.example.com/hls/master.m3u8?token=abc","type":"hls"};</script>"#;
    let hit = sniff_stream_url(html, &base()).unwrap();
    assert!(hit.kind == StreamKind::Hls);
    assert_eq!(
        hit.url.as_str(),
        "https://cdn.example.com/hls/master.m3u8?token=abc"
    );
}

#[test]
fn sniffs_escaped_json_slashes() {
    let html = r#"{"sources":[{"src":"https:\/\/x.example\/v\/out.m3u8"}]}"#;
    let hit = sniff_stream_url(html, &base()).unwrap();
    assert_eq!(hit.url.as_str(), "https://x.example/v/out.m3u8");
}

#[test]
fn sniffs_root_relative_manifest() {
    let html = r#"<video-js data-setup='{"sources":[{"src":"/live/stream.mpd"}]}'></video-js>"#;
    let hit = sniff_stream_url(html, &base()).unwrap();
    assert!(hit.kind == StreamKind::Dash);
    assert_eq!(hit.url.as_str(), "https://example.com/live/stream.mpd");
}

#[test]
fn no_false_positive_on_plain_html() {
    let html = "<html><body>nothing to see, watch.mp4x not a stream</body></html>";
    assert!(sniff_stream_url(html, &base()).is_none());
}

#[test]
fn detects_cloudflare_interstitial() {
    assert!(looks_like_cloudflare_challenge(
        403,
        "<title>Just a moment...</title><div class=\"cf-browser-verification\">",
        Some("cloudflare")
    ));
    assert!(!looks_like_cloudflare_challenge(
        200,
        "<html>normal page</html>",
        Some("nginx")
    ));
}

#[test]
fn only_the_front_of_a_page_is_looked_at() {
    let pad = "é".repeat(32_767);
    let late = format!("{}xx Just a moment", pad);
    assert!(!looks_like_cloudflare_challenge(200, &late, None));
    let cut = format!("{}xé Turnstile", "é".repeat(32_767));
    assert!(!looks_like_cloudflare_challenge(200, &cut, None), "a cut character is left out");
    let early = format!("Turnstile {}", pad);
    assert!(looks_like_cloudflare_challenge(200, &early, None));
}

#[test]
fn case_does_not_decide_a_challenge() {
    let body = "<b>One more Challenge for you</b>";
    for (b, s) in [
        (body.to_string(), "cloudflare"),
        (body.to_ascii_uppercase(), "CloudFlare"),
        (body.to_ascii_lowercase(), "CLOUDFLARE-nginx"),
    ] {
        assert!(looks_like_cloudflare_challenge(503, &b, Some(s)));
        assert!(!looks_like_cloudflare_challenge(200, &b, Some(s)));
        assert!(!looks_like_cloudflare_challenge(503, &b, None));
    }
}

#[test]
fn parses_set_cookie_with_max_age() {
    let url = Url::parse("https://example.com/").unwrap();
    let c = parse_set_cookie(
        "cf_clearance=abcdef; path=/; domain=.example.com; Max-Age=2700; Secure; HttpOnly; SameSite=None",
        &url,
        NOW,
    )
    .unwrap();
    assert_eq!(c.name, "cf_clearance");
    assert_eq!(c.domain, "example.com");
    assert!(c.secure && c.http_only);
    assert_eq!(c.expires, (NOW as i128 + 2700) * MICROS_PER_SEC);
    let ttl = ttl_hint_from(&vec![c], "cf_clearance", NOW).unwrap();
    assert!((2600..=2700).contains(&ttl));
}

#[test]
fn a_cookie_without_a_pair_is_none() {
    let url = Url::parse("https://example.com/").unwrap();
    assert!(parse_set_cookie("nothing", &url, NOW).is_none());
    assert!(parse_set_cookie("", &url, NOW).is_none());
    let gone = parse_set_cookie("a=b; max-age=0", &url, NOW).unwrap();
    assert_eq!(gone.expires, MICROS_PER_SEC);
    let c = parse_set_cookie("a=b", &url, NOW).unwrap();
    assert_eq!(c.domain, "example.com");
    assert!(ttl_hint_from(&vec![c], "a", NOW).is_none(), "a session cookie has no hint");
}

#[test]
fn candidates_are_unwrapped() {
    assert_eq!(unwrap_candidate(" \"'/v/x.m3u8'\\ "), "/v/x.m3u8");
    assert_eq!(unescape_slashes(r"a\/b\u002Fc\u002fd"), "a/b/c/d");
    let hit = pick_stream(
        &vec!["not a stream".to_string(), "/v/x.m3u8".to_string()],
        &base(),
    )
    .unwrap();
    assert_eq!(hit.url.as_str(), "https://example.com/v/x.m3u8");
    assert!(pick_stream(&Vec::new(), &base()).is_none());
}

#[test]
fn kinds_follow_the_path() {
    let kind = |s: &str| StreamKind::from_url(&Url::parse(s).unwrap());
    assert!(kind("https://h/a.m3u8?x=1") == Some(StreamKind::Hls));
    assert!(kind("https://h/a.mpd") == Some(StreamKind::Dash));
    assert!(kind("https://h/a.mp4") == Some(StreamKind::Progressive));
    assert!(kind("https://h/a.html").is_none());
    assert_eq!(StreamKind::Hls.name(), "hls");
}

#[test]
fn bodies_are_capped() {
    assert!(matches!(
        BodyReader::open(&base(), Some(MAX_BODY_BYTES as u64 + 1)),
        Err(CobwebError::Upstream(_))
    ));
    let mut r = BodyReader::open(&base(), None).ok().unwrap();
    r.push(&b"abc".to_vec()).unwrap();
    r.push(&b"def".to_vec()).unwrap();
    assert_eq!(r.finish(), "abcdef");
    assert!(r.push(&vec![0; MAX_BODY_BYTES]).is_err());
}

#[test]
fn bytes_become_text_even_where_they_are_none() {
    assert_eq!(strict_text(b"abc".to_vec()).as_deref(), Some("abc"));
    assert!(strict_text(vec![0xff]).is_none());
    assert_eq!(text_of_bytes(&vec![0x61, 0xff]), "a\u{fffd}");
}

#[test]
fn responses_know_where_they_ended_and_what_they_set() {
    let r = assemble_response(
        200,
        &base(),
        "https://example.com/final",
        vec![
            ("Set-Cookie".to_string(), "a=1; Max-Age=10".to_string()),
            ("Server".to_string(), "nginx".to_string()),
        ],
        "hi".to_string(),
        NOW,
    );
    assert_eq!(r.final_url.as_str(), "https://example.com/final");
    assert_eq!(r.header("server"), Some("nginx"));
    assert_eq!(r.set_cookies.len(), 1);
    assert_eq!(r.set_cookies[0].name, "a");
    let odd = assemble_response(200, &base(), "::", Vec::new(), String::new(), NOW);
    assert_eq!(odd.final_url.as_str(), base().as_str());
}

#[test]
fn connections_are_kept_apart_by_exit_and_use() {
    let e = Egress::direct();
    let p = Egress::from_raw_proxy("socks5://10.0.0.1:9050").unwrap();
    let a = client_key(&e, &None, ClientKind::FastPath);
    assert_ne!(a, client_key(&e, &None, ClientKind::Stream));
    assert_ne!(a, client_key(&p, &None, ClientKind::FastPath));
    assert_eq!(a, client_key(&Egress::direct(), &None, ClientKind::FastPath));
}
