use cobweb::browser::cdp::{
    call_outcome, cookie_to_cdp, is_noisy_event, read_frame, Call, CallEnd, CdpEvent, Frame,
    Waiting,
};
use cobweb::browser::cdp_engine::{
    adopt_child, arrives, attached_session, best_effort, blocked_urls, context_slots,
    created_target, created_world, current_url, effective_ua, enable_domains, evaluated,
    goto_turn, goto_waited, main_frame, navigated, open_context, override_ua, page_load,
    page_text, reap_due, reaper_starts, seed_calls, selector_deadline, selector_found,
    selector_probed, selector_script, selector_turn, sniff_calls, storage_state, GotoStep, SelectorStep,
};
use cobweb::browser::chromium::{
    binary_names, debugger_url, desktop_ua, launch_args, never_came_up, plan_launch,
    renderer_limit, resolve_binary, running_as_root, Discovery, DiscoveryStep, TempProfile,
};
use cobweb::browser::engine::{seed_context, show_millis, BrowserError, WaitFor};
use cobweb::browser::sniff::{
    body_is_manifest, header_map, is_manifest_mime, merge_header_lists, read_body_head, Sniff,
    SniffStep, WaitEnd,
};
use cobweb::browser::xvfb::{
    display_name, free_display_number, xvfb_args, xvfb_startup, Startup,
};
use cobweb::config::BrowserConfig;
use cobweb::egress::Egress;
use cobweb::glob::Globs;
use cobweb::jar::cookie::{Cookie, StorageState, MICROS_PER_SEC};
use cobweb::json::{text_value, Json, Members};
use cobweb::weburl::Url;

fn url(s: &str) -> Url {
    Url::parse(s).unwrap()
}

fn every_call() -> Vec<Call> {
    let s = || "x".to_string();
    vec![
        Call::CreateBrowserContext { proxy: None },
        Call::CreateTarget { context: None },
        Call::AttachToTarget { target: s() },
        Call::PageEnable,
        Call::NetworkEnable,
        Call::FetchEnable,
        Call::LifecycleEvents,
        Call::GetFrameTree,
        Call::AddStealthScript,
        Call::SetBlockedUrls { urls: Vec::new() },
        Call::SetUserAgent { user_agent: s() },
        Call::SetCookies { cookies: Vec::new() },
        Call::CreateIsolatedWorld { frame: s() },
        Call::Evaluate { expression: s(), world: 1 },
        Call::Navigate { url: s() },
        Call::SetAutoAttach,
        Call::RunIfWaitingForDebugger,
        Call::CloseTarget { target: s() },
        Call::DisposeContext { id: s() },
        Call::GetResponseBody { request: s() },
    ]
}

#[test]
fn cdp_layer_never_enables_the_runtime_domain() {
    for c in every_call() {
        assert_ne!(c.method(), "Runtime.enable");
        assert_eq!(c.frame(1, &None).str_at("method").as_deref(), Some(c.method()));
    }
    for c in enable_domains()
        .iter()
        .chain(seed_calls("ua", Vec::new(), &None).iter())
        .chain(adopt_child("ua", Vec::new()).iter())
    {
        assert_ne!(c.method(), "Runtime.enable");
    }
}

#[test]
fn every_session_is_guarded_before_it_runs() {
    let methods: Vec<&str> = enable_domains().iter().map(|c| c.method()).collect();
    assert!(methods.contains(&"Fetch.enable"));
    let child: Vec<&str> = adopt_child("ua", vec!["*ads*".to_string()])
        .iter()
        .map(|c| c.method())
        .collect();
    let guard = child.iter().position(|m| *m == "Fetch.enable").unwrap();
    let run = child
        .iter()
        .position(|m| *m == "Runtime.runIfWaitingForDebugger")
        .unwrap();
    assert!(guard < run);
}

#[test]
fn frames_carry_their_session() {
    let f = Call::PageEnable.frame(7, &Some("s1".to_string()));
    assert_eq!(f.str_at("sessionId").as_deref(), Some("s1"));
    assert_eq!(f.get("id").unwrap().as_u64(), Some(7));
}

#[test]
fn frames_are_told_apart() {
    let reply = Members::new()
        .with("id", Json::Int(3))
        .with("result", Members::new().with("a", Json::Int(1)).object())
        .object();
    match read_frame(reply) {
        Frame::Reply { id, result } => {
            assert_eq!(id, 3);
            assert_eq!(result.unwrap().get("a").unwrap().as_i64(), Some(1));
        }
        _ => panic!("no reply"),
    }
    let event = Members::new()
        .with("method", text_value("Page.loadEventFired"))
        .with("sessionId", text_value("s"))
        .object();
    match read_frame(event) {
        Frame::Event(e) => {
            assert_eq!(e.method, "Page.loadEventFired");
            assert_eq!(e.session_id.as_deref(), Some("s"));
        }
        _ => panic!("no event"),
    }
    assert!(is_noisy_event("Network.dataReceived"));
    assert!(!is_noisy_event("Network.responseReceived"));
    let noisy = Members::new()
        .with("method", text_value("Network.dataReceived"))
        .object();
    assert!(matches!(read_frame(noisy), Frame::Ignored));
}

#[test]
fn calls_are_answered_once() {
    let mut w: Waiting<&str> = Waiting::new();
    let a = w.issue("a");
    let b = w.issue("b");
    let c = w.issue_silent();
    assert!(a < b && b < c);
    assert_eq!(w.take(b), Some("b"));
    assert_eq!(w.take(b), None);
    assert_eq!(w.take(c), None);
    assert_eq!(w.drain(), vec![(a, "a")]);
}

#[test]
fn calls_end_in_a_reply_or_a_reason() {
    assert!(call_outcome("X.y", CallEnd::Answered(Ok(Json::Null))).is_ok());
    for (end, text) in [
        (CallEnd::Answered(Err("bad".to_string())), "X.y: bad"),
        (CallEnd::Dropped, "X.y: response dropped"),
        (CallEnd::TimedOut, "X.y: timed out"),
        (CallEnd::WriterGone, "cdp writer gone"),
    ] {
        match call_outcome("X.y", end) {
            Err(BrowserError::Cdp(m)) => assert_eq!(m, text),
            _ => panic!("no error"),
        }
    }
}

#[test]
fn cookies_go_to_the_browser_and_back() {
    let mut c = Cookie::new("sess", "abc123", "example.com");
    c.expires = 1_900_000_000 * MICROS_PER_SEC;
    let wire = cookie_to_cdp(&c);
    let reply = Members::new().with("cookies", Json::Array(vec![wire])).object();
    let state = storage_state(&reply);
    assert_eq!(state.cookies[0].value, "abc123");
    assert_eq!(state.cookies[0].expires, c.expires);
}

#[test]
fn storage_state_captures_set_cookie() {
    let reply = Members::new()
        .with(
            "cookies",
            Json::Array(vec![
                Members::new()
                    .with("name", text_value("sess"))
                    .with("value", text_value("abc123"))
                    .with("expires", Json::Micros(1_700_003_600 * MICROS_PER_SEC))
                    .object(),
                Json::Null,
            ]),
        )
        .object();
    let state = storage_state(&reply);
    assert_eq!(state.cookies.len(), 1);
    assert_eq!(state.cookies[0].value, "abc123");
    assert!(state.cookies[0].expires > 0, "a lifetime gives a real expiry");
}

#[test]
fn eval_runs_in_an_isolated_world() {
    let world = Members::new().with("executionContextId", Json::Int(4)).object();
    assert_eq!(created_world(&world).ok(), Some(4));
    assert!(created_world(&Json::Null).is_err());
    let call = Call::Evaluate { expression: "2 + 40".to_string(), world: 4 };
    assert_eq!(call.method(), "Runtime.evaluate");
    assert_eq!(call.params().get("contextId").unwrap().as_i64(), Some(4));
    let reply = Members::new()
        .with("result", Members::new().with("value", Json::Int(42)).object())
        .object();
    assert_eq!(evaluated(reply, "").unwrap().as_i64(), Some(42));
    let thrown = Members::new().with("exceptionDetails", Json::Null).object();
    match evaluated(thrown, "{}") {
        Err(BrowserError::Cdp(m)) => assert_eq!(m, "eval threw: {}"),
        _ => panic!("no error"),
    }
}

#[test]
fn navigate_returns_post_js_dom() {
    let page = page_load("<div>RAN_42</div>".to_string(), url("http://h/p"));
    assert!(page.html.contains("RAN_42"));
    assert!(!page.challenge);
    assert_eq!(page.final_url.path, "/p");
    let challenged = page_load("<title>Just a moment...</title>".to_string(), url("http://h/p"));
    assert!(challenged.challenge);
}

#[test]
fn replies_are_checked() {
    assert!(created_target(&Json::Null).is_err());
    let tree = Members::new()
        .with(
            "frameTree",
            Members::new()
                .with("frame", Members::new().with("id", text_value("F")).object())
                .object(),
        )
        .object();
    assert_eq!(main_frame(&tree).as_deref(), Some("F"));
    assert!(navigated(&Json::Null).is_ok());
    let failed = Members::new()
        .with("errorText", text_value("net::ERR_BLOCKED_BY_CLIENT"))
        .object();
    match navigated(&failed) {
        Err(BrowserError::Cdp(m)) => assert_eq!(m, "navigate: net::ERR_BLOCKED_BY_CLIENT"),
        _ => panic!("no error"),
    }
}

#[test]
fn a_context_rides_the_proxy_of_its_egress() {
    let direct = open_context(&seed_context(&Egress::direct(), &None, true, true));
    assert_eq!(direct.params().str_at("proxyServer"), None);
    let raw = Egress::from_raw_proxy("http://p.example:8080").unwrap();
    let proxied = open_context(&seed_context(&raw, &None, true, true));
    assert_eq!(proxied.method(), "Target.createBrowserContext");
    assert_eq!(
        proxied.params().str_at("proxyServer").as_deref(),
        Some("http://p.example:8080")
    );
    let attached = Members::new().with("sessionId", text_value("S")).object();
    assert_eq!(attached_session(&attached).unwrap(), "S");
    assert!(attached_session(&Json::Null).is_err());
}

#[test]
fn pages_that_cannot_be_read_are_taken_as_they_were_asked_for() {
    let asked = url("https://a.example/");
    let there = Some(text_value("https://b.example/x"));
    assert_eq!(current_url(&there, &asked).as_str(), "https://b.example/x");
    let nowhere = Some(text_value("not a url"));
    assert_eq!(current_url(&nowhere, &asked).as_str(), "https://a.example/");
    assert_eq!(current_url(&None, &asked).as_str(), "https://a.example/");
    assert_eq!(page_text(&Some(text_value("<html>"))), "<html>");
    assert_eq!(page_text(&Some(Json::Null)), "");
    assert_eq!(page_text(&None), "");
}

#[test]
fn lost_events_are_passed_over() {
    assert!(goto_waited(WaitEnd::Lagged).is_none());
    assert!(matches!(goto_waited(WaitEnd::TimedOut), Some(GotoStep::Settle)));
    assert!(matches!(goto_waited(WaitEnd::Closed), Some(GotoStep::Settle)));
    let s = Sniff::start(url("https://a.example/"), 0, 1_000, false);
    assert!(matches!(s.waited(WaitEnd::TimedOut), SniffStep::Again));
    assert!(matches!(s.waited(WaitEnd::Lagged), SniffStep::Again));
    assert!(matches!(s.waited(WaitEnd::Closed), SniffStep::GiveUp));
}

#[test]
fn pages_are_waited_for_until_the_deadline() {
    assert!(matches!(goto_turn(0, 100), GotoStep::Wait { .. }));
    assert!(matches!(goto_turn(100, 100), GotoStep::Settle));
    let e = CdpEvent {
        method: "Page.lifecycleEvent".to_string(),
        params: Members::new().with("name", text_value("networkIdle")).object(),
        session_id: Some("s".to_string()),
    };
    assert!(arrives(&e, "s", &WaitFor::NetworkIdle));
    assert!(!arrives(&e, "s", &WaitFor::Load));
    assert!(!arrives(&e, "t", &WaitFor::NetworkIdle));
}

#[test]
fn selectors_are_quoted_into_the_probe() {
    let s = selector_script(&WaitFor::Selector("a[\"x\"]".to_string())).unwrap();
    assert!(s.contains(r#""a[\"x\"]""#), "{}", s);
    assert!(selector_script(&WaitFor::Load).is_none());
    assert!(selector_found(&Some(Json::Bool(true))));
    assert!(!selector_found(&None));
}

#[test]
fn block_lists_never_catch_a_manifest() {
    let urls = blocked_urls(true, true, &vec!["*://ads.example/*".to_string()]);
    assert!(urls.contains(&"*://ads.example/*".to_string()));
    assert!(urls.len() > 1);
    assert!(!urls.iter().any(|u| u.contains("m3u8") || u.contains("mpd")));
    assert!(blocked_urls(false, false, &vec!["x".to_string()]).is_empty());
    assert_eq!(blocked_urls(false, true, &vec!["x".to_string()]), vec!["x"]);
}

#[test]
fn the_pinned_user_agent_wins() {
    assert_eq!(override_ua(&Some("UA".to_string()), "default"), "UA");
    assert_eq!(override_ua(&None, "default"), "");
    assert_eq!(override_ua(&Some("default".to_string()), "default"), "");
    assert_eq!(effective_ua("UA", "default"), "UA");
    assert_eq!(effective_ua("", "default"), "default");
}

#[test]
fn idle_browsers_are_reaped() {
    assert!(reaper_starts(900, false));
    assert!(!reaper_starts(0, false));
    assert!(!reaper_starts(900, true));
    assert!(reap_due(900, 0, 900_000));
    assert!(!reap_due(900, 1, 900_000));
    assert!(!reap_due(900, 0, 899_999));
    assert_eq!(context_slots(0), 1);
}

#[test]
fn seeded_contexts_get_their_cookies() {
    let seed = Some(StorageState::from_cookies(vec![Cookie::new("a", "1", "x.com")]));
    let methods: Vec<&str> = seed_calls("UA", vec!["*ads*".to_string()], &seed)
        .iter()
        .map(|c| c.method())
        .collect();
    assert!(methods.contains(&"Network.setCookies"), "{:?}", methods);
    assert!(methods.contains(&"Network.setBlockedURLs"));
    assert!(methods.contains(&"Network.setUserAgentOverride"));
}

#[test]
fn the_last_overlay_of_a_name_wins() {
    let pair = |k: &str, v: &str| (k.to_string(), v.to_string());
    let merged = merge_header_lists(
        vec![pair("Accept", "a"), pair("Referer", "r")],
        &vec![pair("referer", "s"), pair("cookie", "c"), pair("REFERER", "t")],
    );
    assert_eq!(
        merged,
        vec![pair("Accept", "a"), pair("Referer", "t"), pair("cookie", "c")]
    );
}

#[test]
fn overlay_replaces_case_insensitively_and_appends_new() {
    let pair = |k: &str, v: &str| (k.to_string(), v.to_string());
    let base = vec![
        pair("User-Agent", "chrome"),
        pair("Referer", "https://example.org/embed/1"),
    ];
    let overlay = vec![
        pair("referer", "https://example.org/embed/1"),
        pair("cookie", "__cf_bm=abc"),
        pair("sec-fetch-site", "same-origin"),
    ];
    let merged = merge_header_lists(base, &overlay);
    assert_eq!(
        merged
            .iter()
            .filter(|(k, _)| k.eq_ignore_ascii_case("referer"))
            .count(),
        1
    );
    assert!(merged.iter().any(|(k, v)| k == "cookie" && v == "__cf_bm=abc"));
    assert!(merged
        .iter()
        .any(|(k, v)| k == "sec-fetch-site" && v == "same-origin"));
    assert!(merged.iter().any(|(k, v)| k == "User-Agent" && v == "chrome"));
}

fn sent(id: &str, u: &str, kind: &str) -> CdpEvent {
    CdpEvent {
        method: "Network.requestWillBeSent".to_string(),
        params: Members::new()
            .with("requestId", text_value(id))
            .with("type", text_value(kind))
            .with(
                "request",
                Members::new()
                    .with("url", text_value(u))
                    .with(
                        "headers",
                        Members::new().with("User-Agent", text_value("chrome")).object(),
                    )
                    .object(),
            )
            .object(),
        session_id: Some("s".to_string()),
    }
}

fn extra(id: &str) -> CdpEvent {
    CdpEvent {
        method: "Network.requestWillBeSentExtraInfo".to_string(),
        params: Members::new()
            .with("requestId", text_value(id))
            .with(
                "headers",
                Members::new().with("cookie", text_value("k=v")).object(),
            )
            .object(),
        session_id: Some("s".to_string()),
    }
}

fn answered(id: &str, u: &str, mime: &str, status: i64, kind: &str) -> CdpEvent {
    CdpEvent {
        method: "Network.responseReceived".to_string(),
        params: Members::new()
            .with("requestId", text_value(id))
            .with("type", text_value(kind))
            .with(
                "response",
                Members::new()
                    .with("url", text_value(u))
                    .with("mimeType", text_value(mime))
                    .with("status", Json::Int(status))
                    .object(),
            )
            .object(),
        session_id: Some("s".to_string()),
    }
}

fn globs() -> Globs {
    Globs::compile(&vec!["*.m3u8".to_string()]).unwrap()
}

fn sessions() -> Vec<String> {
    vec!["s".to_string()]
}

#[test]
fn sniffs_a_url_a_page_script_fetches() {
    let mut s = Sniff::start(url("http://h/embed"), 0, 20_000, false);
    assert!(matches!(s.turn(0), SniffStep::Wait { .. }));
    let hit = "http://h/media/master.m3u8";
    assert!(matches!(
        s.event(10, &sent("1", hit, "XHR"), &globs(), &sessions()),
        SniffStep::Again
    ));
    s.event(20, &extra("1"), &globs(), &sessions());
    let step = s.turn(500);
    match step {
        SniffStep::Hit { url, headers } => {
            assert!(url.as_str().ends_with("/media/master.m3u8"));
            assert!(headers.contains(&("cookie".to_string(), "k=v".to_string())));
            assert!(headers.iter().any(|(k, _)| k == "User-Agent"));
        }
        _ => panic!("no hit"),
    }
}

#[test]
fn a_manifest_is_known_by_its_type() {
    let mut s = Sniff::start(url("http://h/embed"), 0, 20_000, false);
    s.event(1, &sent("1", "http://h/play?id=1", "XHR"), &globs(), &sessions());
    let step = s.event(
        2,
        &answered("1", "http://h/play?id=1", "application/vnd.apple.mpegurl", 200, "XHR"),
        &globs(),
        &sessions(),
    );
    match step {
        SniffStep::Hit { url, .. } => assert_eq!(url.as_str(), "http://h/play?id=1"),
        _ => panic!("no hit"),
    }
    assert!(is_manifest_mime("application/dash+xml"));
    assert!(!is_manifest_mime("text/html"));
}

#[test]
fn a_manifest_is_known_by_its_body() {
    let mut s = Sniff::start(url("http://h/embed"), 0, 20_000, false);
    s.event(1, &sent("1", "http://h/play", "XHR"), &globs(), &sessions());
    s.event(
        2,
        &answered("1", "http://h/play", "text/plain", 200, "XHR"),
        &globs(),
        &sessions(),
    );
    let done = CdpEvent {
        method: "Network.loadingFinished".to_string(),
        params: Members::new()
            .with("requestId", text_value("1"))
            .with("encodedDataLength", Json::Int(100))
            .object(),
        session_id: Some("s".to_string()),
    };
    match s.event(3, &done, &globs(), &sessions()) {
        SniffStep::ReadBody { request, via } => {
            assert_eq!(request, "1");
            assert_eq!(via.as_deref(), Some("s"));
        }
        _ => panic!("body not read"),
    }
    let reply = Members::new()
        .with("body", text_value("I0VYVE0zVQo="))
        .with("base64Encoded", Json::Bool(true))
        .object();
    assert_eq!(read_body_head(&reply), "#EXTM3U\n");
    match s.body_read("1", Some(reply)) {
        SniffStep::Hit { url, .. } => assert_eq!(url.as_str(), "http://h/play"),
        _ => panic!("no hit"),
    }
    assert!(body_is_manifest("#EXTM3U\n"));
    assert!(!body_is_manifest("<html>"));
}

#[test]
fn other_pages_are_not_listened_to() {
    let mut s = Sniff::start(url("http://h/embed"), 0, 20_000, false);
    let mut e = sent("1", "http://h/a.m3u8", "XHR");
    e.session_id = Some("elsewhere".to_string());
    s.event(1, &e, &globs(), &sessions());
    assert!(!matches!(s.turn(1_000), SniffStep::Hit { .. }));
}

#[test]
fn a_sniff_ends_at_its_deadline() {
    let mut s = Sniff::start(url("http://h/embed"), 0, 5_000, false);
    assert!(matches!(s.turn(5_000), SniffStep::GiveUp));
    assert!(matches!(s.conclude("<html></html>"), BrowserError::NoMatch));
    assert!(matches!(
        s.conclude("<title>Just a moment...</title>"),
        BrowserError::Challenge
    ));
}

#[test]
fn a_challenge_ends_a_sniff_after_its_grace() {
    let mut s = Sniff::start(url("http://h/embed"), 0, 60_000, false);
    let page = "<title>Just a moment...</title>";
    assert!(matches!(s.turn(3_000), SniffStep::Probe));
    assert!(!matches!(s.probed(3_000, page), SniffStep::Challenge));
    let mut now = 3_000;
    let mut ended = false;
    while now < 30_000 {
        now += 2_500;
        if matches!(s.turn(now), SniffStep::Probe)
            && matches!(s.probed(now, page), SniffStep::Challenge)
        {
            ended = true;
            break;
        }
    }
    assert!(ended);
    assert!(now >= 18_000, "solvers get time");
}

#[test]
fn pages_are_poked_until_it_works() {
    let mut s = Sniff::start(url("http://h/embed"), 0, 60_000, true);
    assert!(matches!(s.turn(2_000), SniffStep::Interact));
    s.interacted(2_000, Some(Json::Bool(false)));
    assert!(!matches!(s.turn(2_100), SniffStep::Interact));
    let mut again = s.turn(3_500);
    if matches!(again, SniffStep::Probe) {
        s.probed(3_500, "<html></html>");
        again = s.turn(3_600);
    }
    assert!(matches!(again, SniffStep::Interact));
    s.interacted(3_600, Some(Json::Bool(true)));
    assert!(!matches!(s.turn(5_600), SniffStep::Interact));
}

#[test]
fn headers_are_read_from_an_object() {
    let j = Members::new()
        .with("A", text_value("1"))
        .with("B", Json::Int(2))
        .object();
    assert_eq!(
        header_map(Some(&j)),
        vec![("A".to_string(), "1".to_string()), ("B".to_string(), "".to_string())]
    );
    assert!(header_map(None).is_empty());
}

#[test]
fn the_sandbox_stays_on_unless_it_cannot() {
    let cfg = BrowserConfig::default();
    let profile = TempProfile::new("/tmp", 7, 9);
    let plan = |root: bool| plan_launch(&cfg, 4, 9222, &profile, "UA", &None, root);
    let args = launch_args(&plan(false));
    assert!(!args.contains(&"--no-sandbox".to_string()));
    assert!(args.contains(&"--remote-debugging-port=9222".to_string()));
    assert!(args.contains(&format!("--user-data-dir={}", profile.path())));
    assert!(launch_args(&plan(true)).contains(&"--no-sandbox".to_string()));
    assert!(renderer_limit(1) >= 1);
}

#[test]
fn the_user_agent_is_a_desktop_one() {
    let ua = desktop_ua(&Some("Chromium 147.0.1.2 built on x".to_string()));
    assert!(ua.contains("Chrome/147.0.0.0"), "{}", ua);
    assert!(!ua.contains("Headless"));
    assert!(desktop_ua(&None).contains("Chrome/"));
}

#[test]
fn root_is_told_by_the_process_status() {
    assert!(running_as_root(&Some("Name:\tx\nUid:\t0\t0\t0\t0\n".to_string())));
    assert!(!running_as_root(&Some("Uid:\t1000\t0\t0\t0\n".to_string())));
    assert!(!running_as_root(&None));
}

#[test]
fn binaries_are_looked_for_by_name() {
    assert!(!binary_names("").is_empty());
    assert_eq!(
        resolve_binary("", Some("/usr/bin/chromium".to_string()), false).ok(),
        Some("/usr/bin/chromium".to_string())
    );
    assert!(resolve_binary("", None, false).is_err());
}

#[test]
fn the_debugger_names_its_socket() {
    let reply = Members::new()
        .with("webSocketDebuggerUrl", text_value("ws://127.0.0.1:1/x"))
        .object();
    assert_eq!(debugger_url(&reply, "{}").unwrap(), "ws://127.0.0.1:1/x");
    assert!(debugger_url(&Json::Null, "null").is_err());
    assert!(never_came_up("timed out", "no display").message().contains("no display"));
}

#[test]
fn the_debugger_is_asked_for_sixty_times() {
    let mut d = Discovery::new();
    assert!(matches!(d.turn(), DiscoveryStep::Ask));
    for i in 0..60 {
        assert!(matches!(d.turn(), DiscoveryStep::Ask));
        let step = d.asked(Err(format!("refused {}", i)));
        assert!(matches!(step, DiscoveryStep::Pause { ms: 100 }));
    }
    match d.turn() {
        DiscoveryStep::Failed(reason) => assert_eq!(reason, "refused 59"),
        _ => panic!("not given up"),
    }
    match Discovery::default().asked(Ok("ws://127.0.0.1:1/x".to_string())) {
        DiscoveryStep::Found(u) => assert_eq!(u, "ws://127.0.0.1:1/x"),
        _ => panic!("not found"),
    }
}

#[test]
fn a_selector_is_looked_for_until_it_is_there_or_time_is_up() {
    assert_eq!(selector_deadline(500), 10_500);
    assert_eq!(selector_deadline(u64::MAX), u64::MAX);
    assert_eq!(selector_turn(10_499, 10_500), SelectorStep::Probe);
    assert_eq!(selector_turn(10_500, 10_500), SelectorStep::Settle);
    assert_eq!(selector_probed(&Some(Json::Bool(true))), SelectorStep::Settle);
    for miss in [Some(Json::Bool(false)), Some(Json::Int(1)), None] {
        assert_eq!(selector_probed(&miss), SelectorStep::Pause { ms: 200 });
    }
}

#[test]
fn a_context_does_without_cookies_but_not_without_its_script() {
    let agent = Call::SetUserAgent { user_agent: "UA".to_string() };
    assert!(best_effort(&agent));
    assert!(best_effort(&Call::SetCookies { cookies: Vec::new() }));
    assert!(!best_effort(&Call::AddStealthScript));
    assert!(!best_effort(&Call::SetBlockedUrls { urls: Vec::new() }));
}

#[test]
fn displays_are_taken_from_the_lowest_free_one() {
    assert_eq!(free_display_number(&vec![]).ok(), Some(100));
    assert_eq!(free_display_number(&vec![100, 101, 103]).ok(), Some(102));
    let all: Vec<u32> = (100..1000).collect();
    assert!(free_display_number(&all).is_err());
    assert_eq!(display_name(102), ":102");
    assert_eq!(xvfb_args(":102")[0], ":102");
    assert!(matches!(xvfb_startup(":1", 0, true, &None), Startup::Ready));
    assert!(matches!(xvfb_startup(":1", 0, false, &None), Startup::Retry));
    assert!(matches!(xvfb_startup(":1", 60, false, &None), Startup::Failed(_)));
    assert!(matches!(
        xvfb_startup(":1", 0, false, &Some("exit status: 1".to_string())),
        Startup::Failed(_)
    ));
}

#[test]
fn timeouts_are_shown_as_durations() {
    assert!(BrowserError::Timeout(1500).message().contains("1.5s"));
    assert_eq!(BrowserError::NoMatch.into_error().kind(), "not_resolved");
    assert_eq!(BrowserError::Cdp("x".to_string()).into_error().kind(), "browser");
}

#[test]
fn globs_match_as_they_are_written() {
    let g = Globs::compile(&vec!["*.m3u8".to_string(), "*.mpd".to_string()]).unwrap();
    assert!(g.matches("https://h/a/b.m3u8"));
    assert!(!g.matches("https://h/a/b.m3u8?x=1"));
    assert!(!g.is_empty());
    assert!(Globs::compile(&Vec::new()).unwrap().is_empty());
    assert_eq!(
        Globs::compile(&vec!["a[".to_string()]).err().unwrap().kind(),
        "bad_request"
    );
}

#[test]
fn attached_frames_wait_until_they_are_guarded() {
    let calls = sniff_calls(&url("https://example.com/x"));
    let methods: Vec<&str> = calls.iter().map(|c| c.method()).collect();
    assert_eq!(methods, vec!["Target.setAutoAttach", "Page.navigate"]);
    let params = calls[0].params();
    assert_eq!(params.bool_at("waitForDebuggerOnStart"), Some(true));
    assert_eq!(params.bool_at("autoAttach"), Some(true));
    let adopted = adopt_child("", Vec::new());
    let guard = adopted.iter().position(|c| c.method() == "Fetch.enable").unwrap();
    let run = adopted.iter().position(|c| c.method() == "Runtime.runIfWaitingForDebugger");
    assert!(guard < run.unwrap());
    assert_eq!(run, Some(adopted.len() - 1));
}

#[test]
fn durations_are_shown_as_std_shows_them() {
    for ms in [
        0, 1, 9, 10, 999, 1_000, 1_001, 1_010, 1_100, 1_500, 30_000, 59_999, 60_000, 180_000,
        1_000_000_007, u64::MAX,
    ] {
        assert_eq!(show_millis(ms), format!("{:?}", std::time::Duration::from_millis(ms)));
    }
}

#[test]
fn selectors_are_quoted_as_json() {
    let quoted = |s: &str| selector_script(&WaitFor::Selector(s.to_string())).unwrap();
    assert_eq!(
        quoted("a[b=\"c\\d\"]"),
        "document.querySelector(\"a[b=\\\"c\\\\d\\\"]\") != null"
    );
    assert_eq!(
        quoted("\u{8}\t\n\u{c}\r\u{1}\u{1f}\u{7f}\u{e9}/"),
        "document.querySelector(\"\\b\\t\\n\\f\\r\\u0001\\u001f\u{7f}\u{e9}/\") != null"
    );
}
