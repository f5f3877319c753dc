use cobweb::api::dto::{
    clamp_timeout_ms, EvalRequest, NavigateRequest, OneOrMany, ResolveRequest,
    SessionCloseRequest, SniffRequest,
};
use cobweb::api::flaresolverr::{
    created_answer, destroyed_answer, dispatch, fault, get_fault, get_timeout, jar_slot,
    page_answer, page_domain, persist_page, proxy_url, request_get, sessions_create,
    sessions_list, FsCommand, FsProxy, GetFault, Times, V1Request,
};
use cobweb::api::native::{
    asks_jar, eval_result, fetch_header_allowed, fetch_headers, fetch_response_headers,
    headers_to_map, health, navigate_response, parse_url, relayed_status, resolve_params,
    sniff_params,
    sniff_response, EvalValue, FetchProxyRequest,
};
use cobweb::api::{require_api_key, unauthorized};
use cobweb::browser::engine::{seed_context, BrowserError};
use cobweb::browser::mock::{MockEngine, SniffScript};
use cobweb::config::ServerConfig;
use cobweb::egress::Egress;
use cobweb::error::CobwebError;
use cobweb::flaresolverr_client::FlaresolverrClient;
use cobweb::jar::{Jar, NANOS};
use cobweb::json::{text_value, Json, Members};
use cobweb::pipeline::{browser_sniff, BrowserSniffTier, Mode, NavigateResult};
use cobweb::vnc::bridge::{from_server, from_viewer, FromServer, FromViewer, Relay};
use cobweb::vnc::session::{
    open_session, solved_entry, start_fault, start_target, StartFault, SESSION_MAX_AGE,
};
use cobweb::vnc::x11vnc::{vnc_args, vnc_startup, VncStartup};
use cobweb::vnc::SessionManager;
use cobweb::weburl::Url;

const NOW: i64 = 1_700_000_000;

fn url(s: &str) -> Url {
    Url::parse(s).unwrap()
}

fn raw(name: &str, value: &[u8]) -> (String, Vec<u8>) {
    (name.to_string(), value.to_vec())
}

fn at() -> Times {
    Times { started: 10, ended: 20 }
}

fn pair(k: &str, v: &str) -> (String, String) {
    (k.to_string(), v.to_string())
}

#[test]
fn timeouts_are_clamped() {
    assert_eq!(clamp_timeout_ms(0), 1_000);
    assert_eq!(clamp_timeout_ms(5_000), 5_000);
    assert_eq!(clamp_timeout_ms(u64::MAX), 180_000);
    let eval = EvalRequest {
        url: String::new(),
        js: String::new(),
        timeout_ms: Some(1),
        proxy_url: None,
        egress: None,
    };
    assert_eq!(eval.timeout(30_000), 1_000);
    let nav = NavigateRequest {
        url: String::new(),
        wait_for: None,
        timeout_ms: None,
        proxy_url: None,
        egress: None,
        referer: None,
        extra_headers: None,
    };
    assert_eq!(nav.timeout(30_000), 30_000);
    assert_eq!(nav.timeout(999_999), 180_000);
}

fn resolve_request(u: &str, pattern: Option<OneOrMany>) -> ResolveRequest {
    ResolveRequest {
        url: u.to_string(),
        egress: None,
        proxy_url: None,
        mode: None,
        url_pattern: pattern,
        timeout_ms: None,
        block_resources: None,
        block_trackers: Some(false),
    }
}

#[test]
fn resolve_requests_are_normalised() {
    let p = resolve_params(resolve_request("https://x.to/", None), 30_000).unwrap();
    assert!(p.mode == Mode::Auto);
    assert_eq!(p.url_pattern, vec!["*.m3u8", "*.mpd"]);
    assert!(p.block_resources);
    assert!(!p.block_trackers);
    let one = Some(OneOrMany::One("*.mp4".to_string()));
    assert_eq!(
        resolve_params(resolve_request("https://x.to/", one), 1).unwrap().url_pattern,
        vec!["*.mp4"]
    );
    let none = Some(OneOrMany::Many(Vec::new()));
    let p = resolve_params(resolve_request("https://x.to/", none), 1).unwrap();
    assert_eq!(p.url_pattern, vec!["*.m3u8", "*.mpd"], "an empty list counts as none");
    assert_eq!(p.timeout_ms, 1_000);
    match resolve_params(resolve_request("nope", None), 1) {
        Err(CobwebError::BadRequest(m)) => assert_eq!(m, "not a valid URL: nope"),
        _ => panic!("accepted"),
    }
    assert!(parse_url("https://ok/").is_ok());
}

#[test]
fn the_last_header_wins() {
    let j = headers_to_map(&vec![pair("a", "1"), pair("b", "2"), pair("a", "3")]);
    assert_eq!(j.str_at("a").as_deref(), Some("3"));
    assert_eq!(j.str_at("b").as_deref(), Some("2"));
    match j {
        Json::Object(ms) => assert_eq!(ms.len(), 2),
        _ => panic!("no object"),
    }
}

#[test]
fn health_reports_engine_none_and_wreq_fastpath() {
    let h = health(None, "wreq", 0, vec!["direct".to_string()], 3);
    assert!(h.ready);
    assert_eq!(h.engine, "none");
    assert_eq!(h.fast_engine, "wreq");
    assert!(h.egress_profiles.contains(&"direct".to_string()));
    assert_eq!(h.version, "1.1.0");
}

#[test]
fn health_reports_the_mock_engine() {
    let h = health(Some(("mock".to_string(), 2)), "wreq", 1, Vec::new(), 0);
    assert_eq!(h.engine, "mock");
    assert_eq!(h.fast_engine, "wreq");
    assert_eq!(h.contexts_in_use, 2);
}

fn fetch_request(headers: Vec<(String, String)>, use_jar: bool) -> FetchProxyRequest {
    FetchProxyRequest {
        url: "http://h/seg/1.ts".to_string(),
        egress: None,
        proxy_url: None,
        headers,
        timeout_ms: None,
        use_jar,
    }
}

#[test]
fn fetch_proxies_body_and_status_and_forwards_allowlisted_headers() {
    let req = fetch_request(
        vec![pair("Referer", "https://player.example/"), pair("Host", "evil")],
        true,
    );
    assert_eq!(
        fetch_headers(&req, None),
        vec![pair("Referer", "https://player.example/")]
    );
    let out = fetch_response_headers(
        &vec![
            raw("Content-Type", b"video/mp2t"),
            raw("cache-control", b"public, max-age=60"),
            raw("content-length", b"10"),
        ],
        "http://h/seg/1.ts",
    );
    assert_eq!(
        out,
        vec![
            raw("content-type", b"video/mp2t"),
            raw("cache-control", b"public, max-age=60"),
            raw("x-cobweb-final-url", b"http://h/seg/1.ts"),
            raw("access-control-allow-origin", b"*"),
        ]
    );
    assert_eq!(relayed_status(200), 200);
}

#[test]
fn fetch_mirrors_upstream_error_status() {
    assert_eq!(relayed_status(404), 404);
    assert_eq!(relayed_status(99), 502);
    assert_eq!(relayed_status(1000), 502);
}

#[test]
fn navigation_answers_with_the_page_and_its_status() {
    let a = navigate_response(NavigateResult {
        html: "<p>".to_string(),
        final_url: "https://a.example/".to_string(),
        status: 403,
    });
    assert_eq!(a.html, "<p>");
    assert_eq!(a.final_url, "https://a.example/");
    assert_eq!(a.status, 403);
}

#[test]
fn a_callers_own_cookie_keeps_the_jar_out() {
    let jar = || Some("jar=1".to_string());
    let own = fetch_request(vec![pair("COOKIE", "own=1")], true);
    assert!(!asks_jar(&own));
    assert_eq!(fetch_headers(&own, jar()), vec![pair("COOKIE", "own=1")]);
    let plain = fetch_request(Vec::new(), true);
    assert!(asks_jar(&plain));
    assert_eq!(fetch_headers(&plain, jar()), vec![pair("cookie", "jar=1")]);
    let off = fetch_request(Vec::new(), false);
    assert!(fetch_headers(&off, jar()).is_empty());
    for h in ["Host", "Authorization", "X-Forwarded-For", "Content-Length"] {
        assert!(!fetch_header_allowed(h), "{}", h);
    }
    assert!(fetch_header_allowed("If-None-Match"));
}

#[test]
fn a_final_url_that_is_no_header_is_left_out() {
    for bad in ["http://h/\n", "http://h/\u{7f}", "\u{1}"] {
        let out = fetch_response_headers(&Vec::new(), bad);
        assert_eq!(out, vec![raw("access-control-allow-origin", b"*")]);
    }
}

#[test]
fn header_values_are_relayed_byte_by_byte() {
    let out = fetch_response_headers(
        &vec![raw("etag", b"\xff\x80"), raw("etag", b"second"), raw("x-other", b"1")],
        "http://h/\u{e9}\tx",
    );
    assert_eq!(
        out,
        vec![
            raw("etag", b"\xff\x80"),
            raw("x-cobweb-final-url", "http://h/\u{e9}\tx".as_bytes()),
            raw("access-control-allow-origin", b"*"),
        ]
    );
}

#[test]
fn sniff_endpoint_returns_intercepted_url_and_headers() {
    let req = SniffRequest {
        trigger_url: "http://127.0.0.1:9/e".to_string(),
        url_pattern: " m3u8 ".to_string(),
        timeout_ms: None,
        proxy_url: None,
        egress: None,
        interact_js: None,
    };
    assert_eq!(req.timeout(30_000), 30_000);
    let (trigger, patterns) = sniff_params(&req).unwrap();
    assert_eq!(patterns, vec!["*m3u8*"]);
    let mut engine = MockEngine::with_sniff(SniffScript::Hit {
        url: "https://cdn.example/s/index.m3u8".to_string(),
        headers: vec![pair("referer", "https://example.com/movie/550")],
    });
    let cx = engine.acquire(&seed_context(&Egress::direct(), &None, true, true));
    let out = BrowserSniffTier::new(()).try_resolve(
        cx.sniff(&trigger, 30_000),
        cx.storage_state(),
        NOW,
    );
    let body = sniff_response(browser_sniff(out, "127.0.0.1", &patterns).unwrap());
    assert!(body.intercepted_url.ends_with("/s/index.m3u8"));
    assert_eq!(
        body.headers.str_at("referer").as_deref(),
        Some("https://example.com/movie/550")
    );
}

#[test]
fn eval_endpoint_returns_result_string() {
    let mut engine = MockEngine::with_sniff(SniffScript::NoMatch).eval_result(text_value("42"));
    let cx = engine.acquire(&seed_context(&Egress::direct(), &None, false, false));
    let v = match cx.eval() {
        Json::Str(s) => EvalValue::Text(s),
        _ => panic!("no text"),
    };
    assert_eq!(eval_result(v), "42");
    assert_eq!(eval_result(EvalValue::Null), "");
    assert_eq!(eval_result(EvalValue::Encoded("{\"a\":1}".to_string())), "{\"a\":1}");
}

#[test]
fn keys_come_in_either_header() {
    let mut server = ServerConfig::default();
    assert!(require_api_key(&server, &None, &None), "no key, no lock");
    server.api_key = Some("s3cret".to_string());
    let s = |v: &str| Some(v.to_string());
    assert!(require_api_key(&server, &None, &s("Bearer s3cret")));
    assert!(!require_api_key(&server, &None, &s("bearer s3cret")));
    assert!(!require_api_key(&server, &s("wrong"), &s("Bearer s3cret")));
    let (status, body) = unauthorized();
    assert_eq!(status, 401);
    assert_eq!(body.str_at("kind").as_deref(), Some("unauthorized"));
}

#[test]
fn closing_without_a_body_saves() {
    assert!(SessionCloseRequest::default().save_cookies);
}

fn v1(cmd: &str, u: Option<&str>, session: Option<&str>) -> V1Request {
    V1Request {
        cmd: cmd.to_string(),
        url: u.map(str::to_string),
        session: session.map(str::to_string),
        max_timeout: None,
        proxy: None,
    }
}

#[test]
fn inbound_request_get_returns_flaresolverr_shape() {
    let mut engine = MockEngine::default().nav_html("<html><body>real page</body></html>");
    let mut req = v1("request.get", Some("https://example.com/x"), None);
    req.max_timeout = Some(20_000);
    assert!(matches!(dispatch(&req, at()), FsCommand::Get));
    assert_eq!(get_timeout(&req), 20_000);
    let u = request_get(&req, true).unwrap();
    let cx = engine.acquire(&seed_context(&Egress::direct(), &None, false, false));
    let out = page_answer(cx.navigate(&u), &cx.storage_state(), &cx.user_agent(), at());

    assert_eq!(out.str_at("status").as_deref(), Some("ok"));
    let sol = out.get("solution").unwrap();
    assert_eq!(sol.get("status").unwrap().as_i64(), Some(200));
    assert!(sol.str_at("response").unwrap().contains("real page"));
    assert!(sol.str_at("userAgent").unwrap().contains("Chrome"));
    assert!(out.str_at("version").unwrap().starts_with("cobweb-"));
    assert_eq!(out.get("startTimestamp").unwrap().as_u64(), Some(10));
    assert_eq!(out.get("endTimestamp").unwrap().as_u64(), Some(20));
    let names: Vec<String> = sol
        .get("cookies")
        .unwrap()
        .as_array()
        .unwrap()
        .iter()
        .map(|c| c.str_at("name").unwrap())
        .collect();
    assert!(names.contains(&"cf_clearance".to_string()));
}

#[test]
fn inbound_request_get_on_challenge_is_an_error() {
    let mut engine = MockEngine::with_sniff(SniffScript::Challenge);
    let cx = engine.acquire(&seed_context(&Egress::direct(), &None, false, false));
    let u = url("https://example.com/blocked");
    let out = page_answer(cx.navigate(&u), &cx.storage_state(), "", at());
    assert_eq!(out.str_at("status").as_deref(), Some("error"));
    assert!(
        matches!(out.get("solution"), Some(Json::Object(_))),
        "challenge still returns the page"
    );
}

#[test]
fn inbound_without_a_browser_is_an_error() {
    let req = v1("request.get", Some("https://example.com/"), None);
    let out = fault(&request_get(&req, false).unwrap_err(), at());
    assert_eq!(out.str_at("status").as_deref(), Some("error"));
    assert!(out.str_at("message").unwrap().contains("chromium"));
}

#[test]
fn flaresolverr_route_errors_without_a_browser() {
    let req = v1("request.get", Some("https://x/"), None);
    let out = fault(&request_get(&req, false).unwrap_err(), at());
    assert_eq!(out.str_at("status").as_deref(), Some("error"));
    assert!(out.str_at("version").unwrap().starts_with("cobweb-"));
}

#[test]
fn inbound_sessions_lifecycle() {
    let jar = Jar::new("/jar", 2700, 3);
    let name = match dispatch(&v1("sessions.create", None, Some("acme")), at()) {
        FsCommand::Create(n) => n,
        _ => panic!("no session"),
    };
    let entry = sessions_create(&name, jar.default_ttl(), NOW as i128 * NANOS);
    assert_eq!(jar.file_for(&entry.domain, &entry.egress), "/jar/acme__fs.json");
    let c = created_answer(&name, &Ok(()), at());
    assert_eq!(c.str_at("status").as_deref(), Some("ok"));
    assert_eq!(c.str_at("session").as_deref(), Some("acme"));

    assert!(matches!(dispatch(&v1("sessions.list", None, None), at()), FsCommand::List));
    let rows = jar.list(&vec![entry], NOW as i128 * NANOS);
    let l = sessions_list(&rows, at());
    let listed = l.get("sessions").unwrap().as_array().unwrap();
    assert_eq!(listed.len(), 1);
    assert_eq!(listed[0].as_str(), Some("acme"));

    match dispatch(&v1("sessions.destroy", None, Some("acme")), at()) {
        FsCommand::Destroy(n) => assert_eq!(n, "acme"),
        _ => panic!("not destroyed"),
    }
    let d = destroyed_answer(&Ok(()), at());
    assert_eq!(d.str_at("status").as_deref(), Some("ok"));
    let l = sessions_list(&Vec::new(), at());
    assert!(l.get("sessions").unwrap().as_array().unwrap().is_empty());
}

#[test]
fn bad_commands_are_answered() {
    let message = |c: FsCommand| match c {
        FsCommand::Answer(j) => j.str_at("message").unwrap(),
        _ => panic!("no answer"),
    };
    assert_eq!(message(dispatch(&v1("nope", None, None), at())), "unknown cmd `nope`");
    assert_eq!(
        message(dispatch(&v1("sessions.destroy", None, None), at())),
        "missing `session`"
    );
    assert_eq!(
        message(dispatch(&v1("request.post", None, None), at())),
        "request.post is not implemented (use request.get)"
    );
    match dispatch(&v1("sessions.create", None, None), at()) {
        FsCommand::Create(n) => assert_eq!(n, "fs20"),
        _ => panic!("no session"),
    }
    assert_eq!(
        request_get(&v1("request.get", None, None), true).unwrap_err(),
        "missing `url`"
    );
    assert_eq!(
        request_get(&v1("request.get", Some("x"), None), true).unwrap_err(),
        "bad url: x"
    );
    let f = get_fault(&GetFault::Acquire(BrowserError::NoMatch), at());
    assert!(f.str_at("message").unwrap().starts_with("acquire: "));
}

#[test]
fn sessions_keep_their_own_slot() {
    let e = Egress::direct();
    assert_eq!(
        jar_slot(&v1("request.get", None, Some("acme")), "x.to", &e),
        pair("acme", "fs")
    );
    assert_eq!(
        jar_slot(&v1("request.get", None, None), "x.to", &e),
        pair("x.to", "direct")
    );
    let raw = Egress::from_raw_proxy("socks5://h.example:1080").unwrap();
    assert_eq!(
        jar_slot(&v1("request.get", None, None), "x.to", &raw),
        pair("x.to", "proxy-h.example-1080")
    );
    let mut req = v1("request.get", None, None);
    assert_eq!(get_timeout(&req), 60_000);
    req.max_timeout = Some(1);
    assert_eq!(get_timeout(&req), 1_000);
    req.max_timeout = Some(1_000);
    assert_eq!(get_timeout(&req), 1_000);
    req.max_timeout = Some(4_999);
    assert_eq!(get_timeout(&req), 4_999);
    req.max_timeout = Some(200_000);
    assert_eq!(get_timeout(&req), 180_000);
    req.proxy = Some(FsProxy { url: Some("http://p:1/".to_string()) });
    assert_eq!(proxy_url(&req).as_deref(), Some("http://p:1/"));
    assert_eq!(page_domain(&url("https://a.example.com/")), "example.com");
    assert_eq!(page_domain(&url("data:x,y")), "");
}

#[test]
fn a_page_is_remembered_in_its_slot() {
    let mut engine = MockEngine::default();
    let cx = engine.acquire(&seed_context(&Egress::direct(), &None, false, false));
    let e = persist_page(None, pair("acme", "fs"), &cx.storage_state(), "UA", 2700, 5);
    assert_eq!(e.domain, "acme");
    assert_eq!(e.egress, "fs");
    assert_eq!(e.user_agent, "UA");
    assert_eq!(e.created, 5);
    let again = persist_page(Some(e), pair("b", "c"), &cx.storage_state(), "", 1, 9);
    assert_eq!(again.user_agent, "UA");
    assert_eq!(again.domain, "b");
    assert_eq!(again.created, 5);
}

#[test]
fn the_delegate_is_asked_in_its_own_words() {
    let c = FlaresolverrClient::new("http://fs:8191//");
    assert_eq!(c.target(), "http://fs:8191/v1");
    let body = c.request(&url("https://x.to/"), &Some(url("socks5://p:1")), 999_999);
    assert_eq!(body.str_at("cmd").as_deref(), Some("request.get"));
    assert_eq!(body.str_at("url").as_deref(), Some("https://x.to/"));
    assert_eq!(body.get("maxTimeout").unwrap().as_u64(), Some(180_000));
    assert_eq!(body.str_at2("proxy", "url").as_deref(), Some("socks5://p:1"));
    assert!(c.request(&url("https://x.to/"), &None, 5).get("proxy").is_none());
    assert!(FlaresolverrClient::configured(&Some(String::new())).is_none());
    assert!(FlaresolverrClient::configured(&None).is_none());
}

#[test]
fn the_delegates_answer_is_read_with_care() {
    let c = FlaresolverrClient::new("http://fs");
    match c.solve(&Members::new().with("message", text_value("busy")).object()) {
        Err(CobwebError::Browser(m)) => assert_eq!(m, "flaresolverr: busy"),
        _ => panic!("solved"),
    }
    match c.solve(&Json::Null) {
        Err(CobwebError::Browser(m)) => assert_eq!(m, "flaresolverr: no message"),
        _ => panic!("solved"),
    }
    match c.solve(&Members::new().with("status", text_value("ok")).object()) {
        Err(CobwebError::Upstream(m)) => assert_eq!(m, "flaresolverr: no solution"),
        _ => panic!("solved"),
    }
    let sol = c
        .solve(
            &Members::new()
                .with("status", text_value("ok"))
                .with(
                    "solution",
                    Members::new().with("status", Json::Int(65_736)).object(),
                )
                .object(),
        )
        .unwrap();
    assert_eq!(sol.status, 200);
    assert!(sol.cookies.is_empty());
    assert_eq!(sol.html, "");
}

#[test]
fn start_fails_cleanly_without_a_display() {
    let mut mgr = SessionManager::new();
    assert!(mgr.reserve_slot(0).ok().unwrap().is_none());
    let (_, domain) = start_target("https://example.com/").unwrap();
    assert_eq!(domain, "example.com");
    let err = mgr.started(Err(start_fault(&StartFault::NoDisplay))).unwrap_err();
    assert_eq!(err.kind(), "browser");
    assert_eq!(mgr.current().id, "");
}

#[test]
fn full_session_roundtrip() {
    let mut mgr = SessionManager::new();
    assert!(mgr.reserve_slot(0).is_ok());
    assert_eq!(mgr.reserve_slot(0).err().unwrap().kind(), "conflict");
    assert_eq!(mgr.close("x").err().unwrap().kind(), "conflict");
    let u = url("https://example.com/challenge");
    let session = open_session(
        &u,
        "example.com".to_string(),
        &Egress::direct(),
        None,
        "t0ken".to_string(),
        5900,
        42,
        100,
    );
    let info = mgr.started(Ok(session)).unwrap();
    assert_eq!(info.id, "s42");
    assert_eq!(info.vnc_token, "t0ken");
    assert_eq!(mgr.current().id, info.id);
    assert_eq!(mgr.current().target_url, u.as_str());

    let again = mgr.reserve_slot(101).err().unwrap();
    assert_eq!(again.kind(), "conflict");
    assert!(again.message().contains("s42"));

    assert_eq!(mgr.rfb_port(&info.id, &info.vnc_token), Some(5900));
    assert_eq!(mgr.rfb_port(&info.id, "wrong-token"), None);
    assert_eq!(mgr.rfb_port("bogus", &info.vnc_token), None);

    assert_eq!(mgr.close("bogus").err().unwrap().kind(), "bad_request");
    let closed = mgr.close(&info.id).ok().unwrap();
    assert_eq!(mgr.current().id, "");
    assert_eq!(mgr.close(&info.id).err().unwrap().kind(), "bad_request");

    let mut engine = MockEngine::default();
    let cx = engine.acquire(&seed_context(&Egress::direct(), &None, false, false));
    let e = solved_entry(&closed, cx.storage_state(), 2700, 0);
    assert_eq!(e.domain, "example.com");
    assert_eq!(e.egress, "direct");
    assert!(e.storage_state.cookies.iter().any(|c| c.name == "cf_clearance"));
}

#[test]
fn a_stale_session_is_reclaimed() {
    let mut mgr = SessionManager::new();
    mgr.reserve_slot(0).ok().unwrap();
    let session = open_session(
        &url("https://x.to/"),
        "x.to".to_string(),
        &Egress::direct(),
        None,
        "t".to_string(),
        1,
        1,
        100,
    );
    mgr.started(Ok(session)).unwrap();
    assert!(mgr.reserve_slot(100 + SESSION_MAX_AGE - 1).is_err());
    let stale = mgr.reserve_slot(100 + SESSION_MAX_AGE).ok().unwrap().unwrap();
    assert_eq!(stale.id, "s1");
}

#[test]
fn sessions_start_only_on_pages() {
    assert_eq!(start_target("nope").unwrap_err().kind(), "bad_request");
    assert_eq!(start_target("data:x,y").unwrap_err().kind(), "bad_request");
    let e = start_fault(&StartFault::Navigate(BrowserError::NoMatch));
    assert!(e.message().contains("navigate: "));
}

#[test]
fn the_screen_server_takes_one_viewer_on_loopback() {
    let args = vnc_args(":100", 5901);
    assert_eq!(args[1], ":100");
    assert_eq!(args[3], "5901");
    assert!(args.contains(&"-localhost".to_string()));
    assert!(!args.contains(&"-shared".to_string()));
    assert!(matches!(vnc_startup(0, true, &None, ""), VncStartup::Ready));
    assert!(matches!(vnc_startup(49, false, &None, ""), VncStartup::Retry));
    match vnc_startup(50, false, &None, " tail ") {
        VncStartup::Failed(CobwebError::Browser(m)) => {
            assert_eq!(m, "x11vnc did not open its RFB port: tail")
        }
        _ => panic!("started"),
    }
    match vnc_startup(3, false, &Some("exit status: 1".to_string()), "no display\n") {
        VncStartup::Failed(CobwebError::Browser(m)) => {
            assert_eq!(m, "x11vnc exited early (exit status: 1): no display")
        }
        _ => panic!("started"),
    }
}

#[test]
fn the_bridge_passes_bytes_and_ends_when_a_side_does() {
    match from_viewer(FromViewer::Payload(vec![1, 2])) {
        Relay::Pass(b) => assert_eq!(b, vec![1, 2]),
        _ => panic!("not passed"),
    }
    assert!(matches!(from_viewer(FromViewer::Ping), Relay::Skip));
    assert!(matches!(from_viewer(FromViewer::Close), Relay::Stop));
    assert!(matches!(from_viewer(FromViewer::Idle), Relay::Stop));
    assert!(matches!(from_server(FromServer::Read(Vec::new())), Relay::Stop));
    assert!(matches!(from_server(FromServer::Read(vec![1])), Relay::Pass(_)));
    assert!(matches!(from_server(FromServer::Failed), Relay::Stop));
}
