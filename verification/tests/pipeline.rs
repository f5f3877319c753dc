use cobweb::api::native::resolve_response;
use cobweb::browser::mock::{MockEngine, SniffScript};
use cobweb::browser::engine::{seed_context, BrowserError, SniffHit};
use cobweb::config::{Config, EgressConfig, YtdlpConfig};
use cobweb::egress::{Egress, EgressRegistry, HealthStep};
use cobweb::error::CobwebError;
use cobweb::fastpath::{FetchResponse, StreamKind};
use cobweb::flaresolverr_client::{FlaresolverrClient, FsSolution};
use cobweb::jar::cookie::{Cookie, StorageState, MICROS_PER_SEC};
use cobweb::jar::{Jar, JarEntry, NANOS};
use cobweb::json::{text_value, Json, Members};
use cobweb::metrics::{esc, rss_kb, Metrics};
use cobweb::pipeline::{
    browser_replay_headers, browser_sniff, build_globset, default_patterns, domain_for_host,
    engine_disabled, engine_not_ready, is_challenged, navigate_fastpath, navigate_header_allowed,
    navigate_result, normalize_sniff_pattern, pattern_ok, persist_delegate, persist_eval,
    persist_success, registrable_domain, resolve, ytdlp_outcome, Admission, Ask,
    BrowserSniffTier, EscalateReason, FastPathTier, Gate, Guards, Mode, Remember, Resolve,
    ResolveCtx, ResolveOutcome, ResolveParams, ResolveStep, StreamResult, TierOutcome, ViaTier,
};
use cobweb::weburl::Url;
use cobweb::ytdlp::{cookie_file, ytdlp_urls, Run, Ytdlp};

const NOW: i64 = 1_700_000_000;

fn url(s: &str) -> Url {
    Url::parse(s).unwrap()
}

#[test]
fn registrable_domain_collapses_subdomains() {
    let u = url("https://cdn.example.com/hls/master.m3u8");
    assert_eq!(registrable_domain(&u).unwrap(), "example.com");
}

#[test]
fn registrable_domain_handles_multi_level_suffix() {
    let u = url("https://www.example.net/anime/1");
    assert_eq!(registrable_domain(&u).unwrap(), "example.net");
    let u = url("https://a.b.example.co.uk/");
    assert_eq!(registrable_domain(&u).unwrap(), "example.co.uk");
}

#[test]
fn registrable_domain_keeps_ip_literal() {
    let u = url("http://192.168.1.10:8080/x");
    assert_eq!(registrable_domain(&u).unwrap(), "192.168.1.10");
}

#[test]
fn a_url_without_a_host_has_no_domain() {
    match registrable_domain(&url("data:text/plain,hi")) {
        Err(CobwebError::BadRequest(m)) => assert_eq!(m, "URL has no host: data:text/plain,hi"),
        _ => panic!("accepted"),
    }
    assert_eq!(domain_for_host("Weird.Localnet", None), "weird.localnet");
}

#[test]
fn globset_matches_manifest_with_query() {
    let set = build_globset(&default_patterns()).unwrap();
    assert!(pattern_ok(&set, &url("https://h/a/b/master.m3u8?token=xyz")));
    assert!(!pattern_ok(&set, &url("https://h/a/b/index.html")));
    let any = build_globset(&Vec::new()).unwrap();
    assert!(pattern_ok(&any, &url("https://h/a/b/index.html")));
}

#[test]
fn bare_patterns_become_globs() {
    assert_eq!(normalize_sniff_pattern("m3u8"), "*m3u8*");
    assert_eq!(normalize_sniff_pattern("*.m3u8"), "*.m3u8");
    assert_eq!(normalize_sniff_pattern("a{b,c}"), "a{b,c}");
}

#[test]
fn params_start_from_the_defaults() {
    let p = ResolveParams::new(url("https://x.to/"));
    assert!(p.mode == Mode::Auto);
    assert_eq!(p.url_pattern, vec!["*.m3u8", "*.mpd"]);
    assert_eq!(p.timeout_ms, 30_000);
    assert!(p.block_resources && p.block_trackers);
}

// A service with a scripted upstream, a scripted browser and a jar in memory.
struct App {
    registry: EgressRegistry,
    jar: Jar,
    stored: Option<JarEntry>,
    metrics: Metrics,
    engine: Option<MockEngine>,
    delegate: Option<Json>,
    allow_private: bool,
}

impl App {
    fn spawn(engine: Option<MockEngine>) -> App {
        let mut cfg = Config::minimal();
        cfg.egress = vec![("direct".to_string(), EgressConfig { proxy: String::new() })];
        App {
            registry: EgressRegistry::from_config(&cfg).unwrap(),
            jar: Jar::new("/jar", 2700, 3),
            stored: None,
            metrics: Metrics::new(),
            engine,
            delegate: None,
            allow_private: true,
        }
    }

    fn let_in(&mut self, u: &Url, egress: Option<&str>) -> Result<Admission, CobwebError> {
        let guards = Guards {
            allow_private: self.allow_private,
            vet_target: true,
        };
        let mut a = Admission::open(
            u.copy(),
            &self.registry,
            &egress.map(str::to_string),
            &None,
            guards,
        )?;
        loop {
            match a.ask() {
                Ask::Lookup(_) => a.looked(&None)?,
                Ask::Reach => match self.registry.ensure_available(a.egress(), 0) {
                    HealthStep::Ready => a.reached(Ok(()))?,
                    HealthStep::Refuse(e) => a.reached(Err(e))?,
                    HealthStep::Probe { .. } => {
                        let r = self.registry.probed(a.egress(), false, 0);
                        a.reached(r)?
                    }
                },
                Ask::Nothing => break,
            }
        }
        assert!(a.gate() == Gate::Open);
        Ok(a)
    }

    fn browse(&mut self, ctx: &ResolveCtx) -> TierOutcome {
        let engine = self.engine.as_mut().unwrap();
        if let Err(e) = engine.ensure_ready() {
            return TierOutcome::Failed(engine_not_ready(&e));
        }
        let tier = BrowserSniffTier::new(());
        assert_eq!(tier.name(), "browser");
        let cx = engine.acquire(&tier.options(ctx));
        let hit = cx.sniff(ctx.url, ctx.timeout_ms);
        tier.try_resolve(hit, cx.storage_state(), NOW)
    }

    fn note(&mut self, outcome: &TierOutcome) {
        if is_challenged(outcome) {
            self.stored = self.jar.note_failure(self.stored.take());
            self.metrics.challenge_hit();
        }
    }

    fn remember(&mut self, entry: JarEntry) {
        let current = self.stored.take();
        self.stored = Some(self.jar.note_success(entry, current, NOW as i128 * NANOS));
    }

    fn fresh(&self) -> Option<JarEntry> {
        let stored = self.stored.as_ref().map(|e| e.copy());
        self.jar.get_fresh(stored, NOW as i128 * NANOS)
    }

    fn post(
        &mut self,
        u: &str,
        mode: Mode,
        page: Result<(u16, &str, &str), CobwebError>,
    ) -> Result<ResolveOutcome, CobwebError> {
        let r = self.run(&url(u), mode, page);
        resolve(&mut self.metrics, &r);
        r
    }

    fn run(
        &mut self,
        u: &Url,
        mode: Mode,
        page: Result<(u16, &str, &str), CobwebError>,
    ) -> Result<ResolveOutcome, CobwebError> {
        let a = self.let_in(u, None)?;
        let seed = self.fresh();
        let globs = build_globset(&default_patterns())?;
        let egress = a.egress().copy();
        let domain = a.domain().to_string();
        let interact_js = None;
        let mut page = Some(page.map(|(status, body, server)| FetchResponse {
            status,
            final_url: u.copy(),
            headers: vec![("server".to_string(), server.to_string())],
            body: body.to_string(),
            set_cookies: Vec::new(),
        }));
        let mut seed = seed;
        let mut flow = Resolve::start(
            &domain,
            mode,
            self.engine.is_some(),
            self.delegate.is_some(),
        );
        let mut step = flow.first();
        loop {
            let ctx = ResolveCtx {
                url: u,
                registrable_domain: &domain,
                egress: &egress,
                mode,
                url_pattern: &globs,
                timeout_ms: 30_000,
                block_resources: true,
                block_trackers: true,
                jar: &seed,
                interact_js: &interact_js,
            };
            let key = egress.jar_key();
            let at = Remember {
                domain: &domain,
                key: &key,
                default_ttl_secs: self.jar.default_ttl(),
                now: NOW as i128 * NANOS,
                now_secs: NOW,
            };
            step = match step {
                ResolveStep::Fast => {
                    let tier = FastPathTier::new(());
                    let req = tier.request(&ctx, NOW);
                    assert_eq!(req.url.as_str(), u.as_str());
                    let out = tier.try_resolve(&ctx, page.take().unwrap(), NOW);
                    self.note(&out);
                    flow.fast_done(out)
                }
                ResolveStep::Browser => {
                    let out = self.browse(&ctx);
                    self.note(&out);
                    flow.browser_done(out)
                }
                ResolveStep::Delegate => {
                    let client = FlaresolverrClient::new("http://fs/");
                    let solution = client.solve(self.delegate.as_ref().unwrap());
                    let stored = self.stored.as_ref().map(|e| e.copy());
                    flow.delegate_done(solution, stored, &at)
                }
                ResolveStep::Retry { entry } => {
                    self.remember(entry);
                    let renewed = self.fresh();
                    let again = ResolveCtx { jar: &renewed, ..ctx };
                    let out = self.browse(&again);
                    seed = renewed;
                    flow.retry_done(out)
                }
                ResolveStep::Done { result, remember } => {
                    if remember {
                        if let Ok(o) = &result {
                            let entry = persist_success(&seed, &at, &o.stream);
                            self.remember(entry);
                        }
                    }
                    return result;
                }
            };
        }
    }
}

fn hit(u: &str) -> SniffScript {
    SniffScript::Hit {
        url: u.to_string(),
        headers: vec![
            ("user-agent".into(), "Mozilla/5.0 (X11) Chrome/147".into()),
            ("referer".into(), "https://example.com/movie/550".into()),
            ("x-requested-with".into(), "XMLHttpRequest".into()),
        ],
    }
}

const SHELL: &str = "<html><body>spa shell</body></html>";
const CF: &str = "<title>Just a moment...</title><div class=\"cf-browser-verification\"></div>";

#[test]
fn fast_path_fails_then_browser_sniff_resolves() {
    let mut app = App::spawn(Some(MockEngine::with_sniff(hit(
        "https://cdn.example/live/master.m3u8?t=1",
    ))));
    let out = app
        .post("http://127.0.0.1:9/e", Mode::Auto, Ok((200, SHELL, "nginx")))
        .unwrap();
    let body = resolve_response(out);
    assert!(body.via_tier == ViaTier::Browser);
    assert!(body.kind == StreamKind::Hls);
    assert!(body.stream_url.ends_with("/live/master.m3u8?t=1"));
    assert_eq!(
        body.headers.str_at("user-agent").as_deref(),
        Some("Mozilla/5.0 (X11) Chrome/147")
    );
    assert_eq!(
        body.headers.str_at("x-requested-with").as_deref(),
        Some("XMLHttpRequest")
    );
    assert_eq!(app.engine.as_ref().unwrap().acquired(), 1);
    let stored = app.stored.unwrap();
    assert_eq!(stored.user_agent, "Mozilla/5.0 (X11) Chrome/147");
    assert_eq!(stored.domain, "127.0.0.1");
}

#[test]
fn browser_challenge_bubbles_up_as_needs_manual_solve() {
    let mut app = App::spawn(Some(MockEngine::with_sniff(SniffScript::Challenge)));
    let err = app
        .post("http://127.0.0.1:9/e", Mode::Auto, Ok((200, SHELL, "nginx")))
        .unwrap_err();
    assert_eq!(err.status(), 422);
    let body = err.body();
    assert_eq!(body.str_at("kind").as_deref(), Some("needs_manual_solve"));
    assert_eq!(body.bool_at("needs_manual_solve"), Some(true));
    assert_eq!(body.str_at("domain").as_deref(), Some("127.0.0.1"));
}

#[test]
fn browser_no_match_is_not_resolved() {
    let mut app = App::spawn(Some(MockEngine::with_sniff(SniffScript::NoMatch)));
    let err = app
        .post("http://127.0.0.1:9/e", Mode::Auto, Ok((200, SHELL, "nginx")))
        .unwrap_err();
    assert_eq!(err.status(), 422);
    assert_eq!(err.kind(), "not_resolved");
    assert!(err.message().contains("after the browser sniff"));
}

#[test]
fn fast_mode_never_touches_the_browser() {
    let mut app = App::spawn(Some(MockEngine::with_sniff(hit("https://cdn.example/x.m3u8"))));
    let err = app
        .post("http://127.0.0.1:9/e", Mode::Fast, Ok((200, SHELL, "nginx")))
        .unwrap_err();
    assert_eq!(err.status(), 422);
    assert_eq!(err.kind(), "not_resolved");
    assert_eq!(app.engine.as_ref().unwrap().acquired(), 0);
}

#[test]
fn browser_mode_skips_the_fast_path() {
    let mut app = App::spawn(Some(MockEngine::with_sniff(hit("https://cdn.example/x.m3u8"))));
    let out = app
        .post(
            "http://127.0.0.1:9/e",
            Mode::Browser,
            Err(CobwebError::Upstream("not asked".into())),
        )
        .unwrap();
    assert!(out.via_tier == ViaTier::Browser);
}

#[test]
fn engine_unavailable_is_a_clean_error() {
    let mut app = App::spawn(Some(MockEngine::unavailable()));
    let err = app
        .post("http://127.0.0.1:9/e", Mode::Auto, Ok((200, SHELL, "nginx")))
        .unwrap_err();
    assert_eq!(err.status(), 502);
    assert_eq!(err.kind(), "browser");
}

#[test]
fn resolve_finds_hls_on_fast_path_and_writes_jar() {
    let mut app = App::spawn(None);
    let page = r#"<html><head><script>
       var setup = {"file":"http://127.0.0.1:9/hls/master.m3u8?token=abc","type":"hls"};
    </script></head><body>player</body></html>"#;
    let out = app
        .post("http://127.0.0.1:9/embed/movie/42", Mode::Auto, Ok((200, page, "nginx")))
        .unwrap();
    let body = resolve_response(out);
    assert!(body.kind == StreamKind::Hls);
    assert!(body.via_tier == ViaTier::Fastpath);
    assert!(body.stream_url.ends_with("/hls/master.m3u8?token=abc"));
    assert!(body.headers.str_at("referer").unwrap().contains("/embed/movie/42"));
    let stored = app.stored.as_ref().unwrap();
    assert!(app
        .jar
        .file_for(&stored.domain, &stored.egress)
        .starts_with("/jar/127.0.0.1__direct"));
}

#[test]
fn resolve_on_cloudflare_challenge_asks_for_manual_solve() {
    let mut app = App::spawn(None);
    let err = app
        .post("http://127.0.0.1:9/embed/blocked", Mode::Auto, Ok((403, CF, "cloudflare")))
        .unwrap_err();
    assert_eq!(err.status(), 422);
    assert_eq!(err.kind(), "needs_manual_solve");
    assert_eq!(err.body().str_at("domain").as_deref(), Some("127.0.0.1"));
}

#[test]
fn resolve_fast_mode_without_a_stream_fails_fast() {
    let mut app = App::spawn(None);
    let err = app
        .post(
            "http://127.0.0.1:9/embed/plain",
            Mode::Fast,
            Ok((200, "<html><body>no stream here</body></html>", "nginx")),
        )
        .unwrap_err();
    assert_eq!(err.status(), 422);
    assert_eq!(err.kind(), "not_resolved");
}

#[test]
fn without_a_browser_a_script_page_needs_one() {
    let mut app = App::spawn(None);
    let err = app
        .post("http://127.0.0.1:9/e", Mode::Auto, Ok((200, SHELL, "nginx")))
        .unwrap_err();
    assert_eq!(err.kind(), "needs_browser");
    let mut flow = Resolve::start("x.to", Mode::Auto, false, true);
    match flow.fast_done(TierOutcome::Escalate(EscalateReason::NotFound)) {
        ResolveStep::Done { result: Err(e), remember } => {
            assert!(e.message().ends_with("x.to: no matching stream URL"));
            assert!(!remember);
        }
        _ => panic!("not over"),
    }
}

#[test]
fn a_failed_fetch_ends_the_resolution() {
    let mut app = App::spawn(Some(MockEngine::with_sniff(hit("https://cdn.example/x.m3u8"))));
    let err = app
        .post(
            "http://127.0.0.1:9/e",
            Mode::Auto,
            Err(CobwebError::Upstream("refused".into())),
        )
        .unwrap_err();
    assert_eq!(err.kind(), "upstream");
    assert_eq!(app.engine.as_ref().unwrap().acquired(), 0);
}

#[test]
fn outbound_delegate_solves_then_browser_retry_wins() {
    let engine = MockEngine::with_sniffs(vec![
        SniffScript::Challenge,
        SniffScript::Hit {
            url: "https://cdn.vix.example/master.m3u8".into(),
            headers: vec![("referer".into(), "https://vix.example/".into())],
        },
    ]);
    let mut app = App::spawn(Some(engine));
    let cookie = Members::new()
        .with("name", text_value("cf_clearance"))
        .with("value", text_value("from-flaresolverr"))
        .with("domain", text_value(".vix.example"))
        .with("path", text_value("/"))
        .with("secure", Json::Bool(true))
        .with("httpOnly", Json::Bool(true))
        .object();
    app.delegate = Some(
        Members::new()
            .with("status", text_value("ok"))
            .with("message", text_value(""))
            .with(
                "solution",
                Members::new()
                    .with("url", text_value("https://vix.example/"))
                    .with("status", Json::Int(200))
                    .with("response", text_value("<html>ok</html>"))
                    .with("userAgent", text_value("Mozilla/5.0 FS"))
                    .with("cookies", Json::Array(vec![cookie]))
                    .object(),
            )
            .object(),
    );
    let out = app
        .post(
            "http://127.0.0.1:9/e",
            Mode::Auto,
            Ok((403, "<title>Just a moment...</title>", "cloudflare")),
        )
        .unwrap();
    assert!(out.via_tier == ViaTier::Flaresolverr);
    assert!(out.stream.stream_url.ends_with("/master.m3u8"));
    let stored = app.stored.unwrap();
    assert!(stored
        .storage_state
        .cookies
        .iter()
        .any(|c| c.value == "from-flaresolverr"));
    assert_eq!(stored.user_agent, "Mozilla/5.0 FS");
}

#[test]
fn a_delegate_that_fails_leaves_a_manual_solve() {
    let mut app = App::spawn(Some(MockEngine::with_sniff(SniffScript::Challenge)));
    app.delegate = Some(Members::new().with("status", text_value("error")).object());
    let err = app
        .post("http://127.0.0.1:9/e", Mode::Auto, Ok((403, CF, "cloudflare")))
        .unwrap_err();
    assert_eq!(err.kind(), "needs_manual_solve");
}

#[test]
fn unknown_named_egress_is_a_400() {
    let mut app = App::spawn(None);
    let err = app.let_in(&url("https://example.com/x"), Some("ghost")).err().unwrap();
    assert_eq!(err.status(), 400);
    assert_eq!(err.kind(), "unknown_egress");
}

#[test]
fn fetch_rejects_unknown_named_egress() {
    let mut app = App::spawn(None);
    let err = app.let_in(&url("http://127.0.0.1:9/x"), Some("nope")).err().unwrap();
    assert_eq!(err.status(), 400);
}

#[test]
fn ssrf_guard_blocks_loopback_and_metadata_targets() {
    let mut app = App::spawn(None);
    app.allow_private = false;
    for u in ["http://127.0.0.1:9/x", "http://169.254.169.254/latest/meta-data/"] {
        let err = app.let_in(&url(u), None).err().unwrap();
        assert_eq!(err.status(), 403, "{}", u);
        assert_eq!(err.kind(), "blocked");
    }
}

#[test]
fn ssrf_guard_off_allows_private_targets() {
    let mut app = App::spawn(None);
    assert!(app.let_in(&url("http://127.0.0.1:9/x"), None).is_ok());
    let err = app.let_in(&url("http://169.254.169.254/"), None).err().unwrap();
    assert_eq!(err.status(), 403);
    assert_eq!(err.kind(), "blocked");
}

#[test]
fn a_private_proxy_is_refused_before_it_is_reached() {
    let app = App::spawn(None);
    let guards = Guards { allow_private: false, vet_target: true };
    let mut a = Admission::open(
        url("https://example.com/"),
        &app.registry,
        &None,
        &Some("http://127.0.0.1:2375/".to_string()),
        guards,
    )
    .ok()
    .unwrap();
    assert!(matches!(a.ask(), Ask::Lookup(None)));
    assert!(a.looked(&None).is_err());
    assert!(a.gate() == Gate::Shut);
    assert!(matches!(a.ask(), Ask::Nothing));
}

#[test]
fn metrics_endpoint_counts_a_fast_path_resolve() {
    let mut app = App::spawn(None);
    let before = app.metrics.render(0, 0, 5, None);
    assert!(before.contains("cobweb_resolve_ok_total 0"), "{}", before);
    assert!(before.contains("cobweb_uptime_seconds 5"));

    app.post(
        "http://127.0.0.1:9/embed/m",
        Mode::Auto,
        Ok((200, r#"<script>file: "http://127.0.0.1:9/hls/master.m3u8"</script>"#, "x")),
    )
    .unwrap();

    let body = app.metrics.render(0, 1, 6, Some(2));
    assert!(body.contains("cobweb_resolve_total 1"), "{}", body);
    assert!(body.contains("cobweb_resolve_ok_total 1"));
    assert!(body.contains("cobweb_resolve_via_total{tier=\"fastpath\"} 1"));
    assert!(body.contains("cobweb_domain_ok_total{domain=\"127.0.0.1\"} 1"));
    assert!(body.contains("cobweb_jar_domains 1"));
    assert!(body.contains("cobweb_process_resident_bytes 2048"));
}

#[test]
fn outcomes_are_counted_apart() {
    let mut m = Metrics::default();
    m.resolve_needs_manual("a.to");
    m.resolve_error("unknown");
    m.resolve_ok("a.to", ViaTier::Ytdlp);
    m.challenge_hit();
    let t = m.render(1, 2, 3, None);
    assert!(t.starts_with(
        "# HELP cobweb_resolve_total resolve() calls\n# TYPE cobweb_resolve_total counter\ncobweb_resolve_total 3\n"
    ));
    for line in [
        "cobweb_resolve_needs_manual_total 1\n",
        "cobweb_resolve_error_total 1\n",
        "cobweb_challenges_total 2\n",
        "cobweb_resolve_via_total{tier=\"ytdlp\"} 1\n",
        "cobweb_domain_attempts_total{domain=\"a.to\"} 2\n",
        "cobweb_domain_ok_total{domain=\"a.to\"} 1\n",
        "cobweb_domain_challenges_total{domain=\"a.to\"} 1\n",
        "cobweb_domain_attempts_total{domain=\"unknown\"} 1\n",
        "cobweb_browser_contexts_in_use 1\n",
        "cobweb_jar_domains 2\n",
    ] {
        assert!(t.contains(line), "{}\n{}", line, t);
    }
    assert!(!t.contains("resident"));
}

#[test]
fn counters_add_up() {
    let mut m = Metrics::new();
    let tiers = [
        ViaTier::Fastpath,
        ViaTier::Browser,
        ViaTier::Flaresolverr,
        ViaTier::Manual,
        ViaTier::Ytdlp,
    ];
    for (i, t) in tiers.iter().enumerate() {
        m.resolve_ok(&format!("d{}.to", i % 2), *t);
    }
    m.resolve_ok("d0.to", ViaTier::Manual);
    m.resolve_needs_manual("d1.to");
    m.resolve_error("d2.to");
    m.challenge_hit();
    assert_eq!(m.total(), 8);
    assert_eq!(m.ok_total() + m.needs_manual_total() + m.error_total(), m.total());
    assert_eq!(tiers.iter().map(|t| m.via_total(*t)).sum::<u64>(), m.ok_total());
    assert_eq!(m.via_total(ViaTier::Manual), 2);
    assert_eq!(m.challenges_total(), 2);
    assert!(m.challenges_total() >= m.needs_manual_total());
    let names = ["d0.to", "d1.to", "d2.to"];
    assert_eq!(names.iter().map(|d| m.domain_counts(d).attempts).sum::<u64>(), m.total());
    assert_eq!(names.iter().map(|d| m.domain_counts(d).ok).sum::<u64>(), m.ok_total());
    assert_eq!(m.domain_counts("d1.to").challenges, 1);
    assert_eq!(m.domain_counts("elsewhere.to").attempts, 0);
}

#[test]
fn every_domain_and_tier_has_its_samples() {
    let mut m = Metrics::new();
    m.resolve_error("a\"b.to");
    m.resolve_ok("c.to", ViaTier::Browser);
    m.resolve_error("c.to");
    let t = m.render(0, 0, 0, None);
    let lines: Vec<&str> = t.lines().collect();
    let count = |l: &str| lines.iter().filter(|x| **x == l).count();
    for l in [
        "cobweb_domain_attempts_total{domain=\"a\\\"b.to\"} 1",
        "cobweb_domain_ok_total{domain=\"a\\\"b.to\"} 0",
        "cobweb_domain_challenges_total{domain=\"a\\\"b.to\"} 0",
        "cobweb_domain_attempts_total{domain=\"c.to\"} 2",
        "cobweb_domain_ok_total{domain=\"c.to\"} 1",
        "cobweb_domain_challenges_total{domain=\"c.to\"} 0",
        "cobweb_resolve_via_total{tier=\"fastpath\"} 0",
        "cobweb_resolve_via_total{tier=\"browser\"} 1",
        "cobweb_resolve_via_total{tier=\"flaresolverr\"} 0",
        "cobweb_resolve_via_total{tier=\"manual\"} 0",
        "cobweb_resolve_via_total{tier=\"ytdlp\"} 0",
    ] {
        assert_eq!(count(l), 1, "{}\n{}", l, t);
    }
    assert_eq!(lines.iter().filter(|l| l.contains("{domain=")).count(), 6);
}

#[test]
fn labels_are_escaped() {
    assert_eq!(esc("a\\b\"c"), "a\\\\b\\\"c");
}

#[test]
fn resident_size_is_read_from_the_status() {
    assert_eq!(rss_kb("Name:\tx\nVmRSS:\t   1234 kB\nVmRSS: 9 kB\n"), Some(1234));
    assert_eq!(rss_kb("Name:\tx\n"), None);
    assert_eq!(rss_kb("VmRSS: kB\nVmRSS: 7 kB"), Some(7));
}

#[test]
fn replayed_headers_are_those_worth_replaying() {
    let h = SniffHit {
        url: url("https://cdn.example/x.m3u8"),
        request_headers: vec![
            ("User-Agent".into(), "UA".into()),
            ("Host".into(), "evil".into()),
            ("X-Token".into(), "t".into()),
            ("Cookie".into(), "old=1".into()),
        ],
        final_url: url("https://page.example/"),
    };
    let state = StorageState::from_cookies(vec![Cookie::new("new", "2", "cdn.example")]);
    let got = browser_replay_headers(&h, &state, NOW);
    let pair = |a: &str, b: &str| (a.to_string(), b.to_string());
    assert_eq!(
        got,
        vec![
            pair("user-agent", "UA"),
            pair("x-token", "t"),
            pair("referer", "https://page.example/"),
            pair("cookie", "new=2"),
        ]
    );
    let none = browser_replay_headers(&h, &StorageState::default(), NOW);
    assert!(none.contains(&pair("cookie", "old=1")));
}

#[test]
fn navigate_returns_html_and_final_url() {
    let r = navigate_result(FetchResponse {
        status: 200,
        final_url: url("http://127.0.0.1:9/page"),
        headers: Vec::new(),
        body: "<html><body>hi</body></html>".to_string(),
        set_cookies: Vec::new(),
    });
    assert_eq!(r.html, "<html><body>hi</body></html>");
    assert!(r.final_url.ends_with("/page"));
    assert_eq!(r.status, 200);
}

#[test]
fn navigate_hands_an_error_status_on() {
    let r = navigate_result(FetchResponse {
        status: 503,
        final_url: url("http://127.0.0.1:9/down"),
        headers: Vec::new(),
        body: "busy".to_string(),
        set_cookies: Vec::new(),
    });
    assert_eq!(r.status, 503);
    assert_eq!(r.html, "busy");
}

#[test]
fn navigate_lets_only_shaping_headers_through() {
    assert!(navigate_header_allowed(" Sec-Fetch-Mode "));
    assert!(navigate_header_allowed("ORIGIN"));
    for h in ["Host", "Authorization", "Cookie", "X-Forwarded-For"] {
        assert!(!navigate_header_allowed(h), "{}", h);
    }
    let req = navigate_fastpath(
        &url("http://h/"),
        &Egress::direct(),
        &None,
        &Some("https://r/".to_string()),
        &vec![
            ("Host".to_string(), "evil".to_string()),
            ("Range".to_string(), "bytes=0-1".to_string()),
        ],
        1_000,
        NOW,
    );
    assert_eq!(
        req.extra_headers,
        vec![
            ("referer".to_string(), "https://r/".to_string()),
            ("Range".to_string(), "bytes=0-1".to_string()),
        ]
    );
    assert!(req.cookie_header.is_none());
}

#[test]
fn the_jar_seeds_a_request() {
    let mut e = JarEntry::new("h.example", "direct", 2700, 0);
    e.user_agent = "UA".to_string();
    let mut c = Cookie::new("a", "1", "h.example");
    c.expires = (NOW as i128 + 1) * MICROS_PER_SEC;
    e.storage_state = StorageState::from_cookies(vec![c]);
    let req = navigate_fastpath(
        &url("http://h.example/"),
        &Egress::direct(),
        &Some(e),
        &None,
        &Vec::new(),
        1_000,
        NOW,
    );
    assert_eq!(req.user_agent.as_deref(), Some("UA"));
    assert_eq!(req.accept_language, None);
    assert_eq!(req.cookie_header.as_deref(), Some("a=1"));
}

fn at() -> Remember<'static> {
    Remember {
        domain: "x.to",
        key: "direct",
        default_ttl_secs: 2700,
        now: NOW as i128 * NANOS,
        now_secs: NOW,
    }
}

#[test]
fn a_clearance_cookie_sets_the_lifetime() {
    let mut c = Cookie::new("cf_clearance", "x", "x.to");
    c.expires = (NOW as i128 + 600) * MICROS_PER_SEC;
    let stream = StreamResult {
        stream_url: "https://x.to/a.m3u8".to_string(),
        kind: StreamKind::Hls,
        headers: vec![
            ("user-agent".to_string(), "UA".to_string()),
            ("accept-language".to_string(), "de".to_string()),
        ],
        cookies: vec![c.copy()],
    };
    let e = persist_success(&None, &at(), &stream);
    assert_eq!(e.ttl_hint_secs, 600);
    assert_eq!(e.user_agent, "UA");
    assert_eq!(e.accept_language, "de");
    let mut seed = JarEntry::new("x.to", "direct", 1, 0);
    seed.user_agent = "pinned".to_string();
    let e = persist_success(&Some(seed), &at(), &stream);
    assert_eq!(e.user_agent, "pinned");
    let e = persist_delegate(None, &at(), vec![c.copy()], "");
    assert_eq!(e.ttl_hint_secs, 600);
    assert_eq!(e.user_agent, "");
    let e = persist_eval(&None, &at(), vec![c]);
    assert_eq!(e.ttl_hint_secs, 2700);
    assert_eq!(e.storage_state.cookies.len(), 1);
}

#[test]
fn browser_endpoints_need_the_engine_when_it_is_off() {
    let e = engine_disabled();
    assert_eq!(e.status(), 422);
    assert_eq!(e.kind(), "needs_browser");
}

#[test]
fn sniff_endpoint_says_what_it_looked_for() {
    let miss = TierOutcome::Escalate(EscalateReason::NotFound);
    match browser_sniff(miss, "x.to", &vec!["*m3u8*".to_string()]) {
        Err(CobwebError::NotResolved(m)) => {
            assert_eq!(m, "x.to: no request matched [\"*m3u8*\"] within the timeout")
        }
        _ => panic!("resolved"),
    }
    let challenged = TierOutcome::Escalate(EscalateReason::Challenge);
    assert_eq!(
        browser_sniff(challenged, "x.to", &Vec::new()).unwrap_err().kind(),
        "needs_manual_solve"
    );
    let failed = BrowserSniffTier::new(()).try_resolve(
        Err(BrowserError::Cdp("gone".to_string())),
        StorageState::default(),
        NOW,
    );
    assert_eq!(browser_sniff(failed, "x.to", &Vec::new()).unwrap_err().kind(), "browser");
}

fn ytdlp() -> Ytdlp {
    Ytdlp::from_config(
        &YtdlpConfig {
            enabled: true,
            bin: "/usr/bin/yt-dlp".to_string(),
            hosts: vec!["youtube.com".to_string(), ".Youtu.be".to_string()],
        },
        true,
    )
    .unwrap()
}

#[test]
fn matched_host_goes_through_ytdlp() {
    let y = ytdlp();
    assert_eq!(y.binary(), "/usr/bin/yt-dlp");
    let u = url("https://www.youtube.com/watch?v=dQw4w9WgXcQ");
    assert!(y.handles(&u));
    assert_eq!(
        y.args(&u, &None, &Some("/tmp/c".to_string())),
        vec!["-g", "--no-warnings", "--no-playlist", "--cookies", "/tmp/c", u.as_str()]
    );
    let urls = ytdlp_urls(&Run::Done {
        stdout: "https://r1---sn-x.googlevideo.com/videoplayback?foo=bar\n".to_string(),
    })
    .unwrap();
    let out = ytdlp_outcome(&urls, &None, "youtube.com");
    assert!(out.via_tier == ViaTier::Ytdlp);
    assert!(out.stream.stream_url.contains("videoplayback"));
    assert!(out.stream.kind == StreamKind::Progressive);
    assert_eq!(ViaTier::Ytdlp.name(), "ytdlp");
}

#[test]
fn unmatched_host_skips_ytdlp() {
    assert!(!ytdlp().handles(&url("http://127.0.0.1:1/x")));
    assert!(!ytdlp().handles(&url("https://notyoutube.com/x")));
    assert!(Ytdlp::from_config(&YtdlpConfig::default(), true).is_none());
}

#[test]
fn ytdlp_failure_is_reported() {
    assert!(ytdlp().handles(&url("https://youtu.be/xyz")));
    let err = ytdlp_urls(&Run::Failed {
        status: "exit status: 1".to_string(),
        stderr: " ERROR: unavailable \nmore".to_string(),
    })
    .unwrap_err();
    assert_eq!(err.status(), 422);
    assert_eq!(err.kind(), "not_resolved");
    assert!(err.message().contains("yt-dlp"));
    assert!(ytdlp_urls(&Run::Done { stdout: "nothing".to_string() }).is_err());
    assert_eq!(
        ytdlp_urls(&Run::TimedOut(1500)).unwrap_err().message(),
        format!(
            "{}: yt-dlp timed out after 1.5s",
            CobwebError::Upstream(String::new()).message().trim_end_matches(": ")
        )
    );
    assert_eq!(
        ytdlp_urls(&Run::NotStarted("gone".to_string())).unwrap_err().kind(),
        "upstream"
    );
}

#[test]
fn ytdlp_rides_the_jar() {
    assert!(cookie_file(&None).is_none());
    let s = StorageState::from_cookies(vec![Cookie::new("a", "1", "youtube.com")]);
    assert!(cookie_file(&Some(s)).unwrap().contains("\ta\t1"));
}

#[test]
fn a_scripted_hit_that_is_no_url_says_why() {
    let mut engine = MockEngine::with_sniff(SniffScript::Hit {
        url: "http://[oops/".to_string(),
        headers: Vec::new(),
    });
    let cx = engine.acquire(&seed_context(&Egress::direct(), &None, false, false));
    match cx.sniff(&url("https://example.com/x"), 1_000) {
        Err(BrowserError::Other(m)) => assert_eq!(m, "mock bad url: invalid IPv6 address"),
        _ => panic!("a hit"),
    }
}

#[test]
fn the_solver_buys_one_retry_with_its_cookies() {
    let solution = || FsSolution {
        cookies: vec![
            Cookie::new("cf_clearance", "new", ".x.to"),
            Cookie::new("b", "2", "x.to"),
        ],
        user_agent: "UA".to_string(),
        html: String::new(),
        status: 200,
    };
    let at = Remember {
        domain: "x.to",
        key: "direct",
        default_ttl_secs: 2700,
        now: NOW as i128 * NANOS,
        now_secs: NOW,
    };
    let challenge = || TierOutcome::Escalate(EscalateReason::Challenge);
    let mut stored = JarEntry::new("x.to", "direct", 2700, 0);
    stored.storage_state = StorageState::from_cookies(vec![
        Cookie::new("a", "1", "x.to"),
        Cookie::new("cf_clearance", "old", ".x.to"),
    ]);
    let mut flow = Resolve::start("x.to", Mode::Auto, true, true);
    assert!(matches!(flow.first(), ResolveStep::Fast));
    assert!(matches!(flow.fast_done(challenge()), ResolveStep::Browser));
    assert!(matches!(flow.browser_done(challenge()), ResolveStep::Delegate));
    match flow.delegate_done(Ok(solution()), Some(stored), &at) {
        ResolveStep::Retry { entry } => {
            let pairs: Vec<String> =
                entry.storage_state.cookies.iter().map(|c| c.header_pair()).collect();
            assert_eq!(pairs, vec!["a=1", "cf_clearance=new", "b=2"]);
            assert_eq!(entry.user_agent, "UA");
        }
        _ => panic!("no retry"),
    }
    match flow.retry_done(challenge()) {
        ResolveStep::Done { result: Err(e), remember } => {
            assert_eq!(e.kind(), "needs_manual_solve");
            assert!(!remember);
        }
        _ => panic!("not over"),
    }
    let mut refused = Resolve::start("x.to", Mode::Browser, true, true);
    assert!(matches!(refused.browser_done(challenge()), ResolveStep::Delegate));
    let gone = Err(CobwebError::Upstream("down".to_string()));
    match refused.delegate_done(gone, None, &at) {
        ResolveStep::Done { result: Err(e), .. } => assert_eq!(e.kind(), "needs_manual_solve"),
        _ => panic!("not over"),
    }
}
