//! How the single Chromium process is launched and found.
//!
//! Headless by default; on a virtual display where it is configured.

use vstd::prelude::*;

use super::engine::{BrowserError, BrowserFault};
use crate::config::BrowserConfig;
use crate::json::Json;
use crate::text::{
    a_part_occurs_in_the_whole, cat, cat3, dec, dec_u64, dec_usize,
    decimals_stand_for_their_number, has, join, joined, only, parse_u64, parsed_nat, passes,
    pieces, pieces_end_at_separators, same, split_by, split_words, starts_with, trim, trimmed,
    words, written_numbers_are_read_back, One,
};
use crate::util::{join_path, path_join};

verus! {

/// Renderer processes at most: two for each context, within limits.
pub open spec fn renderers(max_contexts: usize) -> nat {
    if max_contexts <= 1 {
        2
    } else if max_contexts >= 4 {
        8
    } else {
        2 * max_contexts as nat
    }
}

/// Renderer processes at most: a sniff context is one page plus, often, one
/// out-of-process frame.
pub fn renderer_limit(max_contexts: usize) -> (r: usize)
    ensures
        r == renderers(max_contexts),
{
    if max_contexts <= 1 {
        2
    } else if max_contexts >= 4 {
        8
    } else {
        2 * max_contexts
    }
}

/// What the command line is made from.
pub struct Launch {
    pub port: u16,
    /// The directory of the temporary profile.
    pub profile: String,
    pub max_contexts: usize,
    pub user_agent: String,
    pub headless: bool,
    pub no_sandbox: bool,
    pub extra_args: Vec<String>,
}

/// Flags that are always given.
pub open spec fn common_flags() -> Seq<Seq<char>> {
    seq![
        "--no-first-run"@,
        "--no-default-browser-check"@,
        "--disable-blink-features=AutomationControlled"@,
        "--disable-background-networking"@,
        "--disable-backgrounding-occluded-windows"@,
        "--disable-renderer-backgrounding"@,
        "--disable-background-timer-throttling"@,
        "--disable-hang-monitor"@,
        "--disable-ipc-flooding-protection"@,
        "--disable-gpu"@,
        "--disable-software-rasterizer"@,
        "--block-new-web-contents"@,
    ]
}

/// More flags that are always given.
pub open spec fn quiet_flags() -> Seq<Seq<char>> {
    seq![
        "--js-flags=--max-old-space-size=512"@,
        "--disable-features=Translate,OptimizationHints,MediaRouter,BackForwardCache,CalculateNativeWinOcclusion,AcceptCHFrame,InterestCohort"@,
        "--disable-sync"@,
        "--disable-extensions"@,
        "--disable-component-update"@,
        "--disable-domain-reliability"@,
        "--metrics-recording-only"@,
        "--mute-audio"@,
        "--hide-scrollbars"@,
        "--window-size=1280,720"@,
        "--accept-lang=en-US,en"@,
    ]
}

/// The command line.
pub open spec fn command_line(l: Launch) -> Seq<Seq<char>> {
    seq![
        "--remote-debugging-port="@ + dec(l.port as nat),
        "--user-data-dir="@ + l.profile@,
    ] + common_flags() + seq!["--renderer-process-limit="@ + dec(renderers(l.max_contexts))]
        + quiet_flags() + seq!["--user-agent="@ + l.user_agent@, "--disable-dev-shm-usage"@] + (
    if l.headless {
        seq!["--headless=new"@]
    } else {
        seq![]
    }) + (if l.no_sandbox {
        seq!["--no-sandbox"@]
    } else {
        seq![]
    }) + l.extra_args.deep_view() + seq!["about:blank"@]
}

fn push_text(v: &mut Vec<String>, s: &str)
    ensures
        final(v).deep_view() == old(v).deep_view().push(s@),
{
    let ghost before = v.deep_view();
    v.push(s.to_owned());
    assert(v.deep_view() =~= before.push(s@));
}

fn common_flag_list() -> (r: Vec<String>)
    ensures
        r.deep_view() == common_flags(),
{
    let mut v: Vec<String> = Vec::new();
    push_text(&mut v, "--no-first-run");
    push_text(&mut v, "--no-default-browser-check");
    push_text(&mut v, "--disable-blink-features=AutomationControlled");
    push_text(&mut v, "--disable-background-networking");
    push_text(&mut v, "--disable-backgrounding-occluded-windows");
    push_text(&mut v, "--disable-renderer-backgrounding");
    push_text(&mut v, "--disable-background-timer-throttling");
    push_text(&mut v, "--disable-hang-monitor");
    push_text(&mut v, "--disable-ipc-flooding-protection");
    push_text(&mut v, "--disable-gpu");
    push_text(&mut v, "--disable-software-rasterizer");
    push_text(&mut v, "--block-new-web-contents");
    assert(v.deep_view() =~= common_flags());
    v
}

fn quiet_flag_list() -> (r: Vec<String>)
    ensures
        r.deep_view() == quiet_flags(),
{
    let mut v: Vec<String> = Vec::new();
    push_text(&mut v, "--js-flags=--max-old-space-size=512");
    push_text(&mut v, "--disable-features=Translate,OptimizationHints,MediaRouter,BackForwardCache,CalculateNativeWinOcclusion,AcceptCHFrame,InterestCohort");
    push_text(&mut v, "--disable-sync");
    push_text(&mut v, "--disable-extensions");
    push_text(&mut v, "--disable-component-update");
    push_text(&mut v, "--disable-domain-reliability");
    push_text(&mut v, "--metrics-recording-only");
    push_text(&mut v, "--mute-audio");
    push_text(&mut v, "--hide-scrollbars");
    push_text(&mut v, "--window-size=1280,720");
    push_text(&mut v, "--accept-lang=en-US,en");
    assert(v.deep_view() =~= quiet_flags());
    v
}

fn append_all(v: &mut Vec<String>, more: &Vec<String>)
    ensures
        final(v).deep_view() == old(v).deep_view() + more.deep_view(),
{
    let ghost start = v.deep_view();
    let ghost m = more.deep_view();
    assert(v.deep_view() =~= start + m.take(0));
    for i in 0..more.len()
        invariant
            m == more.deep_view(),
            v.deep_view() == start + m.take(i as int),
    {
        push_text(v, more[i].as_str());
        assert(v.deep_view() =~= start + m.take(i + 1));
    }
    assert(m.take(more@.len() as int) =~= m);
}

/// The command line.
pub fn launch_args(l: &Launch) -> (r: Vec<String>)
    ensures
        r.deep_view() == command_line(*l),
{
    let mut v: Vec<String> = Vec::new();
    push_text(&mut v, cat("--remote-debugging-port=", dec_u64(l.port as u64).as_str()).as_str());
    push_text(&mut v, cat("--user-data-dir=", l.profile.as_str()).as_str());
    append_all(&mut v, &common_flag_list());
    push_text(
        &mut v,
        cat(
            "--renderer-process-limit=",
            dec_usize(renderer_limit(l.max_contexts)).as_str(),
        ).as_str(),
    );
    append_all(&mut v, &quiet_flag_list());
    push_text(&mut v, cat("--user-agent=", l.user_agent.as_str()).as_str());
    push_text(&mut v, "--disable-dev-shm-usage");
    if l.headless {
        push_text(&mut v, "--headless=new");
    }
    if l.no_sandbox {
        push_text(&mut v, "--no-sandbox");
    }
    append_all(&mut v, &l.extra_args);
    push_text(&mut v, "about:blank");
    assert(v.deep_view() =~= command_line(*l));
    v
}

/// The launch that a configuration asks for. The sandbox cannot start for root,
/// so it is turned off there; without a display the browser runs headless.
pub fn plan_launch(
    cfg: &BrowserConfig,
    max_contexts: usize,
    port: u16,
    profile: &TempProfile,
    user_agent: &str,
    display: &Option<String>,
    root: bool,
) -> (r: Launch)
    ensures
        r.port == port,
        r.profile@ == profile@,
        r.max_contexts == max_contexts,
        r.user_agent@ == user_agent@,
        r.headless == (display is None),
        r.no_sandbox == (cfg.no_sandbox || root),
        r.extra_args.deep_view() == cfg.extra_args.deep_view(),
{
    Launch {
        port,
        profile: profile.path().to_owned(),
        max_contexts,
        user_agent: user_agent.to_owned(),
        headless: display.is_none(),
        no_sandbox: cfg.no_sandbox || root,
        extra_args: super::cdp_engine::copy_texts(&cfg.extra_args),
    }
}

// ---------------------------------------------------------------------------
// The user agent
// ---------------------------------------------------------------------------

/// The major version a word starts with.
pub open spec fn major_in(word: Seq<char>) -> Option<Seq<char>> {
    let head = pieces(word, only('.'))[0];
    if parsed_nat(head, 0xffff_ffff) is Some {
        Some(head)
    } else {
        None
    }
}

/// The major version of the first word that has one.
pub open spec fn first_major(ws: Seq<Seq<char>>) -> Option<Seq<char>>
    decreases ws.len(),
{
    if ws.len() == 0 {
        None
    } else if major_in(ws[0]) is Some {
        major_in(ws[0])
    } else {
        first_major(ws.skip(1))
    }
}

/// A desktop user agent with the major version that was printed, or with a
/// recent one.
pub open spec fn desktop_agent(version: Option<Seq<char>>) -> Seq<char> {
    let major = match version {
        Some(v) => match first_major(words(v)) {
            Some(m) => m,
            None => "151"@,
        },
        None => "151"@,
    };
    "Mozilla/5.0 (X11; Linux x86_64) AppleWebKit/537.36 (KHTML, like Gecko) Chrome/"@
        + major + ".0.0.0 Safari/537.36"@
}

fn find_major(version: &str) -> (r: Option<String>)
    ensures
        r.deep_view() == first_major(words(version@)),
{
    let ws = split_words(version);
    let ghost all = ws.deep_view();
    assert(all.skip(0) =~= all);
    assert(passes(One('.')) =~= only('.'));
    for i in 0..ws.len()
        invariant
            all == ws.deep_view(),
            passes(One('.')) == only('.'),
            all == words(version@),
            first_major(all.skip(i as int)) == first_major(all),
    {
        assert(all.skip(i as int)[0] == ws@[i as int]@);
        assert(all.skip(i as int).skip(1) =~= all.skip(i + 1));
        let parts = split_by(ws[i].as_str(), One('.'));
        assert(parts.deep_view()[0] == parts@[0]@);
        match parse_u64(parts[0].as_str()) {
            Some(n) => {
                if n <= 0xffff_ffff {
                    return Some(parts[0].clone());
                }
            },
            None => {},
        }
    }
    None
}

/// The user agent to pin, from what `<bin> --version` printed.
pub fn desktop_ua(version: &Option<String>) -> (r: String)
    ensures
        r@ == desktop_agent(version.deep_view()),
{
    let major = match version {
        Some(v) => match find_major(v.as_str()) {
            Some(m) => m,
            None => "151".to_owned(),
        },
        None => "151".to_owned(),
    };
    cat3(
        "Mozilla/5.0 (X11; Linux x86_64) AppleWebKit/537.36 (KHTML, like Gecko) Chrome/",
        major.as_str(),
        ".0.0.0 Safari/537.36",
    )
}

// ---------------------------------------------------------------------------
// The process
// ---------------------------------------------------------------------------

/// Whether the first line that gives user ids gives zero as the real one.
pub open spec fn root_lines(lines: Seq<Seq<char>>) -> bool
    decreases lines.len(),
{
    if lines.len() == 0 {
        false
    } else if "Uid:"@.is_prefix_of(lines[0]) {
        words(lines[0]).len() > 1 && words(lines[0])[1] == "0"@
    } else {
        root_lines(lines.skip(1))
    }
}

/// Whether a process status says that the process runs as root.
pub fn running_as_root(status: &Option<String>) -> (r: bool)
    ensures
        r == match status.deep_view() {
            Some(s) => root_lines(pieces(s, only('\n'))),
            None => false,
        },
{
    let text = match status {
        Some(s) => s,
        None => {
            return false;
        },
    };
    assert(passes(One('\n')) =~= only('\n'));
    let lines = split_by(text.as_str(), One('\n'));
    let ghost all = lines.deep_view();
    assert(all.skip(0) =~= all);
    for i in 0..lines.len()
        invariant
            all == lines.deep_view(),
            root_lines(all.skip(i as int)) == root_lines(all),
            status.deep_view() == Some(text@),
            all == pieces(text@, only('\n')),
    {
        assert(all.skip(i as int)[0] == lines@[i as int]@);
        assert(all.skip(i as int).skip(1) =~= all.skip(i + 1));
        if starts_with(lines[i].as_str(), "Uid:") {
            let ws = split_words(lines[i].as_str());
            assert(ws.deep_view().len() == ws@.len());
            return ws.len() > 1 && same(ws[1].as_str(), "0");
        }
    }
    false
}

/// The names a browser goes by.
pub open spec fn candidates() -> Seq<Seq<char>> {
    seq![
        "chromium"@,
        "chromium-browser"@,
        "google-chrome"@,
        "google-chrome-stable"@,
        "chrome"@,
    ]
}

/// The names to look for, in order.
pub fn binary_names(configured: &str) -> (r: Vec<String>)
    ensures
        r.deep_view() == if configured@ == "auto"@ {
            candidates()
        } else {
            seq![configured@]
        },
{
    let mut v: Vec<String> = Vec::new();
    if same(configured, "auto") {
        push_text(&mut v, "chromium");
        push_text(&mut v, "chromium-browser");
        push_text(&mut v, "google-chrome");
        push_text(&mut v, "google-chrome-stable");
        push_text(&mut v, "chrome");
        assert(v.deep_view() =~= candidates());
    } else {
        push_text(&mut v, configured);
        assert(v.deep_view() =~= seq![configured@]);
    }
    v
}

/// The browser to launch: `found` is the first of the names that is an
/// executable, `exists` whether the configured path is there at all.
pub fn resolve_binary(configured: &str, found: Option<String>, exists: bool) -> (r: Result<
    String,
    BrowserError,
>)
    ensures
        match r {
            Ok(p) => match found {
                Some(f) => p@ == f@,
                None => exists && configured@ != "auto"@ && p@ == configured@,
            },
            Err(e) => found is None && !(exists && configured@ != "auto"@) && e@
                == BrowserFault::Unavailable(
                if configured@ == "auto"@ {
                    "no Chromium on PATH (tried "@ + joined(candidates(), ", "@)
                        + "); set [browser].chromium_path"@
                } else {
                    "configured chromium_path `"@ + configured@ + "` not found"@
                },
            ),
        },
{
    match found {
        Some(p) => Ok(p),
        None => {
            if same(configured, "auto") {
                let tried = join(&binary_names(configured), ", ");
                Err(
                    BrowserError::Unavailable(
                        cat3(
                            "no Chromium on PATH (tried ",
                            tried.as_str(),
                            "); set [browser].chromium_path",
                        ),
                    ),
                )
            } else if exists {
                Ok(configured.to_owned())
            } else {
                Err(
                    BrowserError::Unavailable(
                        cat3("configured chromium_path `", configured, "` not found"),
                    ),
                )
            }
        },
    }
}

/// How often the browser is asked for its debugging address, and the pause after
/// each time (milliseconds).
pub const DISCOVERY_TRIES: usize = 60;

pub const DISCOVERY_EVERY_MS: u64 = 100;

/// The debugging address in the browser's answer; `shown` is the answer as text.
pub fn debugger_url(reply: &Json, shown: &str) -> (r: Result<String, String>)
    ensures
        match reply@.str_field("webSocketDebuggerUrl"@) {
            Some(u) => r matches Ok(s) && s@ == u,
            None => r matches Err(e) && e@ == "no webSocketDebuggerUrl in "@ + shown@,
        },
{
    match reply.str_at("webSocketDebuggerUrl") {
        Some(u) => Ok(u),
        None => Err(cat("no webSocketDebuggerUrl in ", shown)),
    }
}

/// The search for the debugging address of a browser that starts.
pub struct Discovery {
    tries: usize,
    reason: String,
}

/// What the search knows: how often the browser was asked, and why the last time
/// was in vain.
pub struct DiscoveryView {
    pub tries: nat,
    pub reason: Seq<char>,
}

impl View for Discovery {
    type V = DiscoveryView;

    closed spec fn view(&self) -> DiscoveryView {
        DiscoveryView { tries: self.tries as nat, reason: self.reason@ }
    }
}

/// What the search does next.
pub enum DiscoveryStep {
    /// Ask the browser.
    Ask,
    /// Pause this long (milliseconds).
    Pause { ms: u64 },
    /// The address.
    Found(String),
    /// Give up, for this reason.
    Failed(String),
}

impl Discovery {
    pub fn new() -> (r: Discovery)
        ensures
            r@ == (DiscoveryView { tries: 0, reason: "timed out"@ }),
    {
        Discovery { tries: 0, reason: "timed out".to_owned() }
    }

    /// Ask while tries are left, else give up for the last reason.
    pub fn turn(&self) -> (r: DiscoveryStep)
        ensures
            if self@.tries < DISCOVERY_TRIES {
                r is Ask
            } else {
                r matches DiscoveryStep::Failed(e) && e@ == self@.reason
            },
    {
        if self.tries < DISCOVERY_TRIES {
            DiscoveryStep::Ask
        } else {
            DiscoveryStep::Failed(self.reason.clone())
        }
    }

    /// The browser was asked: an address ends the search, anything else is the
    /// reason to pause and to try again.
    pub fn asked(&mut self, answer: Result<String, String>) -> (r: DiscoveryStep)
        requires
            old(self)@.tries < DISCOVERY_TRIES,
        ensures
            match answer {
                Ok(u) => r == DiscoveryStep::Found(u) && final(self)@ == old(self)@,
                Err(e) => r == (DiscoveryStep::Pause { ms: DISCOVERY_EVERY_MS }) && final(self)@
                    == (DiscoveryView { tries: old(self)@.tries + 1, reason: e@ }),
            },
    {
        match answer {
            Ok(u) => DiscoveryStep::Found(u),
            Err(e) => {
                self.tries = self.tries + 1;
                self.reason = e;
                DiscoveryStep::Pause { ms: DISCOVERY_EVERY_MS }
            },
        }
    }
}

impl Default for Discovery {
    fn default() -> (r: Discovery)
        ensures
            r@ == (DiscoveryView { tries: 0, reason: "timed out"@ }),
    {
        Discovery::new()
    }
}

/// The error when the browser never opens its debugging port, with the end of
/// what it printed.
pub fn never_came_up(reason: &str, stderr_tail: &str) -> (r: BrowserError)
    ensures
        r@ == BrowserFault::Unavailable(
            "Chromium started but CDP never came up: "@ + reason@
                + "\n--- chromium stderr (tail) ---\n"@ + trimmed(stderr_tail@),
        ),
{
    BrowserError::Unavailable(
        cat3(
            cat("Chromium started but CDP never came up: ", reason).as_str(),
            "\n--- chromium stderr (tail) ---\n",
            trim(stderr_tail).as_str(),
        ),
    )
}

/// A profile directory of its own for each launch.
pub struct TempProfile(String);

/// Its path.
impl View for TempProfile {
    type V = Seq<char>;

    closed spec fn view(&self) -> Seq<char> {
        self.0@
    }
}

impl TempProfile {
    /// The profile directory of a process that launches at an instant, below the
    /// directory for temporary files.
    pub fn new(temp_dir: &str, pid: u32, nanos: u64) -> (r: TempProfile)
        ensures
            r@ == path_join(
                temp_dir@,
                "cobweb-chromium-"@ + dec(pid as nat) + "-"@ + dec(nanos as nat),
            ),
    {
        let name = cat3(
            cat("cobweb-chromium-", dec_u64(pid as u64).as_str()).as_str(),
            "-",
            dec_u64(nanos).as_str(),
        );
        TempProfile(join_path(temp_dir, name.as_str()))
    }

    pub fn path(&self) -> (r: &str)
        ensures
            r@ == self@,
    {
        self.0.as_str()
    }
}

// ---------------------------------------------------------------------------
// Laws
// ---------------------------------------------------------------------------

/// The sandbox is only given up where it is asked for.
pub proof fn sandbox_stays_on(l: Launch)
    requires
        !l.no_sandbox,
        !l.extra_args.deep_view().contains("--no-sandbox"@),
    ensures
        !command_line(l).contains("--no-sandbox"@),
{
    reveal_strlit("--no-sandbox");
    reveal_strlit("--remote-debugging-port=");
    reveal_strlit("--user-data-dir=");
    reveal_strlit("--renderer-process-limit=");
    reveal_strlit("--user-agent=");
    reveal_strlit("--disable-dev-shm-usage");
    reveal_strlit("--headless=new");
    reveal_strlit("about:blank");
    reveal_strlit("--no-first-run");
    reveal_strlit("--no-default-browser-check");
    reveal_strlit("--disable-blink-features=AutomationControlled");
    reveal_strlit("--disable-background-networking");
    reveal_strlit("--disable-backgrounding-occluded-windows");
    reveal_strlit("--disable-renderer-backgrounding");
    reveal_strlit("--disable-background-timer-throttling");
    reveal_strlit("--disable-hang-monitor");
    reveal_strlit("--disable-ipc-flooding-protection");
    reveal_strlit("--disable-gpu");
    reveal_strlit("--disable-software-rasterizer");
    reveal_strlit("--block-new-web-contents");
    reveal_strlit("--js-flags=--max-old-space-size=512");
    reveal_strlit("--disable-features=Translate,OptimizationHints,MediaRouter,BackForwardCache,CalculateNativeWinOcclusion,AcceptCHFrame,InterestCohort");
    reveal_strlit("--disable-sync");
    reveal_strlit("--disable-extensions");
    reveal_strlit("--disable-component-update");
    reveal_strlit("--disable-domain-reliability");
    reveal_strlit("--metrics-recording-only");
    reveal_strlit("--mute-audio");
    reveal_strlit("--hide-scrollbars");
    reveal_strlit("--window-size=1280,720");
    reveal_strlit("--accept-lang=en-US,en");
    let flag = "--no-sandbox"@;
    let line = command_line(l);
    let a = seq![
        "--remote-debugging-port="@ + dec(l.port as nat),
        "--user-data-dir="@ + l.profile@,
    ] + common_flags();
    let b = seq!["--renderer-process-limit="@ + dec(renderers(l.max_contexts))] + quiet_flags();
    let c = seq!["--user-agent="@ + l.user_agent@, "--disable-dev-shm-usage"@] + (if l.headless {
        seq!["--headless=new"@]
    } else {
        seq![]
    });
    let d = l.extra_args.deep_view();
    assert(line =~= a + b + c + d + seq!["about:blank"@]);
    assert forall|i: int| 0 <= i < line.len() implies #[trigger] line[i] != flag by {
        if i < a.len() {
            assert(line[i] == a[i]);
            assert(a[i][2] != 'n' || a[i][5] != 's' || a[i].len() != 12);
        } else if i < a.len() + b.len() {
            assert(line[i] == b[i - a.len()]);
            assert(b[i - a.len()][2] != 'n');
        } else if i < a.len() + b.len() + c.len() {
            assert(line[i] == c[i - a.len() - b.len()]);
            assert(c[i - a.len() - b.len()][2] != 'n');
        } else if i < line.len() - 1 {
            assert(line[i] == d[i - a.len() - b.len() - c.len()]);
        } else {
            assert(line[i] == "about:blank"@);
        }
    }
}

/// The browser is started with all that it is told: the debugging port, the
/// profile, the user agent, headless where it is asked for, and every further
/// argument.
pub proof fn a_launch_has_every_argument(l: Launch, i: int)
    ensures
        ({
            let line = command_line(l);
            let extra = l.extra_args.deep_view();
            &&& line.contains("--remote-debugging-port="@ + dec(l.port as nat))
            &&& line.contains("--user-data-dir="@ + l.profile@)
            &&& line.contains("--user-agent="@ + l.user_agent@)
            &&& line.contains("--renderer-process-limit="@ + dec(renderers(l.max_contexts)))
            &&& l.headless ==> line.contains("--headless=new"@)
            &&& l.no_sandbox ==> line.contains("--no-sandbox"@)
            &&& 0 <= i < extra.len() ==> line.contains(extra[i])
            &&& line.last() == "about:blank"@
        }),
{
    let line = command_line(l);
    let extra = l.extra_args.deep_view();
    let c: int = common_flags().len() as int;
    let q: int = quiet_flags().len() as int;
    let h: int = if l.headless {
        1
    } else {
        0
    };
    let n: int = if l.no_sandbox {
        1
    } else {
        0
    };
    assert(line[0] == "--remote-debugging-port="@ + dec(l.port as nat));
    assert(line[1] == "--user-data-dir="@ + l.profile@);
    assert(line[2 + c] == "--renderer-process-limit="@ + dec(renderers(l.max_contexts)));
    assert(line[3 + c + q] == "--user-agent="@ + l.user_agent@);
    if l.headless {
        assert(line[5 + c + q] == "--headless=new"@);
    }
    if l.no_sandbox {
        assert(line[5 + c + q + h] == "--no-sandbox"@);
    }
    if 0 <= i < extra.len() {
        assert(line[5 + c + q + h + n + i] == extra[i]);
    }
}

/// There are two renderers for each context, from two to eight.
pub proof fn renderers_follow_contexts(n: usize)
    ensures
        1 <= n <= 4 ==> renderers(n) == 2 * n,
        n > 4 ==> renderers(n) == 8,
        renderers(0) == 2,
{
}

/// The major version is the number before the first dot of the first word that
/// starts with one.
pub proof fn the_printed_version_is_used(ws: Seq<Seq<char>>, n: nat, rest: Seq<char>, i: int)
    requires
        n <= 0xffff_ffff,
        0 <= i < ws.len(),
        ws[i] == dec(n).push('.') + rest,
        forall|k: int| 0 <= k < i ==> major_in(#[trigger] ws[k]) is None,
    ensures
        first_major(ws) == Some(dec(n)),
    decreases i,
{
    if i > 0 {
        let tail = ws.skip(1);
        assert(major_in(ws[0]) is None);
        assert(tail[i - 1] == ws[i]);
        assert forall|k: int| 0 <= k < i - 1 implies major_in(#[trigger] tail[k]) is None by {
            assert(tail[k] == ws[k + 1]);
        }
        the_printed_version_is_used(tail, n, rest, i - 1);
    } else {
        decimals_stand_for_their_number(n);
        written_numbers_are_read_back(n, 0xffff_ffff, 0);
        let d = dec(n);
        assert forall|k: int| 0 <= k < d.len() implies !only('.')(#[trigger] d[k]) by {
            assert(crate::text::is_digit(d[k]));
        }
        pieces_end_at_separators(d, '.', rest, only('.'));
        assert((seq![d] + pieces(rest, only('.')))[0] == d);
    }
}

/// The user agent names the major version that was printed.
pub proof fn the_user_agent_names_the_version(v: Seq<char>, m: Seq<char>)
    requires
        first_major(words(v)) == Some(m),
    ensures
        has(desktop_agent(Some(v)), "Chrome/"@ + m + ".0.0.0 "@),
{
    let head = "Mozilla/5.0 (X11; Linux x86_64) AppleWebKit/537.36 (KHTML, like Gecko) "@;
    let tail = "Safari/537.36"@;
    reveal_strlit("Mozilla/5.0 (X11; Linux x86_64) AppleWebKit/537.36 (KHTML, like Gecko) Chrome/");
    reveal_strlit("Mozilla/5.0 (X11; Linux x86_64) AppleWebKit/537.36 (KHTML, like Gecko) ");
    reveal_strlit("Chrome/");
    reveal_strlit(".0.0.0 Safari/537.36");
    reveal_strlit(".0.0.0 ");
    reveal_strlit("Safari/537.36");
    let whole =
        "Mozilla/5.0 (X11; Linux x86_64) AppleWebKit/537.36 (KHTML, like Gecko) Chrome/"@;
    assert(whole =~= head + "Chrome/"@);
    assert(".0.0.0 Safari/537.36"@ =~= ".0.0.0 "@ + tail);
    a_part_occurs_in_the_whole(head, "Chrome/"@ + m + ".0.0.0 "@, tail);
    assert(desktop_agent(Some(v)) =~= head + ("Chrome/"@ + m + ".0.0.0 "@) + tail);
}

/// The user ids are those of the first line that gives them: the program runs as
/// root where the real one is zero.
pub proof fn the_first_line_of_ids_decides(lines: Seq<Seq<char>>, i: int)
    requires
        0 <= i < lines.len(),
        "Uid:"@.is_prefix_of(lines[i]),
        forall|k: int| 0 <= k < i ==> !"Uid:"@.is_prefix_of(#[trigger] lines[k]),
    ensures
        root_lines(lines) == (words(lines[i]).len() > 1 && words(lines[i])[1] == "0"@),
    decreases i,
{
    if i > 0 {
        let tail = lines.skip(1);
        assert(!"Uid:"@.is_prefix_of(lines[0]));
        assert(tail[i - 1] == lines[i]);
        assert forall|k: int| 0 <= k < i - 1 implies !"Uid:"@.is_prefix_of(
            #[trigger] tail[k],
        ) by {
            assert(tail[k] == lines[k + 1]);
        }
        the_first_line_of_ids_decides(tail, i - 1);
    }
}

} // verus!
