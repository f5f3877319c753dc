//! The `yt-dlp` path: for hosts on the configured list its answer is taken
//! instead of running the tiers. The process itself is run by the caller.

use vstd::prelude::*;

use crate::browser::engine::{duration_text, show_millis};
use crate::config::YtdlpConfig;
use crate::error::{CobwebError, ErrorView};
use crate::jar::cookie::{
    every_cookie_has_a_line, netscape_lines, CookieView, StateView, StorageState,
};
use crate::text::{
    a_part_occurs_in_the_whole, affixes_come_off, cat, cat3, drop_leading, ends_with, has,
    leading_runs_are_dropped, lower, lower_char, occurrences_survive_context, only, passes,
    pieces, same, split_by, starts_with, to_lower, trim, trim_start_char, trimmed, One,
};
use crate::weburl::{Url, UrlView};

verus! {

pub struct Ytdlp {
    bin: String,
    /// Registrable-domain suffixes: `youtube.com` matches `www.youtube.com`.
    hosts: Vec<String>,
}

/// A configured host as it is compared.
pub open spec fn plain_host(h: Seq<char>) -> Seq<char> {
    lower(drop_leading(h, only('.')))
}

/// Whether a host is one of the hosts or below one.
pub open spec fn host_listed(hosts: Seq<Seq<char>>, host: Seq<char>) -> bool {
    exists|i: int|
        0 <= i < hosts.len() && (lower(host) == #[trigger] hosts[i] || ("."@
            + hosts[i]).is_suffix_of(lower(host)))
}

impl Ytdlp {
    /// The binary to run.
    pub closed spec fn bin(&self) -> Seq<char> {
        self.bin@
    }

    /// The hosts it is run for.
    pub closed spec fn hosts(&self) -> Seq<Seq<char>> {
        self.hosts.deep_view()
    }

    /// `Some` when enabled and the binary is there; else `None`.
    pub fn from_config(cfg: &YtdlpConfig, binary_ok: bool) -> (r: Option<Ytdlp>)
        ensures
            r is Some == (cfg.enabled && binary_ok),
            r matches Some(y) ==> y.bin() == cfg.bin@ && y.hosts()
                == cfg.hosts.deep_view().map_values(|h: Seq<char>| plain_host(h)),
    {
        if !cfg.enabled || !binary_ok {
            return None;
        }
        let mut hosts: Vec<String> = Vec::new();
        for i in 0..cfg.hosts.len()
            invariant
                hosts@.len() == i,
                forall|k: int| 0 <= k < i ==> (#[trigger] hosts@[k])@ == plain_host(cfg.hosts@[k]@),
        {
            hosts.push(to_lower(trim_start_char(cfg.hosts[i].as_str(), '.').as_str()));
        }
        let y = Ytdlp { bin: cfg.bin.clone(), hosts };
        assert(y.hosts() =~= cfg.hosts.deep_view().map_values(|h: Seq<char>| plain_host(h)));
        Some(y)
    }

    /// Whether a URL is for `yt-dlp`.
    pub fn handles(&self, url: &Url) -> (r: bool)
        ensures
            r == match url@.host {
                Some(h) => host_listed(self.hosts(), h),
                None => false,
            },
    {
        let host = match &url.host {
            Some(h) => to_lower(h.as_str()),
            None => {
                return false;
            },
        };
        let ghost given = url@.host->Some_0;
        for i in 0..self.hosts.len()
            invariant
                host@ == lower(given),
                url@.host == Some(given),
                forall|k: int|
                    0 <= k < i ==> !(lower(given) == #[trigger] self.hosts()[k] || ("."@
                        + self.hosts()[k]).is_suffix_of(lower(given))),
        {
            let h: &String = &self.hosts[i];
            assert(self.hosts()[i as int] == h@);
            if same(host.as_str(), h.as_str()) || ends_with(
                host.as_str(),
                cat(".", h.as_str()).as_str(),
            ) {
                return true;
            }
        }
        false
    }

    /// The binary to run.
    pub fn binary(&self) -> (r: &str)
        ensures
            r@ == self.bin(),
    {
        self.bin.as_str()
    }

    /// Its arguments, with the proxy and the cookie file where there is one.
    pub fn args(&self, url: &Url, proxy: &Option<Url>, cookie_file: &Option<String>) -> (r: Vec<
        String,
    >)
        ensures
            r.deep_view() == ytdlp_args(url@.text, proxy.deep_view(), cookie_file.deep_view()),
    {
        let mut v: Vec<String> = Vec::new();
        v.push("-g".to_owned());
        v.push("--no-warnings".to_owned());
        v.push("--no-playlist".to_owned());
        match proxy {
            Some(p) => {
                v.push("--proxy".to_owned());
                v.push(p.text.clone());
            },
            None => {},
        }
        match cookie_file {
            Some(f) => {
                v.push("--cookies".to_owned());
                v.push(f.clone());
            },
            None => {},
        }
        v.push(url.text.clone());
        assert(v.deep_view() =~= ytdlp_args(url@.text, proxy.deep_view(), cookie_file.deep_view()));
        v
    }
}

/// The arguments of a run.
pub open spec fn ytdlp_args(
    url: Seq<char>,
    proxy: Option<UrlView>,
    cookie_file: Option<Seq<char>>,
) -> Seq<Seq<char>> {
    seq!["-g"@, "--no-warnings"@, "--no-playlist"@] + (match proxy {
        Some(p) => seq!["--proxy"@, p.text],
        None => seq![],
    }) + (match cookie_file {
        Some(f) => seq!["--cookies"@, f],
        None => seq![],
    }) + seq![url]
}

/// The cookie file of a run, where the jar has cookies.
pub open spec fn run_cookies(jar: Option<StateView>) -> Option<Seq<char>> {
    match jar {
        Some(s) => if s.cookies.len() == 0 {
            None
        } else {
            Some(
                "# Netscape HTTP Cookie File\n# generated by cobweb\n"@ + netscape_lines(s.cookies),
            )
        },
        None => None,
    }
}

/// The cookie file to write for a run, where the jar has cookies.
pub fn cookie_file(jar: &Option<StorageState>) -> (r: Option<String>)
    ensures
        r.deep_view() == match jar.deep_view() {
            Some(s) => if s.cookies.len() == 0 {
                None
            } else {
                Some(
                    "# Netscape HTTP Cookie File\n# generated by cobweb\n"@ + netscape_lines(
                        s.cookies,
                    ),
                )
            },
            None => None,
        },
        r.deep_view() == run_cookies(jar.deep_view()),
{
    match jar {
        Some(s) => {
            assert(s@.cookies.len() == s.cookies@.len());
            if s.cookies.len() == 0 {
                None
            } else {
                Some(s.to_netscape())
            }
        },
        None => None,
    }
}

/// How a run ended.
pub enum Run {
    /// It did not end in time (milliseconds).
    TimedOut(u64),
    /// It did not start; the error's text.
    NotStarted(String),
    /// It failed: its status, and what it wrote to the error stream.
    Failed { status: String, stderr: String },
    /// What it wrote.
    Done { stdout: String },
}

/// The lines that are URLs.
pub open spec fn url_lines(lines: Seq<Seq<char>>) -> Seq<Seq<char>>
    decreases lines.len(),
{
    if lines.len() == 0 {
        seq![]
    } else {
        let front = url_lines(lines.drop_last());
        let l = trimmed(lines.last());
        if "http"@.is_prefix_of(l) {
            front.push(l)
        } else {
            front
        }
    }
}

/// What a run comes to.
pub open spec fn run_result(run: Run) -> Result<Seq<Seq<char>>, ErrorView> {
    match run {
        Run::TimedOut(ms) => Err(
            ErrorView::Upstream("yt-dlp timed out after "@ + duration_text(ms)),
        ),
        Run::NotStarted(e) => Err(ErrorView::Upstream("yt-dlp spawn: "@ + e@)),
        Run::Failed { status, stderr } => Err(
            ErrorView::NotResolved(
                "yt-dlp failed ("@ + status@ + "): "@ + trimmed(pieces(stderr@, only('\n'))[0]),
            ),
        ),
        Run::Done { stdout } => {
            let urls = url_lines(pieces(stdout@, only('\n')));
            if urls.len() == 0 {
                Err(ErrorView::NotResolved("yt-dlp returned no URL"@))
            } else {
                Ok(urls)
            }
        },
    }
}

/// The stream URLs of a run, the primary one first.
pub fn ytdlp_urls(run: &Run) -> (r: Result<Vec<String>, CobwebError>)
    ensures
        match (r, run_result(*run)) {
            (Ok(v), Ok(w)) => v.deep_view() == w && w.len() > 0,
            (Err(e), Err(f)) => e@ == f,
            _ => false,
        },
{
    assert(passes(One('\n')) =~= only('\n'));
    match run {
        Run::TimedOut(ms) => Err(
            CobwebError::Upstream(cat("yt-dlp timed out after ", show_millis(*ms).as_str())),
        ),
        Run::NotStarted(e) => Err(CobwebError::Upstream(cat("yt-dlp spawn: ", e.as_str()))),
        Run::Failed { status, stderr } => {
            let lines = split_by(stderr.as_str(), One('\n'));
            assert(lines.deep_view()[0] == lines@[0]@);
            Err(
                CobwebError::NotResolved(
                    cat(
                        cat3("yt-dlp failed (", status.as_str(), "): ").as_str(),
                        trim(lines[0].as_str()).as_str(),
                    ),
                ),
            )
        },
        Run::Done { stdout } => {
            let lines = split_by(stdout.as_str(), One('\n'));
            let ghost all = lines.deep_view();
            let mut urls: Vec<String> = Vec::new();
            assert(urls.deep_view() =~= seq![]);
            for i in 0..lines.len()
                invariant
                    all == lines.deep_view(),
                    urls.deep_view() == url_lines(all.take(i as int)),
            {
                assert(all.take(i + 1).drop_last() =~= all.take(i as int));
                assert(all.take(i + 1).last() == lines@[i as int]@);
                let ghost before = urls.deep_view();
                let l = trim(lines[i].as_str());
                if starts_with(l.as_str(), "http") {
                    let ghost lv = l@;
                    urls.push(l);
                    assert(urls.deep_view() =~= before.push(lv));
                }
            }
            assert(all.take(lines@.len() as int) =~= all);
            assert(urls.deep_view().len() == urls@.len());
            if urls.len() == 0 {
                Err(CobwebError::NotResolved("yt-dlp returned no URL".to_owned()))
            } else {
                Ok(urls)
            }
        },
    }
}

/// A URL is for `yt-dlp` where its host is on the list or below one that is, in
/// any case, and nowhere else.
pub proof fn listed_hosts_and_those_below_are_handled(
    hosts: Seq<Seq<char>>,
    host: Seq<char>,
    sub: Seq<char>,
    i: int,
)
    ensures
        0 <= i < hosts.len() && lower(host) == hosts[i] ==> host_listed(hosts, host) && host_listed(
            hosts,
            sub + seq!['.'] + host,
        ),
        host_listed(hosts, host) ==> exists|k: int|
            0 <= k < hosts.len() && (#[trigger] hosts[k]).len() <= host.len() && lower(
                host.skip(host.len() - hosts[k].len()),
            ) == hosts[k] && (hosts[k].len() < host.len() ==> host[host.len() - hosts[k].len() - 1]
                == '.'),
{
    reveal_strlit(".");
    assert("."@ =~= seq!['.']);
    if 0 <= i < hosts.len() && lower(host) == hosts[i] {
        let s = lower(sub + seq!['.'] + host);
        let t = "."@ + hosts[i];
        assert(s =~= lower(sub) + t);
        affixes_come_off(t, lower(sub));
        assert(t.is_suffix_of(s));
    }
    if host_listed(hosts, host) {
        let l = lower(host);
        let k = choose|k: int|
            0 <= k < hosts.len() && (l == #[trigger] hosts[k] || ("."@ + hosts[k]).is_suffix_of(l));
        let n = hosts[k].len();
        if l == hosts[k] {
            assert(host.skip(0) =~= host);
        } else {
            let t = "."@ + hosts[k];
            assert(t.is_suffix_of(l));
            let o = l.len() - t.len();
            assert(l.subrange(o, l.len() as int) =~= t);
            assert(l[o] == t[0]);
            assert(l[o] == lower_char(host[o]));
            assert(lower(host.skip(o + 1)) =~= hosts[k]) by {
                assert forall|j: int| 0 <= j < n implies lower(host.skip(o + 1))[j]
                    == hosts[k][j] by {
                    assert(l[o + 1 + j] == t[j + 1]);
                }
            }
        }
        assert(hosts[k].len() <= host.len());
    }
}

/// A configured host is compared in lower case and without leading dots.
pub proof fn configured_hosts_are_compared_plainly(dots: Seq<char>, h: Seq<char>)
    requires
        forall|i: int| 0 <= i < dots.len() ==> #[trigger] dots[i] == '.',
        h.len() > 0 ==> h[0] != '.',
    ensures
        plain_host(dots + h) == lower(h),
{
    assert forall|i: int| 0 <= i < dots.len() implies only('.')(#[trigger] dots[i]) by {}
    leading_runs_are_dropped(dots, h, only('.'));
}

/// A run asks for the URLs of the page, which is its last argument, through the
/// proxy and with the cookies where there are any.
pub proof fn a_run_has_the_proxy_and_the_cookies(
    url: Seq<char>,
    proxy: Option<UrlView>,
    cookie_file: Option<Seq<char>>,
)
    ensures
        ({
            let args = ytdlp_args(url, proxy, cookie_file);
            &&& args.last() == url
            &&& args[0] == "-g"@
            &&& args.contains("--no-playlist"@)
            &&& proxy matches Some(p) ==> args[3] == "--proxy"@ && args[4] == p.text
            &&& cookie_file matches Some(f) ==> args[args.len() - 3] == "--cookies"@ && args[
            args.len() - 2] == f
            &&& args.len() == 4 + (if proxy is Some {
                2int
            } else {
                0
            }) + (if cookie_file is Some {
                2int
            } else {
                0
            })
        }),
{
    let args = ytdlp_args(url, proxy, cookie_file);
    assert(args[2] == "--no-playlist"@);
}

/// Every line that is a URL counts, without the space around it and in order, and
/// no other line.
pub proof fn every_url_line_counts(lines: Seq<Seq<char>>, line: Seq<char>)
    ensures
        ({
            let l = trimmed(line);
            let web = l.len() >= 4 && l[0] == 'h' && l[1] == 't' && l[2] == 't' && l[3] == 'p';
            &&& url_lines(seq![]).len() == 0
            &&& web ==> url_lines(lines.push(line)) == url_lines(lines).push(l)
            &&& !web ==> url_lines(lines.push(line)) == url_lines(lines)
        }),
{
    reveal_strlit("http");
    let l = trimmed(line);
    assert(lines.push(line).drop_last() =~= lines);
    if l.len() >= 4 && l[0] == 'h' && l[1] == 't' && l[2] == 't' && l[3] == 'p' {
        assert(l.subrange(0, 4) =~= "http"@);
    } else if "http"@.is_prefix_of(l) {
        assert(l[0] == "http"@[0] && l[1] == "http"@[1] && l[2] == "http"@[2] && l[3]
            == "http"@[3]);
    }
}

/// A run that wrote a URL succeeds with all the URLs that it wrote; one that wrote
/// none, failed, did not start or took too long does not.
pub proof fn a_run_that_wrote_a_url_succeeds(run: Run)
    ensures
        run matches Run::Done { stdout } ==> {
            let urls = url_lines(pieces(stdout@, only('\n')));
            &&& urls.len() > 0 ==> run_result(run) == Ok::<Seq<Seq<char>>, ErrorView>(urls)
            &&& urls.len() == 0 ==> run_result(run) is Err
        },
        !(run is Done) ==> run_result(run) is Err,
{
}

/// The cookie file of a run has a line for every cookie of the jar; without
/// cookies there is none.
pub proof fn a_run_takes_every_cookie(s: StateView, i: int)
    ensures
        run_cookies(None) is None,
        s.cookies.len() == 0 ==> run_cookies(Some(s)) is None,
        0 <= i < s.cookies.len() ==> (run_cookies(Some(s)) matches Some(f) && has(
            f,
            s.cookies[i].netscape_line() + seq!['\n'],
        )),
{
    if 0 <= i < s.cookies.len() {
        let line = s.cookies[i].netscape_line() + seq!['\n'];
        let head = "# Netscape HTTP Cookie File\n# generated by cobweb\n"@;
        let e = Seq::<char>::empty();
        lemma_line_of(s.cookies, i);
        occurrences_survive_context(head, netscape_lines(s.cookies), e, line);
        assert(head + netscape_lines(s.cookies) + e =~= head + netscape_lines(s.cookies));
    }
}

proof fn lemma_line_of(cs: Seq<CookieView>, i: int)
    requires
        0 <= i < cs.len(),
    ensures
        has(netscape_lines(cs), cs[i].netscape_line() + seq!['\n']),
    decreases cs.len(),
{
    let front = cs.drop_last();
    let e = Seq::<char>::empty();
    let last = cs.last().netscape_line() + seq!['\n'];
    let line = cs[i].netscape_line() + seq!['\n'];
    every_cookie_has_a_line(front, cs.last());
    assert(front.push(cs.last()) =~= cs);
    assert(netscape_lines(cs) =~= netscape_lines(front) + last);
    if i < front.len() {
        lemma_line_of(front, i);
        occurrences_survive_context(e, netscape_lines(front), last, line);
        assert(e + netscape_lines(front) + last =~= netscape_lines(cs));
    } else {
        a_part_occurs_in_the_whole(netscape_lines(front), line, e);
        assert(netscape_lines(front) + line + e =~= netscape_lines(cs));
    }
}

} // verus!
