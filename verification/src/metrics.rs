//! Counters and their Prometheus text exposition.

use vstd::prelude::*;

use crate::pipeline::{tier_name, ViaTier};
use crate::text::{
    a_part_occurs_in_the_whole, affixes_come_off, after_prefix, all_digits, cat, cat3, dec,
    dec_u64, decimals_stand_for_their_number, has, is_space, occurrences_survive_context,
    occurs_at, only, parse_u64, parsed_nat, passes, pieces, replace, replaced, split_by,
    split_words, strip_prefix, words, words_end_at_white_space, written_numbers_are_read_back,
    One,
};
use crate::util::{
    a_bounded_map_holds_what_was_put, bounded_insert, distinct_keys, index_of_key,
    lemma_index_of_key, lookup, BoundedMap,
};

verus! {

/// Cap on the domains that have counters of their own: the key comes from a
/// caller-supplied URL.
pub const DOMAIN_CAP: usize = 4096;

/// The counters of one registrable domain.
#[derive(Debug, Clone, Copy, PartialEq, Eq, Structural)]
pub struct DomainCounts {
    pub attempts: u64,
    pub ok: u64,
    pub challenges: u64,
}

/// Resolutions and challenges since the start.
pub struct Metrics {
    resolve_total: u64,
    resolve_ok: u64,
    resolve_needs_manual: u64,
    resolve_error: u64,
    challenges: u64,
    via_fastpath: u64,
    via_browser: u64,
    via_flaresolverr: u64,
    via_manual: u64,
    via_ytdlp: u64,
    per_domain: BoundedMap<String, DomainCounts>,
}

/// What the counters stand for.
#[verifier::ext_equal]
pub struct MetricsView {
    pub resolve_total: u64,
    pub resolve_ok: u64,
    pub resolve_needs_manual: u64,
    pub resolve_error: u64,
    pub challenges: u64,
    /// Resolved counts by tier.
    pub via: spec_fn(ViaTier) -> u64,
    /// By registrable domain, oldest first.
    pub per_domain: Seq<(Seq<char>, DomainCounts)>,
}

/// A counter after one more event. It wraps.
pub open spec fn next(n: u64) -> u64 {
    if n == u64::MAX {
        0
    } else {
        (n + 1) as u64
    }
}

fn bump(n: u64) -> (r: u64)
    ensures
        r == next(n),
{
    if n == u64::MAX {
        0
    } else {
        n + 1
    }
}

/// The counters of a domain after one more attempt.
pub open spec fn counted(c: DomainCounts, ok: bool, challenged: bool) -> DomainCounts {
    DomainCounts {
        attempts: next(c.attempts),
        ok: if ok {
            next(c.ok)
        } else {
            c.ok
        },
        challenges: if challenged {
            next(c.challenges)
        } else {
            c.challenges
        },
    }
}

/// The counters of a domain, all zero where there are none.
pub open spec fn counts_of(s: Seq<(Seq<char>, DomainCounts)>, domain: Seq<char>) -> DomainCounts {
    match lookup(s, domain) {
        Some(c) => c,
        None => DomainCounts { attempts: 0, ok: 0, challenges: 0 },
    }
}

/// The per-domain counters after one more attempt at a domain.
pub open spec fn tallied(
    s: Seq<(Seq<char>, DomainCounts)>,
    domain: Seq<char>,
    ok: bool,
    challenged: bool,
) -> Seq<(Seq<char>, DomainCounts)> {
    bounded_insert(s, DOMAIN_CAP as nat, domain, counted(counts_of(s, domain), ok, challenged))
}

impl View for Metrics {
    type V = MetricsView;

    closed spec fn view(&self) -> MetricsView {
        MetricsView {
            resolve_total: self.resolve_total,
            resolve_ok: self.resolve_ok,
            resolve_needs_manual: self.resolve_needs_manual,
            resolve_error: self.resolve_error,
            challenges: self.challenges,
            via: |t: ViaTier|
                match t {
                    ViaTier::Fastpath => self.via_fastpath,
                    ViaTier::Browser => self.via_browser,
                    ViaTier::Flaresolverr => self.via_flaresolverr,
                    ViaTier::Manual => self.via_manual,
                    ViaTier::Ytdlp => self.via_ytdlp,
                },
            per_domain: self.per_domain@,
        }
    }
}

impl MetricsView {
    /// Nothing counted.
    pub open spec fn zero() -> MetricsView {
        MetricsView {
            resolve_total: 0,
            resolve_ok: 0,
            resolve_needs_manual: 0,
            resolve_error: 0,
            challenges: 0,
            via: |t: ViaTier| 0u64,
            per_domain: seq![],
        }
    }

    /// After a resolution that succeeded by a tier.
    pub open spec fn with_ok(self, domain: Seq<char>, tier: ViaTier) -> MetricsView {
        MetricsView {
            resolve_total: next(self.resolve_total),
            resolve_ok: next(self.resolve_ok),
            via: |t: ViaTier|
                if t == tier {
                    next((self.via)(t))
                } else {
                    (self.via)(t)
                },
            per_domain: tallied(self.per_domain, domain, true, false),
            ..self
        }
    }

    /// After a resolution that needs a person.
    pub open spec fn with_needs_manual(self, domain: Seq<char>) -> MetricsView {
        MetricsView {
            resolve_total: next(self.resolve_total),
            resolve_needs_manual: next(self.resolve_needs_manual),
            challenges: next(self.challenges),
            per_domain: tallied(self.per_domain, domain, false, true),
            ..self
        }
    }

    /// After a resolution that failed.
    pub open spec fn with_error(self, domain: Seq<char>) -> MetricsView {
        MetricsView {
            resolve_total: next(self.resolve_total),
            resolve_error: next(self.resolve_error),
            per_domain: tallied(self.per_domain, domain, false, false),
            ..self
        }
    }

    /// After a challenge.
    pub open spec fn with_challenge(self) -> MetricsView {
        MetricsView { challenges: next(self.challenges), ..self }
    }

    /// The Prometheus text of the counters: those of all resolutions, those of the
    /// tiers, those of the domains, and the gauges.
    pub open spec fn text(
        self,
        contexts_in_use: nat,
        jar_domains: nat,
        uptime_secs: nat,
        rss: Option<nat>,
    ) -> Seq<char> {
        self.outcomes_text() + self.tiers_text()
            + "# HELP cobweb_domain_attempts_total resolve() attempts by domain\n# TYPE cobweb_domain_attempts_total counter\n"@
            + domain_text(self.per_domain) + gauges_text(
            contexts_in_use,
            jar_domains,
            uptime_secs,
            rss,
        )
    }

    /// The counters of all resolutions, and the heading of the tiers.
    pub open spec fn outcomes_text(self) -> Seq<char> {
        sample(
            "cobweb_resolve_total"@,
            "resolve() calls"@,
            "counter"@,
            self.resolve_total as nat,
        ) + sample(
            "cobweb_resolve_ok_total"@,
            "resolve() successes"@,
            "counter"@,
            self.resolve_ok as nat,
        ) + sample(
            "cobweb_resolve_needs_manual_total"@,
            "resolve() ending in needs_manual_solve"@,
            "counter"@,
            self.resolve_needs_manual as nat,
        ) + sample(
            "cobweb_resolve_error_total"@,
            "resolve() errors"@,
            "counter"@,
            self.resolve_error as nat,
        ) + sample(
            "cobweb_challenges_total"@,
            "challenge pages encountered"@,
            "counter"@,
            self.challenges as nat,
        )
            + "# HELP cobweb_resolve_via_total resolve() successes by tier\n# TYPE cobweb_resolve_via_total counter\n"@
    }

    /// The lines of the tiers.
    pub open spec fn tiers_text(self) -> Seq<char> {
        self.tier_line(ViaTier::Fastpath) + self.tier_line(ViaTier::Browser) + self.tier_line(
            ViaTier::Flaresolverr,
        ) + self.tier_line(ViaTier::Manual) + self.tier_line(ViaTier::Ytdlp)
    }

    /// The line of one tier.
    pub open spec fn tier_line(self, t: ViaTier) -> Seq<char> {
        labelled("cobweb_resolve_via_total{tier=\""@, tier_name(t), (self.via)(t))
    }
}

/// The gauges.
pub open spec fn gauges_text(
    contexts_in_use: nat,
    jar_domains: nat,
    uptime_secs: nat,
    rss: Option<nat>,
) -> Seq<char> {
    sample(
        "cobweb_browser_contexts_in_use"@,
        "live browser contexts"@,
        "gauge"@,
        contexts_in_use,
    ) + sample("cobweb_jar_domains"@, "jar files on disk"@, "gauge"@, jar_domains) + sample(
        "cobweb_uptime_seconds"@,
        "process uptime"@,
        "gauge"@,
        uptime_secs,
    ) + match rss {
        Some(kb) => sample("cobweb_process_resident_bytes"@, "VmRSS"@, "gauge"@, kb * 1024),
        None => seq![],
    }
}

/// One metric with its help and type.
pub open spec fn sample(name: Seq<char>, help: Seq<char>, kind: Seq<char>, val: nat) -> Seq<char> {
    "# HELP "@ + name + " "@ + help + "\n# TYPE "@ + name + " "@ + kind + "\n"@ + name + " "@ + dec(
        val,
    ) + "\n"@
}

/// One line of a metric with a label; `front` opens the label.
pub open spec fn labelled(front: Seq<char>, label: Seq<char>, val: u64) -> Seq<char> {
    front + label + "\"} "@ + dec(val as nat) + "\n"@
}

/// A label value with backslashes and quotes escaped.
pub open spec fn escaped(s: Seq<char>) -> Seq<char> {
    replaced(replaced(s, "\\"@, "\\\\"@), "\""@, "\\\""@)
}

/// The three lines of one domain.
pub open spec fn domain_entry(d: Seq<char>, c: DomainCounts) -> Seq<char> {
    labelled("cobweb_domain_attempts_total{domain=\""@, escaped(d), c.attempts) + labelled(
        "cobweb_domain_ok_total{domain=\""@,
        escaped(d),
        c.ok,
    ) + labelled("cobweb_domain_challenges_total{domain=\""@, escaped(d), c.challenges)
}

/// The lines of all domains.
pub open spec fn domain_text(s: Seq<(Seq<char>, DomainCounts)>) -> Seq<char>
    decreases s.len(),
{
    if s.len() == 0 {
        seq![]
    } else {
        domain_text(s.drop_last()) + domain_entry(s.last().0, s.last().1)
    }
}

fn write_sample(o: &mut String, name: &str, help: &str, kind: &str, val: u64)
    ensures
        final(o)@ == old(o)@ + sample(name@, help@, kind@, val as nat),
{
    let ghost before = o@;
    let a = cat(cat3("# HELP ", name, " ").as_str(), help);
    let b = cat(cat3(a.as_str(), "\n# TYPE ", name).as_str(), " ");
    let c = cat3(b.as_str(), kind, "\n");
    let d = cat3(c.as_str(), name, " ");
    let e = cat3(d.as_str(), dec_u64(val).as_str(), "\n");
    assert(e@ =~= sample(name@, help@, kind@, val as nat));
    o.append(e.as_str());
}

fn write_labelled(o: &mut String, front: &str, label: &str, val: u64)
    ensures
        final(o)@ == old(o)@ + labelled(front@, label@, val),
{
    let a = cat3(front, label, "\"} ");
    let b = cat3(a.as_str(), dec_u64(val).as_str(), "\n");
    assert(b@ =~= labelled(front@, label@, val));
    o.append(b.as_str());
}

/// A label value with backslashes and quotes escaped.
pub fn esc(s: &str) -> (r: String)
    ensures
        r@ == escaped(s@),
{
    proof {
        reveal_strlit("\\");
        reveal_strlit("\"");
    }
    replace(replace(s, "\\", "\\\\").as_str(), "\"", "\\\"")
}

impl Metrics {
    /// The per-domain counters stay within their cap.
    pub closed spec fn wf(&self) -> bool {
        self.per_domain.wf() && self.per_domain.capacity() == DOMAIN_CAP
    }

    pub fn new() -> (r: Metrics)
        ensures
            r.wf(),
            r@ == MetricsView::zero(),
    {
        let r = Metrics {
            resolve_total: 0,
            resolve_ok: 0,
            resolve_needs_manual: 0,
            resolve_error: 0,
            challenges: 0,
            via_fastpath: 0,
            via_browser: 0,
            via_flaresolverr: 0,
            via_manual: 0,
            via_ytdlp: 0,
            per_domain: BoundedMap::new(DOMAIN_CAP),
        };
        assert(r@.via =~= MetricsView::zero().via);
        r
    }

    /// The resolutions.
    pub fn total(&self) -> (r: u64)
        ensures
            r == self@.resolve_total,
    {
        self.resolve_total
    }

    /// The resolutions that succeeded.
    pub fn ok_total(&self) -> (r: u64)
        ensures
            r == self@.resolve_ok,
    {
        self.resolve_ok
    }

    /// The resolutions that need a person.
    pub fn needs_manual_total(&self) -> (r: u64)
        ensures
            r == self@.resolve_needs_manual,
    {
        self.resolve_needs_manual
    }

    /// The resolutions that failed.
    pub fn error_total(&self) -> (r: u64)
        ensures
            r == self@.resolve_error,
    {
        self.resolve_error
    }

    /// The challenges.
    pub fn challenges_total(&self) -> (r: u64)
        ensures
            r == self@.challenges,
    {
        self.challenges
    }

    /// The resolutions that succeeded by a tier.
    pub fn via_total(&self, via: ViaTier) -> (r: u64)
        ensures
            r == (self@.via)(via),
    {
        match via {
            ViaTier::Fastpath => self.via_fastpath,
            ViaTier::Browser => self.via_browser,
            ViaTier::Flaresolverr => self.via_flaresolverr,
            ViaTier::Manual => self.via_manual,
            ViaTier::Ytdlp => self.via_ytdlp,
        }
    }

    /// The counters of a domain, all zero where there are none.
    pub fn domain_counts(&self, domain: &str) -> (r: DomainCounts)
        ensures
            r == counts_of(self@.per_domain, domain@),
    {
        proof {
            lemma_index_of_key(self.per_domain@, domain@);
        }
        match self.per_domain.get(&domain.to_owned()) {
            Some(c) => *c,
            None => DomainCounts { attempts: 0, ok: 0, challenges: 0 },
        }
    }

    fn bump_domain(&mut self, domain: &str, ok: bool, challenged: bool)
        requires
            old(self).wf(),
        ensures
            final(self).wf(),
            final(self)@ == (MetricsView {
                per_domain: tallied(old(self)@.per_domain, domain@, ok, challenged),
                ..old(self)@
            }),
    {
        let c: DomainCounts = self.domain_counts(domain);
        let n = DomainCounts {
            attempts: bump(c.attempts),
            ok: if ok {
                bump(c.ok)
            } else {
                c.ok
            },
            challenges: if challenged {
                bump(c.challenges)
            } else {
                c.challenges
            },
        };
        let ghost before = self@;
        self.per_domain.insert(domain.to_owned(), n);
        assert(self@.via =~= before.via);
    }

    /// A resolution succeeded by a tier.
    pub fn resolve_ok(&mut self, domain: &str, via: ViaTier)
        requires
            old(self).wf(),
        ensures
            final(self).wf(),
            final(self)@ == old(self)@.with_ok(domain@, via),
    {
        self.resolve_total = bump(self.resolve_total);
        self.resolve_ok = bump(self.resolve_ok);
        match via {
            ViaTier::Fastpath => {
                self.via_fastpath = bump(self.via_fastpath);
            },
            ViaTier::Browser => {
                self.via_browser = bump(self.via_browser);
            },
            ViaTier::Flaresolverr => {
                self.via_flaresolverr = bump(self.via_flaresolverr);
            },
            ViaTier::Manual => {
                self.via_manual = bump(self.via_manual);
            },
            ViaTier::Ytdlp => {
                self.via_ytdlp = bump(self.via_ytdlp);
            },
        }
        assert(self@.via =~= old(self)@.with_ok(domain@, via).via);
        self.bump_domain(domain, true, false);
    }

    /// A resolution ended in a challenge that needs a person.
    pub fn resolve_needs_manual(&mut self, domain: &str)
        requires
            old(self).wf(),
        ensures
            final(self).wf(),
            final(self)@ == old(self)@.with_needs_manual(domain@),
    {
        self.resolve_total = bump(self.resolve_total);
        self.resolve_needs_manual = bump(self.resolve_needs_manual);
        self.challenges = bump(self.challenges);
        assert(self@.via =~= old(self)@.via);
        self.bump_domain(domain, false, true);
    }

    /// A resolution failed.
    pub fn resolve_error(&mut self, domain: &str)
        requires
            old(self).wf(),
        ensures
            final(self).wf(),
            final(self)@ == old(self)@.with_error(domain@),
    {
        self.resolve_total = bump(self.resolve_total);
        self.resolve_error = bump(self.resolve_error);
        assert(self@.via =~= old(self)@.via);
        self.bump_domain(domain, false, false);
    }

    /// A challenge was hit (fast path or browser) even if it was later solved.
    pub fn challenge_hit(&mut self)
        requires
            old(self).wf(),
        ensures
            final(self).wf(),
            final(self)@ == old(self)@.with_challenge(),
    {
        self.challenges = bump(self.challenges);
        assert(self@.via =~= old(self)@.via);
    }

    fn write_domains(&self, o: &mut String)
        ensures
            final(o)@ == old(o)@ + domain_text(self@.per_domain),
    {
        let ghost front = o@;
        let ghost all = self@.per_domain;
        let entries = self.per_domain.iter();
        assert(all.take(0) =~= seq![]);
        assert(o@ =~= front + domain_text(all.take(0)));
        for i in 0..entries.len()
            invariant
                all == self@.per_domain,
                entries@.len() == all.len(),
                forall|k: int|
                    0 <= k < entries@.len() ==> (#[trigger] entries@[k]).0@ == all[k].0
                        && entries@[k].1 == all[k].1,
                o@ == front + domain_text(all.take(i as int)),
        {
            assert(all.take(i + 1).drop_last() =~= all.take(i as int));
            assert(entries@[i as int].0@ == all[i as int].0);
            let d = esc(entries[i].0.as_str());
            let c: DomainCounts = entries[i].1;
            let ghost before = o@;
            write_labelled(
                o,
                "cobweb_domain_attempts_total{domain=\"",
                d.as_str(),
                c.attempts,
            );
            write_labelled(o, "cobweb_domain_ok_total{domain=\"", d.as_str(), c.ok);
            write_labelled(
                o,
                "cobweb_domain_challenges_total{domain=\"",
                d.as_str(),
                c.challenges,
            );
            assert(o@ =~= before + domain_entry(all[i as int].0, all[i as int].1));
            assert(o@ =~= front + domain_text(all.take(i + 1)));
        }
        assert(all.take(all.len() as int) =~= all);
    }

    /// Prometheus text format. The resident size is given in kilobytes.
    pub fn render(
        &self,
        contexts_in_use: usize,
        jar_domains: usize,
        uptime_secs: u64,
        rss: Option<u64>,
    ) -> (r: String)
        requires
            rss matches Some(kb) ==> kb * 1024 <= u64::MAX,
        ensures
            r@ == self@.text(
                contexts_in_use as nat,
                jar_domains as nat,
                uptime_secs as nat,
                match rss {
                    Some(kb) => Some(kb as nat),
                    None => None,
                },
            ),
    {
        let mut o = String::new();
        assert(o@ =~= seq![]);
        write_sample(
            &mut o,
            "cobweb_resolve_total",
            "resolve() calls",
            "counter",
            self.resolve_total,
        );
        assert(o@ =~= sample(
            "cobweb_resolve_total"@,
            "resolve() calls"@,
            "counter"@,
            self@.resolve_total as nat,
        ));
        write_sample(
            &mut o,
            "cobweb_resolve_ok_total",
            "resolve() successes",
            "counter",
            self.resolve_ok,
        );
        write_sample(
            &mut o,
            "cobweb_resolve_needs_manual_total",
            "resolve() ending in needs_manual_solve",
            "counter",
            self.resolve_needs_manual,
        );
        write_sample(
            &mut o,
            "cobweb_resolve_error_total",
            "resolve() errors",
            "counter",
            self.resolve_error,
        );
        write_sample(
            &mut o,
            "cobweb_challenges_total",
            "challenge pages encountered",
            "counter",
            self.challenges,
        );
        o.append(
            "# HELP cobweb_resolve_via_total resolve() successes by tier\n# TYPE cobweb_resolve_via_total counter\n",
        );
        assert(o@ =~= self@.outcomes_text());
        self.write_tiers(&mut o);
        o.append(
            "# HELP cobweb_domain_attempts_total resolve() attempts by domain\n# TYPE cobweb_domain_attempts_total counter\n",
        );
        self.write_domains(&mut o);
        let ghost front = o@;
        write_sample(
            &mut o,
            "cobweb_browser_contexts_in_use",
            "live browser contexts",
            "gauge",
            contexts_in_use as u64,
        );
        write_sample(
            &mut o,
            "cobweb_jar_domains",
            "jar files on disk",
            "gauge",
            jar_domains as u64,
        );
        write_sample(&mut o, "cobweb_uptime_seconds", "process uptime", "gauge", uptime_secs);
        match rss {
            Some(kb) => {
                write_sample(
                    &mut o,
                    "cobweb_process_resident_bytes",
                    "VmRSS",
                    "gauge",
                    kb * 1024,
                );
            },
            None => {},
        }
        assert(o@ =~= front + gauges_text(
            contexts_in_use as nat,
            jar_domains as nat,
            uptime_secs as nat,
            match rss {
                Some(kb) => Some(kb as nat),
                None => None,
            },
        ));
        o
    }

    fn write_tiers(&self, o: &mut String)
        ensures
            final(o)@ == old(o)@ + self@.tiers_text(),
    {
        let ghost before = o@;
        let front = "cobweb_resolve_via_total{tier=\"";
        write_labelled(o, front, ViaTier::Fastpath.name(), self.via_fastpath);
        write_labelled(o, front, ViaTier::Browser.name(), self.via_browser);
        write_labelled(o, front, ViaTier::Flaresolverr.name(), self.via_flaresolverr);
        write_labelled(o, front, ViaTier::Manual.name(), self.via_manual);
        write_labelled(o, front, ViaTier::Ytdlp.name(), self.via_ytdlp);
        assert(o@ =~= before + self@.tiers_text());
    }
}

impl Default for Metrics {
    fn default() -> (r: Metrics)
        ensures
            r.wf(),
            r@ == MetricsView::zero(),
    {
        Metrics::new()
    }
}

/// The resident size that a line of a process status gives.
pub open spec fn rss_line(line: Seq<char>) -> Option<nat> {
    match after_prefix(line, "VmRSS:"@) {
        Some(rest) => if words(rest).len() > 0 {
            parsed_nat(words(rest)[0], u64::MAX as nat)
        } else {
            None
        },
        None => None,
    }
}

/// The first resident size that the lines of a process status give.
pub open spec fn rss_lines(lines: Seq<Seq<char>>) -> Option<nat>
    decreases lines.len(),
{
    if lines.len() == 0 {
        None
    } else {
        match rss_line(lines[0]) {
            Some(n) => Some(n),
            None => rss_lines(lines.skip(1)),
        }
    }
}

/// The resident size, in kilobytes, that a process status gives.
pub fn rss_kb(status: &str) -> (r: Option<u64>)
    ensures
        match r {
            Some(n) => rss_lines(pieces(status@, only('\n'))) == Some(n as nat),
            None => rss_lines(pieces(status@, only('\n'))) is None,
        },
{
    assert(passes(One('\n')) =~= only('\n'));
    let lines = split_by(status, One('\n'));
    let ghost all = lines.deep_view();
    assert(all.skip(0) =~= all);
    for i in 0..lines.len()
        invariant
            all == lines.deep_view(),
            all == pieces(status@, only('\n')),
            rss_lines(all) == rss_lines(all.skip(i as int)),
    {
        assert(all.skip(i as int)[0] == lines@[i as int]@);
        assert(all.skip(i as int).skip(1) =~= all.skip(i + 1));
        match strip_prefix(lines[i].as_str(), "VmRSS:") {
            Some(rest) => {
                let parts = split_words(rest.as_str());
                assert(parts.deep_view().len() == parts@.len());
                if parts.len() > 0 {
                    assert(parts.deep_view()[0] == parts@[0]@);
                    match parse_u64(parts[0].as_str()) {
                        Some(n) => {
                            return Some(n);
                        },
                        None => {},
                    }
                }
            },
            None => {},
        }
    }
    None
}

// ---------------------------------------------------------------------------
// Laws
// ---------------------------------------------------------------------------

/// Something that is counted.
pub enum Event {
    /// A resolution of a domain succeeded by a tier.
    Resolved(Seq<char>, ViaTier),
    /// A resolution of a domain needs a person.
    NeedsManual(Seq<char>),
    /// A resolution of a domain failed.
    Failed(Seq<char>),
    /// A challenge was hit.
    Challenge,
}

/// The counters after one more event.
pub open spec fn stepped(m: MetricsView, e: Event) -> MetricsView {
    match e {
        Event::Resolved(d, t) => m.with_ok(d, t),
        Event::NeedsManual(d) => m.with_needs_manual(d),
        Event::Failed(d) => m.with_error(d),
        Event::Challenge => m.with_challenge(),
    }
}

/// The counters after events, from nothing counted.
pub open spec fn after(events: Seq<Event>) -> MetricsView
    decreases events.len(),
{
    if events.len() == 0 {
        MetricsView::zero()
    } else {
        stepped(after(events.drop_last()), events.last())
    }
}

/// The domains that events name.
pub open spec fn named(events: Seq<Event>) -> Set<Seq<char>>
    decreases events.len(),
{
    if events.len() == 0 {
        Set::empty()
    } else {
        let before = named(events.drop_last());
        match events.last() {
            Event::Resolved(d, _) => before.insert(d),
            Event::NeedsManual(d) => before.insert(d),
            Event::Failed(d) => before.insert(d),
            Event::Challenge => before,
        }
    }
}

/// The sum of one counter over all domains.
pub open spec fn sum_of(
    s: Seq<(Seq<char>, DomainCounts)>,
    counter: spec_fn(DomainCounts) -> u64,
) -> int
    decreases s.len(),
{
    if s.len() == 0 {
        0
    } else {
        sum_of(s.drop_last(), counter) + counter(s.last().1)
    }
}

pub open spec fn attempts() -> spec_fn(DomainCounts) -> u64 {
    |c: DomainCounts| c.attempts
}

pub open spec fn successes() -> spec_fn(DomainCounts) -> u64 {
    |c: DomainCounts| c.ok
}

impl MetricsView {
    /// The successes by any tier.
    pub open spec fn via_sum(self) -> int {
        (self.via)(ViaTier::Fastpath) + (self.via)(ViaTier::Browser) + (self.via)(
            ViaTier::Flaresolverr,
        ) + (self.via)(ViaTier::Manual) + (self.via)(ViaTier::Ytdlp)
    }
}

/// Whether no counter exceeds `n`.
spec fn within(m: MetricsView, n: nat) -> bool {
    &&& m.resolve_total <= n
    &&& m.challenges <= n
    &&& forall|i: int|
        0 <= i < m.per_domain.len() ==> (#[trigger] m.per_domain[i]).1.attempts <= n
            && m.per_domain[i].1.ok <= n && m.per_domain[i].1.challenges <= n
}

/// Whatever is counted, the outcomes add up: every resolution has one outcome,
/// every success one tier, and every resolution that needs a person is a
/// challenge. No domain is kept twice, nor more of them than the cap. This holds
/// as long as no counter wraps.
pub proof fn counters_add_up(events: Seq<Event>)
    requires
        events.len() <= u64::MAX,
    ensures
        after(events).resolve_total == after(events).resolve_ok + after(
            events,
        ).resolve_needs_manual + after(events).resolve_error,
        after(events).via_sum() == after(events).resolve_ok,
        after(events).challenges >= after(events).resolve_needs_manual,
        distinct_keys(after(events).per_domain),
        after(events).per_domain.len() <= DOMAIN_CAP,
{
    lemma_counted(events);
}

proof fn lemma_counted(events: Seq<Event>)
    requires
        events.len() <= u64::MAX,
    ensures
        within(after(events), events.len()),
        after(events).resolve_total == after(events).resolve_ok + after(
            events,
        ).resolve_needs_manual + after(events).resolve_error,
        after(events).via_sum() == after(events).resolve_ok,
        after(events).challenges >= after(events).resolve_needs_manual,
        distinct_keys(after(events).per_domain),
        after(events).per_domain.len() <= DOMAIN_CAP,
    decreases events.len(),
{
    if events.len() > 0 {
        let m = after(events.drop_last());
        let n = events.drop_last().len();
        lemma_counted(events.drop_last());
        match events.last() {
            Event::Resolved(d, t) => {
                lemma_tallied(m.per_domain, d, true, false, n);
                assert((m.via)(t) <= m.resolve_ok);
            },
            Event::NeedsManual(d) => {
                lemma_tallied(m.per_domain, d, false, true, n);
            },
            Event::Failed(d) => {
                lemma_tallied(m.per_domain, d, false, false, n);
            },
            Event::Challenge => {},
        }
    }
}

/// One more attempt at a domain keeps keys apart and counters bounded.
proof fn lemma_tallied(
    s: Seq<(Seq<char>, DomainCounts)>,
    d: Seq<char>,
    ok: bool,
    challenged: bool,
    n: nat,
)
    requires
        n < u64::MAX,
        distinct_keys(s),
        s.len() <= DOMAIN_CAP,
        forall|i: int|
            0 <= i < s.len() ==> (#[trigger] s[i]).1.attempts <= n && s[i].1.ok <= n
                && s[i].1.challenges <= n,
    ensures
        distinct_keys(tallied(s, d, ok, challenged)),
        tallied(s, d, ok, challenged).len() <= DOMAIN_CAP,
        forall|i: int|
            0 <= i < tallied(s, d, ok, challenged).len() ==> (#[trigger] tallied(
                s,
                d,
                ok,
                challenged,
            )[i]).1.attempts <= n + 1 && tallied(s, d, ok, challenged)[i].1.ok <= n + 1
                && tallied(s, d, ok, challenged)[i].1.challenges <= n + 1,
{
    lemma_index_of_key(s, d);
    let t = tallied(s, d, ok, challenged);
    assert forall|i: int| 0 <= i < t.len() implies (#[trigger] t[i]).1.attempts <= n + 1
        && t[i].1.ok <= n + 1 && t[i].1.challenges <= n + 1 by {
        if 0 <= i < s.len() {
            assert(s[i].1.attempts <= n);
        }
        if 0 <= i + 1 < s.len() {
            assert(s[i + 1].1.attempts <= n);
        }
    }
    assert forall|i: int, j: int| 0 <= i < j < t.len() implies (#[trigger] t[i]).0 != (
    #[trigger] t[j]).0 by {
        if j < s.len() {
            assert(s[i].0 != s[j].0);
        }
        if j + 1 < s.len() {
            assert(s[i + 1].0 != s[j + 1].0);
        }
    }
}

/// While no more domains were named than are kept, exactly those are kept, and
/// their attempts and successes add up to all resolutions and to all successes.
pub proof fn domains_add_up(events: Seq<Event>)
    requires
        events.len() <= u64::MAX,
        named(events).len() <= DOMAIN_CAP,
    ensures
        sum_of(after(events).per_domain, attempts()) == after(events).resolve_total,
        sum_of(after(events).per_domain, successes()) == after(events).resolve_ok,
        after(events).per_domain.len() == named(events).len(),
        forall|d: Seq<char>| #[trigger]
            named(events).contains(d) <==> index_of_key(after(events).per_domain, d) is Some,
{
    lemma_domains(events);
}

proof fn lemma_domains(events: Seq<Event>)
    requires
        events.len() <= u64::MAX,
    ensures
        named(events).finite(),
        named(events).len() <= DOMAIN_CAP ==> {
            &&& sum_of(after(events).per_domain, attempts()) == after(events).resolve_total
            &&& sum_of(after(events).per_domain, successes()) == after(events).resolve_ok
            &&& after(events).per_domain.len() == named(events).len()
            &&& forall|d: Seq<char>| #[trigger]
                named(events).contains(d) <==> index_of_key(after(events).per_domain, d) is Some
        },
    decreases events.len(),
{
    if events.len() > 0 {
        let front = events.drop_last();
        let m = after(front);
        lemma_domains(front);
        lemma_counted(front);
        if named(events).len() <= DOMAIN_CAP {
            match events.last() {
                Event::Resolved(d, t) => {
                    lemma_kept(m.per_domain, d, true, false, named(front), front.len());
                },
                Event::NeedsManual(d) => {
                    lemma_kept(m.per_domain, d, false, true, named(front), front.len());
                },
                Event::Failed(d) => {
                    lemma_kept(m.per_domain, d, false, false, named(front), front.len());
                },
                Event::Challenge => {},
            }
        }
    }
}

/// One more attempt at a domain that is kept or has room adds one to the sums.
proof fn lemma_kept(
    s: Seq<(Seq<char>, DomainCounts)>,
    d: Seq<char>,
    ok: bool,
    challenged: bool,
    names: Set<Seq<char>>,
    n: nat,
)
    requires
        n < u64::MAX,
        names.finite(),
        names.insert(d).len() <= DOMAIN_CAP,
        s.len() == names.len(),
        forall|e: Seq<char>| #[trigger] names.contains(e) <==> index_of_key(s, e) is Some,
        forall|i: int| 0 <= i < s.len() ==> (#[trigger] s[i]).1.attempts <= n && s[i].1.ok <= n,
    ensures
        ({
            let t = tallied(s, d, ok, challenged);
            &&& t.len() == names.insert(d).len()
            &&& forall|e: Seq<char>| #[trigger]
                names.insert(d).contains(e) <==> index_of_key(t, e) is Some
            &&& sum_of(t, attempts()) == sum_of(s, attempts()) + 1
            &&& sum_of(t, successes()) == sum_of(s, successes()) + if ok {
                1int
            } else {
                0
            }
        }),
{
    let t = tallied(s, d, ok, challenged);
    let c = counted(counts_of(s, d), ok, challenged);
    lemma_index_of_key(s, d);
    match index_of_key(s, d) {
        Some(i) => {
            assert(names.contains(d));
            assert(names.insert(d) =~= names);
            lemma_sum_update(s, i, (d, c), attempts());
            lemma_sum_update(s, i, (d, c), successes());
            assert(s[i].1.attempts <= n);
        },
        None => {
            assert(!names.contains(d));
            assert(t == s.push((d, c)));
            assert(t.drop_last() =~= s);
        },
    }
    assert forall|e: Seq<char>| #[trigger]
        names.insert(d).contains(e) <==> index_of_key(t, e) is Some by {
        lemma_index_of_key(s, e);
        lemma_index_of_key(t, e);
        if names.contains(e) {
            let i = index_of_key(s, e)->Some_0;
            assert(t[i].0 == e);
        }
        if e == d && index_of_key(s, d) is None {
            assert(t[s.len() as int].0 == d);
        }
        if index_of_key(t, e) is Some {
            let i = index_of_key(t, e)->Some_0;
            if i < s.len() {
                assert(s[i].0 == t[i].0);
            }
        }
    }
}

proof fn lemma_sum_update(
    s: Seq<(Seq<char>, DomainCounts)>,
    i: int,
    x: (Seq<char>, DomainCounts),
    counter: spec_fn(DomainCounts) -> u64,
)
    requires
        0 <= i < s.len(),
    ensures
        sum_of(s.update(i, x), counter) == sum_of(s, counter) - counter(s[i].1) + counter(x.1),
    decreases s.len(),
{
    let t = s.update(i, x);
    if i == s.len() - 1 {
        assert(t.drop_last() =~= s.drop_last());
    } else {
        assert(t.drop_last() =~= s.drop_last().update(i, x));
        lemma_sum_update(s.drop_last(), i, x, counter);
    }
}

/// Counters that are well formed keep no domain twice, nor more than the cap.
pub proof fn kept_domains_are_distinct(m: &Metrics)
    requires
        m.wf(),
    ensures
        distinct_keys(m@.per_domain),
        m@.per_domain.len() <= DOMAIN_CAP,
{
}

/// However many domains are seen, the per-domain counters stay within their cap.
pub proof fn domains_stay_bounded(m: MetricsView, domain: Seq<char>, via: ViaTier)
    requires
        m.per_domain.len() <= DOMAIN_CAP,
    ensures
        m.with_ok(domain, via).per_domain.len() <= DOMAIN_CAP,
        m.with_needs_manual(domain).per_domain.len() <= DOMAIN_CAP,
        m.with_error(domain).per_domain.len() <= DOMAIN_CAP,
{
    lemma_index_of_key(m.per_domain, domain);
}

/// What is counted for one domain leaves another's counters alone, unless they
/// are the oldest and make room.
pub proof fn domains_are_counted_apart(
    s: Seq<(Seq<char>, DomainCounts)>,
    domain: Seq<char>,
    ok: bool,
    challenged: bool,
    i: int,
)
    requires
        0 <= i < s.len(),
        s[i].0 != domain,
        s.len() < DOMAIN_CAP,
    ensures
        tallied(s, domain, ok, challenged)[i] == s[i],
{
    lemma_index_of_key(s, domain);
}

/// One line of a domain: what opens its label, the label and the value.
pub struct DomainLine {
    pub front: Seq<char>,
    pub label: Seq<char>,
    pub val: u64,
}

/// The lines of all domains, one by one.
pub open spec fn domain_lines(s: Seq<(Seq<char>, DomainCounts)>) -> Seq<DomainLine>
    decreases s.len(),
{
    if s.len() == 0 {
        seq![]
    } else {
        let label = escaped(s.last().0);
        let c = s.last().1;
        domain_lines(s.drop_last()) + seq![
            DomainLine {
                front: "cobweb_domain_attempts_total{domain=\""@,
                label,
                val: c.attempts,
            },
            DomainLine { front: "cobweb_domain_ok_total{domain=\""@, label, val: c.ok },
            DomainLine {
                front: "cobweb_domain_challenges_total{domain=\""@,
                label,
                val: c.challenges,
            },
        ]
    }
}

/// Lines one after the other.
pub open spec fn lines_text(lines: Seq<DomainLine>) -> Seq<char>
    decreases lines.len(),
{
    if lines.len() == 0 {
        seq![]
    } else {
        lines_text(lines.drop_last()) + labelled(
            lines.last().front,
            lines.last().label,
            lines.last().val,
        )
    }
}

/// What the text says of domains is their lines, one after the other.
pub proof fn domains_are_written_line_by_line(s: Seq<(Seq<char>, DomainCounts)>)
    ensures
        domain_text(s) == lines_text(domain_lines(s)),
    decreases s.len(),
{
    if s.len() > 0 {
        domains_are_written_line_by_line(s.drop_last());
        let all = domain_lines(s);
        let n = all.len() as int;
        assert(all.drop_last().drop_last().drop_last() =~= domain_lines(s.drop_last()));
        reveal_with_fuel(lines_text, 4);
        assert(all.last() == all[n - 1]);
        assert(all.drop_last().last() == all[n - 2]);
        assert(all.drop_last().drop_last().last() == all[n - 3]);
        assert(domain_text(s) =~= lines_text(all));
    }
}

/// Where a kept domain's lines stand: its three lines follow one another.
proof fn lemma_lines_at(s: Seq<(Seq<char>, DomainCounts)>, i: int)
    requires
        0 <= i < s.len(),
    ensures
        domain_lines(s).len() == 3 * s.len(),
        domain_lines(s)[3 * i] == (DomainLine {
            front: "cobweb_domain_attempts_total{domain=\""@,
            label: escaped(s[i].0),
            val: s[i].1.attempts,
        }),
        domain_lines(s)[3 * i + 1] == (DomainLine {
            front: "cobweb_domain_ok_total{domain=\""@,
            label: escaped(s[i].0),
            val: s[i].1.ok,
        }),
        domain_lines(s)[3 * i + 2] == (DomainLine {
            front: "cobweb_domain_challenges_total{domain=\""@,
            label: escaped(s[i].0),
            val: s[i].1.challenges,
        }),
    decreases s.len(),
{
    lemma_lines_len(s.drop_last());
    if i < s.len() - 1 {
        lemma_lines_at(s.drop_last(), i);
    }
}

proof fn lemma_lines_len(s: Seq<(Seq<char>, DomainCounts)>)
    ensures
        domain_lines(s).len() == 3 * s.len(),
    decreases s.len(),
{
    if s.len() > 0 {
        lemma_lines_len(s.drop_last());
    }
}

/// Whether a line is that of a domain for the metric that `front` opens.
pub open spec fn is_line_of(l: DomainLine, front: Seq<char>, d: Seq<char>) -> bool {
    l.front == front && l.label == escaped(d)
}

/// A domain that is kept has exactly one line of attempts, one of successes and
/// one of challenges, each with its count.
pub proof fn kept_domains_have_one_line_each(s: Seq<(Seq<char>, DomainCounts)>, i: int)
    requires
        distinct_keys(s),
        0 <= i < s.len(),
    ensures
        ({
            let lines = domain_lines(s);
            let a = 3 * i;
            let b = 3 * i + 1;
            let c = 3 * i + 2;
            &&& 0 <= a && c < lines.len()
            &&& lines[a].val == s[i].1.attempts
            &&& lines[b].val == s[i].1.ok
            &&& lines[c].val == s[i].1.challenges
            &&& forall|k: int|
                0 <= k < lines.len() ==> (is_line_of(
                    #[trigger] lines[k],
                    "cobweb_domain_attempts_total{domain=\""@,
                    s[i].0,
                ) <==> k == a)
            &&& forall|k: int|
                0 <= k < lines.len() ==> (is_line_of(
                    #[trigger] lines[k],
                    "cobweb_domain_ok_total{domain=\""@,
                    s[i].0,
                ) <==> k == b)
            &&& forall|k: int|
                0 <= k < lines.len() ==> (is_line_of(
                    #[trigger] lines[k],
                    "cobweb_domain_challenges_total{domain=\""@,
                    s[i].0,
                ) <==> k == c)
        }),
{
    reveal_strlit("cobweb_domain_attempts_total{domain=\"");
    reveal_strlit("cobweb_domain_ok_total{domain=\"");
    reveal_strlit("cobweb_domain_challenges_total{domain=\"");
    let lines = domain_lines(s);
    lemma_lines_at(s, i);
    assert forall|k: int| 0 <= k < lines.len() && (#[trigger] lines[k]).label == escaped(
        s[i].0,
    ) implies k / 3 == i by {
        lemma_lines_at(s, k / 3);
        assert(k == 3 * (k / 3) || k == 3 * (k / 3) + 1 || k == 3 * (k / 3) + 2);
        if k / 3 < i {
            assert(s[k / 3].0 != s[i].0);
            escaping_keeps_labels_apart(s[k / 3].0, s[i].0);
        } else if i < k / 3 {
            assert(s[i].0 != s[k / 3].0);
            escaping_keeps_labels_apart(s[k / 3].0, s[i].0);
        }
    }
    assert forall|k: int| 0 <= k < lines.len() && (#[trigger] lines[k]).label == escaped(
        s[i].0,
    ) implies k == 3 * i || k == 3 * i + 1 || k == 3 * i + 2 by {
        assert(k / 3 == i);
    }
    let attempts = "cobweb_domain_attempts_total{domain=\""@;
    let oks = "cobweb_domain_ok_total{domain=\""@;
    let challenges = "cobweb_domain_challenges_total{domain=\""@;
    assert(attempts.len() == 37 && oks.len() == 31 && challenges.len() == 39);
    assert forall|k: int| 0 <= k < lines.len() implies (is_line_of(
        #[trigger] lines[k],
        attempts,
        s[i].0,
    ) <==> k == 3 * i) by {}
    assert forall|k: int| 0 <= k < lines.len() implies (is_line_of(
        #[trigger] lines[k],
        oks,
        s[i].0,
    ) <==> k == 3 * i + 1) by {}
    assert forall|k: int| 0 <= k < lines.len() implies (is_line_of(
        #[trigger] lines[k],
        challenges,
        s[i].0,
    ) <==> k == 3 * i + 2) by {}
}

/// A domain that is not kept has no line.
pub proof fn other_domains_have_no_line(s: Seq<(Seq<char>, DomainCounts)>, d: Seq<char>, k: int)
    requires
        index_of_key(s, d) is None,
        0 <= k < domain_lines(s).len(),
    ensures
        domain_lines(s)[k].label != escaped(d),
{
    lemma_lines_len(s);
    lemma_index_of_key(s, d);
    lemma_lines_at(s, k / 3);
    assert(k == 3 * (k / 3) || k == 3 * (k / 3) + 1 || k == 3 * (k / 3) + 2);
    assert(s[k / 3].0 != d);
    escaping_keeps_labels_apart(s[k / 3].0, d);
}

/// A character of a label value, escaped.
spec fn escaped_char(c: char) -> Seq<char> {
    if c == '\\' || c == '"' {
        seq!['\\', c]
    } else {
        seq![c]
    }
}

proof fn lemma_starts_with_one(s: Seq<char>, p: Seq<char>, c: char)
    requires
        s.len() > 0,
        p == seq![c],
    ensures
        p.is_prefix_of(s) <==> s[0] == c,
{
    assert(s.subrange(0, 1)[0] == s[0]);
    if s[0] == c {
        assert(s.subrange(0, 1) =~= p);
    }
}

proof fn lemma_escaped(s: Seq<char>)
    requires
        s.len() > 0,
    ensures
        escaped(s) == escaped_char(s[0]) + escaped(s.skip(1)),
{
    reveal_strlit("\\");
    reveal_strlit("\\\\");
    reveal_strlit("\"");
    reveal_strlit("\\\"");
    let once = replaced(s, "\\"@, "\\\\"@);
    let rest = replaced(s.skip(1), "\\"@, "\\\\"@);
    assert("\\"@ =~= seq!['\\']);
    assert("\""@ =~= seq!['"']);
    lemma_starts_with_one(s, "\\"@, '\\');
    if s[0] == '\\' {
        assert(once =~= seq!['\\', '\\'] + rest);
        let tail = once.skip(1);
        lemma_starts_with_one(once, "\""@, '"');
        lemma_starts_with_one(tail, "\""@, '"');
        assert(tail.skip(1) =~= rest);
        assert(replaced(tail, "\""@, "\\\""@) == seq!['\\'] + escaped(s.skip(1)));
        assert(escaped(s) =~= escaped_char(s[0]) + escaped(s.skip(1)));
    } else {
        assert(once =~= seq![s[0]] + rest);
        assert(once.skip(1) =~= rest);
        lemma_starts_with_one(once, "\""@, '"');
        assert("\\\""@ =~= seq!['\\', '"']);
        assert(escaped(s) =~= escaped_char(s[0]) + escaped(s.skip(1)));
    }
}

/// Labels of different domains stay different when they are escaped.
pub proof fn escaping_keeps_labels_apart(a: Seq<char>, b: Seq<char>)
    requires
        a != b,
    ensures
        escaped(a) != escaped(b),
    decreases a.len() + b.len(),
{
    if a.len() > 0 {
        lemma_escaped(a);
    }
    if b.len() > 0 {
        lemma_escaped(b);
    }
    if a.len() == 0 || b.len() == 0 {
        if a.len() == 0 {
            lemma_escaped_empty(a);
        }
        if b.len() == 0 {
            lemma_escaped_empty(b);
        }
        if a.len() == 0 && b.len() == 0 {
            assert(a =~= b);
        }
        assert(escaped(a).len() != escaped(b).len());
    } else if escaped(a) == escaped(b) {
        assert(escaped(a)[0] == escaped(b)[0]);
        let x = escaped_char(a[0]);
        let y = escaped_char(b[0]);
        assert(escaped(a)[0] == x[0]);
        assert(escaped(b)[0] == y[0]);
        assert(x.len() == y.len());
        if x.len() == 2 {
            assert(escaped(a)[1] == x[1]);
            assert(escaped(b)[1] == y[1]);
        }
        assert(a[0] == b[0]);
        assert(a.skip(1) != b.skip(1)) by {
            if a.skip(1) == b.skip(1) {
                assert(a =~= seq![a[0]] + a.skip(1));
                assert(b =~= seq![b[0]] + b.skip(1));
            }
        }
        escaping_keeps_labels_apart(a.skip(1), b.skip(1));
        assert(escaped(a).skip(x.len() as int) =~= escaped(a.skip(1)));
        assert(escaped(b).skip(y.len() as int) =~= escaped(b.skip(1)));
    }
}

proof fn lemma_escaped_empty(s: Seq<char>)
    requires
        s.len() == 0,
    ensures
        escaped(s).len() == 0,
{
}

/// The text has the line of every tier, counted or not, and the lines of every
/// domain that is kept.
pub proof fn every_tier_and_kept_domain_is_written(
    m: MetricsView,
    contexts_in_use: nat,
    jar_domains: nat,
    uptime_secs: nat,
    rss: Option<nat>,
    t: ViaTier,
    i: int,
)
    ensures
        has(m.text(contexts_in_use, jar_domains, uptime_secs, rss), m.tier_line(t)),
        0 <= i < m.per_domain.len() ==> has(
            m.text(contexts_in_use, jar_domains, uptime_secs, rss),
            domain_entry(m.per_domain[i].0, m.per_domain[i].1),
        ),
{
    let all = m.text(contexts_in_use, jar_domains, uptime_secs, rss);
    let gauges = gauges_text(contexts_in_use, jar_domains, uptime_secs, rss);
    let heading =
        "# HELP cobweb_domain_attempts_total resolve() attempts by domain\n# TYPE cobweb_domain_attempts_total counter\n"@;
    let before = m.outcomes_text() + m.tiers_text() + heading;
    let tiers = m.tiers_text();
    lemma_tier_in_tiers(m, t);
    lemma_has_within(
        m.outcomes_text(),
        tiers,
        heading + domain_text(m.per_domain) + gauges,
        m.tier_line(t),
    );
    assert(all =~= m.outcomes_text() + tiers + (heading + domain_text(m.per_domain) + gauges));
    if 0 <= i < m.per_domain.len() {
        let entry = domain_entry(m.per_domain[i].0, m.per_domain[i].1);
        lemma_entry_in_domains(m.per_domain, i);
        lemma_has_within(before, domain_text(m.per_domain), gauges, entry);
    }
}

/// What occurs in a part occurs in the whole.
proof fn lemma_has_within(a: Seq<char>, b: Seq<char>, c: Seq<char>, p: Seq<char>)
    requires
        has(b, p),
    ensures
        has(a + b + c, p),
{
    let i = choose|i: int| #[trigger] occurs_at(b, p, i);
    let k = a.len() + i;
    assert((a + b + c).subrange(k, k + p.len()) =~= b.subrange(i, i + p.len()));
    assert(occurs_at(a + b + c, p, k));
}

proof fn lemma_has_itself(p: Seq<char>)
    ensures
        has(p, p),
{
    assert(p.subrange(0, p.len() as int) =~= p);
    assert(occurs_at(p, p, 0));
}

proof fn lemma_tier_in_tiers(m: MetricsView, t: ViaTier)
    ensures
        has(m.tiers_text(), m.tier_line(t)),
{
    let a = m.tier_line(ViaTier::Fastpath);
    let b = m.tier_line(ViaTier::Browser);
    let c = m.tier_line(ViaTier::Flaresolverr);
    let d = m.tier_line(ViaTier::Manual);
    let e = m.tier_line(ViaTier::Ytdlp);
    let none = Seq::<char>::empty();
    lemma_has_itself(m.tier_line(t));
    match t {
        ViaTier::Fastpath => {
            lemma_has_within(none, a, b + c + d + e, a);
            assert(m.tiers_text() =~= none + a + (b + c + d + e));
        },
        ViaTier::Browser => {
            lemma_has_within(a, b, c + d + e, b);
            assert(m.tiers_text() =~= a + b + (c + d + e));
        },
        ViaTier::Flaresolverr => {
            lemma_has_within(a + b, c, d + e, c);
            assert(m.tiers_text() =~= a + b + c + (d + e));
        },
        ViaTier::Manual => {
            lemma_has_within(a + b + c, d, e, d);
        },
        ViaTier::Ytdlp => {
            lemma_has_within(a + b + c + d, e, none, e);
            assert(m.tiers_text() =~= a + b + c + d + e + none);
        },
    }
}

proof fn lemma_entry_in_domains(s: Seq<(Seq<char>, DomainCounts)>, i: int)
    requires
        0 <= i < s.len(),
    ensures
        has(domain_text(s), domain_entry(s[i].0, s[i].1)),
    decreases s.len(),
{
    let none = Seq::<char>::empty();
    let front = domain_text(s.drop_last());
    let last = domain_entry(s.last().0, s.last().1);
    if i == s.len() - 1 {
        lemma_has_itself(last);
        lemma_has_within(front, last, none, last);
        assert(domain_text(s) =~= front + last + none);
    } else {
        lemma_entry_in_domains(s.drop_last(), i);
        lemma_has_within(none, front, last, domain_entry(s[i].0, s[i].1));
        assert(domain_text(s) =~= none + front + last);
    }
}

/// Every outcome is counted once, as what it is, and for its domain; below the cap
/// no other counter changes.
pub proof fn every_outcome_counts_once(
    m: MetricsView,
    domain: Seq<char>,
    via: ViaTier,
    other: ViaTier,
    else_where: Seq<char>,
)
    requires
        m.resolve_total < u64::MAX,
        m.resolve_ok < u64::MAX,
        m.resolve_needs_manual < u64::MAX,
        m.resolve_error < u64::MAX,
        m.challenges < u64::MAX,
        (m.via)(via) < u64::MAX,
        distinct_keys(m.per_domain),
        m.per_domain.len() < DOMAIN_CAP,
        counts_of(m.per_domain, domain).attempts < u64::MAX,
        counts_of(m.per_domain, domain).ok < u64::MAX,
        counts_of(m.per_domain, domain).challenges < u64::MAX,
        other != via,
        else_where != domain,
    ensures
        ({
            let a = m.with_ok(domain, via);
            let c = counts_of(m.per_domain, domain);
            let d = counts_of(a.per_domain, domain);
            &&& a.resolve_total == m.resolve_total + 1
            &&& a.resolve_ok == m.resolve_ok + 1
            &&& (a.via)(via) == (m.via)(via) + 1
            &&& (a.via)(other) == (m.via)(other)
            &&& a.resolve_needs_manual == m.resolve_needs_manual
            &&& a.resolve_error == m.resolve_error
            &&& a.challenges == m.challenges
            &&& d.attempts == c.attempts + 1 && d.ok == c.ok + 1 && d.challenges == c.challenges
            &&& counts_of(a.per_domain, else_where) == counts_of(m.per_domain, else_where)
        }),
        ({
            let a = m.with_needs_manual(domain);
            let c = counts_of(m.per_domain, domain);
            let d = counts_of(a.per_domain, domain);
            &&& a.resolve_total == m.resolve_total + 1
            &&& a.resolve_needs_manual == m.resolve_needs_manual + 1
            &&& a.challenges == m.challenges + 1
            &&& a.resolve_ok == m.resolve_ok
            &&& a.resolve_error == m.resolve_error
            &&& (a.via)(via) == (m.via)(via)
            &&& d.attempts == c.attempts + 1 && d.ok == c.ok && d.challenges == c.challenges + 1
        }),
        ({
            let a = m.with_error(domain);
            let c = counts_of(m.per_domain, domain);
            let d = counts_of(a.per_domain, domain);
            &&& a.resolve_total == m.resolve_total + 1
            &&& a.resolve_error == m.resolve_error + 1
            &&& a.resolve_ok == m.resolve_ok
            &&& a.resolve_needs_manual == m.resolve_needs_manual
            &&& a.challenges == m.challenges
            &&& (a.via)(via) == (m.via)(via)
            &&& d.attempts == c.attempts + 1 && d.ok == c.ok && d.challenges == c.challenges
        }),
        m.with_challenge().challenges == m.challenges + 1,
        m.with_challenge().resolve_total == m.resolve_total,
        m.with_challenge().per_domain == m.per_domain,
{
    let c = counts_of(m.per_domain, domain);
    let cap = DOMAIN_CAP as nat;
    a_bounded_map_holds_what_was_put(
        m.per_domain,
        cap,
        domain,
        counted(c, true, false),
        else_where,
    );
    a_bounded_map_holds_what_was_put(
        m.per_domain,
        cap,
        domain,
        counted(c, false, true),
        else_where,
    );
    a_bounded_map_holds_what_was_put(
        m.per_domain,
        cap,
        domain,
        counted(c, false, false),
        else_where,
    );
}

/// A metric's value stands on a line of its own, behind its name and a blank.
pub proof fn a_sample_shows_its_value(
    name: Seq<char>,
    help: Seq<char>,
    kind: Seq<char>,
    val: nat,
    before: Seq<char>,
    behind: Seq<char>,
)
    ensures
        has(
            before + sample(name, help, kind, val) + behind,
            seq!['\n'] + name + seq![' '] + dec(val) + seq!['\n'],
        ),
{
    reveal_strlit("\n");
    reveal_strlit(" ");
    assert("\n"@ =~= seq!['\n']);
    assert(" "@ =~= seq![' ']);
    let head = "# HELP "@ + name + " "@ + help + "\n# TYPE "@ + name + " "@ + kind;
    let line = seq!['\n'] + name + seq![' '] + dec(val) + seq!['\n'];
    let e = Seq::<char>::empty();
    assert(sample(name, help, kind, val) =~= head + line + e);
    a_part_occurs_in_the_whole(head, line, e);
    occurrences_survive_context(before, sample(name, help, kind, val), behind, line);
}

/// The text shows every counter and every gauge with its value.
pub proof fn every_counter_is_written(
    m: MetricsView,
    contexts_in_use: nat,
    jar_domains: nat,
    uptime_secs: nat,
    rss: Option<nat>,
)
    ensures
        ({
            let t = m.text(contexts_in_use, jar_domains, uptime_secs, rss);
            &&& shows(t, "cobweb_resolve_total"@, m.resolve_total as nat)
            &&& shows(t, "cobweb_resolve_ok_total"@, m.resolve_ok as nat)
            &&& shows(t, "cobweb_resolve_needs_manual_total"@, m.resolve_needs_manual as nat)
            &&& shows(t, "cobweb_resolve_error_total"@, m.resolve_error as nat)
            &&& shows(t, "cobweb_challenges_total"@, m.challenges as nat)
            &&& shows(t, "cobweb_browser_contexts_in_use"@, contexts_in_use)
            &&& shows(t, "cobweb_jar_domains"@, jar_domains)
            &&& shows(t, "cobweb_uptime_seconds"@, uptime_secs)
            &&& rss matches Some(kb) ==> shows(t, "cobweb_process_resident_bytes"@, kb * 1024)
        }),
{
    let out = m.outcomes_text();
    let gauges = gauges_text(contexts_in_use, jar_domains, uptime_secs, rss);
    let h2 =
        "# HELP cobweb_domain_attempts_total resolve() attempts by domain\n# TYPE cobweb_domain_attempts_total counter\n"@;
    let t = m.text(contexts_in_use, jar_domains, uptime_secs, rss);
    let before = out + m.tiers_text() + h2 + domain_text(m.per_domain);
    let behind = m.tiers_text() + h2 + domain_text(m.per_domain) + gauges;
    let e = Seq::<char>::empty();
    assert(t =~= before + gauges + e);
    assert(t =~= e + out + behind);
    lemma_outcomes_shown(m);
    lemma_gauges_shown(contexts_in_use, jar_domains, uptime_secs, rss);
    lemma_still_shown(e, out, behind, "cobweb_resolve_total"@, m.resolve_total as nat);
    lemma_still_shown(e, out, behind, "cobweb_resolve_ok_total"@, m.resolve_ok as nat);
    lemma_still_shown(
        e,
        out,
        behind,
        "cobweb_resolve_needs_manual_total"@,
        m.resolve_needs_manual as nat,
    );
    lemma_still_shown(e, out, behind, "cobweb_resolve_error_total"@, m.resolve_error as nat);
    lemma_still_shown(e, out, behind, "cobweb_challenges_total"@, m.challenges as nat);
    lemma_still_shown(before, gauges, e, "cobweb_browser_contexts_in_use"@, contexts_in_use);
    lemma_still_shown(before, gauges, e, "cobweb_jar_domains"@, jar_domains);
    lemma_still_shown(before, gauges, e, "cobweb_uptime_seconds"@, uptime_secs);
    if let Some(kb) = rss {
        lemma_still_shown(before, gauges, e, "cobweb_process_resident_bytes"@, kb * 1024);
    }
}

/// Whether a text has a line of a name and a value.
pub open spec fn shows(t: Seq<char>, name: Seq<char>, val: nat) -> bool {
    has(t, seq!['\n'] + name + seq![' '] + dec(val) + seq!['\n'])
}

proof fn lemma_still_shown(
    a: Seq<char>,
    t: Seq<char>,
    b: Seq<char>,
    name: Seq<char>,
    val: nat,
)
    ensures
        shows(t, name, val) ==> shows(a + t + b, name, val),
{
    if shows(t, name, val) {
        occurrences_survive_context(
            a,
            t,
            b,
            seq!['\n'] + name + seq![' '] + dec(val) + seq!['\n'],
        );
    }
}

proof fn lemma_six(
    a: Seq<char>,
    b: Seq<char>,
    c: Seq<char>,
    d: Seq<char>,
    e: Seq<char>,
    f: Seq<char>,
)
    ensures
        a + b + c + d + e + f == Seq::<char>::empty() + a + (b + c + d + e + f),
        a + b + c + d + e + f == a + b + (c + d + e + f),
        a + b + c + d + e + f == (a + b) + c + (d + e + f),
        a + b + c + d + e + f == (a + b + c) + d + (e + f),
{
    let all = a + b + c + d + e + f;
    assert(all =~= Seq::<char>::empty() + a + (b + c + d + e + f));
    assert(all =~= a + b + (c + d + e + f));
    assert(all =~= (a + b) + c + (d + e + f));
    assert(all =~= (a + b + c) + d + (e + f));
}

proof fn lemma_outcomes_shown(m: MetricsView)
    ensures
        shows(m.outcomes_text(), "cobweb_resolve_total"@, m.resolve_total as nat),
        shows(m.outcomes_text(), "cobweb_resolve_ok_total"@, m.resolve_ok as nat),
        shows(
            m.outcomes_text(),
            "cobweb_resolve_needs_manual_total"@,
            m.resolve_needs_manual as nat,
        ),
        shows(m.outcomes_text(), "cobweb_resolve_error_total"@, m.resolve_error as nat),
        shows(m.outcomes_text(), "cobweb_challenges_total"@, m.challenges as nat),
{
    let n1 = "cobweb_resolve_total"@;
    let n2 = "cobweb_resolve_ok_total"@;
    let n3 = "cobweb_resolve_needs_manual_total"@;
    let n4 = "cobweb_resolve_error_total"@;
    let n5 = "cobweb_challenges_total"@;
    let k = "counter"@;
    let h1 = "resolve() calls"@;
    let h2 = "resolve() successes"@;
    let h3 = "resolve() ending in needs_manual_solve"@;
    let h4 = "resolve() errors"@;
    let h5 = "challenge pages encountered"@;
    let s1 = sample(n1, h1, k, m.resolve_total as nat);
    let s2 = sample(n2, h2, k, m.resolve_ok as nat);
    let s3 = sample(n3, h3, k, m.resolve_needs_manual as nat);
    let s4 = sample(n4, h4, k, m.resolve_error as nat);
    let s5 = sample(n5, h5, k, m.challenges as nat);
    let via =
        "# HELP cobweb_resolve_via_total resolve() successes by tier\n# TYPE cobweb_resolve_via_total counter\n"@;
    assert(m.outcomes_text() == s1 + s2 + s3 + s4 + s5 + via);
    lemma_six(s1, s2, s3, s4, s5, via);
    a_sample_shows_its_value(
        n1,
        h1,
        k,
        m.resolve_total as nat,
        Seq::<char>::empty(),
        s2 + s3 + s4 + s5 + via,
    );
    a_sample_shows_its_value(n2, h2, k, m.resolve_ok as nat, s1, s3 + s4 + s5 + via);
    a_sample_shows_its_value(
        n3,
        h3,
        k,
        m.resolve_needs_manual as nat,
        s1 + s2,
        s4 + s5 + via,
    );
    a_sample_shows_its_value(n4, h4, k, m.resolve_error as nat, s1 + s2 + s3, s5 + via);
    a_sample_shows_its_value(n5, h5, k, m.challenges as nat, s1 + s2 + s3 + s4, via);
}

proof fn lemma_gauges_shown(
    contexts_in_use: nat,
    jar_domains: nat,
    uptime_secs: nat,
    rss: Option<nat>,
)
    ensures
        ({
            let t = gauges_text(contexts_in_use, jar_domains, uptime_secs, rss);
            &&& shows(t, "cobweb_browser_contexts_in_use"@, contexts_in_use)
            &&& shows(t, "cobweb_jar_domains"@, jar_domains)
            &&& shows(t, "cobweb_uptime_seconds"@, uptime_secs)
            &&& rss matches Some(kb) ==> shows(t, "cobweb_process_resident_bytes"@, kb * 1024)
        }),
{
    let n1 = "cobweb_browser_contexts_in_use"@;
    let n2 = "cobweb_jar_domains"@;
    let n3 = "cobweb_uptime_seconds"@;
    let n4 = "cobweb_process_resident_bytes"@;
    let k = "gauge"@;
    let e = Seq::<char>::empty();
    let s1 = sample(n1, "live browser contexts"@, k, contexts_in_use);
    let s2 = sample(n2, "jar files on disk"@, k, jar_domains);
    let s3 = sample(n3, "process uptime"@, k, uptime_secs);
    let s4 = match rss {
        Some(kb) => sample(n4, "VmRSS"@, k, kb * 1024),
        None => seq![],
    };
    let t = gauges_text(contexts_in_use, jar_domains, uptime_secs, rss);
    lemma_six(s1, s2, s3, s4, e, e);
    assert(t == s1 + s2 + s3 + s4);
    assert(t =~= s1 + s2 + s3 + s4 + e + e);
    a_sample_shows_its_value(
        n1,
        "live browser contexts"@,
        k,
        contexts_in_use,
        e,
        s2 + s3 + s4 + e + e,
    );
    a_sample_shows_its_value(n2, "jar files on disk"@, k, jar_domains, s1, s3 + s4 + e + e);
    a_sample_shows_its_value(n3, "process uptime"@, k, uptime_secs, s1 + s2, s4 + e + e);
    if let Some(kb) = rss {
        a_sample_shows_its_value(n4, "VmRSS"@, k, kb * 1024, s1 + s2 + s3, e + e);
    }
}

/// The line of a tier has its name in quotes and the number of its successes.
pub proof fn a_tier_is_written_by_name(m: MetricsView, t: ViaTier)
    ensures
        m.tier_line(t) == "cobweb_resolve_via_total{tier=\""@ + tier_name(t) + seq!['"', '}', ' ']
            + dec((m.via)(t) as nat) + seq!['\n'],
{
    reveal_strlit("\"} ");
    reveal_strlit("\n");
    assert("\"} "@ =~= seq!['"', '}', ' ']);
    assert("\n"@ =~= seq!['\n']);
}

/// The resident size is the number of its line, in any column, and other lines are
/// passed over.
pub proof fn the_resident_size_is_found(
    lines: Seq<Seq<char>>,
    space: Seq<char>,
    n: nat,
    rest: Seq<char>,
    i: int,
)
    requires
        n <= u64::MAX,
        forall|k: int| 0 <= k < space.len() ==> is_space(#[trigger] space[k]),
        rest.len() > 0 ==> is_space(rest[0]),
        0 <= i < lines.len(),
        lines[i] == "VmRSS:"@ + (space + dec(n) + rest),
        forall|k: int| 0 <= k < i ==> after_prefix(#[trigger] lines[k], "VmRSS:"@) is None,
    ensures
        rss_lines(lines) == Some(n),
    decreases i,
{
    if i > 0 {
        let tail = lines.skip(1);
        assert(after_prefix(lines[0], "VmRSS:"@) is None);
        assert(tail[i - 1] == lines[i]);
        assert forall|k: int| 0 <= k < i - 1 implies after_prefix(
            #[trigger] tail[k],
            "VmRSS:"@,
        ) is None by {
            assert(tail[k] == lines[k + 1]);
        }
        the_resident_size_is_found(tail, space, n, rest, i - 1);
    } else {
        affixes_come_off("VmRSS:"@, space + dec(n) + rest);
        decimals_stand_for_their_number(n);
        written_numbers_are_read_back(n, u64::MAX as nat, 0);
        lemma_first_word(space, dec(n), rest);
    }
}

proof fn lemma_first_word(space: Seq<char>, w: Seq<char>, rest: Seq<char>)
    requires
        forall|k: int| 0 <= k < space.len() ==> is_space(#[trigger] space[k]),
        all_digits(w),
        rest.len() > 0 ==> is_space(rest[0]),
    ensures
        words(space + w + rest).len() > 0,
        words(space + w + rest)[0] == w,
    decreases space.len(),
{
    let e = Seq::<char>::empty();
    if space.len() > 0 {
        lemma_first_word(space.skip(1), w, rest);
        assert(space + w + rest =~= seq![space[0]] + (space.skip(1) + w + rest));
        words_end_at_white_space(e, space[0], space.skip(1) + w + rest);
    } else {
        assert forall|k: int| 0 <= k < w.len() implies !is_space(#[trigger] w[k]) by {
            assert(crate::text::is_digit(w[k]));
        }
        if rest.len() > 0 {
            words_end_at_white_space(w, rest[0], rest.skip(1));
            assert(space + w + rest =~= w.push(rest[0]) + rest.skip(1));
        } else {
            words_end_at_white_space(w, ' ', e);
            assert(space + w + rest =~= w);
        }
    }
}

} // verus!
