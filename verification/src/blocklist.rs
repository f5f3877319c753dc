//! Tracker and ad domain blocklist, managed at runtime.
//!
//! Domains come from hosts-format / simple Adblock lists. Each source keeps its
//! last successfully parsed list, so switching or removing a source recomputes
//! the merged patterns without a fetch. The caller fetches and persists.

use vstd::prelude::*;

use crate::browser::cdp_engine::copy_texts;
use crate::config::BlocklistConfig;
use crate::egress::{direct_egress, Egress};
use crate::error::{CobwebError, ErrorView};
use crate::fastpath::{FetchRequest, FetchResponse, RequestView};
use crate::ip::{ip_of, IpAddr};
use crate::text::{
    a_piece_is_added_at_the_end, a_text_without_separator_is_one_piece, affixes_come_off,
    after_prefix, any_char, ascending, cat, cat3, dec, dec_u64, drop_trailing, is_space,
    lemma_sorted, lower, only, passes, pieces, pieces_end_at_separators, same, some_char,
    sort_unique, sorted, split_by, split_words, strip_prefix, to_lower,
    trailing_runs_are_dropped, trim, trim_end_char, trimmed, trimming_takes_both_ends, words,
    words_end_at_white_space, CharTest, One,
};
use crate::weburl::{copy_opt, url_parsed, Url};

verus! {

// ---------------------------------------------------------------------------
// Lists
// ---------------------------------------------------------------------------

/// Entries that stand for no domain.
pub open spec fn placeholder(d: Seq<char>) -> bool {
    d == "localhost.localdomain"@ || d == "ip6-localhost"@ || d == "ip6-loopback"@ || d
        == "0.0.0.0"@ || d == "255.255.255.255"@
}

fn is_placeholder(domain: &str) -> (r: bool)
    ensures
        r == placeholder(domain@),
{
    same(domain, "localhost.localdomain") || same(domain, "ip6-localhost") || same(
        domain,
        "ip6-loopback",
    ) || same(domain, "0.0.0.0") || same(domain, "255.255.255.255")
}

/// A candidate as it would be listed.
pub open spec fn bare_domain(candidate: Seq<char>) -> Seq<char> {
    lower(drop_trailing(trimmed(candidate), only('.')))
}

/// The domain that a candidate gives, if any. One with a `#` is part of a
/// cosmetic rule.
pub open spec fn domain_in(candidate: Seq<char>) -> Seq<Seq<char>> {
    let d = bare_domain(candidate);
    if d.len() == 0 || !some_char(d, only('.')) || some_char(d, only('#')) || placeholder(d) {
        seq![]
    } else {
        seq![d]
    }
}

/// The domains that candidates give, in order.
pub open spec fn domains_in(cs: Seq<Seq<char>>) -> Seq<Seq<char>>
    decreases cs.len(),
{
    if cs.len() == 0 {
        seq![]
    } else {
        domains_in(cs.drop_last()) + domain_in(cs.last())
    }
}

/// Characters that end the domain of an Adblock rule.
pub struct RuleEnd;

impl CharTest for RuleEnd {
    open spec fn holds(&self, c: char) -> bool {
        c == '^' || c == '/' || c == '$'
    }

    fn test(&self, c: char) -> (r: bool) {
        c == '^' || c == '/' || c == '$'
    }
}

/// Characters that no host name is written with: they are those of cosmetic,
/// script, exception and path rules.
pub struct RuleChar;

impl CharTest for RuleChar {
    open spec fn holds(&self, c: char) -> bool {
        !('a' <= c && c <= 'z' || 'A' <= c && c <= 'Z' || '0' <= c && c <= '9' || c == '-' || c
            == '.' || c == '_' || c as u32 >= 0x80)
    }

    fn test(&self, c: char) -> (r: bool) {
        !('a' <= c && c <= 'z' || 'A' <= c && c <= 'Z' || '0' <= c && c <= '9' || c == '-' || c
            == '.' || c == '_' || c as u32 >= 0x80)
    }
}

/// Whether a field is written as a host name.
pub open spec fn host_shaped(field: Seq<char>) -> bool {
    !some_char(field, passes(RuleChar))
}

/// The fields of a line before a trailing comment.
pub open spec fn host_fields(line: Seq<char>) -> Seq<Seq<char>> {
    words(pieces(line, only('#'))[0])
}

/// The domains that a line of a list gives: those of a hosts line up to a
/// trailing comment, that of an Adblock domain rule, or a bare one. Any other
/// rule gives none.
pub open spec fn line_domains(raw: Seq<char>) -> Seq<Seq<char>> {
    let line = trimmed(raw);
    if line.len() == 0 || line[0] == '#' || line[0] == '!' {
        seq![]
    } else {
        match after_prefix(line, "||"@) {
            Some(rest) => domain_in(pieces(rest, passes(RuleEnd))[0]),
            None => {
                let hosts = host_fields(line);
                let fields = words(line);
                if hosts.len() > 0 && ip_of(hosts[0]) is Some {
                    domains_in(hosts.skip(1))
                } else if fields.len() > 0 && host_shaped(fields[0]) {
                    domain_in(fields[0])
                } else {
                    seq![]
                }
            },
        }
    }
}

/// The domains that the lines of a list give, in order.
pub open spec fn lines_domains(lines: Seq<Seq<char>>) -> Seq<Seq<char>>
    decreases lines.len(),
{
    if lines.len() == 0 {
        seq![]
    } else {
        lines_domains(lines.drop_last()) + line_domains(lines.last())
    }
}

/// The domains of a list.
pub open spec fn listed(text: Seq<char>) -> Seq<Seq<char>> {
    lines_domains(pieces(text, only('\n')))
}

fn push_domain(out: &mut Vec<String>, candidate: &str)
    ensures
        final(out).deep_view() == old(out).deep_view() + domain_in(candidate@),
{
    let ghost before = out.deep_view();
    let d = to_lower(trim_end_char(trim(candidate).as_str(), '.').as_str());
    assert(passes(One('.')) =~= only('.'));
    assert(passes(One('#')) =~= only('#'));
    if d.as_str().unicode_len() == 0 || !any_char(d.as_str(), One('.')) || any_char(
        d.as_str(),
        One('#'),
    ) || is_placeholder(d.as_str()) {
        assert(out.deep_view() =~= before + seq![]);
        return;
    }
    let ghost dv = d@;
    out.push(d);
    assert(out.deep_view() =~= before + seq![dv]);
}

fn push_line(out: &mut Vec<String>, raw: &str)
    ensures
        final(out).deep_view() == old(out).deep_view() + line_domains(raw@),
{
    let ghost before = out.deep_view();
    let line = trim(raw);
    if line.as_str().unicode_len() == 0 || line.as_str().get_char(0) == '#'
        || line.as_str().get_char(0) == '!' {
        assert(out.deep_view() =~= before + seq![]);
        return;
    }
    match strip_prefix(line.as_str(), "||") {
        Some(rest) => {
            let parts = split_by(rest.as_str(), RuleEnd);
            assert(parts.deep_view()[0] == parts@[0]@);
            push_domain(out, parts[0].as_str());
        },
        None => {
            assert(passes(One('#')) =~= only('#'));
            let parts = split_by(line.as_str(), One('#'));
            assert(parts.deep_view()[0] == parts@[0]@);
            let fields = split_words(parts[0].as_str());
            let ghost all = fields.deep_view();
            assert(all.len() == fields@.len());
            if fields.len() > 0 {
                assert(all[0] == fields@[0]@);
            }
            if fields.len() == 0 || IpAddr::parse(fields[0].as_str()).is_none() {
                let bare = split_words(line.as_str());
                assert(bare.deep_view().len() == bare@.len());
                if bare.len() > 0 {
                    assert(bare.deep_view()[0] == bare@[0]@);
                    if !any_char(bare[0].as_str(), RuleChar) {
                        push_domain(out, bare[0].as_str());
                        return;
                    }
                }
                assert(out.deep_view() =~= before + seq![]);
                return;
            }
            let ghost hosts = all.skip(1);
            assert(out.deep_view() =~= before + domains_in(hosts.take(0)));
            for i in 1..fields.len()
                invariant
                    all == fields.deep_view(),
                    hosts == all.skip(1),
                    out.deep_view() == before + domains_in(hosts.take(i - 1)),
            {
                assert(hosts.take(i as int).drop_last() =~= hosts.take(i - 1));
                assert(hosts.take(i as int).last() == fields@[i as int]@);
                push_domain(out, fields[i].as_str());
                assert(out.deep_view() =~= before + domains_in(hosts.take(i as int)));
            }
            assert(hosts.take(fields@.len() - 1) =~= hosts);
        },
    }
}

/// Parse one block-list body into bare, lowercased domains.
///
/// Recognises hosts format (an address, then one or more host names), bare
/// `domain.tld` lines and simple Adblock domain rules (`||domain.tld^`, any
/// trailing options ignored). This is no general rule parser: cosmetic and script
/// rules are silently skipped. Comments, also one that follows the host names,
/// blank lines and placeholder entries are dropped.
pub fn parse_list(text: &str) -> (r: Vec<String>)
    ensures
        r.deep_view() == listed(text@),
{
    assert(passes(One('\n')) =~= only('\n'));
    let lines = split_by(text, One('\n'));
    let ghost all = lines.deep_view();
    let mut out: Vec<String> = Vec::new();
    assert(out.deep_view() =~= seq![]);
    for i in 0..lines.len()
        invariant
            all == lines.deep_view(),
            out.deep_view() == lines_domains(all.take(i as int)),
    {
        assert(all.take(i + 1).drop_last() =~= all.take(i as int));
        assert(all.take(i + 1).last() == lines@[i as int]@);
        push_line(&mut out, lines[i].as_str());
    }
    assert(all.take(lines@.len() as int) =~= all);
    out
}

// ---------------------------------------------------------------------------
// Patterns
// ---------------------------------------------------------------------------

/// The globs that catch a domain and every subdomain of it.
pub open spec fn domain_globs(d: Seq<char>) -> Seq<Seq<char>> {
    seq!["*://"@ + d + "/*"@, "*://*."@ + d + "/*"@]
}

/// The two glob patterns that catch a domain and every subdomain of it, anchored
/// on the scheme/host boundary.
pub fn domain_to_patterns(domain: &str) -> (r: [String; 2])
    ensures
        r[0]@ == domain_globs(domain@)[0],
        r[1]@ == domain_globs(domain@)[1],
{
    [cat3("*://", domain, "/*"), cat3("*://*.", domain, "/*")]
}

/// The globs of domains, in order.
pub open spec fn globs_of(ds: Seq<Seq<char>>) -> Seq<Seq<char>>
    decreases ds.len(),
{
    if ds.len() == 0 {
        seq![]
    } else {
        globs_of(ds.drop_last()) + domain_globs(ds.last())
    }
}

/// A configured domain as it is compared.
pub open spec fn configured(d: Seq<char>) -> Seq<char> {
    lower(trimmed(d))
}

/// The configured domains that are not blank.
pub open spec fn extra_domains(ds: Seq<Seq<char>>) -> Seq<Seq<char>>
    decreases ds.len(),
{
    if ds.len() == 0 {
        seq![]
    } else {
        let front = extra_domains(ds.drop_last());
        if configured(ds.last()).len() == 0 {
            front
        } else {
            front.push(configured(ds.last()))
        }
    }
}

/// Whether a domain is on the allow list.
pub open spec fn allowed(allow: Seq<Seq<char>>, d: Seq<char>) -> bool {
    exists|i: int| 0 <= i < allow.len() && configured(#[trigger] allow[i]) == d
}

/// The domains that are not on the allow list.
pub open spec fn not_allowed(ds: Seq<Seq<char>>, allow: Seq<Seq<char>>) -> Seq<Seq<char>>
    decreases ds.len(),
{
    if ds.len() == 0 {
        seq![]
    } else {
        let front = not_allowed(ds.drop_last(), allow);
        if allowed(allow, ds.last()) {
            front
        } else {
            front.push(ds.last())
        }
    }
}

// ---------------------------------------------------------------------------
// State
// ---------------------------------------------------------------------------

/// One operator-added list source. Instants are nanoseconds since the epoch.
#[derive(Debug)]
pub struct BlocklistSource {
    pub id: String,
    pub url: String,
    pub enabled: bool,
    pub added_at: i128,
    pub last_fetch_at: Option<i128>,
    /// `None`: the last fetch, if any, succeeded.
    pub last_error: Option<String>,
    /// The last successfully parsed domain list, kept even when a later refresh
    /// fails.
    pub domains: Vec<String>,
}

/// What a source stands for.
#[verifier::ext_equal]
pub struct SourceModel {
    pub id: Seq<char>,
    pub url: Seq<char>,
    pub enabled: bool,
    pub added_at: i128,
    pub last_fetch_at: Option<i128>,
    pub last_error: Option<Seq<char>>,
    pub domains: Seq<Seq<char>>,
}

impl View for BlocklistSource {
    type V = SourceModel;

    open spec fn view(&self) -> SourceModel {
        SourceModel {
            id: self.id@,
            url: self.url@,
            enabled: self.enabled,
            added_at: self.added_at,
            last_fetch_at: self.last_fetch_at,
            last_error: self.last_error.deep_view(),
            domains: self.domains.deep_view(),
        }
    }
}

impl DeepView for BlocklistSource {
    type V = SourceModel;

    open spec fn deep_view(&self) -> SourceModel {
        self@
    }
}

/// The API-facing view of a source: a count in place of its domains.
#[derive(Debug)]
pub struct BlocklistSourceView {
    pub id: String,
    pub url: String,
    pub enabled: bool,
    pub added_at: i128,
    pub last_fetch_at: Option<i128>,
    pub last_error: Option<String>,
    pub domain_count: usize,
}

/// What the API-facing view of a source stands for.
#[verifier::ext_equal]
pub struct SourceSummary {
    pub id: Seq<char>,
    pub url: Seq<char>,
    pub enabled: bool,
    pub added_at: i128,
    pub last_fetch_at: Option<i128>,
    pub last_error: Option<Seq<char>>,
    pub domain_count: nat,
}

impl SourceModel {
    pub open spec fn summary(self) -> SourceSummary {
        SourceSummary {
            id: self.id,
            url: self.url,
            enabled: self.enabled,
            added_at: self.added_at,
            last_fetch_at: self.last_fetch_at,
            last_error: self.last_error,
            domain_count: self.domains.len(),
        }
    }
}

impl View for BlocklistSourceView {
    type V = SourceSummary;

    open spec fn view(&self) -> SourceSummary {
        SourceSummary {
            id: self.id@,
            url: self.url@,
            enabled: self.enabled,
            added_at: self.added_at,
            last_fetch_at: self.last_fetch_at,
            last_error: self.last_error.deep_view(),
            domain_count: self.domain_count as nat,
        }
    }
}

impl DeepView for BlocklistSourceView {
    type V = SourceSummary;

    open spec fn deep_view(&self) -> SourceSummary {
        self@
    }
}

impl BlocklistSource {
    /// The API-facing view.
    pub fn summary(&self) -> (r: BlocklistSourceView)
        ensures
            r@ == self@.summary(),
    {
        assert(self.domains.deep_view().len() == self.domains@.len());
        BlocklistSourceView {
            id: self.id.clone(),
            url: self.url.clone(),
            enabled: self.enabled,
            added_at: self.added_at,
            last_fetch_at: self.last_fetch_at,
            last_error: copy_opt(&self.last_error),
            domain_count: self.domains.len(),
        }
    }
}

/// The state of the blocklist, as the API shows it.
#[derive(Debug)]
pub struct BlocklistStatusView {
    pub enabled: bool,
    pub pattern_count: usize,
    pub sources: Vec<BlocklistSourceView>,
}

/// The whole persisted document.
#[derive(Debug)]
pub struct BlocklistState {
    pub enabled: bool,
    pub sources: Vec<BlocklistSource>,
}

/// What the state stands for.
#[verifier::ext_equal]
pub struct StateModel {
    pub enabled: bool,
    pub sources: Seq<SourceModel>,
}

impl View for BlocklistState {
    type V = StateModel;

    open spec fn view(&self) -> StateModel {
        StateModel { enabled: self.enabled, sources: self.sources.deep_view() }
    }
}

impl DeepView for BlocklistState {
    type V = StateModel;

    open spec fn deep_view(&self) -> StateModel {
        self@
    }
}

/// The domains of the enabled sources, in order.
pub open spec fn source_domains(ss: Seq<SourceModel>) -> Seq<Seq<char>>
    decreases ss.len(),
{
    if ss.len() == 0 {
        seq![]
    } else {
        let front = source_domains(ss.drop_last());
        if ss.last().enabled {
            front + ss.last().domains
        } else {
            front
        }
    }
}

/// The first source with an id.
pub open spec fn source_at(ss: Seq<SourceModel>, id: Seq<char>) -> Option<int>
    decreases ss.len(),
{
    if ss.len() == 0 {
        None
    } else if ss[0].id == id {
        Some(0)
    } else {
        match source_at(ss.skip(1), id) {
            Some(i) => Some(i + 1),
            None => None,
        }
    }
}

/// The sources without those of an id.
pub open spec fn sources_without(ss: Seq<SourceModel>, id: Seq<char>) -> Seq<SourceModel>
    decreases ss.len(),
{
    if ss.len() == 0 {
        seq![]
    } else {
        let front = sources_without(ss.drop_last(), id);
        if ss.last().id == id {
            front
        } else {
            front.push(ss.last())
        }
    }
}

/// The id and URL of each enabled source, in order.
pub open spec fn enabled_targets(ss: Seq<SourceModel>) -> Seq<(Seq<char>, Seq<char>)>
    decreases ss.len(),
{
    if ss.len() == 0 {
        seq![]
    } else {
        let front = enabled_targets(ss.drop_last());
        if ss.last().enabled {
            front.push((ss.last().id, ss.last().url))
        } else {
            front
        }
    }
}

/// A fetch by the id of its source: the body, or what went wrong.
pub struct Fetched {
    pub id: String,
    pub body: Result<String, CobwebError>,
}

/// What a fetch stands for.
pub struct FetchedModel {
    pub id: Seq<char>,
    pub body: Result<Seq<char>, ErrorView>,
}

impl View for Fetched {
    type V = FetchedModel;

    open spec fn view(&self) -> FetchedModel {
        FetchedModel {
            id: self.id@,
            body: match self.body {
                Ok(b) => Ok(b@),
                Err(e) => Err(e@),
            },
        }
    }
}

impl DeepView for Fetched {
    type V = FetchedModel;

    open spec fn deep_view(&self) -> FetchedModel {
        self@
    }
}

impl SourceModel {
    /// A source after a fetch: new domains, or the old ones and the error.
    pub open spec fn refreshed(self, body: Result<Seq<char>, ErrorView>, now: i128) -> SourceModel {
        match body {
            Ok(b) => SourceModel {
                last_fetch_at: Some(now),
                last_error: None,
                domains: listed(b),
                ..self
            },
            Err(e) => SourceModel {
                last_fetch_at: Some(now),
                last_error: Some(e.message()),
                ..self
            },
        }
    }
}

/// A source that is added, with what its first fetch gave.
pub open spec fn new_source(
    id: Seq<char>,
    url: Seq<char>,
    body: Result<Seq<char>, ErrorView>,
    added_at: i128,
    fetched_at: i128,
) -> SourceModel {
    SourceModel {
        id,
        url,
        enabled: true,
        added_at,
        last_fetch_at: None,
        last_error: None,
        domains: seq![],
    }.refreshed(body, fetched_at)
}

/// The sources after one fetch.
pub open spec fn with_fetched(ss: Seq<SourceModel>, f: FetchedModel, now: i128) -> Seq<SourceModel> {
    match source_at(ss, f.id) {
        Some(i) => ss.update(i, ss[i].refreshed(f.body, now)),
        None => ss,
    }
}

/// The sources after a round of fetches.
pub open spec fn with_all_fetched(ss: Seq<SourceModel>, fs: Seq<FetchedModel>, now: i128) -> Seq<
    SourceModel,
>
    decreases fs.len(),
{
    if fs.len() == 0 {
        ss
    } else {
        with_fetched(with_all_fetched(ss, fs.drop_last(), now), fs.last(), now)
    }
}

/// What a blocklist stands for.
#[verifier::ext_equal]
pub struct BlocklistModel {
    pub state: StateModel,
    pub extra: Seq<Seq<char>>,
    pub allow: Seq<Seq<char>>,
    pub refresh_interval_secs: u64,
}

impl BlocklistModel {
    /// A blocklist with the state that was persisted, or empty and off.
    pub open spec fn opened(
        persisted: Option<StateModel>,
        extra: Seq<Seq<char>>,
        allow: Seq<Seq<char>>,
        refresh_interval_secs: u64,
    ) -> BlocklistModel {
        BlocklistModel {
            state: match persisted {
                Some(s) => s,
                None => StateModel { enabled: false, sources: seq![] },
            },
            extra,
            allow,
            refresh_interval_secs,
        }
    }

    /// The domains that are blocked while the master switch is on.
    pub open spec fn domains(self) -> Seq<Seq<char>> {
        sorted(
            not_allowed(
                extra_domains(self.extra) + source_domains(self.state.sources),
                self.allow,
            ),
        )
    }

    /// The patterns in force.
    pub open spec fn patterns(self) -> Seq<Seq<char>> {
        if self.state.enabled {
            globs_of(self.domains())
        } else {
            seq![]
        }
    }

    pub open spec fn with_state(self, state: StateModel) -> BlocklistModel {
        BlocklistModel { state, ..self }
    }

    pub open spec fn with_sources(self, sources: Seq<SourceModel>) -> BlocklistModel {
        self.with_state(StateModel { enabled: self.state.enabled, sources })
    }

    /// The summaries of the sources.
    pub open spec fn summaries(self) -> Seq<SourceSummary> {
        self.state.sources.map_values(|s: SourceModel| s.summary())
    }
}

/// Runtime-managed blocklist: the sources and the master switch, and the
/// compiled patterns.
pub struct Blocklist {
    cfg: BlocklistConfig,
    state: BlocklistState,
    patterns: Vec<String>,
}

impl View for Blocklist {
    type V = BlocklistModel;

    closed spec fn view(&self) -> BlocklistModel {
        BlocklistModel {
            state: self.state@,
            extra: self.cfg.extra_domains.deep_view(),
            allow: self.cfg.allow_domains.deep_view(),
            refresh_interval_secs: self.cfg.refresh_interval_secs,
        }
    }
}

fn clean_extra(ds: &Vec<String>) -> (r: Vec<String>)
    ensures
        r.deep_view() == extra_domains(ds.deep_view()),
{
    let ghost all = ds.deep_view();
    let mut out: Vec<String> = Vec::new();
    assert(out.deep_view() =~= seq![]);
    for i in 0..ds.len()
        invariant
            all == ds.deep_view(),
            out.deep_view() == extra_domains(all.take(i as int)),
    {
        assert(all.take(i + 1).drop_last() =~= all.take(i as int));
        assert(all.take(i + 1).last() == ds@[i as int]@);
        let ghost before = out.deep_view();
        let d = to_lower(trim(ds[i].as_str()).as_str());
        if d.as_str().unicode_len() > 0 {
            let ghost dv = d@;
            out.push(d);
            assert(out.deep_view() =~= before.push(dv));
        }
    }
    assert(all.take(ds@.len() as int) =~= all);
    out
}

fn is_allowed(allow: &Vec<String>, d: &str) -> (r: bool)
    ensures
        r == allowed(allow.deep_view(), d@),
{
    for i in 0..allow.len()
        invariant
            forall|k: int| 0 <= k < i ==> configured(#[trigger] allow.deep_view()[k]) != d@,
    {
        assert(allow.deep_view()[i as int] == allow@[i as int]@);
        if same(to_lower(trim(allow[i].as_str()).as_str()).as_str(), d) {
            return true;
        }
    }
    false
}

fn drop_allowed(ds: &Vec<String>, allow: &Vec<String>) -> (r: Vec<String>)
    ensures
        r.deep_view() == not_allowed(ds.deep_view(), allow.deep_view()),
{
    let ghost all = ds.deep_view();
    let mut out: Vec<String> = Vec::new();
    assert(out.deep_view() =~= seq![]);
    for i in 0..ds.len()
        invariant
            all == ds.deep_view(),
            out.deep_view() == not_allowed(all.take(i as int), allow.deep_view()),
    {
        assert(all.take(i + 1).drop_last() =~= all.take(i as int));
        assert(all.take(i + 1).last() == ds@[i as int]@);
        let ghost before = out.deep_view();
        if !is_allowed(allow, ds[i].as_str()) {
            out.push(ds[i].clone());
            assert(out.deep_view() =~= before.push(ds@[i as int]@));
        }
    }
    assert(all.take(ds@.len() as int) =~= all);
    out
}

fn push_source_domains(out: &mut Vec<String>, sources: &Vec<BlocklistSource>)
    ensures
        final(out).deep_view() == old(out).deep_view() + source_domains(sources.deep_view()),
{
    let ghost front = out.deep_view();
    let ghost all = sources.deep_view();
    assert(out.deep_view() =~= front + source_domains(all.take(0)));
    for i in 0..sources.len()
        invariant
            all == sources.deep_view(),
            out.deep_view() == front + source_domains(all.take(i as int)),
    {
        assert(all.take(i + 1).drop_last() =~= all.take(i as int));
        assert(all.take(i + 1).last() == sources@[i as int]@);
        if sources[i].enabled {
            let ghost before = out.deep_view();
            let ds: &Vec<String> = &sources[i].domains;
            let ghost added = ds.deep_view();
            assert(out.deep_view() =~= before + added.take(0));
            for j in 0..ds.len()
                invariant
                    added == ds.deep_view(),
                    out.deep_view() == before + added.take(j as int),
            {
                let ghost mid = out.deep_view();
                out.push(ds[j].clone());
                assert(out.deep_view() =~= mid.push(ds@[j as int]@));
                assert(out.deep_view() =~= before + added.take(j + 1));
            }
            assert(added.take(ds@.len() as int) =~= added);
            assert(out.deep_view() =~= front + source_domains(all.take(i + 1)));
        }
    }
    assert(all.take(sources@.len() as int) =~= all);
}

/// The patterns that a state and the configured domains come to.
pub fn compute_patterns(state: &BlocklistState, extra: &Vec<String>, allow: &Vec<String>) -> (r: Vec<
    String,
>)
    ensures
        r.deep_view() == (BlocklistModel {
            state: state@,
            extra: extra.deep_view(),
            allow: allow.deep_view(),
            refresh_interval_secs: 0,
        }).patterns(),
{
    let mut out: Vec<String> = Vec::new();
    assert(out.deep_view() =~= seq![]);
    if !state.enabled {
        return out;
    }
    let mut found = clean_extra(extra);
    push_source_domains(&mut found, &state.sources);
    let domains = sort_unique(&drop_allowed(&found, allow));
    let ghost all = domains.deep_view();
    for i in 0..domains.len()
        invariant
            all == domains.deep_view(),
            out.deep_view() == globs_of(all.take(i as int)),
    {
        assert(all.take(i + 1).drop_last() =~= all.take(i as int));
        assert(all.take(i + 1).last() == domains@[i as int]@);
        let ghost before = out.deep_view();
        let globs = domain_to_patterns(domains[i].as_str());
        let ghost av = globs[0]@;
        let ghost bv = globs[1]@;
        out.push(globs[0].clone());
        out.push(globs[1].clone());
        assert(out.deep_view() =~= before + seq![av, bv]);
        assert(seq![av, bv] =~= domain_globs(all[i as int]));
    }
    assert(all.take(domains@.len() as int) =~= all);
    out
}

fn find_source(sources: &Vec<BlocklistSource>, id: &str) -> (r: Option<usize>)
    ensures
        match r {
            Some(i) => source_at(sources.deep_view(), id@) == Some(i as int) && i < sources@.len(),
            None => source_at(sources.deep_view(), id@) is None,
        },
{
    let ghost all = sources.deep_view();
    assert(all.skip(0) =~= all);
    for i in 0..sources.len()
        invariant
            all == sources.deep_view(),
            match source_at(all.skip(i as int), id@) {
                Some(j) => source_at(all, id@) == Some(i + j),
                None => source_at(all, id@) is None,
            },
    {
        assert(all.skip(i as int)[0] == sources@[i as int]@);
        assert(all.skip(i as int).skip(1) =~= all.skip(i + 1));
        if same(sources[i].id.as_str(), id) {
            return Some(i);
        }
    }
    None
}

fn copy_source(s: &BlocklistSource) -> (r: BlocklistSource)
    ensures
        r@ == s@,
{
    BlocklistSource {
        id: s.id.clone(),
        url: s.url.clone(),
        enabled: s.enabled,
        added_at: s.added_at,
        last_fetch_at: s.last_fetch_at,
        last_error: copy_opt(&s.last_error),
        domains: copy_texts(&s.domains),
    }
}

impl Blocklist {
    /// The patterns are those of the state.
    pub closed spec fn wf(&self) -> bool {
        self.patterns.deep_view() == self@.patterns()
    }

    /// A blocklist with the state that was persisted, or empty and off.
    pub fn new(cfg: BlocklistConfig, persisted: Option<BlocklistState>) -> (r: Blocklist)
        ensures
            r.wf(),
            r@ == BlocklistModel::opened(
                persisted.deep_view(),
                cfg.extra_domains.deep_view(),
                cfg.allow_domains.deep_view(),
                cfg.refresh_interval_secs,
            ),
    {
        let state = match persisted {
            Some(s) => s,
            None => {
                let s = BlocklistState { enabled: false, sources: Vec::new() };
                assert(s.sources.deep_view() =~= seq![]);
                s
            },
        };
        let patterns = compute_patterns(&state, &cfg.extra_domains, &cfg.allow_domains);
        Blocklist { cfg, state, patterns }
    }

    /// The patterns in force.
    pub fn snapshot(&self) -> (r: &Vec<String>)
        requires
            self.wf(),
        ensures
            r.deep_view() == self@.patterns(),
    {
        &self.patterns
    }

    /// What is to be persisted.
    pub fn state(&self) -> (r: &BlocklistState)
        ensures
            r@ == self@.state,
    {
        &self.state
    }

    pub fn status(&self) -> (r: BlocklistStatusView)
        requires
            self.wf(),
        ensures
            r.enabled == self@.state.enabled,
            r.pattern_count == self@.patterns().len(),
            r.sources.deep_view() == self@.summaries(),
    {
        let mut sources: Vec<BlocklistSourceView> = Vec::new();
        let ghost all = self@.state.sources;
        for i in 0..self.state.sources.len()
            invariant
                all == self.state.sources.deep_view(),
                sources@.len() == i,
                forall|k: int| 0 <= k < i ==> (#[trigger] sources@[k])@ == all[k].summary(),
        {
            assert(all[i as int] == self.state.sources@[i as int]@);
            sources.push(self.state.sources[i].summary());
        }
        assert(sources.deep_view() =~= self@.summaries());
        assert(self.patterns.deep_view().len() == self.patterns@.len());
        BlocklistStatusView {
            enabled: self.state.enabled,
            pattern_count: self.patterns.len(),
            sources,
        }
    }

    fn recompute(&mut self)
        ensures
            final(self).wf(),
            final(self)@ == old(self)@,
    {
        self.patterns = compute_patterns(
            &self.state,
            &self.cfg.extra_domains,
            &self.cfg.allow_domains,
        );
    }

    /// Toggle the master switch: recomputes from what each source already has.
    pub fn set_enabled(&mut self, enabled: bool) -> (r: BlocklistStatusView)
        ensures
            final(self).wf(),
            final(self)@ == old(self)@.with_state(
                StateModel { enabled, sources: old(self)@.state.sources },
            ),
            r.enabled == enabled,
            r.pattern_count == final(self)@.patterns().len(),
            r.sources.deep_view() == final(self)@.summaries(),
    {
        self.state.enabled = enabled;
        self.recompute();
        self.status()
    }

    /// Add a source with what its first fetch gave. It is kept even if the fetch
    /// failed; the next refresh tries it again.
    pub fn add_source(
        &mut self,
        url: &str,
        body: Result<String, CobwebError>,
        id: String,
        added_at: i128,
        fetched_at: i128,
    ) -> (r: Result<BlocklistSourceView, CobwebError>)
        requires
            old(self).wf(),
        ensures
            final(self).wf(),
            ({
                let s = SourceModel {
                    id: id@,
                    url: url@,
                    enabled: true,
                    added_at,
                    last_fetch_at: None,
                    last_error: None,
                    domains: seq![],
                }.refreshed(
                    match body {
                        Ok(b) => Ok(b@),
                        Err(e) => Err(e@),
                    },
                    fetched_at,
                );
                match url_parsed(url@) {
                    Ok(_) => r matches Ok(v) && v@ == s.summary() && final(self)@
                        == old(self)@.with_sources(old(self)@.state.sources.push(s)),
                    Err(e) => r matches Err(f) && f@ == ErrorView::BadRequest(
                        "blocklist source url: "@ + e,
                    ) && final(self)@ == old(self)@,
                }
            }),
            r is Ok ==> final(self)@ == old(self)@.with_sources(
                old(self)@.state.sources.push(
                    new_source(
                        id@,
                        url@,
                        match body {
                            Ok(b) => Ok(b@),
                            Err(e) => Err(e@),
                        },
                        added_at,
                        fetched_at,
                    ),
                ),
            ),
    {
        match Url::parse(url) {
            Ok(_) => {},
            Err(e) => {
                return Err(CobwebError::BadRequest(cat("blocklist source url: ", e.as_str())));
            },
        }
        let ghost before = self@;
        let none: Vec<String> = Vec::new();
        assert(none.deep_view() =~= seq![]);
        let (domains, last_error): (Vec<String>, Option<String>) = match &body {
            Ok(b) => (parse_list(b.as_str()), None),
            Err(e) => (none, Some(e.message())),
        };
        let source = BlocklistSource {
            id,
            url: url.to_owned(),
            enabled: true,
            added_at,
            last_fetch_at: Some(fetched_at),
            last_error,
            domains,
        };
        let ghost sv = source@;
        let view = source.summary();
        self.state.sources.push(source);
        assert(self@.state.sources =~= before.state.sources.push(sv));
        self.recompute();
        Ok(view)
    }

    /// Toggle one source on or off, without a fetch.
    pub fn set_source_enabled(&mut self, id: &str, enabled: bool) -> (r: Result<
        BlocklistSourceView,
        CobwebError,
    >)
        requires
            old(self).wf(),
        ensures
            final(self).wf(),
            match source_at(old(self)@.state.sources, id@) {
                Some(i) => {
                    let s = SourceModel { enabled, ..old(self)@.state.sources[i] };
                    r matches Ok(v) && v@ == s.summary() && final(self)@ == old(self)@.with_sources(old(self)@.state.sources.update(i, s))
                },
                None => r matches Err(e) && e@ == ErrorView::BadRequest(
                    "no such blocklist source: "@ + id@,
                ) && final(self)@ == old(self)@,
            },
    {
        match find_source(&self.state.sources, id) {
            Some(i) => {
                let ghost before = self@.state.sources;
                assert(before[i as int] == self.state.sources@[i as int]@);
                let mut s = copy_source(&self.state.sources[i]);
                s.enabled = enabled;
                let view = s.summary();
                let ghost sv = s@;
                self.state.sources.set(i, s);
                assert(self@.state.sources =~= before.update(i as int, sv));
                self.recompute();
                Ok(view)
            },
            None => Err(CobwebError::BadRequest(cat("no such blocklist source: ", id))),
        }
    }

    /// Remove a source. Whether there was one.
    pub fn remove_source(&mut self, id: &str) -> (r: bool)
        requires
            old(self).wf(),
        ensures
            final(self).wf(),
            final(self)@ == old(self)@.with_sources(
                sources_without(old(self)@.state.sources, id@),
            ),
            r == (sources_without(old(self)@.state.sources, id@).len() != old(self)@.state.sources.len()),
    {
        let ghost all = self@.state.sources;
        let n: usize = self.state.sources.len();
        let mut kept: Vec<BlocklistSource> = Vec::new();
        assert(kept.deep_view() =~= seq![]);
        for i in 0..n
            invariant
                all == self.state.sources.deep_view(),
                n == self.state.sources@.len(),
                kept.deep_view() == sources_without(all.take(i as int), id@),
        {
            assert(all.take(i + 1).drop_last() =~= all.take(i as int));
            assert(all.take(i + 1).last() == self.state.sources@[i as int]@);
            let ghost before = kept.deep_view();
            if !same(self.state.sources[i].id.as_str(), id) {
                kept.push(copy_source(&self.state.sources[i]));
                assert(kept.deep_view() =~= before.push(all[i as int]));
            }
        }
        assert(all.take(n as int) =~= all);
        assert(kept.deep_view().len() == kept@.len());
        let removed = kept.len() != n;
        self.state.sources = kept;
        self.recompute();
        removed
    }

    /// The sources to fetch in a refresh: none while the master switch is off,
    /// else the enabled ones.
    pub fn targets(&self) -> (r: Vec<(String, String)>)
        ensures
            r.deep_view() == if self@.state.enabled {
                enabled_targets(self@.state.sources)
            } else {
                seq![]
            },
    {
        let ghost all = self@.state.sources;
        let mut out: Vec<(String, String)> = Vec::new();
        assert(out.deep_view() =~= seq![]);
        if !self.state.enabled {
            return out;
        }
        for i in 0..self.state.sources.len()
            invariant
                all == self.state.sources.deep_view(),
                out.deep_view() == enabled_targets(all.take(i as int)),
        {
            assert(all.take(i + 1).drop_last() =~= all.take(i as int));
            assert(all.take(i + 1).last() == self.state.sources@[i as int]@);
            let ghost before = out.deep_view();
            let s: &BlocklistSource = &self.state.sources[i];
            if s.enabled {
                out.push((s.id.clone(), s.url.clone()));
                assert(out.deep_view() =~= before.push((s.id@, s.url@)));
            }
        }
        assert(all.take(self.state.sources@.len() as int) =~= all);
        out
    }

    /// A round of fetches came back. A source that is gone meanwhile is left
    /// out; one whose fetch failed keeps its domains.
    pub fn refreshed(&mut self, results: &Vec<Fetched>, now: i128)
        requires
            old(self).wf(),
        ensures
            final(self).wf(),
            final(self)@ == old(self)@.with_sources(
                with_all_fetched(old(self)@.state.sources, results.deep_view(), now),
            ),
    {
        let ghost start = self@;
        let ghost fs = results.deep_view();
        assert(fs.take(0) =~= seq![]);
        for i in 0..results.len()
            invariant
                fs == results.deep_view(),
                self@ == start.with_sources(
                    with_all_fetched(start.state.sources, fs.take(i as int), now),
                ),
        {
            assert(fs.take(i + 1).drop_last() =~= fs.take(i as int));
            assert(fs.take(i + 1).last() == results@[i as int]@);
            let f: &Fetched = &results[i];
            let ghost before = self@.state.sources;
            match find_source(&self.state.sources, f.id.as_str()) {
                Some(k) => {
                    assert(before[k as int] == self.state.sources@[k as int]@);
                    let mut s = copy_source(&self.state.sources[k]);
                    s.last_fetch_at = Some(now);
                    match &f.body {
                        Ok(b) => {
                            s.domains = parse_list(b.as_str());
                            s.last_error = None;
                        },
                        Err(e) => {
                            s.last_error = Some(e.message());
                        },
                    }
                    let ghost sv = s@;
                    self.state.sources.set(k, s);
                    assert(self@.state.sources =~= before.update(k as int, sv));
                },
                None => {},
            }
        }
        assert(fs.take(results@.len() as int) =~= fs);
        self.recompute();
    }

    /// Seconds between refreshes: never under a minute.
    pub fn refresh_interval(&self) -> (r: u64)
        ensures
            r == if self@.refresh_interval_secs < 60 {
                60
            } else {
                self@.refresh_interval_secs
            },
    {
        if self.cfg.refresh_interval_secs < 60 {
            60
        } else {
            self.cfg.refresh_interval_secs
        }
    }
}

/// The request that fetches a source: direct, without any cookie or header.
pub fn source_request(src: &str) -> (r: Result<FetchRequest, CobwebError>)
    ensures
        match url_parsed(src@) {
            Ok(u) => r matches Ok(q) && q@ == (RequestView {
                url: u,
                egress: direct_egress(),
                user_agent: None,
                accept_language: None,
                cookie_header: None,
                fingerprint: None,
                extra_headers: seq![],
                timeout_ms: 30_000,
            }),
            Err(e) => r matches Err(f) && f@ == ErrorView::Config(
                "blocklist source `"@ + src@ + "` is not a valid URL: "@ + e,
            ),
        },
{
    match Url::parse(src) {
        Ok(url) => {
            let extra_headers: Vec<(String, String)> = Vec::new();
            assert(extra_headers.deep_view() =~= seq![]);
            Ok(
                FetchRequest {
                    url,
                    egress: Egress::direct(),
                    user_agent: None,
                    accept_language: None,
                    cookie_header: None,
                    fingerprint: None,
                    extra_headers,
                    timeout_ms: 30_000,
                },
            )
        },
        Err(e) => Err(
            CobwebError::Config(
                cat(
                    cat3("blocklist source `", src, "` is not a valid URL: ").as_str(),
                    e.as_str(),
                ),
            ),
        ),
    }
}

/// The body of a fetched source. An error status is an error.
pub fn source_body(src: &str, resp: FetchResponse) -> (r: Result<String, CobwebError>)
    ensures
        if resp@.status >= 400 {
            r matches Err(e) && e@ == ErrorView::Upstream(
                "GET "@ + src@ + ": HTTP "@ + dec(resp@.status as nat),
            )
        } else {
            r matches Ok(b) && b@ == resp@.body
        },
{
    if resp.status >= 400 {
        return Err(
            CobwebError::Upstream(
                cat(
                    cat3("GET ", src, ": HTTP ").as_str(),
                    dec_u64(resp.status as u64).as_str(),
                ),
            ),
        );
    }
    Ok(resp.body)
}

// ---------------------------------------------------------------------------
// Laws
// ---------------------------------------------------------------------------

/// While the master switch is off nothing is blocked.
pub proof fn disabled_blocks_nothing(m: BlocklistModel)
    requires
        !m.state.enabled,
    ensures
        m.patterns().len() == 0,
{
}

/// Switching off and on again brings the same patterns back, without a fetch.
pub proof fn toggling_restores_the_patterns(m: BlocklistModel)
    requires
        m.state.enabled,
    ensures
        m.with_state(StateModel { enabled: false, sources: m.state.sources }).with_state(
            StateModel { enabled: true, sources: m.state.sources },
        ).patterns() == m.patterns(),
{
}

proof fn lemma_not_allowed(ds: Seq<Seq<char>>, allow: Seq<Seq<char>>, d: Seq<char>)
    ensures
        not_allowed(ds, allow).contains(d) <==> ds.contains(d) && !allowed(allow, d),
    decreases ds.len(),
{
    if ds.len() > 0 {
        let front = ds.drop_last();
        lemma_not_allowed(front, allow, d);
        let kept = not_allowed(front, allow);
        if ds.contains(d) {
            let k = choose|k: int| 0 <= k < ds.len() && ds[k] == d;
            if k < front.len() {
                assert(front[k] == d);
            }
        }
        if front.contains(d) {
            let k = choose|k: int| 0 <= k < front.len() && front[k] == d;
            assert(ds[k] == d);
        }
        assert(ds[ds.len() - 1] == ds.last());
        if !allowed(allow, ds.last()) {
            let all = kept.push(ds.last());
            if kept.contains(d) {
                let k = choose|k: int| 0 <= k < kept.len() && kept[k] == d;
                assert(all[k] == d);
            }
            assert(all[kept.len() as int] == ds.last());
            if all.contains(d) && d != ds.last() {
                let k = choose|k: int| 0 <= k < all.len() && all[k] == d;
                assert(kept[k] == d);
            }
        }
    }
}

/// A domain is blocked exactly if it is configured or listed by an enabled
/// source, and not on the allow list.
pub proof fn blocked_domains_are_those_listed(m: BlocklistModel, d: Seq<char>)
    ensures
        m.domains().contains(d) <==> (extra_domains(m.extra) + source_domains(
            m.state.sources,
        )).contains(d) && !allowed(m.allow, d),
{
    let found = extra_domains(m.extra) + source_domains(m.state.sources);
    lemma_not_allowed(found, m.allow, d);
    lemma_sorted(not_allowed(found, m.allow));
}

/// A domain on the allow list is never blocked, whoever lists it.
pub proof fn allowed_domains_are_never_blocked(m: BlocklistModel, d: Seq<char>)
    requires
        allowed(m.allow, d),
    ensures
        !m.domains().contains(d),
{
    blocked_domains_are_those_listed(m, d);
}

/// No domain is blocked twice, and the domains are in order.
pub proof fn blocked_domains_are_ascending(m: BlocklistModel)
    ensures
        ascending(m.domains()),
{
    lemma_sorted(
        not_allowed(extra_domains(m.extra) + source_domains(m.state.sources), m.allow),
    );
}

/// A fetch that failed leaves the source's domains as they were.
pub proof fn failed_refresh_keeps_the_domains(s: SourceModel, e: ErrorView, now: i128)
    ensures
        s.refreshed(Err(e), now).domains == s.domains,
        s.refreshed(Err(e), now).last_error == Some(e.message()),
{
}

proof fn lemma_source_domains(ss: Seq<SourceModel>, i: int)
    requires
        0 <= i < ss.len(),
        !ss[i].enabled,
    ensures
        source_domains(ss) == source_domains(ss.remove(i)),
    decreases ss.len(),
{
    if i == ss.len() - 1 {
        assert(ss.remove(i) =~= ss.drop_last());
    } else {
        lemma_source_domains(ss.drop_last(), i);
        assert(ss.remove(i).drop_last() =~= ss.drop_last().remove(i));
        assert(ss.remove(i).last() == ss.last());
    }
}

/// A source that is switched off blocks as much as one that is not there.
pub proof fn a_disabled_source_counts_for_nothing(m: BlocklistModel, i: int)
    requires
        0 <= i < m.state.sources.len(),
        !m.state.sources[i].enabled,
    ensures
        m.patterns() == m.with_sources(m.state.sources.remove(i)).patterns(),
{
    lemma_source_domains(m.state.sources, i);
}

/// What is persisted is enough to block the same after a restart.
pub proof fn the_blocklist_survives_a_restart(m: BlocklistModel)
    ensures
        ({
            let again = BlocklistModel::opened(
                Some(m.state),
                m.extra,
                m.allow,
                m.refresh_interval_secs,
            );
            again == m && again.patterns() == m.patterns()
        }),
{
}

/// What the parser gives as a domain: lower case, with a dot that is not at its
/// end, without a `#`, and no placeholder.
pub open spec fn bare(d: Seq<char>) -> bool {
    &&& d.len() > 0
    &&& some_char(d, only('.'))
    &&& d.last() != '.'
    &&& !some_char(d, only('#'))
    &&& !placeholder(d)
    &&& lower(d) == d
}

/// A listed domain is lower case, has a dot but does not end in one, holds no
/// `#` and is no placeholder.
pub proof fn listed_domains_are_bare(text: Seq<char>, i: int)
    requires
        0 <= i < listed(text).len(),
    ensures
        bare(listed(text)[i]),
{
    lemma_lines(pieces(text, only('\n')), i);
}

/// A line that is neither a hosts line nor a domain rule, and whose first field is
/// not written as a host name, gives no domain: so are cosmetic, script and
/// exception rules skipped.
pub proof fn other_rules_are_skipped(raw: Seq<char>)
    requires
        after_prefix(trimmed(raw), "||"@) is None,
        host_fields(trimmed(raw)).len() > 0 ==> ip_of(host_fields(trimmed(raw))[0]) is None,
        words(trimmed(raw)).len() > 0 ==> !host_shaped(words(trimmed(raw))[0]),
    ensures
        line_domains(raw) == Seq::<Seq<char>>::empty(),
{
}

/// A field that holds a `#` is not written as a host name.
pub proof fn cosmetic_fields_are_no_hosts(field: Seq<char>, i: int)
    requires
        0 <= i < field.len(),
        field[i] == '#',
    ensures
        !host_shaped(field),
{
    assert(passes(RuleChar)(field[i]));
}

proof fn lemma_bare(candidate: Seq<char>)
    requires
        domain_in(candidate).len() > 0,
    ensures
        domain_in(candidate).len() == 1,
        bare(domain_in(candidate)[0]),
{
    let d = bare_domain(candidate);
    let cut = drop_trailing(trimmed(candidate), only('.'));
    lemma_last_stays(trimmed(candidate), only('.'));
    assert(d.last() == crate::text::lower_char(cut.last()));
    assert(lower(d) =~= d);
}

/// What is left after trailing characters are dropped does not end in one.
proof fn lemma_last_stays(s: Seq<char>, p: spec_fn(char) -> bool)
    ensures
        drop_trailing(s, p).len() > 0 ==> !p(drop_trailing(s, p).last()),
    decreases s.len(),
{
    if s.len() > 0 && p(s.last()) {
        lemma_last_stays(s.drop_last(), p);
    }
}

proof fn lemma_lines(lines: Seq<Seq<char>>, i: int)
    requires
        0 <= i < lines_domains(lines).len(),
    ensures
        bare(lines_domains(lines)[i]),
    decreases lines.len(),
{
    if lines.len() > 0 {
        let front = lines_domains(lines.drop_last());
        if i < front.len() {
            lemma_lines(lines.drop_last(), i);
        } else {
            let line = trimmed(lines.last());
            let last = line_domains(lines.last());
            assert(lines_domains(lines)[i] == last[i - front.len()]);
            let hosts = host_fields(line);
            if after_prefix(line, "||"@) is Some {
                lemma_bare(pieces(after_prefix(line, "||"@)->Some_0, passes(RuleEnd))[0]);
            } else if hosts.len() > 0 && ip_of(hosts[0]) is Some {
                lemma_hosts(hosts.skip(1), i - front.len());
            } else {
                lemma_bare(words(line)[0]);
            }
        }
    }
}

proof fn lemma_hosts(cs: Seq<Seq<char>>, i: int)
    requires
        0 <= i < domains_in(cs).len(),
    ensures
        bare(domains_in(cs)[i]),
    decreases cs.len(),
{
    if cs.len() > 0 {
        let front = domains_in(cs.drop_last());
        if i < front.len() {
            lemma_hosts(cs.drop_last(), i);
        } else {
            assert(domains_in(cs)[i] == domain_in(cs.last())[i - front.len()]);
            lemma_bare(cs.last());
        }
    }
}

proof fn lemma_listed_by(ss: Seq<SourceModel>, d: Seq<char>)
    ensures
        source_domains(ss).contains(d) <==> exists|i: int|
            0 <= i < ss.len() && (#[trigger] ss[i]).enabled && ss[i].domains.contains(d),
    decreases ss.len(),
{
    if ss.len() > 0 {
        let front = ss.drop_last();
        let last = ss.last();
        let all = source_domains(ss);
        lemma_listed_by(front, d);
        if all.contains(d) {
            let k = choose|k: int| 0 <= k < all.len() && all[k] == d;
            let n = source_domains(front).len();
            if k < n {
                assert(source_domains(front)[k] == d);
                let i = choose|i: int|
                    0 <= i < front.len() && (#[trigger] front[i]).enabled
                        && front[i].domains.contains(d);
                assert(ss[i] == front[i]);
            } else {
                assert(last.domains[k - n] == d);
                assert(ss[ss.len() - 1] == last);
            }
        }
        if exists|i: int|
            0 <= i < ss.len() && (#[trigger] ss[i]).enabled && ss[i].domains.contains(d) {
            let i = choose|i: int|
                0 <= i < ss.len() && (#[trigger] ss[i]).enabled && ss[i].domains.contains(d);
            if i < front.len() {
                assert(front[i] == ss[i]);
                let k = choose|k: int|
                    0 <= k < source_domains(front).len() && source_domains(front)[k] == d;
                assert(all[k] == d);
            } else {
                let k = choose|k: int| 0 <= k < last.domains.len() && last.domains[k] == d;
                assert(all[source_domains(front).len() + k] == d);
            }
        }
    }
}

proof fn lemma_configured_by(ds: Seq<Seq<char>>, d: Seq<char>)
    ensures
        extra_domains(ds).contains(d) <==> d.len() > 0 && exists|i: int|
            0 <= i < ds.len() && configured(#[trigger] ds[i]) == d,
    decreases ds.len(),
{
    if ds.len() > 0 {
        let front = ds.drop_last();
        let kept = extra_domains(front);
        let all = extra_domains(ds);
        lemma_configured_by(front, d);
        if all.contains(d) {
            let k = choose|k: int| 0 <= k < all.len() && all[k] == d;
            if k < kept.len() {
                assert(kept[k] == d);
                let i = choose|i: int|
                    0 <= i < front.len() && configured(#[trigger] front[i]) == d;
                assert(ds[i] == front[i]);
            } else {
                assert(configured(ds[ds.len() - 1]) == d);
            }
        }
        if d.len() > 0 && exists|i: int|
            0 <= i < ds.len() && configured(#[trigger] ds[i]) == d {
            let i = choose|i: int| 0 <= i < ds.len() && configured(#[trigger] ds[i]) == d;
            if i < front.len() {
                assert(front[i] == ds[i]);
                let k = choose|k: int| 0 <= k < kept.len() && kept[k] == d;
                assert(all[k] == d);
            } else {
                assert(all[kept.len() as int] == d);
            }
        }
    }
}

/// A domain is blocked exactly where it is not on the allow list and is a
/// configured extra, or any one of the sources that are switched on lists it.
pub proof fn every_enabled_source_blocks(m: BlocklistModel, d: Seq<char>)
    ensures
        m.domains().contains(d) <==> {
            &&& forall|i: int|
                0 <= i < m.allow.len() ==> lower(trimmed(#[trigger] m.allow[i])) != d
            &&& {
                ||| d.len() > 0 && exists|i: int|
                    0 <= i < m.extra.len() && lower(trimmed(#[trigger] m.extra[i])) == d
                ||| exists|i: int|
                    0 <= i < m.state.sources.len() && (#[trigger] m.state.sources[i]).enabled
                        && m.state.sources[i].domains.contains(d)
            }
        },
{
    let a = extra_domains(m.extra);
    let b = source_domains(m.state.sources);
    blocked_domains_are_those_listed(m, d);
    lemma_listed_by(m.state.sources, d);
    lemma_configured_by(m.extra, d);
    if (a + b).contains(d) {
        let k = choose|k: int| 0 <= k < (a + b).len() && (a + b)[k] == d;
        if k < a.len() {
            assert(a[k] == d);
        } else {
            assert(b[k - a.len()] == d);
        }
    }
    if a.contains(d) {
        let k = choose|k: int| 0 <= k < a.len() && a[k] == d;
        assert((a + b)[k] == d);
    }
    if b.contains(d) {
        let k = choose|k: int| 0 <= k < b.len() && b[k] == d;
        assert((a + b)[a.len() + k] == d);
    }
    assert(allowed(m.allow, d) <==> exists|i: int|
        0 <= i < m.allow.len() && lower(trimmed(#[trigger] m.allow[i])) == d) by {
        if allowed(m.allow, d) {
            let i = choose|i: int| 0 <= i < m.allow.len() && configured(#[trigger] m.allow[i]) == d;
            assert(lower(trimmed(m.allow[i])) == d);
        }
        if exists|i: int| 0 <= i < m.allow.len() && lower(trimmed(#[trigger] m.allow[i])) == d {
            let i = choose|i: int|
                0 <= i < m.allow.len() && lower(trimmed(#[trigger] m.allow[i])) == d;
            assert(configured(m.allow[i]) == d);
        }
    }
    if exists|i: int| 0 <= i < m.extra.len() && lower(trimmed(#[trigger] m.extra[i])) == d {
        let i = choose|i: int|
            0 <= i < m.extra.len() && lower(trimmed(#[trigger] m.extra[i])) == d;
        assert(configured(m.extra[i]) == d);
    }
    if exists|i: int| 0 <= i < m.extra.len() && configured(#[trigger] m.extra[i]) == d {
        let i = choose|i: int| 0 <= i < m.extra.len() && configured(#[trigger] m.extra[i]) == d;
        assert(lower(trimmed(m.extra[i])) == d);
    }
}

/// While the master switch is on every blocked domain has its two patterns, for
/// itself and for what is below it, and there is no other pattern.
pub proof fn every_blocked_domain_has_its_patterns(m: BlocklistModel, i: int)
    requires
        m.state.enabled,
        0 <= i < m.domains().len(),
    ensures
        m.patterns().len() == 2 * m.domains().len(),
        m.patterns()[2 * i] == seq!['*', ':', '/', '/'] + m.domains()[i] + seq!['/', '*'],
        m.patterns()[2 * i + 1] == seq!['*', ':', '/', '/', '*', '.'] + m.domains()[i] + seq![
            '/',
            '*',
        ],
{
    reveal_strlit("*://");
    reveal_strlit("*://*.");
    reveal_strlit("/*");
    assert("*://"@ =~= seq!['*', ':', '/', '/']);
    assert("*://*."@ =~= seq!['*', ':', '/', '/', '*', '.']);
    assert("/*"@ =~= seq!['/', '*']);
    lemma_globs(m.domains());
    assert(m.patterns()[2 * i] == domain_globs(m.domains()[i])[0]);
}

proof fn lemma_globs(ds: Seq<Seq<char>>)
    ensures
        globs_of(ds).len() == 2 * ds.len(),
        forall|i: int|
            0 <= i < ds.len() ==> globs_of(ds)[2 * i] == domain_globs(#[trigger] ds[i])[0]
                && globs_of(ds)[2 * i + 1] == domain_globs(ds[i])[1],
    decreases ds.len(),
{
    if ds.len() > 0 {
        let front = ds.drop_last();
        lemma_globs(front);
        assert forall|i: int| 0 <= i < ds.len() implies globs_of(ds)[2 * i] == domain_globs(
            #[trigger] ds[i],
        )[0] && globs_of(ds)[2 * i + 1] == domain_globs(ds[i])[1] by {
            if i < front.len() {
                assert(front[i] == ds[i]);
                assert(globs_of(ds)[2 * i] == globs_of(front)[2 * i]);
                assert(globs_of(ds)[2 * i + 1] == globs_of(front)[2 * i + 1]);
            }
        }
    }
}

/// A list gives what its lines give, in their order: one line more adds its
/// domains.
pub proof fn every_line_of_a_list_counts(text: Seq<char>, line: Seq<char>)
    requires
        !line.contains('\n'),
    ensures
        listed(line) == line_domains(line),
        listed(text.push('\n') + line) == listed(text) + line_domains(line),
{
    assert forall|i: int| 0 <= i < line.len() implies !only('\n')(#[trigger] line[i]) by {
        assert(line.contains(line[i]));
    }
    a_text_without_separator_is_one_piece(line, '\n');
    a_piece_is_added_at_the_end(text, '\n', line, only('\n'));
    let all = pieces(text, only('\n')).push(line);
    assert(all.drop_last() =~= pieces(text, only('\n')));
    let one = seq![line];
    assert(one.drop_last() =~= seq![]);
    assert(lines_domains(one.drop_last()) =~= seq![]);
    assert(lines_domains(one) =~= line_domains(line));
}

/// Whether a text is written as a listed domain is: as a host name with a dot
/// that does not end it, which is neither an address nor a placeholder.
pub open spec fn plain_host(d: Seq<char>) -> bool {
    &&& d.len() > 0
    &&& d.contains('.')
    &&& d.last() != '.'
    &&& forall|i: int|
        0 <= i < d.len() ==> 'a' <= #[trigger] d[i] && d[i] <= 'z' || 'A' <= d[i] && d[i] <= 'Z'
            || '0' <= d[i] && d[i] <= '9' || d[i] == '-' || d[i] == '.' || d[i] == '_'
    &&& ip_of(d) is None
    &&& lower(d) != "localhost.localdomain"@
    &&& lower(d) != "ip6-localhost"@
    &&& lower(d) != "ip6-loopback"@
    &&& lower(d) != "0.0.0.0"@
    &&& lower(d) != "255.255.255.255"@
}

proof fn lemma_plain_host(d: Seq<char>)
    requires
        plain_host(d),
    ensures
        trimmed(d) == d,
        words(d) == seq![d],
        pieces(d, only('#')) == seq![d],
        pieces(d, passes(RuleEnd)) == seq![d],
        host_shaped(d),
        domain_in(d) == seq![lower(d)],
{
    let e = Seq::<char>::empty();
    assert forall|i: int| 0 <= i < d.len() implies !is_space(#[trigger] d[i]) by {}
    trimming_takes_both_ends(e, d, e);
    assert(e + d + e =~= d);
    words_end_at_white_space(d, ' ', e);
    assert forall|i: int| 0 <= i < d.len() implies !only('#')(#[trigger] d[i]) by {}
    pieces_end_at_separators(d, '#', e, only('#'));
    assert forall|i: int| 0 <= i < d.len() implies !passes(RuleEnd)(#[trigger] d[i]) by {}
    pieces_end_at_separators(d, '^', e, passes(RuleEnd));
    assert forall|i: int| 0 <= i < d.len() implies !passes(RuleChar)(#[trigger] d[i]) by {}
    trailing_runs_are_dropped(d, e, only('.'));
    assert(d + e =~= d);
    let l = lower(d);
    let k = choose|k: int| 0 <= k < d.len() && d[k] == '.';
    assert(only('.')(l[k]));
    assert forall|i: int| 0 <= i < l.len() implies !only('#')(#[trigger] l[i]) by {
        assert(l[i] == crate::text::lower_char(d[i]));
    }
}

proof fn lemma_host_line(d: Seq<char>)
    requires
        plain_host(d),
    ensures
        line_domains(d) == seq![lower(d)],
{
    reveal_strlit("||");
    lemma_plain_host(d);
    if "||"@.is_prefix_of(d) {
        assert(d[0] == "||"@[0]);
    }
    assert(d[0] != '#' && d[0] != '!');
    assert(host_fields(d) =~= seq![d]);
    assert(seq![d][0] == d);
}

proof fn lemma_rule_line(d: Seq<char>, tail: Seq<char>)
    requires
        plain_host(d),
        tail.len() > 0,
        !is_space(tail.last()),
        pieces(tail, passes(RuleEnd))[0] == d,
    ensures
        line_domains(seq!['|', '|'] + tail) == seq![lower(d)],
{
    let e = Seq::<char>::empty();
    let bars = seq!['|', '|'];
    reveal_strlit("||");
    assert("||"@ =~= bars);
    let r = bars + tail;
    assert(r[0] == '|');
    assert(r.last() == tail.last());
    trimming_takes_both_ends(e, r, e);
    assert(e + r + e =~= r);
    affixes_come_off(bars, tail);
    lemma_plain_host(d);
}

proof fn lemma_comment_line(mark: char, rest: Seq<char>)
    requires
        mark == '#' || mark == '!',
        rest.len() > 0 ==> !is_space(rest.last()),
    ensures
        line_domains(seq![mark] + rest).len() == 0,
{
    let e = Seq::<char>::empty();
    let r = seq![mark] + rest;
    trimming_takes_both_ends(e, r, e);
    assert(e + r + e =~= r);
}

/// A host name on a line of its own is listed, in lower case; so is that of a
/// domain rule, whatever ends it; a comment lists nothing.
pub proof fn a_line_lists_its_domain(d: Seq<char>, end: char, rest: Seq<char>)
    requires
        plain_host(d),
        end == '^' || end == '/' || end == '$',
        rest.len() > 0 ==> !is_space(rest.last()),
    ensures
        line_domains(d) == seq![lower(d)],
        line_domains(seq!['|', '|'] + d) == seq![lower(d)],
        line_domains(seq!['|', '|'] + d + seq![end] + rest) == seq![lower(d)],
        line_domains(seq!['#'] + rest).len() == 0,
        line_domains(seq!['!'] + rest).len() == 0,
{
    lemma_host_line(d);
    assert(pieces(d, passes(RuleEnd))[0] == d && !is_space(d.last())) by {
        lemma_plain_host(d);
    }
    lemma_rule_line(d, d);
    let tail = d.push(end) + rest;
    assert(pieces(tail, passes(RuleEnd))[0] == d) by {
        assert forall|i: int| 0 <= i < d.len() implies !passes(RuleEnd)(#[trigger] d[i]) by {}
        pieces_end_at_separators(d, end, rest, passes(RuleEnd));
        assert((seq![d] + pieces(rest, passes(RuleEnd)))[0] == d);
    }
    lemma_rule_line(d, tail);
    assert(seq!['|', '|'] + d + seq![end] + rest =~= seq!['|', '|'] + tail);
    lemma_comment_line('#', rest);
    lemma_comment_line('!', rest);
}

/// A hosts line lists every host behind its address, up to a comment.
pub proof fn a_hosts_line_lists_every_host(raw: Seq<char>, i: int)
    requires
        trimmed(raw).len() > 0,
        trimmed(raw)[0] != '#',
        trimmed(raw)[0] != '!',
        trimmed(raw)[0] != '|',
        host_fields(trimmed(raw)).len() > 0,
        ip_of(host_fields(trimmed(raw))[0]) is Some,
        1 <= i < host_fields(trimmed(raw)).len(),
        plain_host(host_fields(trimmed(raw))[i]),
    ensures
        line_domains(raw).contains(lower(host_fields(trimmed(raw))[i])),
{
    let line = trimmed(raw);
    let hosts = host_fields(line);
    reveal_strlit("||");
    if "||"@.is_prefix_of(line) {
        assert(line[0] == "||"@[0]);
    }
    lemma_plain_host(hosts[i]);
    assert(hosts.skip(1)[i - 1] == hosts[i]);
    lemma_every_candidate(hosts.skip(1), i - 1);
}

proof fn lemma_every_candidate(cs: Seq<Seq<char>>, i: int)
    requires
        0 <= i < cs.len(),
        domain_in(cs[i]).len() == 1,
    ensures
        domains_in(cs).contains(domain_in(cs[i])[0]),
    decreases cs.len(),
{
    let front = cs.drop_last();
    let all = domains_in(cs);
    if i < front.len() {
        lemma_every_candidate(front, i);
        let k = choose|k: int|
            0 <= k < domains_in(front).len() && domains_in(front)[k] == domain_in(cs[i])[0];
        assert(all[k] == domain_in(cs[i])[0]);
    } else {
        assert(all[domains_in(front).len() as int] == domain_in(cs[i])[0]);
    }
}

/// The source of an id is the first that has it.
pub proof fn the_first_source_of_an_id_is_meant(ss: Seq<SourceModel>, id: Seq<char>, i: int)
    ensures
        0 <= i < ss.len() && ss[i].id == id && (forall|k: int|
            0 <= k < i ==> (#[trigger] ss[k]).id != id) ==> source_at(ss, id) == Some(i),
        (forall|k: int| 0 <= k < ss.len() ==> (#[trigger] ss[k]).id != id) ==> source_at(
            ss,
            id,
        ) is None,
    decreases ss.len(),
{
    if ss.len() > 0 {
        let rest = ss.skip(1);
        the_first_source_of_an_id_is_meant(rest, id, i - 1);
        assert forall|k: int| 0 <= k < rest.len() implies #[trigger] rest[k] == ss[k + 1] by {}
        if 0 < i < ss.len() {
            assert(rest[i - 1] == ss[i]);
            if forall|k: int| 0 <= k < i ==> (#[trigger] ss[k]).id != id {
                assert(ss[0].id != id);
                assert forall|k: int| 0 <= k < i - 1 implies (#[trigger] rest[k]).id != id by {
                    assert(ss[k + 1].id != id);
                }
            }
        }
        if forall|k: int| 0 <= k < ss.len() ==> (#[trigger] ss[k]).id != id {
            assert(ss[0].id != id);
            assert forall|k: int| 0 <= k < rest.len() implies (#[trigger] rest[k]).id != id by {
                assert(ss[k + 1].id != id);
            }
        }
    }
}

/// Removing a source takes those of its id and keeps every other, in order.
pub proof fn removing_a_source_keeps_the_others(
    ss: Seq<SourceModel>,
    s: SourceModel,
    id: Seq<char>,
)
    ensures
        sources_without(seq![], id).len() == 0,
        s.id == id ==> sources_without(ss.push(s), id) == sources_without(ss, id),
        s.id != id ==> sources_without(ss.push(s), id) == sources_without(ss, id).push(s),
{
    assert(ss.push(s).drop_last() =~= ss);
}

/// A refresh fetches every source that is switched on, by id and URL, in order.
pub proof fn every_enabled_source_is_fetched(ss: Seq<SourceModel>, s: SourceModel)
    ensures
        enabled_targets(seq![]).len() == 0,
        s.enabled ==> enabled_targets(ss.push(s)) == enabled_targets(ss).push((s.id, s.url)),
        !s.enabled ==> enabled_targets(ss.push(s)) == enabled_targets(ss),
{
    assert(ss.push(s).drop_last() =~= ss);
}

/// A fetch that came back gives its source, and no other, the domains of its
/// body; one of a source that is gone changes nothing.
pub proof fn a_fetch_refreshes_its_source_alone(
    ss: Seq<SourceModel>,
    f: FetchedModel,
    now: i128,
    i: int,
    j: int,
)
    requires
        0 <= i < ss.len(),
        0 <= j < ss.len(),
    ensures
        with_fetched(ss, f, now).len() == ss.len(),
        ss[i].id == f.id && (forall|k: int| 0 <= k < i ==> (#[trigger] ss[k]).id != f.id) ==> {
            let t = with_fetched(ss, f, now)[i];
            &&& t.id == ss[i].id
            &&& t.url == ss[i].url
            &&& t.enabled == ss[i].enabled
            &&& t.last_fetch_at == Some(now)
            &&& f.body matches Ok(b) ==> t.domains == listed(b) && t.last_error is None
            &&& f.body matches Err(e) ==> t.domains == ss[i].domains && t.last_error == Some(
                e.message(),
            )
        },
        ss[j].id != f.id ==> with_fetched(ss, f, now)[j] == ss[j],
{
    the_first_source_of_an_id_is_meant(ss, f.id, i);
    if let Some(k) = source_at(ss, f.id) {
        lemma_source_at(ss, f.id);
    }
}

proof fn lemma_source_at(ss: Seq<SourceModel>, id: Seq<char>)
    ensures
        source_at(ss, id) matches Some(i) ==> 0 <= i < ss.len() && ss[i].id == id,
    decreases ss.len(),
{
    if ss.len() > 0 {
        lemma_source_at(ss.skip(1), id);
    }
}

/// A round of fetches takes each in its turn.
pub proof fn every_fetch_of_a_round_counts(
    ss: Seq<SourceModel>,
    fs: Seq<FetchedModel>,
    f: FetchedModel,
    now: i128,
)
    ensures
        with_all_fetched(ss, seq![], now) == ss,
        with_all_fetched(ss, fs.push(f), now) == with_fetched(
            with_all_fetched(ss, fs, now),
            f,
            now,
        ),
{
    assert(fs.push(f).drop_last() =~= fs);
}

/// A status names every source, with the number of its domains.
pub proof fn a_status_names_every_source(m: BlocklistModel, i: int)
    requires
        0 <= i < m.state.sources.len(),
    ensures
        m.summaries().len() == m.state.sources.len(),
        m.summaries()[i].id == m.state.sources[i].id,
        m.summaries()[i].url == m.state.sources[i].url,
        m.summaries()[i].enabled == m.state.sources[i].enabled,
        m.summaries()[i].last_error == m.state.sources[i].last_error,
        m.summaries()[i].last_fetch_at == m.state.sources[i].last_fetch_at,
        m.summaries()[i].domain_count == m.state.sources[i].domains.len(),
{
}

/// A source that was added blocks what its list names, and everything that was
/// blocked before still is.
pub proof fn a_new_source_blocks_its_domains(
    m: BlocklistModel,
    id: Seq<char>,
    url: Seq<char>,
    body: Result<Seq<char>, ErrorView>,
    added_at: i128,
    fetched_at: i128,
    d: Seq<char>,
)
    requires
        forall|i: int| 0 <= i < m.allow.len() ==> lower(trimmed(#[trigger] m.allow[i])) != d,
    ensures
        ({
            let n = m.with_sources(
                m.state.sources.push(new_source(id, url, body, added_at, fetched_at)),
            );
            &&& n.state.enabled == m.state.enabled
            &&& body matches Ok(b) ==> (listed(b).contains(d) ==> n.domains().contains(d))
            &&& m.domains().contains(d) ==> n.domains().contains(d)
            &&& n.domains().contains(d) && !m.domains().contains(d) ==> (body matches Ok(b)
                && listed(b).contains(d))
        }),
{
    let s = new_source(id, url, body, added_at, fetched_at);
    let ss = m.state.sources;
    let n = m.with_sources(ss.push(s));
    every_enabled_source_blocks(m, d);
    every_enabled_source_blocks(n, d);
    assert(n.state.sources[ss.len() as int] == s);
    assert(s.enabled);
    if exists|i: int| 0 <= i < ss.len() && (#[trigger] ss[i]).enabled && ss[i].domains.contains(d) {
        let i = choose|i: int|
            0 <= i < ss.len() && (#[trigger] ss[i]).enabled && ss[i].domains.contains(d);
        assert(n.state.sources[i] == ss[i]);
    }
    if exists|i: int|
        0 <= i < n.state.sources.len() && (#[trigger] n.state.sources[i]).enabled
            && n.state.sources[i].domains.contains(d) {
        let i = choose|i: int|
            0 <= i < n.state.sources.len() && (#[trigger] n.state.sources[i]).enabled
                && n.state.sources[i].domains.contains(d);
        if i < ss.len() {
            assert(ss[i] == n.state.sources[i]);
        }
    }
}

/// A source that is switched on blocks what it lists, without a fetch; one that is
/// switched off does not.
pub proof fn switching_a_source_switches_its_domains(
    m: BlocklistModel,
    i: int,
    d: Seq<char>,
)
    requires
        0 <= i < m.state.sources.len(),
        m.state.sources[i].domains.contains(d),
        forall|k: int| 0 <= k < m.allow.len() ==> lower(trimmed(#[trigger] m.allow[k])) != d,
    ensures
        m.with_sources(
            m.state.sources.update(i, (SourceModel { enabled: true, ..m.state.sources[i] })),
        ).domains().contains(d),
        (forall|k: int|
            0 <= k < m.extra.len() ==> lower(trimmed(#[trigger] m.extra[k])) != d) && (forall|k: int|
            0 <= k < m.state.sources.len() && k != i ==> !(
            #[trigger] m.state.sources[k]).domains.contains(d)) ==> !m.with_sources(
            m.state.sources.update(i, (SourceModel { enabled: false, ..m.state.sources[i] })),
        ).domains().contains(d),
{
    let on = m.with_sources(
        m.state.sources.update(i, (SourceModel { enabled: true, ..m.state.sources[i] })),
    );
    let off = m.with_sources(
        m.state.sources.update(i, (SourceModel { enabled: false, ..m.state.sources[i] })),
    );
    every_enabled_source_blocks(on, d);
    every_enabled_source_blocks(off, d);
    assert(on.state.sources[i].enabled);
    assert forall|k: int| 0 <= k < off.state.sources.len() && k != i implies (
    #[trigger] off.state.sources[k]) == m.state.sources[k] by {}
}

/// No source of an id is left after it was removed, and every other still is
/// there.
pub proof fn a_removed_source_is_gone(ss: Seq<SourceModel>, id: Seq<char>, i: int, k: int)
    ensures
        0 <= i < sources_without(ss, id).len() ==> sources_without(ss, id)[i].id != id,
        0 <= k < ss.len() && ss[k].id != id ==> sources_without(ss, id).contains(ss[k]),
        sources_without(ss, id).len() <= ss.len(),
        0 <= k < ss.len() && ss[k].id == id ==> sources_without(ss, id).len() < ss.len(),
    decreases ss.len(),
{
    if ss.len() > 0 {
        let front = ss.drop_last();
        let kept = sources_without(front, id);
        let all = sources_without(ss, id);
        a_removed_source_is_gone(front, id, i, k);
        if 0 <= k < ss.len() && ss[k].id != id {
            if k < front.len() {
                assert(front[k] == ss[k]);
                let w = choose|w: int| 0 <= w < kept.len() && kept[w] == ss[k];
                assert(all[w] == ss[k]);
            } else {
                assert(all[kept.len() as int] == ss[k]);
            }
        }
    }
}

} // verus!
