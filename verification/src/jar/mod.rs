//! Persistent cookie jar.
//!
//! One file per `(registrable_domain, egress)` under the jar's directory. A
//! clearance cookie is bound to the exit address, so the egress is part of the
//! key. Entries are never deleted on staleness: a dead entry stays on disk so
//! that a dashboard can show it. Files are read and written by the caller.

use vstd::prelude::*;

use crate::text::{cat, cat3, chars_of, ends_with, is_before, precedes, string_of};

use crate::util::{join_path, path_join};

pub mod cookie;

pub use self::cookie::{Cookie, LocalStorageEntry, OriginState, StorageState};

use self::cookie::{
    copy_cookies, lemma_slot_of, merge_keeps_every_key, merge_stores_the_last_incoming, merged,
    slot_of, StateView,
};

verus! {

pub const SCHEMA_VERSION: u32 = 1;

/// Nanoseconds in a second.
pub const NANOS: i128 = 1_000_000_000;

/// The first and the last instant a timestamp can stand for, in nanoseconds
/// since the Unix epoch.
pub const FIRST_INSTANT: i128 = -8_334_601_228_800_000_000_000;

pub const LAST_INSTANT: i128 = 8_210_266_876_799_999_999_999;

/// The longest time span, in seconds.
pub const LONGEST_SPAN: i64 = 9_223_372_036_854_775;

/// One on-disk jar file. Instants are nanoseconds since the Unix epoch.
#[derive(Debug)]
pub struct JarEntry {
    pub schema_version: u32,
    pub domain: String,
    pub egress: String,
    pub storage_state: StorageState,
    pub user_agent: String,
    pub accept_language: String,
    pub created: i128,
    pub last_ok: Option<i128>,
    /// From the `Max-Age` of `cf_clearance`, else the configured default.
    pub ttl_hint_secs: u64,
    /// Consecutive attempts that came back 403 / challenge.
    pub fail_streak: u32,
}

/// What a jar entry stands for.
#[verifier::ext_equal]
pub struct EntryView {
    pub schema_version: u32,
    pub domain: Seq<char>,
    pub egress: Seq<char>,
    pub storage_state: StateView,
    pub user_agent: Seq<char>,
    pub accept_language: Seq<char>,
    pub created: i128,
    pub last_ok: Option<i128>,
    pub ttl_hint_secs: u64,
    pub fail_streak: u32,
}

impl View for JarEntry {
    type V = EntryView;

    open spec fn view(&self) -> EntryView {
        EntryView {
            schema_version: self.schema_version,
            domain: self.domain@,
            egress: self.egress@,
            storage_state: self.storage_state@,
            user_agent: self.user_agent@,
            accept_language: self.accept_language@,
            created: self.created,
            last_ok: self.last_ok,
            ttl_hint_secs: self.ttl_hint_secs,
            fail_streak: self.fail_streak,
        }
    }
}

impl DeepView for JarEntry {
    type V = EntryView;

    open spec fn deep_view(&self) -> EntryView {
        self@
    }
}

/// A number of seconds read as a signed 64-bit integer.
pub open spec fn as_span(secs: u64) -> int {
    if secs <= 0x7fff_ffff_ffff_ffff {
        secs as int
    } else {
        secs - 0x1_0000_0000_0000_0000
    }
}

pub open spec fn is_instant(t: int) -> bool {
    FIRST_INSTANT <= t <= LAST_INSTANT
}

impl EntryView {
    /// A new entry without cookies.
    pub open spec fn fresh(
        domain: Seq<char>,
        egress: Seq<char>,
        ttl_hint_secs: u64,
        now: i128,
    ) -> EntryView {
        EntryView {
            schema_version: SCHEMA_VERSION,
            domain,
            egress,
            storage_state: StateView { cookies: seq![], origins: seq![] },
            user_agent: seq![],
            accept_language: seq![],
            created: now,
            last_ok: None,
            ttl_hint_secs,
            fail_streak: 0,
        }
    }

    /// When the entry runs out: `created + ttl_hint_secs`.
    pub open spec fn expiry(self) -> int {
        self.created + as_span(self.ttl_hint_secs) * NANOS
    }

    /// Whether the entry's times are times.
    pub open spec fn datable(self) -> bool {
        &&& -LONGEST_SPAN <= as_span(self.ttl_hint_secs) <= LONGEST_SPAN
        &&& is_instant(self.created as int)
        &&& is_instant(self.expiry())
    }

    /// `now > created + ttl_hint_secs`, or the fail streak has hit the limit.
    pub open spec fn stale(self, limit: u32, now: i128) -> bool {
        now > self.expiry() || self.fail_streak >= limit
    }

    /// The entry after one more failure.
    pub open spec fn failed(self) -> EntryView {
        EntryView {
            fail_streak: if self.fail_streak == u32::MAX {
                u32::MAX
            } else {
                (self.fail_streak + 1) as u32
            },
            ..self
        }
    }

    /// The entry to store after a successful use, given what is stored now: the
    /// entry's cookies go on top of the stored ones, the stored user agent and
    /// language fill in for missing ones, and the streak starts over.
    pub open spec fn succeeded(self, current: Option<EntryView>, now: i128) -> EntryView {
        let base = match current {
            Some(c) => c.storage_state,
            None => StateView { cookies: seq![], origins: self.storage_state.origins },
        };
        EntryView {
            schema_version: if self.schema_version == 0 {
                SCHEMA_VERSION
            } else {
                self.schema_version
            },
            storage_state: StateView {
                cookies: merged(base.cookies, self.storage_state.cookies),
                origins: base.origins,
            },
            user_agent: match current {
                Some(c) => if self.user_agent.len() == 0 {
                    c.user_agent
                } else {
                    self.user_agent
                },
                None => self.user_agent,
            },
            accept_language: match current {
                Some(c) => if self.accept_language.len() == 0 {
                    c.accept_language
                } else {
                    self.accept_language
                },
                None => self.accept_language,
            },
            last_ok: Some(now),
            fail_streak: 0,
            ..self
        }
    }

    /// The row that lists this entry.
    pub open spec fn summary(self, limit: u32, now: i128) -> SummaryView {
        SummaryView {
            domain: self.domain,
            egress: self.egress,
            stale: self.stale(limit, now),
            created: self.created,
            expires_at: self.expiry() as i128,
            last_ok: self.last_ok,
            ttl_hint_secs: self.ttl_hint_secs,
            fail_streak: self.fail_streak,
            cookie_count: self.storage_state.cookies.len(),
        }
    }
}

impl JarEntry {
    pub fn new(domain: &str, egress: &str, ttl_hint_secs: u64, now: i128) -> (r: JarEntry)
        ensures
            r@ == EntryView::fresh(domain@, egress@, ttl_hint_secs, now),
    {
        let r = JarEntry {
            schema_version: SCHEMA_VERSION,
            domain: domain.to_owned(),
            egress: egress.to_owned(),
            storage_state: StorageState::default(),
            user_agent: String::new(),
            accept_language: String::new(),
            created: now,
            last_ok: None,
            ttl_hint_secs,
            fail_streak: 0,
        };
        assert(r.user_agent@ =~= seq![]);
        assert(r.accept_language@ =~= seq![]);
        r
    }

    /// A copy.
    pub fn copy(&self) -> (r: JarEntry)
        ensures
            r@ == self@,
    {
        JarEntry {
            schema_version: self.schema_version,
            domain: self.domain.clone(),
            egress: self.egress.clone(),
            storage_state: self.storage_state.copy(),
            user_agent: self.user_agent.clone(),
            accept_language: self.accept_language.clone(),
            created: self.created,
            last_ok: self.last_ok,
            ttl_hint_secs: self.ttl_hint_secs,
            fail_streak: self.fail_streak,
        }
    }

    /// `created + ttl_hint_secs`.
    pub fn expiry(&self) -> (r: i128)
        requires
            self@.datable(),
        ensures
            r == self@.expiry(),
    {
        let secs: i128 = if self.ttl_hint_secs <= 0x7fff_ffff_ffff_ffff {
            self.ttl_hint_secs as i128
        } else {
            self.ttl_hint_secs as i128 - 0x1_0000_0000_0000_0000
        };
        self.created + secs * NANOS
    }
}

/// Lightweight row for `GET /v1/jar`.
#[derive(Debug)]
pub struct JarSummary {
    pub domain: String,
    pub egress: String,
    pub stale: bool,
    pub created: i128,
    /// `created + ttl_hint_secs`.
    pub expires_at: i128,
    pub last_ok: Option<i128>,
    pub ttl_hint_secs: u64,
    pub fail_streak: u32,
    pub cookie_count: usize,
}

/// What a row stands for.
#[verifier::ext_equal]
pub struct SummaryView {
    pub domain: Seq<char>,
    pub egress: Seq<char>,
    pub stale: bool,
    pub created: i128,
    pub expires_at: i128,
    pub last_ok: Option<i128>,
    pub ttl_hint_secs: u64,
    pub fail_streak: u32,
    pub cookie_count: nat,
}

impl View for JarSummary {
    type V = SummaryView;

    open spec fn view(&self) -> SummaryView {
        SummaryView {
            domain: self.domain@,
            egress: self.egress@,
            stale: self.stale,
            created: self.created,
            expires_at: self.expires_at,
            last_ok: self.last_ok,
            ttl_hint_secs: self.ttl_hint_secs,
            fail_streak: self.fail_streak,
            cookie_count: self.cookie_count as nat,
        }
    }
}

impl DeepView for JarSummary {
    type V = SummaryView;

    open spec fn deep_view(&self) -> SummaryView {
        self@
    }
}

/// Whether a row is listed strictly before another: by domain, then by egress.
pub open spec fn row_before(a: SummaryView, b: SummaryView) -> bool {
    precedes(a.domain, b.domain) || (a.domain == b.domain && precedes(a.egress, b.egress))
}

/// Where a row goes in a list: behind all that are not after it.
pub open spec fn row_place(rows: Seq<SummaryView>, row: SummaryView) -> int
    decreases rows.len(),
{
    if rows.len() == 0 || !row_before(row, rows.last()) {
        rows.len() as int
    } else {
        row_place(rows.drop_last(), row)
    }
}

/// Rows in listing order; rows that tie keep their order.
pub open spec fn listed(rows: Seq<SummaryView>) -> Seq<SummaryView>
    decreases rows.len(),
{
    if rows.len() == 0 {
        seq![]
    } else {
        let front = listed(rows.drop_last());
        front.insert(row_place(front, rows.last()), rows.last())
    }
}

/// The rows of a list of entries.
pub open spec fn summaries_of(es: Seq<EntryView>, limit: u32, now: i128) -> Seq<SummaryView> {
    es.map_values(|e: EntryView| e.summary(limit, now))
}

fn row_goes_before(a: &JarSummary, b: &JarSummary) -> (r: bool)
    ensures
        r == row_before(a@, b@),
{
    if is_before(a.domain.as_str(), b.domain.as_str()) {
        true
    } else if is_before(b.domain.as_str(), a.domain.as_str()) {
        proof {
            crate::text::lemma_precedes_irreflexive(a.domain@);
        }
        false
    } else {
        proof {
            crate::text::lemma_precedes_total(a.domain@, b.domain@);
        }
        is_before(a.egress.as_str(), b.egress.as_str())
    }
}

fn insert_row(rows: &mut Vec<JarSummary>, row: JarSummary)
    ensures
        final(rows).deep_view() == old(rows).deep_view().insert(
            row_place(old(rows).deep_view(), row@),
            row@,
        ),
{
    let ghost all = rows.deep_view();
    let mut i: usize = rows.len();
    assert(all.take(i as int) =~= all);
    while i > 0 && row_goes_before(&row, &rows[i - 1])
        invariant
            i <= rows@.len(),
            all == rows.deep_view(),
            row_place(all.take(i as int), row@) == row_place(all, row@),
        decreases i,
    {
        assert(all.take(i as int).drop_last() =~= all.take(i - 1));
        assert(all.take(i as int).last() == rows@[i - 1]@);
        i = i - 1;
    }
    assert(i > 0 ==> all.take(i as int).last() == rows@[i - 1]@);
    let ghost rv = row@;
    rows.insert(i, row);
    assert(rows.deep_view() =~= all.insert(i as int, rv));
}

pub open spec fn kept_char(c: char) -> bool {
    ('a' <= c && c <= 'z') || ('A' <= c && c <= 'Z') || ('0' <= c && c <= '9') || c == '.' || c
        == '-' || c == '_'
}

/// A string with everything but letters, digits, `.`, `-` and `_` replaced.
pub open spec fn sanitized(s: Seq<char>) -> Seq<char> {
    s.map_values(
        |c: char|
            if kept_char(c) {
                c
            } else {
                '-'
            },
    )
}

/// The only barrier between a hostile domain or egress key and the file system.
pub fn sanitize(s: &str) -> (r: String)
    ensures
        r@ == sanitized(s@),
{
    let cs = chars_of(s);
    let mut out: Vec<char> = Vec::new();
    for i in 0..cs.len()
        invariant
            cs@ == s@,
            out@ =~= sanitized(s@).take(i as int),
    {
        let c = cs[i];
        let keep = ('a' <= c && c <= 'z') || ('A' <= c && c <= 'Z') || ('0' <= c && c <= '9') || c
            == '.' || c == '-' || c == '_';
        out.push(
            if keep {
                c
            } else {
                '-'
            },
        );
    }
    assert(out@ =~= sanitized(s@));
    string_of(&out)
}

/// The name of the file that holds an entry.
pub open spec fn file_name(domain: Seq<char>, egress_key: Seq<char>) -> Seq<char> {
    sanitized(domain) + "__"@ + sanitized(egress_key) + ".json"@
}

/// Whether a file in the jar's directory holds an entry.
pub fn is_jar_file(name: &str) -> (r: bool)
    ensures
        r == (".json"@.is_suffix_of(name@) && name@.len() > 5),
{
    ends_with(name, ".json") && name.unicode_len() > 5
}

/// How many of these files hold an entry.
pub open spec fn jar_files(names: Seq<Seq<char>>) -> nat
    decreases names.len(),
{
    if names.len() == 0 {
        0
    } else if ".json"@.is_suffix_of(names.last()) && names.last().len() > 5 {
        jar_files(names.drop_last()) + 1
    } else {
        jar_files(names.drop_last())
    }
}

/// How many of these files hold an entry.
pub fn count(names: &Vec<String>) -> (r: usize)
    ensures
        r == jar_files(names.deep_view()),
        r <= names@.len(),
{
    let ghost all = names.deep_view();
    let mut n: usize = 0;
    for i in 0..names.len()
        invariant
            all == names.deep_view(),
            n == jar_files(all.take(i as int)),
            n <= i,
    {
        assert(all.take(i + 1).drop_last() =~= all.take(i as int));
        assert(all.take(i + 1).last() == names@[i as int]@);
        if is_jar_file(names[i].as_str()) {
            n = n + 1;
        }
    }
    assert(all.take(names@.len() as int) =~= all);
    n
}

/// The jar's settings.
pub struct Jar {
    root: String,
    default_ttl_secs: u64,
    fail_streak_limit: u32,
}

impl Jar {
    pub closed spec fn root(&self) -> Seq<char> {
        self.root@
    }

    pub closed spec fn ttl(&self) -> u64 {
        self.default_ttl_secs
    }

    pub closed spec fn limit(&self) -> u32 {
        self.fail_streak_limit
    }

    pub fn new(root: &str, default_ttl_secs: u64, fail_streak_limit: u32) -> (r: Jar)
        ensures
            r.root() == root@,
            r.ttl() == default_ttl_secs,
            r.limit() == if fail_streak_limit == 0 {
                1
            } else {
                fail_streak_limit
            },
    {
        Jar {
            root: root.to_owned(),
            default_ttl_secs,
            fail_streak_limit: if fail_streak_limit == 0 {
                1
            } else {
                fail_streak_limit
            },
        }
    }

    /// Seconds a new entry lives for when no cookie says otherwise.
    pub fn default_ttl(&self) -> (r: u64)
        ensures
            r == self.ttl(),
    {
        self.default_ttl_secs
    }

    pub fn set_default_ttl_secs(&mut self, secs: u64)
        ensures
            final(self).ttl() == secs,
            final(self).limit() == old(self).limit(),
            final(self).root() == old(self).root(),
    {
        self.default_ttl_secs = secs;
    }

    pub fn set_fail_streak(&mut self, limit: u32)
        ensures
            final(self).limit() == if limit == 0 {
                1
            } else {
                limit
            },
            final(self).ttl() == old(self).ttl(),
            final(self).root() == old(self).root(),
    {
        self.fail_streak_limit = if limit == 0 {
            1
        } else {
            limit
        };
    }

    /// The path of the file that holds an entry.
    pub fn file_for(&self, domain: &str, egress_key: &str) -> (r: String)
        ensures
            r@ == path_join(self.root(), file_name(domain@, egress_key@)),
    {
        let safe_domain = sanitize(domain);
        let safe_egress = sanitize(egress_key);
        let name = cat3(safe_domain.as_str(), "__", safe_egress.as_str());
        join_path(self.root.as_str(), cat(name.as_str(), ".json").as_str())
    }

    /// `now > created + ttl_hint_secs`, or the fail streak has hit the limit.
    pub fn is_stale(&self, entry: &JarEntry, now: i128) -> (r: bool)
        requires
            entry@.datable(),
        ensures
            r == entry@.stale(self.limit(), now),
    {
        now > entry.expiry() || entry.fail_streak >= self.fail_streak_limit
    }

    /// The loaded entry if it is not stale: what seeds the tiers.
    pub fn get_fresh(&self, loaded: Option<JarEntry>, now: i128) -> (r: Option<JarEntry>)
        requires
            loaded matches Some(e) ==> e@.datable(),
        ensures
            r.deep_view() == fresh_of(loaded.deep_view(), self.limit(), now),
    {
        match loaded {
            Some(e) => if self.is_stale(&e, now) {
                None
            } else {
                Some(e)
            },
            None => None,
        }
    }

    /// Bump the failure streak of the stored entry; without one nothing is
    /// stored.
    pub fn note_failure(&self, stored: Option<JarEntry>) -> (r: Option<JarEntry>)
        ensures
            r.deep_view() == match stored.deep_view() {
                Some(e) => Some(e.failed()),
                None => None,
            },
    {
        match stored {
            Some(e) => {
                let mut e = e;
                if e.fail_streak < u32::MAX {
                    e.fail_streak = e.fail_streak + 1;
                }
                Some(e)
            },
            None => None,
        }
    }

    /// Record a successful use: what to store.
    ///
    /// `entry` is normally built from a seed that was read before a tier ran,
    /// and `current` is read when it is written back. The caller's cookies go
    /// on top of what is stored now, so that of two writers neither loses what
    /// the other one stored.
    pub fn note_success(&self, entry: JarEntry, current: Option<JarEntry>, now: i128) -> (r:
        JarEntry)
        ensures
            r@ == entry@.succeeded(current.deep_view(), now),
    {
        let ghost given = entry@;
        let ghost stored = current.deep_view();
        let mut entry = entry;
        let incoming = copy_cookies(&entry.storage_state.cookies);
        match current {
            Some(c) => {
                entry.storage_state = c.storage_state;
                if entry.user_agent.as_str().unicode_len() == 0 {
                    entry.user_agent = c.user_agent;
                }
                if entry.accept_language.as_str().unicode_len() == 0 {
                    entry.accept_language = c.accept_language;
                }
            },
            None => {
                entry.storage_state.cookies = Vec::new();
                assert(entry.storage_state@.cookies =~= seq![]);
            },
        }
        entry.storage_state.merge_from(incoming);
        entry.fail_streak = 0;
        entry.last_ok = Some(now);
        if entry.schema_version == 0 {
            entry.schema_version = SCHEMA_VERSION;
        }
        assert(entry@ =~= given.succeeded(stored, now));
        entry
    }

    fn summarise(&self, e: &JarEntry, now: i128) -> (r: JarSummary)
        requires
            e@.datable(),
        ensures
            r@ == e@.summary(self.limit(), now),
    {
        JarSummary {
            stale: self.is_stale(e, now),
            created: e.created,
            expires_at: e.expiry(),
            domain: e.domain.clone(),
            egress: e.egress.clone(),
            last_ok: e.last_ok,
            ttl_hint_secs: e.ttl_hint_secs,
            fail_streak: e.fail_streak,
            cookie_count: e.storage_state.cookies.len(),
        }
    }

    /// The rows of the entries that were read, by domain, then by egress.
    pub fn list(&self, entries: &Vec<JarEntry>, now: i128) -> (r: Vec<JarSummary>)
        requires
            forall|i: int| 0 <= i < entries@.len() ==> (#[trigger] entries@[i])@.datable(),
        ensures
            r.deep_view() == listed(summaries_of(entries.deep_view(), self.limit(), now)),
    {
        let ghost rows = summaries_of(entries.deep_view(), self.limit(), now);
        let mut out: Vec<JarSummary> = Vec::new();
        assert(out.deep_view() =~= seq![]);
        for i in 0..entries.len()
            invariant
                forall|i: int| 0 <= i < entries@.len() ==> (#[trigger] entries@[i])@.datable(),
                rows == summaries_of(entries.deep_view(), self.limit(), now),
                out.deep_view() == listed(rows.take(i as int)),
        {
            assert(rows.take(i + 1).drop_last() =~= rows.take(i as int));
            assert(rows.take(i + 1).last() == entries@[i as int]@.summary(self.limit(), now));
            insert_row(&mut out, self.summarise(&entries[i], now));
        }
        assert(rows.take(entries@.len() as int) =~= rows);
        out
    }
}

/// A loaded entry, unless it is stale.
pub open spec fn fresh_of(loaded: Option<EntryView>, limit: u32, now: i128) -> Option<EntryView> {
    match loaded {
        Some(e) => if e.stale(limit, now) {
            None
        } else {
            Some(e)
        },
        None => None,
    }
}

// ---------------------------------------------------------------------------
// Laws
// ---------------------------------------------------------------------------

/// No file name leads out of the jar's directory: it holds no separator and is
/// neither `.` nor `..`.
pub proof fn file_names_stay_in_the_jar(domain: Seq<char>, egress_key: Seq<char>)
    ensures
        !file_name(domain, egress_key).contains('/'),
        !file_name(domain, egress_key).contains('\\'),
        !file_name(domain, egress_key).contains('\0'),
        file_name(domain, egress_key).len() >= 7,
        ".json"@.is_suffix_of(file_name(domain, egress_key)),
{
    reveal_strlit("__");
    reveal_strlit(".json");
    let f = file_name(domain, egress_key);
    assert(f.subrange(f.len() - 5, f.len() as int) =~= ".json"@);
    assert forall|i: int| 0 <= i < f.len() implies kept_char(#[trigger] f[i]) by {
        let a = sanitized(domain);
        let b = sanitized(egress_key);
        if i < a.len() {
            assert(f[i] == a[i]);
        } else if i < a.len() + 2 {
            assert(f[i] == "__"@[i - a.len()]);
        } else if i < a.len() + 2 + b.len() {
            assert(f[i] == b[i - a.len() - 2]);
        } else {
            assert(f[i] == ".json"@[i - a.len() - 2 - b.len()]);
        }
    }
}

/// The egress is part of an entry's file: entries of one domain share a file only
/// where their keys are sanitised to the same, and so do those of one egress.
pub proof fn egresses_have_files_of_their_own(
    domain: Seq<char>,
    key: Seq<char>,
    other_domain: Seq<char>,
    other_key: Seq<char>,
)
    ensures
        file_name(domain, key) == file_name(domain, other_key) ==> sanitized(key) == sanitized(
            other_key,
        ),
        file_name(domain, key) == file_name(other_domain, key) ==> sanitized(domain) == sanitized(
            other_domain,
        ),
{
    reveal_strlit("__");
    reveal_strlit(".json");
    let d = sanitized(domain);
    let e = sanitized(other_domain);
    let k = sanitized(key);
    let l = sanitized(other_key);
    if file_name(domain, key) == file_name(domain, other_key) {
        let f = file_name(domain, key);
        assert(f.len() == d.len() + 7 + k.len());
        assert(f.len() == d.len() + 7 + l.len());
        assert(f.subrange(d.len() as int + 2, f.len() - 5) =~= k);
        assert(f.subrange(d.len() as int + 2, f.len() - 5) =~= l);
    }
    if file_name(domain, key) == file_name(other_domain, key) {
        let f = file_name(domain, key);
        assert(f.len() == d.len() + 7 + k.len());
        assert(f.len() == e.len() + 7 + k.len());
        assert(f.subrange(0, d.len() as int) =~= d);
        assert(f.subrange(0, d.len() as int) =~= e);
    }
}

/// Sanitising twice is sanitising once.
pub proof fn sanitising_is_idempotent(s: Seq<char>)
    ensures
        sanitized(sanitized(s)) == sanitized(s),
{
    assert(sanitized(sanitized(s)) =~= sanitized(s));
}

/// Two writers that started from the same seed lose neither's cookies: whatever
/// the first one stored is still there, under its key, after the second one.
pub proof fn concurrent_success_loses_no_cookie(
    a: EntryView,
    b: EntryView,
    current: Option<EntryView>,
    t1: i128,
    t2: i128,
    i: int,
)
    requires
        0 <= i < a.succeeded(current, t1).storage_state.cookies.len(),
    ensures
        ({
            let first = a.succeeded(current, t1);
            let second = b.succeeded(Some(first), t2);
            &&& i < second.storage_state.cookies.len()
            &&& second.storage_state.cookies[i].same_key(first.storage_state.cookies[i])
            &&& second.storage_state.cookies[i] == first.storage_state.cookies[i]
                || b.storage_state.cookies.contains(second.storage_state.cookies[i])
        }),
{
    merge_keeps_every_key(
        a.succeeded(current, t1).storage_state.cookies,
        b.storage_state.cookies,
        i,
    );
}

/// A success ends a failure streak, and a failure never does.
pub proof fn success_resets_the_streak(e: EntryView, current: Option<EntryView>, now: i128)
    ensures
        e.succeeded(current, now).fail_streak == 0,
        e.succeeded(current, now).last_ok == Some(now),
        e.failed().fail_streak > 0,
        e.failed().fail_streak >= e.fail_streak,
{
}

/// An entry with a full failure streak is never handed out, however young.
pub proof fn failing_entries_are_not_fresh(e: EntryView, limit: u32, now: i128)
    requires
        e.fail_streak >= limit,
    ensures
        fresh_of(Some(e), limit, now) is None,
{
}

/// Rows are listed in order, and every row once.
pub proof fn listing_is_in_order(rows: Seq<SummaryView>)
    ensures
        forall|i: int, j: int|
            0 <= i < j < listed(rows).len() ==> !row_before(
                #[trigger] listed(rows)[j],
                #[trigger] listed(rows)[i],
            ),
        listed(rows).to_multiset() =~= rows.to_multiset(),
    decreases rows.len(),
{
    broadcast use vstd::seq_lib::group_to_multiset_ensures;

    if rows.len() > 0 {
        let front = listed(rows.drop_last());
        let row = rows.last();
        listing_is_in_order(rows.drop_last());
        lemma_row_place(front, row);
        let p = row_place(front, row);
        let all = front.insert(p, row);
        assert forall|i: int, j: int| 0 <= i < j < all.len() implies !row_before(
            #[trigger] all[j],
            #[trigger] all[i],
        ) by {
            let fi = if i < p { i } else { i - 1 };
            let fj = if j < p { j } else { j - 1 };
            if i != p && j != p {
                assert(all[i] == front[fi] && all[j] == front[fj]);
            } else if j == p {
                assert(all[i] == front[i]);
            } else {
                assert(all[j] == front[j - 1]);
            }
        }
        assert(rows =~= rows.drop_last().push(row));
        assert(rows.to_multiset() =~= rows.drop_last().to_multiset().insert(row));
        assert(all.to_multiset() =~= front.to_multiset().insert(row));
    }
}

proof fn lemma_row_irreflexive(a: SummaryView, b: SummaryView)
    ensures
        !(row_before(a, b) && row_before(b, a)),
{
    crate::text::lemma_precedes_irreflexive(a.domain);
    crate::text::lemma_precedes_irreflexive(a.egress);
    if precedes(a.domain, b.domain) && precedes(b.domain, a.domain) {
        crate::text::lemma_precedes_transitive(a.domain, b.domain, a.domain);
    }
    if precedes(a.egress, b.egress) && precedes(b.egress, a.egress) {
        crate::text::lemma_precedes_transitive(a.egress, b.egress, a.egress);
    }
}

proof fn lemma_row_not_before_transitive(a: SummaryView, b: SummaryView, c: SummaryView)
    requires
        !row_before(b, a),
        !row_before(c, b),
    ensures
        !row_before(c, a),
{
    crate::text::lemma_precedes_total(a.domain, b.domain);
    crate::text::lemma_precedes_total(b.domain, c.domain);
    crate::text::lemma_precedes_total(a.egress, b.egress);
    crate::text::lemma_precedes_total(b.egress, c.egress);
    if row_before(c, a) {
        lemma_row_irreflexive(a, c);
        if precedes(a.domain, b.domain) && precedes(b.domain, c.domain) {
            crate::text::lemma_precedes_transitive(a.domain, b.domain, c.domain);
        }
        if precedes(a.egress, b.egress) && precedes(b.egress, c.egress) {
            crate::text::lemma_precedes_transitive(a.egress, b.egress, c.egress);
        }
    }
}

proof fn lemma_row_place(rows: Seq<SummaryView>, row: SummaryView)
    requires
        forall|i: int, j: int|
            0 <= i < j < rows.len() ==> !row_before(#[trigger] rows[j], #[trigger] rows[i]),
    ensures
        0 <= row_place(rows, row) <= rows.len(),
        forall|i: int| 0 <= i < row_place(rows, row) ==> !row_before(row, #[trigger] rows[i]),
        forall|i: int|
            row_place(rows, row) <= i < rows.len() ==> !row_before(#[trigger] rows[i], row),
    decreases rows.len(),
{
    if rows.len() > 0 {
        let front = rows.drop_last();
        if row_before(row, rows.last()) {
            assert forall|i: int, j: int| 0 <= i < j < front.len() implies !row_before(
                #[trigger] front[j],
                #[trigger] front[i],
            ) by {
                assert(front[j] == rows[j] && front[i] == rows[i]);
            }
            lemma_row_place(front, row);
            lemma_row_irreflexive(row, rows.last());
            assert forall|i: int| 0 <= i < row_place(rows, row) implies !row_before(
                row,
                #[trigger] rows[i],
            ) by {
                assert(rows[i] == front[i]);
            }
            assert forall|i: int| row_place(rows, row) <= i < rows.len() implies !row_before(
                #[trigger] rows[i],
                row,
            ) by {
                if i < front.len() {
                    assert(rows[i] == front[i]);
                }
            }
        } else {
            assert forall|i: int| 0 <= i < rows.len() implies !row_before(row, #[trigger] rows[i]) by {
                if i < rows.len() - 1 {
                    assert(!row_before(rows[rows.len() - 1], rows[i]));
                    lemma_row_not_before_transitive(rows[i], rows.last(), row);
                }
            }
        }
    }
}

/// Every entry is found again: the file it is stored in counts as a jar file.
pub proof fn stored_entries_are_counted(domain: Seq<char>, egress_key: Seq<char>)
    ensures
        ".json"@.is_suffix_of(file_name(domain, egress_key)),
        file_name(domain, egress_key).len() > 5,
{
    reveal_strlit(".json");
    reveal_strlit("__");
    let f = file_name(domain, egress_key);
    assert(f.subrange(f.len() - 5, f.len() as int) =~= ".json"@);
}

/// An entry is handed out as it is while its time lasts and its failures are under
/// the limit, and not at all after either.
pub proof fn an_entry_lasts_its_time(e: EntryView, limit: u32, now: i128)
    requires
        e.ttl_hint_secs <= i64::MAX,
    ensures
        now <= e.created + e.ttl_hint_secs * 1_000_000_000 && e.fail_streak < limit ==> fresh_of(
            Some(e),
            limit,
            now,
        ) == Some(e),
        now > e.created + e.ttl_hint_secs * 1_000_000_000 ==> fresh_of(Some(e), limit, now) is None,
        e.fail_streak >= limit ==> fresh_of(Some(e), limit, now) is None,
        fresh_of(None, limit, now) is None,
{
}

/// A success stores every cookie of the entry that comes last under its key, on
/// top of a cookie under every key that is stored.
pub proof fn a_success_stores_every_cookie(e: EntryView, current: Option<EntryView>, now: i128)
    ensures
        ({
            let all = e.succeeded(current, now).storage_state.cookies;
            let inc = e.storage_state.cookies;
            &&& forall|j: int|
                0 <= j < inc.len() && (forall|k: int|
                    j < k < inc.len() ==> !(#[trigger] inc[k]).same_key(inc[j])) ==> all.contains(
                    #[trigger] inc[j],
                )
            &&& current matches Some(c) ==> {
                &&& c.storage_state.cookies.len() <= all.len()
                &&& forall|i: int|
                    0 <= i < c.storage_state.cookies.len() ==> all[i].same_key(
                        #[trigger] c.storage_state.cookies[i],
                    )
            }
        }),
{
    let base = match current {
        Some(c) => c.storage_state.cookies,
        None => seq![],
    };
    let inc = e.storage_state.cookies;
    let all = merged(base, inc);
    assert(e.succeeded(current, now).storage_state.cookies == all);
    assert forall|j: int|
        0 <= j < inc.len() && (forall|k: int|
            j < k < inc.len() ==> !(#[trigger] inc[k]).same_key(inc[j])) implies all.contains(
        #[trigger] inc[j],
    ) by {
        merge_stores_the_last_incoming(base, inc, j);
        lemma_slot_of(all, inc[j]);
        assert(all[slot_of(all, inc[j])->Some_0] == inc[j]);
    }
    if base.len() > 0 {
        merge_keeps_every_key(base, inc, base.len() - 1);
    }
    assert forall|i: int| 0 <= i < base.len() implies all[i].same_key(#[trigger] base[i]) by {
        merge_keeps_every_key(base, inc, i);
    }
}

/// A success keeps what the entry says of itself; the stored user agent and
/// language stand in where it says nothing.
pub proof fn a_success_keeps_the_entry(e: EntryView, c: EntryView, now: i128)
    ensures
        ({
            let r = e.succeeded(Some(c), now);
            let s = e.succeeded(None, now);
            &&& r.domain == e.domain && r.egress == e.egress && r.created == e.created
                && r.ttl_hint_secs == e.ttl_hint_secs
            &&& s.domain == e.domain && s.egress == e.egress && s.created == e.created
                && s.ttl_hint_secs == e.ttl_hint_secs
            &&& e.user_agent.len() > 0 ==> r.user_agent == e.user_agent
            &&& e.user_agent.len() == 0 ==> r.user_agent == c.user_agent
            &&& e.accept_language.len() > 0 ==> r.accept_language == e.accept_language
            &&& e.accept_language.len() == 0 ==> r.accept_language == c.accept_language
            &&& s.user_agent == e.user_agent
            &&& s.accept_language == e.accept_language
            &&& r.storage_state.origins == c.storage_state.origins
            &&& s.storage_state.origins == e.storage_state.origins
            &&& r.last_ok == Some(now)
        }),
{
}

/// A failure adds one to the streak and changes nothing else; a streak that goes
/// on reaches any limit.
pub proof fn a_failure_counts(e: EntryView)
    ensures
        e.fail_streak < u32::MAX ==> e.failed().fail_streak == e.fail_streak + 1,
        e.failed().storage_state == e.storage_state,
        e.failed().user_agent == e.user_agent,
        e.failed().accept_language == e.accept_language,
        e.failed().created == e.created,
        e.failed().ttl_hint_secs == e.ttl_hint_secs,
        e.failed().last_ok == e.last_ok,
        e.failed().domain == e.domain,
        e.failed().egress == e.egress,
{
}

/// Every entry has a row that says what it holds and whether it would be handed
/// out.
pub proof fn every_entry_has_a_row(es: Seq<EntryView>, limit: u32, now: i128, i: int)
    requires
        0 <= i < es.len(),
    ensures
        ({
            let rows = summaries_of(es, limit, now);
            &&& rows.len() == es.len()
            &&& rows[i].domain == es[i].domain
            &&& rows[i].egress == es[i].egress
            &&& rows[i].created == es[i].created
            &&& rows[i].last_ok == es[i].last_ok
            &&& rows[i].fail_streak == es[i].fail_streak
            &&& rows[i].ttl_hint_secs == es[i].ttl_hint_secs
            &&& rows[i].cookie_count == es[i].storage_state.cookies.len()
            &&& rows[i].stale <==> fresh_of(Some(es[i]), limit, now) is None
            &&& listed(rows).contains(rows[i])
        }),
{
    broadcast use vstd::seq_lib::group_to_multiset_ensures;

    let rows = summaries_of(es, limit, now);
    listing_is_in_order(rows);
    assert(rows.contains(rows[i]));
    assert(rows.to_multiset().count(rows[i]) > 0);
    assert(listed(rows).to_multiset().count(rows[i]) > 0);
}

/// Rows are listed by domain, and those of one domain by egress.
pub proof fn rows_are_listed_by_domain_and_egress(rows: Seq<SummaryView>, i: int, j: int)
    requires
        0 <= i < j < listed(rows).len(),
    ensures
        listed(rows).len() == rows.len(),
        !precedes(listed(rows)[j].domain, listed(rows)[i].domain),
        listed(rows)[i].domain == listed(rows)[j].domain ==> !precedes(
            listed(rows)[j].egress,
            listed(rows)[i].egress,
        ),
{
    broadcast use vstd::seq_lib::group_to_multiset_ensures;

    listing_is_in_order(rows);
    assert(!row_before(listed(rows)[j], listed(rows)[i]));
    assert(listed(rows).to_multiset().len() == rows.to_multiset().len());
}

/// A file is named after its entry: letters, digits, dots, dashes and underscores
/// stay as they are, and every other character is a dash.
pub proof fn files_are_named_after_their_entry(domain: Seq<char>, key: Seq<char>, i: int)
    ensures
        file_name(domain, key).len() == domain.len() + key.len() + 7,
        0 <= i < domain.len() && ('a' <= domain[i] && domain[i] <= 'z' || 'A' <= domain[i]
            && domain[i] <= 'Z' || '0' <= domain[i] && domain[i] <= '9' || domain[i] == '.'
            || domain[i] == '-' || domain[i] == '_') ==> file_name(domain, key)[i] == domain[i],
        0 <= i < key.len() && ('a' <= key[i] && key[i] <= 'z' || 'A' <= key[i] && key[i] <= 'Z'
            || '0' <= key[i] && key[i] <= '9' || key[i] == '.' || key[i] == '-' || key[i] == '_')
            ==> file_name(domain, key)[domain.len() + 2 + i] == key[i],
        0 <= i < domain.len() && !('a' <= domain[i] && domain[i] <= 'z' || 'A' <= domain[i]
            && domain[i] <= 'Z' || '0' <= domain[i] && domain[i] <= '9' || domain[i] == '.'
            || domain[i] == '-' || domain[i] == '_') ==> file_name(domain, key)[i] == '-',
{
    reveal_strlit("__");
    reveal_strlit(".json");
    let f = file_name(domain, key);
    if 0 <= i < domain.len() {
        assert(f[i] == sanitized(domain)[i]);
    }
    if 0 <= i < key.len() {
        assert(f[domain.len() + 2 + i] == sanitized(key)[i]);
    }
}

/// Every jar file counts once, and no other file.
pub proof fn every_jar_file_is_counted(names: Seq<Seq<char>>, stem: Seq<char>, other: Seq<char>)
    requires
        stem.len() > 0,
        !(other.len() > 5 && other.skip(other.len() - 5) == ".json"@),
    ensures
        jar_files(seq![]) == 0,
        jar_files(names.push(stem + ".json"@)) == jar_files(names) + 1,
        jar_files(names.push(other)) == jar_files(names),
{
    reveal_strlit(".json");
    let name = stem + ".json"@;
    assert(name.subrange(name.len() - 5, name.len() as int) =~= ".json"@);
    assert(names.push(name).drop_last() =~= names);
    assert(names.push(other).drop_last() =~= names);
    if ".json"@.is_suffix_of(other) && other.len() > 5 {
        assert(other.skip(other.len() - 5) =~= ".json"@);
    }
}

} // verus!
