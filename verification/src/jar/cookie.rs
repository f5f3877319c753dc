//! Cookie and storage-state types.
//!
//! [`Cookie`] follows the DevTools `Network.Cookie` shape, with its expiry in
//! whole microseconds. [`StorageState`] is Playwright's `storageState` shape:
//! only `cookies` is ever written.

use vstd::prelude::*;

use crate::text::{
    cat, cat3, dec_i64, decimals_stand_for_their_number, drop_leading, ends_with, has, join,
    joined, joining_adds_a_part, joining_keeps_every_part, leading_runs_are_dropped,
    lemma_lower_of_upper, lower, lower_char, only, parsed_i64, pieces, pieces_end_at_separators,
    same, signed_dec, starts_with, to_lower, trim_start_char, upper, written_numbers_are_read_back,
};
use crate::weburl::copy_opt;

verus! {

/// DevTools `Network.Cookie`.
#[derive(Debug)]
pub struct Cookie {
    pub name: String,
    pub value: String,
    pub domain: String,
    pub path: String,
    /// Microseconds since the Unix epoch. Negative = session cookie.
    pub expires: i128,
    pub http_only: bool,
    pub secure: bool,
    pub same_site: Option<String>,
}

/// What a cookie stands for.
#[verifier::ext_equal]
pub struct CookieView {
    pub name: Seq<char>,
    pub value: Seq<char>,
    pub domain: Seq<char>,
    pub path: Seq<char>,
    pub expires: i128,
    pub http_only: bool,
    pub secure: bool,
    pub same_site: Option<Seq<char>>,
}

impl View for Cookie {
    type V = CookieView;

    open spec fn view(&self) -> CookieView {
        CookieView {
            name: self.name@,
            value: self.value@,
            domain: self.domain@,
            path: self.path@,
            expires: self.expires,
            http_only: self.http_only,
            secure: self.secure,
            same_site: self.same_site.deep_view(),
        }
    }
}

impl DeepView for Cookie {
    type V = CookieView;

    open spec fn deep_view(&self) -> CookieView {
        self@
    }
}

pub const MICROS_PER_SEC: i128 = 1_000_000;

impl CookieView {
    /// A session cookie for the whole domain.
    pub open spec fn plain(name: Seq<char>, value: Seq<char>, domain: Seq<char>) -> CookieView {
        CookieView {
            name,
            value,
            domain,
            path: "/"@,
            expires: (-1_000_000) as i128,
            http_only: false,
            secure: false,
            same_site: None,
        }
    }

    /// Session cookie, or expiry strictly in the future.
    pub open spec fn live(self, now: i128) -> bool {
        self.expires < 0 || self.expires > now
    }

    /// One `name=value` pair for a `Cookie:` request header.
    pub open spec fn pair(self) -> Seq<char> {
        self.name + "="@ + self.value
    }

    /// Whether two cookies are stored under the same key.
    pub open spec fn same_key(self, other: CookieView) -> bool {
        self.name == other.name && self.domain == other.domain && self.path == other.path
    }

    /// The expiry in whole seconds that fit a signed 64-bit integer; a session
    /// cookie has none.
    pub open spec fn expiry_secs(self) -> int {
        if self.expires < 0 {
            0
        } else if self.expires as int / 1_000_000 > i64::MAX {
            i64::MAX as int
        } else {
            self.expires as int / 1_000_000
        }
    }

    /// One line of a Netscape `cookies.txt`.
    pub open spec fn netscape_line(self) -> Seq<char> {
        let domain = if "."@.is_prefix_of(self.domain) {
            self.domain
        } else {
            "."@ + self.domain
        };
        let line = domain + "\tTRUE\t"@ + self.path + "\t"@ + (if self.secure {
            "TRUE"@
        } else {
            "FALSE"@
        }) + "\t"@ + signed_dec(
            self.expiry_secs(),
        ) + "\t"@ + self.name + "\t"@ + self.value;
        if self.http_only {
            "#HttpOnly_"@ + line
        } else {
            line
        }
    }
}

impl Cookie {
    pub fn new(name: &str, value: &str, domain: &str) -> (r: Cookie)
        ensures
            r@ == CookieView::plain(name@, value@, domain@),
    {
        Cookie {
            name: name.to_owned(),
            value: value.to_owned(),
            domain: domain.to_owned(),
            path: "/".to_owned(),
            expires: -1_000_000,
            http_only: false,
            secure: false,
            same_site: None,
        }
    }

    /// A copy.
    pub fn copy(&self) -> (r: Cookie)
        ensures
            r@ == self@,
    {
        Cookie {
            name: self.name.clone(),
            value: self.value.clone(),
            domain: self.domain.clone(),
            path: self.path.clone(),
            expires: self.expires,
            http_only: self.http_only,
            secure: self.secure,
            same_site: copy_opt(&self.same_site),
        }
    }

    /// Session cookie, or expiry strictly in the future relative to `now`
    /// (microseconds since the epoch).
    pub fn is_live(&self, now: i128) -> (r: bool)
        ensures
            r == self@.live(now),
    {
        self.expires < 0 || self.expires > now
    }

    /// One `name=value` pair for a `Cookie:` request header.
    pub fn header_pair(&self) -> (r: String)
        ensures
            r@ == self@.pair(),
    {
        cat3(self.name.as_str(), "=", self.value.as_str())
    }

    fn has_key_of(&self, other: &Cookie) -> (r: bool)
        ensures
            r == self@.same_key(other@),
    {
        same(self.name.as_str(), other.name.as_str()) && same(
            self.domain.as_str(),
            other.domain.as_str(),
        ) && same(self.path.as_str(), other.path.as_str())
    }

    /// One line of a Netscape `cookies.txt` (what `yt-dlp --cookies` wants).
    /// Format: `domain \t include_subdomains \t path \t secure \t expiry \t name \t value`
    pub fn to_netscape_line(&self) -> (r: String)
        ensures
            r@ == self@.netscape_line(),
    {
        let mut line = if starts_with(self.domain.as_str(), ".") {
            self.domain.clone()
        } else {
            cat(".", self.domain.as_str())
        };
        line.append("\tTRUE\t");
        line.append(self.path.as_str());
        line.append("\t");
        line.append(
            if self.secure {
                "TRUE"
            } else {
                "FALSE"
            },
        );
        line.append("\t");
        let secs: i64 = if self.expires < 0 {
            0
        } else if self.expires / 1_000_000 > 0x7fff_ffff_ffff_ffff {
            0x7fff_ffff_ffff_ffff
        } else {
            (self.expires / 1_000_000) as i64
        };
        line.append(dec_i64(secs).as_str());
        line.append("\t");
        line.append(self.name.as_str());
        line.append("\t");
        line.append(self.value.as_str());
        if self.http_only {
            cat("#HttpOnly_", line.as_str())
        } else {
            line
        }
    }
}

/// Playwright `storageState`. `origins` is empty in v1.
#[derive(Debug)]
pub struct StorageState {
    pub cookies: Vec<Cookie>,
    pub origins: Vec<OriginState>,
}

#[derive(Debug)]
pub struct OriginState {
    pub origin: String,
    pub local_storage: Vec<LocalStorageEntry>,
}

#[derive(Debug)]
pub struct LocalStorageEntry {
    pub name: String,
    pub value: String,
}

impl DeepView for LocalStorageEntry {
    type V = (Seq<char>, Seq<char>);

    open spec fn deep_view(&self) -> (Seq<char>, Seq<char>) {
        (self.name@, self.value@)
    }
}

impl DeepView for OriginState {
    type V = (Seq<char>, Seq<(Seq<char>, Seq<char>)>);

    open spec fn deep_view(&self) -> (Seq<char>, Seq<(Seq<char>, Seq<char>)>) {
        (self.origin@, self.local_storage.deep_view())
    }
}

/// What a storage state stands for.
#[verifier::ext_equal]
pub struct StateView {
    pub cookies: Seq<CookieView>,
    pub origins: Seq<(Seq<char>, Seq<(Seq<char>, Seq<char>)>)>,
}

impl View for StorageState {
    type V = StateView;

    open spec fn view(&self) -> StateView {
        StateView { cookies: self.cookies.deep_view(), origins: self.origins.deep_view() }
    }
}

impl DeepView for StorageState {
    type V = StateView;

    open spec fn deep_view(&self) -> StateView {
        self@
    }
}

/// Whether a cookie's domain covers a host: equal to it, or a dot-suffix of it.
/// A cookie without a domain covers every host.
pub open spec fn covers(cookie_domain: Seq<char>, host: Seq<char>) -> bool {
    let cd = lower(drop_leading(cookie_domain, only('.')));
    let h = lower(drop_leading(host, only('.')));
    cd.len() == 0 || h == cd || ("."@ + cd).is_suffix_of(h)
}

fn domain_matches(cookie_domain: &str, host: &str) -> (r: bool)
    ensures
        r == covers(cookie_domain@, host@),
{
    let cd = to_lower(trim_start_char(cookie_domain, '.').as_str());
    let h = to_lower(trim_start_char(host, '.').as_str());
    if cd.as_str().unicode_len() == 0 {
        return true;
    }
    same(h.as_str(), cd.as_str()) || ends_with(h.as_str(), cat(".", cd.as_str()).as_str())
}

/// The header pairs of the cookies that are live and cover the host, in order.
pub open spec fn live_pairs(cs: Seq<CookieView>, host: Seq<char>, now: i128) -> Seq<Seq<char>>
    decreases cs.len(),
{
    if cs.len() == 0 {
        seq![]
    } else {
        let rest = live_pairs(cs.drop_last(), host, now);
        if cs.last().live(now) && covers(cs.last().domain, host) {
            rest.push(cs.last().pair())
        } else {
            rest
        }
    }
}

/// The `Cookie:` header for a host.
pub open spec fn header_for(cs: Seq<CookieView>, host: Seq<char>, now: i128) -> Option<Seq<char>> {
    let pairs = live_pairs(cs, host, now);
    if pairs.len() == 0 {
        None
    } else {
        Some(joined(pairs, "; "@))
    }
}

/// Where the first cookie stored under the key of `c` stands.
pub open spec fn slot_of(cs: Seq<CookieView>, c: CookieView) -> Option<int>
    decreases cs.len(),
{
    if cs.len() == 0 {
        None
    } else if cs[0].same_key(c) {
        Some(0)
    } else {
        match slot_of(cs.skip(1), c) {
            Some(i) => Some(i + 1),
            None => None,
        }
    }
}

/// A cookie put into a list: in place of the one under its key, or last.
pub open spec fn put(cs: Seq<CookieView>, c: CookieView) -> Seq<CookieView> {
    match slot_of(cs, c) {
        Some(i) => cs.update(i, c),
        None => cs.push(c),
    }
}

/// `incoming` put into a list, one after the other.
pub open spec fn merged(cs: Seq<CookieView>, incoming: Seq<CookieView>) -> Seq<CookieView>
    decreases incoming.len(),
{
    if incoming.len() == 0 {
        cs
    } else {
        put(merged(cs, incoming.drop_last()), incoming.last())
    }
}

/// The lines of a Netscape cookie file, each ended by a newline.
pub open spec fn netscape_lines(cs: Seq<CookieView>) -> Seq<char>
    decreases cs.len(),
{
    if cs.len() == 0 {
        seq![]
    } else {
        netscape_lines(cs.drop_last()) + cs.last().netscape_line() + seq!['\n']
    }
}

pub proof fn lemma_slot_of(cs: Seq<CookieView>, c: CookieView)
    ensures
        match slot_of(cs, c) {
            Some(i) => 0 <= i < cs.len() && cs[i].same_key(c) && forall|j: int|
                0 <= j < i ==> !(#[trigger] cs[j]).same_key(c),
            None => forall|j: int| 0 <= j < cs.len() ==> !(#[trigger] cs[j]).same_key(c),
        },
    decreases cs.len(),
{
    if cs.len() > 0 && !cs[0].same_key(c) {
        lemma_slot_of(cs.skip(1), c);
        assert forall|j: int| 0 < j < cs.len() implies #[trigger] cs[j] == cs.skip(1)[j - 1] by {}
    }
}

/// A copy of a list of cookies.
pub fn copy_cookies(cs: &Vec<Cookie>) -> (r: Vec<Cookie>)
    ensures
        r.deep_view() == cs.deep_view(),
{
    let mut r: Vec<Cookie> = Vec::new();
    for i in 0..cs.len()
        invariant
            r@.len() == i,
            forall|k: int| 0 <= k < i ==> (#[trigger] r@[k])@ == cs@[k]@,
    {
        r.push(cs[i].copy());
    }
    assert(r.deep_view() =~= cs.deep_view());
    r
}

fn copy_entries(es: &Vec<LocalStorageEntry>) -> (r: Vec<LocalStorageEntry>)
    ensures
        r.deep_view() == es.deep_view(),
{
    let mut r: Vec<LocalStorageEntry> = Vec::new();
    for i in 0..es.len()
        invariant
            r@.len() == i,
            forall|k: int| 0 <= k < i ==> (#[trigger] r@[k]).deep_view() == es@[k].deep_view(),
    {
        r.push(LocalStorageEntry { name: es[i].name.clone(), value: es[i].value.clone() });
    }
    assert(r.deep_view() =~= es.deep_view());
    r
}

fn copy_origins(os: &Vec<OriginState>) -> (r: Vec<OriginState>)
    ensures
        r.deep_view() == os.deep_view(),
{
    let mut r: Vec<OriginState> = Vec::new();
    for i in 0..os.len()
        invariant
            r@.len() == i,
            forall|k: int| 0 <= k < i ==> (#[trigger] r@[k]).deep_view() == os@[k].deep_view(),
    {
        r.push(
            OriginState {
                origin: os[i].origin.clone(),
                local_storage: copy_entries(&os[i].local_storage),
            },
        );
    }
    assert(r.deep_view() =~= os.deep_view());
    r
}

impl Default for StorageState {
    fn default() -> (r: StorageState)
        ensures
            r@ == (StateView { cookies: seq![], origins: seq![] }),
    {
        let r = StorageState { cookies: Vec::new(), origins: Vec::new() };
        assert(r@ =~= StateView { cookies: seq![], origins: seq![] });
        r
    }
}

impl StorageState {
    pub fn from_cookies(cookies: Vec<Cookie>) -> (r: StorageState)
        ensures
            r@ == (StateView { cookies: cookies.deep_view(), origins: seq![] }),
    {
        let r = StorageState { cookies, origins: Vec::new() };
        assert(r@.origins =~= seq![]);
        r
    }

    /// A copy.
    pub fn copy(&self) -> (r: StorageState)
        ensures
            r@ == self@,
    {
        StorageState { cookies: copy_cookies(&self.cookies), origins: copy_origins(&self.origins) }
    }

    /// Build a `Cookie:` header value from the live cookies whose domain matches
    /// `host` (suffix match, handles a leading dot).
    pub fn cookie_header(&self, host: &str, now: i128) -> (r: Option<String>)
        ensures
            r.deep_view() == header_for(self@.cookies, host@, now),
    {
        let mut pairs: Vec<String> = Vec::new();
        let ghost cs = self@.cookies;
        assert(pairs.deep_view() =~= seq![]);
        for i in 0..self.cookies.len()
            invariant
                cs == self.cookies.deep_view(),
                pairs.deep_view() == live_pairs(cs.take(i as int), host@, now),
        {
            let ghost before = pairs.deep_view();
            assert(cs.take(i + 1).drop_last() =~= cs.take(i as int));
            assert(cs.take(i + 1).last() == self.cookies@[i as int]@);
            if self.cookies[i].is_live(now) && domain_matches(
                self.cookies[i].domain.as_str(),
                host,
            ) {
                let p = self.cookies[i].header_pair();
                pairs.push(p);
                assert(pairs.deep_view() =~= before.push(p@));
            }
        }
        assert(cs.take(self.cookies@.len() as int) =~= cs);
        assert(pairs.deep_view().len() == pairs@.len());
        if pairs.len() == 0 {
            None
        } else {
            Some(join(&pairs, "; "))
        }
    }

    fn slot(&self, c: &Cookie) -> (r: Option<usize>)
        ensures
            match r {
                Some(i) => slot_of(self@.cookies, c@) == Some(i as int) && i < self.cookies@.len(),
                None => slot_of(self@.cookies, c@) is None,
            },
    {
        let ghost cs = self@.cookies;
        assert(cs.skip(0) =~= cs);
        for i in 0..self.cookies.len()
            invariant
                cs == self.cookies.deep_view(),
                match slot_of(cs.skip(i as int), c@) {
                    Some(j) => slot_of(cs, c@) == Some(i + j),
                    None => slot_of(cs, c@) is None,
                },
        {
            assert(cs.skip(i as int)[0] == self.cookies@[i as int]@);
            assert(cs.skip(i as int).skip(1) =~= cs.skip(i + 1));
            if self.cookies[i].has_key_of(c) {
                return Some(i);
            }
        }
        None
    }

    /// Merge `incoming` on top of `self`: cookies with the same `(name, domain,
    /// path)` are replaced, the rest appended.
    pub fn merge_from(&mut self, incoming: Vec<Cookie>)
        ensures
            final(self)@.cookies == merged(old(self)@.cookies, incoming.deep_view()),
            final(self)@.origins == old(self)@.origins,
    {
        let ghost inc = incoming.deep_view();
        assert(inc.take(0) =~= seq![]);
        for i in 0..incoming.len()
            invariant
                inc == incoming.deep_view(),
                self@.cookies == merged(old(self)@.cookies, inc.take(i as int)),
                self@.origins == old(self)@.origins,
        {
            let ghost before = self@.cookies;
            assert(inc.take(i + 1).drop_last() =~= inc.take(i as int));
            let c = incoming[i].copy();
            assert(inc.take(i + 1).last() == c@);
            let ghost cv = c@;
            match self.slot(&c) {
                Some(j) => {
                    self.cookies.set(j, c);
                    assert(self@.cookies =~= before.update(j as int, cv));
                },
                None => {
                    self.cookies.push(c);
                    assert(self@.cookies =~= before.push(cv));
                },
            }
        }
        assert(inc.take(incoming@.len() as int) =~= inc);
    }

    /// A Netscape cookie file.
    pub fn to_netscape(&self) -> (r: String)
        ensures
            r@ == "# Netscape HTTP Cookie File\n# generated by cobweb\n"@ + netscape_lines(
                self@.cookies,
            ),
    {
        let ghost head = "# Netscape HTTP Cookie File\n# generated by cobweb\n"@;
        let mut out = "# Netscape HTTP Cookie File\n# generated by cobweb\n".to_owned();
        let ghost cs = self@.cookies;
        assert(out@ =~= head + netscape_lines(cs.take(0)));
        for i in 0..self.cookies.len()
            invariant
                cs == self.cookies.deep_view(),
                out@ == head + netscape_lines(cs.take(i as int)),
        {
            assert(cs.take(i + 1).drop_last() =~= cs.take(i as int));
            assert(cs.take(i + 1).last() == self.cookies@[i as int]@);
            out.append(self.cookies[i].to_netscape_line().as_str());
            out.push('\n');
            assert(out@ =~= head + netscape_lines(cs.take(i + 1)));
        }
        assert(cs.take(self.cookies@.len() as int) =~= cs);
        out
    }
}

// ---------------------------------------------------------------------------
// Laws
// ---------------------------------------------------------------------------

proof fn lemma_put_keeps(cs: Seq<CookieView>, c: CookieView, i: int)
    requires
        0 <= i < cs.len(),
    ensures
        i < put(cs, c).len(),
        put(cs, c)[i].same_key(cs[i]),
        put(cs, c)[i] == cs[i] || put(cs, c)[i] == c,
{
    lemma_slot_of(cs, c);
}

/// Merging keeps every stored cookie's key: a cookie that was there is still
/// there, or was replaced by an incoming one under the same key.
pub proof fn merge_keeps_every_key(cs: Seq<CookieView>, incoming: Seq<CookieView>, i: int)
    requires
        0 <= i < cs.len(),
    ensures
        i < merged(cs, incoming).len(),
        merged(cs, incoming)[i].same_key(cs[i]),
        merged(cs, incoming)[i] == cs[i] || incoming.contains(merged(cs, incoming)[i]),
    decreases incoming.len(),
{
    if incoming.len() > 0 {
        let rest = incoming.drop_last();
        merge_keeps_every_key(cs, rest, i);
        lemma_put_keeps(merged(cs, rest), incoming.last(), i);
        if rest.contains(merged(cs, rest)[i]) {
            let k = choose|k: int| 0 <= k < rest.len() && rest[k] == merged(cs, rest)[i];
            assert(incoming[k] == rest[k]);
        }
        assert(incoming[incoming.len() - 1] == incoming.last());
    }
}

/// Of the incoming cookies under one key the last is what is stored under it.
pub proof fn merge_stores_the_last_incoming(
    cs: Seq<CookieView>,
    incoming: Seq<CookieView>,
    j: int,
)
    requires
        0 <= j < incoming.len(),
        forall|k: int| j < k < incoming.len() ==> !(#[trigger] incoming[k]).same_key(incoming[j]),
    ensures
        slot_of(merged(cs, incoming), incoming[j]) matches Some(i) && merged(cs, incoming)[i]
            == incoming[j],
    decreases incoming.len(),
{
    let rest = incoming.drop_last();
    let before = merged(cs, rest);
    let after = merged(cs, incoming);
    let c = incoming.last();
    lemma_slot_of(before, c);
    lemma_slot_of(before, incoming[j]);
    lemma_slot_of(after, incoming[j]);
    if j < rest.len() {
        assert(rest[j] == incoming[j]);
        assert forall|k: int| j < k < rest.len() implies !(#[trigger] rest[k]).same_key(
            rest[j],
        ) by {
            assert(rest[k] == incoming[k]);
        }
        merge_stores_the_last_incoming(cs, rest, j);
        assert(!incoming[incoming.len() - 1].same_key(incoming[j]));
        let i = slot_of(before, incoming[j])->Some_0;
        assert(after[i] == before[i]);
        assert forall|k: int| 0 <= k < i implies !(#[trigger] after[k]).same_key(incoming[j]) by {
            assert(after[k] == before[k] || after[k] == c);
        }
    } else {
        let i = match slot_of(before, c) {
            Some(i) => i,
            None => before.len() as int,
        };
        assert(after[i] == c);
        assert forall|k: int| 0 <= k < i implies !(#[trigger] after[k]).same_key(c) by {
            assert(after[k] == before[k]);
        }
    }
}

/// Whether no key occurs twice.
pub open spec fn distinct_cookies(cs: Seq<CookieView>) -> bool {
    forall|i: int, j: int|
        0 <= i < j < cs.len() ==> !(#[trigger] cs[i]).same_key(#[trigger] cs[j])
}

/// Merging into a list without repeated keys repeats none.
pub proof fn merge_repeats_no_key(cs: Seq<CookieView>, incoming: Seq<CookieView>)
    requires
        distinct_cookies(cs),
    ensures
        distinct_cookies(merged(cs, incoming)),
    decreases incoming.len(),
{
    if incoming.len() > 0 {
        let before = merged(cs, incoming.drop_last());
        let c = incoming.last();
        merge_repeats_no_key(cs, incoming.drop_last());
        lemma_slot_of(before, c);
        assert forall|i: int, j: int| 0 <= i < j < put(before, c).len() implies !(
        #[trigger] put(before, c)[i]).same_key(#[trigger] put(before, c)[j]) by {
            match slot_of(before, c) {
                Some(k) => {
                    assert(before[k].same_key(c));
                    if i != k && j != k {
                        assert(!before[i].same_key(before[j]));
                    } else if i == k {
                        assert(!before[k].same_key(before[j]));
                    } else {
                        assert(!before[i].same_key(before[k]));
                    }
                },
                None => {
                    if j < before.len() {
                        assert(!before[i].same_key(before[j]));
                    } else {
                        assert(!before[i].same_key(c));
                    }
                },
            }
        }
    }
}

/// Lists whose cookies have the same keys hold a key in the same place.
proof fn lemma_same_slot(a: Seq<CookieView>, b: Seq<CookieView>, c: CookieView, d: CookieView)
    requires
        a.len() == b.len(),
        forall|i: int| 0 <= i < a.len() ==> (#[trigger] a[i]).same_key(b[i]),
        c.same_key(d),
    ensures
        slot_of(a, c) == slot_of(b, d),
{
    lemma_slot_of(a, c);
    lemma_slot_of(b, d);
    match slot_of(a, c) {
        Some(i) => {
            assert(a[i].same_key(b[i]));
            match slot_of(b, d) {
                Some(j) => {
                    assert(a[j].same_key(b[j]));
                },
                None => {},
            }
        },
        None => {
            match slot_of(b, d) {
                Some(j) => {
                    assert(a[j].same_key(b[j]));
                },
                None => {},
            }
        },
    }
}

/// Every incoming key is stored, with that cookie or because a later one under
/// the same key came after it.
proof fn lemma_stored(cs: Seq<CookieView>, incoming: Seq<CookieView>, j: int)
    requires
        0 <= j < incoming.len(),
    ensures
        slot_of(merged(cs, incoming), incoming[j]) matches Some(i) && (merged(cs, incoming)[i]
            == incoming[j] || exists|k: int|
            j < k < incoming.len() && (#[trigger] incoming[k]).same_key(incoming[j])),
    decreases incoming.len() - j,
{
    let all = merged(cs, incoming);
    if exists|k: int| j < k < incoming.len() && (#[trigger] incoming[k]).same_key(incoming[j]) {
        let k = choose|k: int|
            j < k < incoming.len() && (#[trigger] incoming[k]).same_key(incoming[j]);
        lemma_stored(cs, incoming, k);
        lemma_same_slot(all, all, incoming[k], incoming[j]);
    } else {
        merge_stores_the_last_incoming(cs, incoming, j);
    }
}

/// Cookies under new keys follow those that were stored, in the order in which
/// their keys first came in.
pub proof fn new_keys_follow_in_order(cs: Seq<CookieView>, incoming: Seq<CookieView>, i: int)
    requires
        cs.len() <= i < merged(cs, incoming).len(),
    ensures
        slot_of(incoming, merged(cs, incoming)[i]) is Some,
        forall|j: int|
            i < j < merged(cs, incoming).len() ==> slot_of(
                incoming,
                #[trigger] merged(cs, incoming)[j],
            ) is Some && slot_of(incoming, merged(cs, incoming)[i])->Some_0 < slot_of(
                incoming,
                merged(cs, incoming)[j],
            )->Some_0,
{
    lemma_new_keys(cs, incoming);
    let m = merged(cs, incoming);
    assert(first_seen(incoming, m[i]) >= 0);
    assert forall|j: int| i < j < m.len() implies slot_of(incoming, #[trigger] m[j]) is Some
        && slot_of(incoming, m[i])->Some_0 < slot_of(incoming, m[j])->Some_0 by {
        assert(first_seen(incoming, m[i]) < first_seen(incoming, m[j]));
        assert(first_seen(incoming, m[j]) >= 0);
    }
}

/// The index at which a key first comes in, or a negative number.
spec fn first_seen(incoming: Seq<CookieView>, c: CookieView) -> int {
    match slot_of(incoming, c) {
        Some(i) => i,
        None => -1,
    }
}

proof fn lemma_new_keys(cs: Seq<CookieView>, incoming: Seq<CookieView>)
    ensures
        forall|i: int|
            cs.len() <= i < merged(cs, incoming).len() ==> 0 <= first_seen(
                incoming,
                #[trigger] merged(cs, incoming)[i],
            ) < incoming.len(),
        forall|i: int, j: int|
            cs.len() <= i < j < merged(cs, incoming).len() ==> first_seen(
                incoming,
                #[trigger] merged(cs, incoming)[i],
            ) < first_seen(incoming, #[trigger] merged(cs, incoming)[j]),
    decreases incoming.len(),
{
    if incoming.len() > 0 {
        let rest = incoming.drop_last();
        let c = incoming.last();
        let before = merged(cs, rest);
        let after = merged(cs, incoming);
        lemma_new_keys(cs, rest);
        lemma_slot_of(before, c);
        assert forall|i: int| cs.len() <= i < before.len() implies first_seen(
            incoming,
            #[trigger] after[i],
        ) == first_seen(rest, before[i]) by {
            assert(after[i].same_key(before[i]));
            lemma_same_slot(rest, rest, after[i], before[i]);
            lemma_slot_of(rest, after[i]);
            lemma_slot_of(incoming, after[i]);
            let f = first_seen(rest, before[i]);
            assert(0 <= f < rest.len());
            assert(incoming[f] == rest[f]);
            assert forall|k: int| 0 <= k < f implies !(#[trigger] incoming[k]).same_key(
                after[i],
            ) by {
                assert(incoming[k] == rest[k]);
            }
        }
        if slot_of(before, c) is None {
            lemma_slot_of(incoming, c);
            assert(incoming[incoming.len() - 1] == c);
            assert forall|k: int| 0 <= k < rest.len() implies !(#[trigger] incoming[k]).same_key(
                c,
            ) by {
                assert(incoming[k] == rest[k]);
                if rest[k].same_key(c) {
                    lemma_stored(cs, rest, k);
                    lemma_same_slot(before, before, rest[k], c);
                }
            }
            assert(after[before.len() as int] == c);
            assert(first_seen(incoming, c) == incoming.len() - 1);
        }
        assert forall|i: int| cs.len() <= i < after.len() implies 0 <= first_seen(
            incoming,
            #[trigger] after[i],
        ) < incoming.len() by {
            if i < before.len() {
                assert(0 <= first_seen(rest, before[i]) < rest.len());
            }
        }
        assert forall|i: int, j: int| cs.len() <= i < j < after.len() implies first_seen(
            incoming,
            #[trigger] after[i],
        ) < first_seen(incoming, #[trigger] after[j]) by {
            assert(0 <= first_seen(rest, before[i]) < rest.len());
            if j < before.len() {
                assert(first_seen(rest, before[i]) < first_seen(rest, before[j]));
            }
        }
    }
}

/// Merging the same cookies a second time changes nothing.
pub proof fn merge_twice_is_merge_once(cs: Seq<CookieView>, incoming: Seq<CookieView>)
    ensures
        merged(merged(cs, incoming), incoming) == merged(cs, incoming),
{
    let m = merged(cs, incoming);
    let n = incoming.len() as int;
    assert(incoming.take(n) =~= incoming);
    lemma_again(cs, incoming, n);
    let again = merged(m, incoming);
    assert forall|i: int| 0 <= i < m.len() implies again[i] == m[i] by {
        assert(settled(m, incoming, n, again[i], i));
    }
    assert(again =~= m);
}

/// Whether a place of a list that is merged into a second time holds what it held,
/// or is still to be set to it.
spec fn settled(
    m: Seq<CookieView>,
    incoming: Seq<CookieView>,
    n: int,
    c: CookieView,
    i: int,
) -> bool {
    c == m[i] || exists|k: int|
        n <= k < incoming.len() && slot_of(m, #[trigger] incoming[k]) == Some(i)
}

proof fn lemma_again(cs: Seq<CookieView>, incoming: Seq<CookieView>, n: int)
    requires
        0 <= n <= incoming.len(),
    ensures
        ({
            let m = merged(cs, incoming);
            let again = merged(m, incoming.take(n));
            &&& again.len() == m.len()
            &&& forall|i: int| 0 <= i < m.len() ==> (#[trigger] again[i]).same_key(m[i])
            &&& forall|i: int|
                0 <= i < m.len() ==> settled(m, incoming, n, #[trigger] again[i], i)
        }),
    decreases n,
{
    let m = merged(cs, incoming);
    if n > 0 {
        let before = merged(m, incoming.take(n - 1));
        let again = merged(m, incoming.take(n));
        let c = incoming[n - 1];
        assert(incoming.take(n).drop_last() =~= incoming.take(n - 1));
        assert(incoming.take(n).last() == c);
        lemma_again(cs, incoming, n - 1);
        lemma_stored(cs, incoming, n - 1);
        lemma_slot_of(m, c);
        lemma_same_slot(before, m, c, c);
        let s = slot_of(m, c)->Some_0;
        assert(again =~= before.update(s, c));
        assert forall|i: int| 0 <= i < m.len() implies settled(
            m,
            incoming,
            n,
            #[trigger] again[i],
            i,
        ) by {
            if i == s {
                if m[s] != c {
                    let k = choose|k: int|
                        n - 1 < k < incoming.len() && (#[trigger] incoming[k]).same_key(c);
                    lemma_same_slot(m, m, incoming[k], c);
                }
            } else {
                assert(settled(m, incoming, n - 1, before[i], i));
                if before[i] != m[i] {
                    let k = choose|k: int|
                        n - 1 <= k < incoming.len() && slot_of(m, #[trigger] incoming[k]) == Some(
                            i,
                        );
                    assert(k != n - 1);
                    assert(slot_of(m, incoming[k]) == Some(i));
                }
            }
        }
        assert forall|i: int| 0 <= i < m.len() implies (#[trigger] again[i]).same_key(m[i]) by {
            assert(before[i].same_key(m[i]));
        }
    } else {
        assert(incoming.take(0) =~= seq![]);
    }
}

/// The header of one cookie more: a cookie that is live and covers the host puts
/// its pair behind what is there, and any other changes nothing. Without cookies
/// there is no header.
pub proof fn a_live_cookie_joins_the_header(
    cs: Seq<CookieView>,
    c: CookieView,
    host: Seq<char>,
    now: i128,
)
    ensures
        header_for(seq![], host, now) is None,
        !((c.expires < 0 || c.expires > now) && covers(c.domain, host)) ==> header_for(
            cs.push(c),
            host,
            now,
        ) == header_for(cs, host, now),
        (c.expires < 0 || c.expires > now) && covers(c.domain, host) ==> header_for(
            cs.push(c),
            host,
            now,
        ) == Some(
            match header_for(cs, host, now) {
                Some(h) => h + seq![';', ' '] + (c.name + seq!['='] + c.value),
                None => c.name + seq!['='] + c.value,
            },
        ),
{
    reveal_strlit("=");
    reveal_strlit("; ");
    assert("="@ =~= seq!['=']);
    assert("; "@ =~= seq![';', ' ']);
    assert(cs.push(c).drop_last() =~= cs);
    let pairs = live_pairs(cs, host, now);
    joining_adds_a_part(pairs, c.pair(), "; "@);
    let none: Seq<CookieView> = seq![];
    assert(live_pairs(none, host, now).len() == 0);
}

/// Every cookie that is live and covers the host is in the header.
pub proof fn every_live_cookie_is_sent(cs: Seq<CookieView>, host: Seq<char>, now: i128, i: int)
    requires
        0 <= i < cs.len(),
        cs[i].expires < 0 || cs[i].expires > now,
        covers(cs[i].domain, host),
    ensures
        header_for(cs, host, now) matches Some(h) && has(h, cs[i].name + seq!['='] + cs[i].value),
{
    lemma_pair_of(cs, host, now, i);
    let pairs = live_pairs(cs, host, now);
    let k = choose|k: int| 0 <= k < pairs.len() && #[trigger] pairs[k] == cs[i].pair();
    joining_keeps_every_part(pairs, "; "@, k);
    reveal_strlit("=");
    assert("="@ =~= seq!['=']);
}

proof fn lemma_pair_of(cs: Seq<CookieView>, host: Seq<char>, now: i128, i: int)
    requires
        0 <= i < cs.len(),
        cs[i].live(now),
        covers(cs[i].domain, host),
    ensures
        exists|k: int|
            0 <= k < live_pairs(cs, host, now).len() && #[trigger] live_pairs(cs, host, now)[k]
                == cs[i].pair(),
    decreases cs.len(),
{
    let pairs = live_pairs(cs, host, now);
    if i == cs.len() - 1 {
        assert(pairs[pairs.len() - 1] == cs[i].pair());
    } else {
        let rest = live_pairs(cs.drop_last(), host, now);
        lemma_pair_of(cs.drop_last(), host, now, i);
        let k = choose|k: int| 0 <= k < rest.len() && #[trigger] rest[k] == cs[i].pair();
        assert(pairs[k] == cs[i].pair());
    }
}

/// The number of characters of the pairs that are sent, and of what stands
/// between them.
pub open spec fn header_len(cs: Seq<CookieView>, host: Seq<char>, now: i128, from: int) -> int
    decreases cs.len() - from,
{
    if !(0 <= from < cs.len()) {
        0
    } else {
        let c = cs[from];
        header_len(cs, host, now, from + 1) + (if (c.expires < 0 || c.expires > now) && covers(
            c.domain,
            host,
        ) {
            (c.name.len() + 1 + c.value.len() + 2) as int
        } else {
            0
        })
    }
}

proof fn lemma_header_len(cs: Seq<CookieView>, c: CookieView, host: Seq<char>, now: i128, from: int)
    requires
        0 <= from <= cs.len(),
    ensures
        header_len(cs.push(c), host, now, from) == header_len(cs, host, now, from) + (if (c.expires
            < 0 || c.expires > now) && covers(c.domain, host) {
            (c.name.len() + 1 + c.value.len() + 2) as int
        } else {
            0
        }),
    decreases cs.len() - from,
{
    let all = cs.push(c);
    if from < cs.len() {
        assert(all[from] == cs[from]);
        lemma_header_len(cs, c, host, now, from + 1);
    } else {
        assert(all[from] == c);
        assert(header_len(all, host, now, from + 1) == 0);
    }
}

/// A header is as long as the pairs that are sent, with two characters between
/// neighbours: nothing else is in it.
pub proof fn a_header_is_its_pairs(cs: Seq<CookieView>, host: Seq<char>, now: i128)
    ensures
        header_for(cs, host, now) matches Some(h) ==> h.len() + 2 == header_len(cs, host, now, 0),
        header_for(cs, host, now) is None ==> header_len(cs, host, now, 0) == 0,
    decreases cs.len(),
{
    if cs.len() > 0 {
        let front = cs.drop_last();
        a_header_is_its_pairs(front, host, now);
        assert(front.push(cs.last()) =~= cs);
        a_live_cookie_joins_the_header(front, cs.last(), host, now);
        lemma_header_len(front, cs.last(), host, now, 0);
    } else {
        assert(cs =~= seq![]);
        a_live_cookie_joins_the_header(cs, CookieView::plain(seq![], seq![], seq![]), host, now);
    }
}

/// A cookie covers its own host and every host below it, whatever the case of
/// either; a leading dot in its domain makes no difference.
pub proof fn a_cookie_covers_its_host_and_those_below(d: Seq<char>, sub: Seq<char>)
    requires
        d.len() > 0,
        d[0] != '.',
        sub.len() > 0,
        sub[0] != '.',
    ensures
        covers(d, d),
        covers(seq!['.'] + d, d),
        covers(d, upper(d)),
        covers(d, sub + seq!['.'] + d),
        covers(upper(d), sub + seq!['.'] + d),
        covers(seq!['.'] + d, sub + seq!['.'] + d),
        covers(seq![], d),
{
    let below = sub + seq!['.'] + d;
    let dotted = seq!['.'] + d;
    let p = only('.');
    let e = Seq::<char>::empty();
    reveal_strlit(".");
    assert("."@ =~= seq!['.']);
    assert(drop_leading(d, p) == d);
    assert(upper(d)[0] != '.');
    assert(drop_leading(upper(d), p) == upper(d));
    assert(below[0] == sub[0]);
    assert(drop_leading(below, p) == below);
    leading_runs_are_dropped(seq!['.'], d, p);
    lemma_lower_of_upper(d);
    let h = lower(below);
    assert(h =~= lower(sub) + ("."@ + lower(d)));
    assert(("."@ + lower(d)).is_suffix_of(h));
    assert(drop_leading(e, p) == e);
    assert(lower(e).len() == 0);
}

/// A cookie covers no other host: the host ends in its domain, up to case, and
/// what stands before it ends in a dot.
pub proof fn a_cookie_covers_no_other_host(d: Seq<char>, host: Seq<char>, i: int)
    requires
        d.len() > 0,
        d[0] != '.',
        host.len() > 0 ==> host[0] != '.',
        covers(d, host),
        0 <= i < d.len(),
    ensures
        host.len() >= d.len(),
        lower_char(host[host.len() - d.len() + i]) == lower_char(d[i]),
        host.len() > d.len() ==> host[host.len() - d.len() - 1] == '.',
{
    let p = only('.');
    reveal_strlit(".");
    assert(drop_leading(d, p) == d);
    assert(drop_leading(host, p) == host);
    let h = lower(host);
    let cd = lower(d);
    assert(cd[i] == lower_char(d[i]));
    if h != cd {
        let t = "."@ + cd;
        assert(t[0] == '.');
        assert(t[i + 1] == cd[i]);
        let o = h.len() - t.len();
        assert(t =~= h.subrange(o, h.len() as int));
        assert(h[o] == t[0]);
        assert(h[o + 1 + i] == t[i + 1]);
        assert(h[o] == lower_char(host[o]));
        assert(h[o + 1 + i] == lower_char(host[o + 1 + i]));
    } else {
        assert(h[i] == lower_char(host[i]));
    }
}

/// A cookie replaces the one of the same name, domain and path, and follows all
/// that differ from it in any of the three.
pub proof fn cookies_are_told_apart_by_name_domain_and_path(cs: Seq<CookieView>, c: CookieView)
    ensures
        (forall|i: int|
            0 <= i < cs.len() ==> (#[trigger] cs[i]).name != c.name || cs[i].domain != c.domain
                || cs[i].path != c.path) ==> merged(cs, seq![c]) == cs.push(c),
        forall|i: int|
            0 <= i < cs.len() && (#[trigger] cs[i]).name == c.name && cs[i].domain == c.domain
                && cs[i].path == c.path && (forall|k: int|
                0 <= k < i ==> (#[trigger] cs[k]).name != c.name || cs[k].domain != c.domain
                    || cs[k].path != c.path) ==> merged(cs, seq![c]) == cs.update(i, c),
{
    let one = seq![c];
    assert(one.drop_last() =~= seq![]);
    assert(merged(cs, one.drop_last()) == cs);
    assert(one.last() == c);
    lemma_slot_of(cs, c);
}

/// The cookie file has a line for every cookie, in their order, each with its
/// end.
pub proof fn every_cookie_has_a_line(cs: Seq<CookieView>, c: CookieView)
    ensures
        netscape_lines(seq![]).len() == 0,
        netscape_lines(cs.push(c)) == netscape_lines(cs) + c.netscape_line() + seq!['\n'],
{
    assert(cs.push(c).drop_last() =~= cs);
    reveal_strlit("\n");
    assert("\n"@ =~= seq!['\n']);
    assert(netscape_lines(cs.push(c)) =~= netscape_lines(cs) + c.netscape_line() + seq!['\n']);
}

/// A line of the cookie file has seven fields between tabs: the domain behind a
/// dot (and a mark, for a cookie that scripts cannot read), that it holds for
/// hosts below, the path, whether it is for secure connections alone, the expiry
/// in whole seconds, the name and the value.
pub proof fn a_cookie_line_has_seven_fields(c: CookieView)
    requires
        !c.domain.contains('\t'),
        !c.path.contains('\t'),
        !c.name.contains('\t'),
        !c.value.contains('\t'),
    ensures
        ({
            let fields = pieces(c.netscape_line(), only('\t'));
            &&& fields.len() == 7
            &&& fields[0] == (if c.http_only {
                "#HttpOnly_"@
            } else {
                seq![]
            }) + (if c.domain.len() > 0 && c.domain[0] == '.' {
                seq![]
            } else {
                seq!['.']
            }) + c.domain
            &&& fields[1] == seq!['T', 'R', 'U', 'E']
            &&& fields[2] == c.path
            &&& c.secure ==> fields[3] == seq!['T', 'R', 'U', 'E']
            &&& !c.secure ==> fields[3] == seq!['F', 'A', 'L', 'S', 'E']
            &&& c.expires < 0 ==> fields[4] == seq!['0']
            &&& 0 <= c.expires && c.expires / 1_000_000 <= i64::MAX ==> parsed_i64(fields[4])
                == Some(c.expires as int / 1_000_000)
            &&& fields[5] == c.name
            &&& fields[6] == c.value
        }),
{
    let head: Seq<char> = if c.http_only {
        "#HttpOnly_"@
    } else {
        seq![]
    };
    let dot = if c.domain.len() > 0 && c.domain[0] == '.' {
        Seq::<char>::empty()
    } else {
        seq!['.']
    };
    let f3 = if c.secure {
        seq!['T', 'R', 'U', 'E']
    } else {
        seq!['F', 'A', 'L', 'S', 'E']
    };
    let f4 = signed_dec(c.expiry_secs());
    lemma_line_shape(c, head, dot, f3);
    decimals_stand_for_their_number(c.expiry_secs() as nat);
    written_numbers_are_read_back(0, 0, c.expiry_secs());
    assert(no_tab(head + dot + c.domain)) by {
        reveal_strlit("#HttpOnly_");
        let f0 = head + dot + c.domain;
        assert forall|i: int| 0 <= i < f0.len() implies #[trigger] f0[i] != '\t' by {
            if i >= head.len() + dot.len() {
                assert(c.domain.contains(c.domain[i - head.len() - dot.len()]));
            }
        }
    }
    assert(no_tab(f4)) by {
        assert forall|i: int| 0 <= i < f4.len() implies #[trigger] f4[i] != '\t' by {
            assert(crate::text::is_digit(f4[i]));
        }
    }
    assert(no_tab(c.path) && no_tab(c.name) && no_tab(c.value)) by {
        assert forall|i: int| 0 <= i < c.path.len() implies #[trigger] c.path[i] != '\t' by {
            assert(c.path.contains(c.path[i]));
        }
        assert forall|i: int| 0 <= i < c.name.len() implies #[trigger] c.name[i] != '\t' by {
            assert(c.name.contains(c.name[i]));
        }
        assert forall|i: int| 0 <= i < c.value.len() implies #[trigger] c.value[i] != '\t' by {
            assert(c.value.contains(c.value[i]));
        }
    }
    lemma_seven_pieces(head + dot + c.domain, seq!['T', 'R', 'U', 'E'], c.path, f3, f4, c.name, c.value);
    if c.expires < 0 {
        assert(f4 =~= seq!['0']);
    }
}

spec fn no_tab(s: Seq<char>) -> bool {
    forall|i: int| 0 <= i < s.len() ==> #[trigger] s[i] != '\t'
}

proof fn lemma_line_shape(c: CookieView, head: Seq<char>, dot: Seq<char>, f3: Seq<char>)
    requires
        head == (if c.http_only {
            "#HttpOnly_"@
        } else {
            seq![]
        }),
        dot == (if c.domain.len() > 0 && c.domain[0] == '.' {
            Seq::<char>::empty()
        } else {
            seq!['.']
        }),
        f3 == (if c.secure {
            seq!['T', 'R', 'U', 'E']
        } else {
            seq!['F', 'A', 'L', 'S', 'E']
        }),
    ensures
        c.netscape_line() == tabbed(
            head + dot + c.domain,
            tabbed(
                seq!['T', 'R', 'U', 'E'],
                tabbed(
                    c.path,
                    tabbed(f3, tabbed(signed_dec(c.expiry_secs()), tabbed(c.name, c.value))),
                ),
            ),
        ),
{
    reveal_strlit("\tTRUE\t");
    reveal_strlit("\t");
    reveal_strlit("TRUE");
    reveal_strlit("FALSE");
    reveal_strlit(".");
    assert("."@ =~= seq!['.']);
    assert("\t"@ =~= seq!['\t']);
    assert("\tTRUE\t"@ =~= seq!['\t'] + seq!['T', 'R', 'U', 'E'] + seq!['\t']);
    assert((if c.secure {
        "TRUE"@
    } else {
        "FALSE"@
    }) =~= f3);
    if c.domain.len() > 0 && c.domain[0] == '.' {
        assert(c.domain.subrange(0, 1) =~= "."@);
        assert("."@.is_prefix_of(c.domain));
        assert(dot + c.domain =~= c.domain);
    } else {
        if "."@.is_prefix_of(c.domain) {
            assert(c.domain[0] == "."@[0]);
        }
    }
    let f4 = signed_dec(c.expiry_secs());
    let yes = seq!['T', 'R', 'U', 'E'];
    let domain = dot + c.domain;
    assert(domain =~= (if "."@.is_prefix_of(c.domain) {
        c.domain
    } else {
        "."@ + c.domain
    }));
    let p2 = domain + "\tTRUE\t"@;
    let p3 = p2 + c.path + "\t"@;
    let p4 = p3 + f3 + "\t"@;
    let p5 = p4 + f4 + "\t"@;
    let line = p5 + c.name + "\t"@ + c.value;
    let r5 = tabbed(c.name, c.value);
    let r4 = tabbed(f4, r5);
    let r3 = tabbed(f3, r4);
    let r2 = tabbed(c.path, r3);
    lemma_tabbed(p5, c.name, c.value);
    lemma_tabbed(p4, f4, r5);
    lemma_tabbed(p3, f3, r4);
    lemma_tabbed(p2, c.path, r3);
    assert(line == p2 + r2);
    lemma_flag(domain, "\tTRUE\t"@, r2);
    lemma_headed(head, domain, tabbed(yes, r2));
    assert(head + domain =~= head + dot + c.domain);
    if !c.http_only {
        assert(head + line =~= line);
    }
}

proof fn lemma_tabbed(p: Seq<char>, a: Seq<char>, b: Seq<char>)
    ensures
        p + a + "\t"@ + b == p + tabbed(a, b),
{
    reveal_strlit("\t");
    assert("\t"@ =~= seq!['\t']);
    assert(p + a + "\t"@ + b =~= p + tabbed(a, b));
}

proof fn lemma_flag(d: Seq<char>, flag: Seq<char>, r: Seq<char>)
    requires
        flag == seq!['\t'] + seq!['T', 'R', 'U', 'E'] + seq!['\t'],
    ensures
        d + flag + r == tabbed(d, tabbed(seq!['T', 'R', 'U', 'E'], r)),
{
    assert(flag + r =~= seq!['\t'] + tabbed(seq!['T', 'R', 'U', 'E'], r));
    assert(d + flag + r =~= d + (flag + r));
    assert(d + (seq!['\t'] + tabbed(seq!['T', 'R', 'U', 'E'], r)) =~= tabbed(
        d,
        tabbed(seq!['T', 'R', 'U', 'E'], r),
    ));
}

proof fn lemma_headed(h: Seq<char>, d: Seq<char>, r: Seq<char>)
    ensures
        h + tabbed(d, r) == tabbed(h + d, r),
{
    assert(h + tabbed(d, r) =~= tabbed(h + d, r));
}

spec fn tabbed(a: Seq<char>, b: Seq<char>) -> Seq<char> {
    a.push('\t') + b
}

proof fn lemma_seven_pieces(
    a: Seq<char>,
    b: Seq<char>,
    c: Seq<char>,
    d: Seq<char>,
    e: Seq<char>,
    f: Seq<char>,
    g: Seq<char>,
)
    requires
        no_tab(a) && no_tab(b) && no_tab(c) && no_tab(d) && no_tab(e) && no_tab(f) && no_tab(g),
    ensures
        pieces(
            tabbed(a, tabbed(b, tabbed(c, tabbed(d, tabbed(e, tabbed(f, g)))))),
            only('\t'),
        ) == seq![a, b, c, d, e, f, g],
{
    let p = only('\t');
    let r5 = tabbed(f, g);
    let r4 = tabbed(e, r5);
    let r3 = tabbed(d, r4);
    let r2 = tabbed(c, r3);
    let r1 = tabbed(b, r2);
    pieces_end_at_separators(g, '\t', seq![], p);
    pieces_end_at_separators(f, '\t', g, p);
    pieces_end_at_separators(e, '\t', r5, p);
    pieces_end_at_separators(d, '\t', r4, p);
    pieces_end_at_separators(c, '\t', r3, p);
    pieces_end_at_separators(b, '\t', r2, p);
    pieces_end_at_separators(a, '\t', r1, p);
    assert(pieces(r5, p) =~= seq![f, g]);
    assert(pieces(r4, p) =~= seq![e, f, g]);
    assert(pieces(r3, p) =~= seq![d, e, f, g]);
    assert(pieces(r2, p) =~= seq![c, d, e, f, g]);
    assert(pieces(r1, p) =~= seq![b, c, d, e, f, g]);
    assert(pieces(tabbed(a, r1), p) =~= seq![a, b, c, d, e, f, g]);
}

} // verus!
