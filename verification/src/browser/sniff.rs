//! One browser sniff: load a page and watch its network traffic until a stream
//! manifest shows up.
//!
//! [`Sniff`] decides; the caller talks to the browser. Each method takes what
//! happened and says what to do next. Times are milliseconds of one clock.

use vstd::prelude::*;
use vstd::utf8::{
    decode_utf8, encode_utf8, encode_utf8_decode_utf8, encode_utf8_valid_utf8, is_char_boundary,
    valid_utf8,
};

use super::cdp::{CdpEvent, EventView};
use super::engine::{BrowserError, BrowserFault};
use crate::fastpath::{
    copy_headers, is_challenge, looks_like_cloudflare_challenge, strict_text,
};
use crate::glob::{any_matches, Globs};
use crate::json::{or_empty, Json, JsonView};
use crate::text::{
    a_text_without_separator_is_one_piece, contains, drop_leading, has, is_space,
    leading_runs_are_dropped, lower, only, passes, pieces, pieces_end_at_separators, same,
    same_ignore_case, spaces, split_by, starts_with, the_last_piece_follows_the_last_separator,
    to_lower, trim, trim_start_by, trimmed, trimming_takes_both_ends, One, Space,
};
use crate::util::{
    byte_len, byte_prefix, distinct_keys, find_key, lemma_index_of_key, lookup,
    setting_a_key_sets_it_alone, split_bytes, upserted, without_key,
};
use crate::weburl::{url_parsed, Url, UrlView};

verus! {

/// A match is held this long for the rest of its headers.
pub const PENDING_GRACE_MS: u64 = 400;

/// How often the page is probed for a challenge, and when first.
pub const PROBE_EVERY_MS: u64 = 2_500;

pub const FIRST_PROBE_MS: u64 = 3_000;

/// How long a challenge may take to clear itself.
pub const CHALLENGE_GRACE_MS: u64 = 15_000;

/// How often the page interaction is tried, and when first.
pub const INTERACT_EVERY_MS: u64 = 1_500;

pub const FIRST_INTERACT_MS: u64 = 2_000;

/// Bodies that are read at most.
pub const MAX_BODY_READS: usize = 24;

/// Bodies of this size (in millionths of a byte) and above are not read.
pub const MAX_BODY_MICROS: i128 = 3_145_728_000_000;

/// Requests that are tracked at most, besides a held match.
pub const MAX_TRACKED_REQS: usize = 512;

/// The last instant that is told apart.
pub const CLOCK_END_MS: u64 = 0xffff_ffff_0000_0000;

// ---------------------------------------------------------------------------
// What matches
// ---------------------------------------------------------------------------

/// What follows the last slash of a path that starts with one.
pub open spec fn last_segment(path: Seq<char>) -> Option<Seq<char>> {
    if path.len() > 0 && path[0] == '/' {
        Some(pieces(path.skip(1), only('/')).last())
    } else {
        None
    }
}

/// Whether a URL matches any pattern: by path, as a whole, or by last segment.
pub open spec fn url_hits(globs: Seq<Seq<char>>, u: UrlView) -> bool {
    globs.len() > 0 && (any_matches(globs, u.path) || any_matches(globs, u.text) || (match last_segment(
        u.path,
    ) {
        Some(f) => any_matches(globs, f),
        None => false,
    }))
}

/// Does `url` match the caller's globs (path, full URL, or last segment)?
pub fn glob_hit(pattern: &Globs, url: &Url) -> (r: bool)
    ensures
        r == url_hits(pattern@, url@),
{
    if pattern.is_empty() {
        return false;
    }
    if pattern.matches(url.path.as_str()) || pattern.matches(url.text.as_str()) {
        return true;
    }
    let n: usize = url.path.as_str().unicode_len();
    if n > 0 && url.path.as_str().get_char(0) == '/' {
        let rest = url.path.as_str().substring_char(1, n);
        assert(rest@ =~= url.path@.skip(1));
        assert(passes(One('/')) =~= only('/'));
        let parts = split_by(rest, One('/'));
        assert(parts.deep_view().last() == parts@.last()@);
        pattern.matches(parts[parts.len() - 1].as_str())
    } else {
        false
    }
}

/// HLS and DASH manifest content types, without parameters and in any case.
pub open spec fn manifest_mime(mime: Seq<char>) -> bool {
    let m = lower(trimmed(pieces(mime, only(';'))[0]));
    m == "application/vnd.apple.mpegurl"@ || m == "application/x-mpegurl"@ || m
        == "application/mpegurl"@ || m == "audio/mpegurl"@ || m == "audio/x-mpegurl"@ || m
        == "application/dash+xml"@ || m == "video/vnd.mpeg.dash.mpd"@
}

/// HLS / DASH manifest content types (some CDNs serve the playlist from a path
/// with no extension, so URL globbing alone misses it).
pub fn is_manifest_mime(mime: &str) -> (r: bool)
    ensures
        r == manifest_mime(mime@),
{
    assert(passes(One(';')) =~= only(';'));
    let parts = split_by(mime, One(';'));
    assert(parts.deep_view()[0] == parts@[0]@);
    let m = to_lower(trim(parts[0].as_str()).as_str());
    same(m.as_str(), "application/vnd.apple.mpegurl") || same(m.as_str(), "application/x-mpegurl")
        || same(m.as_str(), "application/mpegurl") || same(m.as_str(), "audio/mpegurl") || same(
        m.as_str(),
        "audio/x-mpegurl",
    ) || same(m.as_str(), "application/dash+xml") || same(m.as_str(), "video/vnd.mpeg.dash.mpd")
}

/// Resource types that could be, or redirect to, a manifest.
pub open spec fn trackable_type(t: Seq<char>) -> bool {
    !(t == "Image"@ || t == "Font"@ || t == "Stylesheet"@ || t == "Script"@ || t == "Ping"@ || t
        == "CSPViolationReport"@)
}

/// Resource types that could plausibly be, or redirect to, a stream manifest.
pub fn req_type_trackable(t: &str) -> (r: bool)
    ensures
        r == trackable_type(t@),
{
    !(same(t, "Image") || same(t, "Font") || same(t, "Stylesheet") || same(t, "Script") || same(
        t,
        "Ping",
    ) || same(t, "CSPViolationReport"))
}

/// Resource types whose body is cheap and could be a manifest.
pub open spec fn readable_type(t: Seq<char>) -> bool {
    t == "XHR"@ || t == "Fetch"@ || t == "Document"@ || t == "Other"@ || t == "Manifest"@ || t
        == "Prefetch"@ || t == "TextTrack"@
}

/// Resource types whose body is cheap and plausibly a manifest.
pub fn body_worth_type(t: &str) -> (r: bool)
    ensures
        r == readable_type(t@),
{
    same(t, "XHR") || same(t, "Fetch") || same(t, "Document") || same(t, "Other") || same(
        t,
        "Manifest",
    ) || same(t, "Prefetch") || same(t, "TextTrack")
}

/// Whether a body starts like an HLS playlist or looks like a DASH manifest.
pub open spec fn manifest_body(s: Seq<char>) -> bool {
    let head = drop_leading(s, spaces());
    "#EXTM3U"@.is_prefix_of(head) || (has(head, "<MPD"@) && has(head, "urn:mpeg:dash"@))
}

/// Does a decoded response body look like an HLS or DASH manifest?
pub fn body_is_manifest(s: &str) -> (r: bool)
    ensures
        r == manifest_body(s@),
{
    assert(passes(Space) =~= spaces());
    let head = trim_start_by(s, Space);
    starts_with(head.as_str(), "#EXTM3U") || (contains(head.as_str(), "<MPD") && contains(
        head.as_str(),
        "urn:mpeg:dash",
    ))
}

// ---------------------------------------------------------------------------
// Headers
// ---------------------------------------------------------------------------

/// Where the first header of a name stands, in any case.
pub open spec fn header_slot(hs: Seq<(Seq<char>, Seq<char>)>, name: Seq<char>) -> Option<int>
    decreases hs.len(),
{
    if hs.len() == 0 {
        None
    } else if lower(hs[0].0) == lower(name) {
        Some(0)
    } else {
        match header_slot(hs.skip(1), name) {
            Some(i) => Some(i + 1),
            None => None,
        }
    }
}

/// A list with one header folded in: its value replaces that of the first
/// header of the same name, in any case; else it goes last.
pub open spec fn with_header(hs: Seq<(Seq<char>, Seq<char>)>, h: (Seq<char>, Seq<char>)) -> Seq<
    (Seq<char>, Seq<char>),
> {
    match header_slot(hs, h.0) {
        Some(i) => hs.update(i, (hs[i].0, h.1)),
        None => hs.push(h),
    }
}

/// A list with all headers of another folded in.
pub open spec fn merged_headers(
    base: Seq<(Seq<char>, Seq<char>)>,
    overlay: Seq<(Seq<char>, Seq<char>)>,
) -> Seq<(Seq<char>, Seq<char>)>
    decreases overlay.len(),
{
    if overlay.len() == 0 {
        base
    } else {
        with_header(merged_headers(base, overlay.drop_last()), overlay.last())
    }
}

proof fn lemma_header_slot(hs: Seq<(Seq<char>, Seq<char>)>, name: Seq<char>)
    ensures
        match header_slot(hs, name) {
            Some(i) => 0 <= i < hs.len() && lower(hs[i].0) == lower(name) && forall|j: int|
                0 <= j < i ==> lower((#[trigger] hs[j]).0) != lower(name),
            None => forall|i: int| 0 <= i < hs.len() ==> lower((#[trigger] hs[i]).0) != lower(name),
        },
    decreases hs.len(),
{
    if hs.len() > 0 && lower(hs[0].0) != lower(name) {
        lemma_header_slot(hs.skip(1), name);
        assert forall|i: int| 0 < i < hs.len() implies #[trigger] hs[i] == hs.skip(1)[i - 1] by {}
    }
}

fn find_slot(hs: &Vec<(String, String)>, name: &str) -> (r: Option<usize>)
    ensures
        match r {
            Some(i) => header_slot(hs.deep_view(), name@) == Some(i as int) && i < hs@.len(),
            None => header_slot(hs.deep_view(), name@) is None,
        },
{
    let ghost all = hs.deep_view();
    assert(all.skip(0) =~= all);
    for i in 0..hs.len()
        invariant
            all == hs.deep_view(),
            match header_slot(all.skip(i as int), name@) {
                Some(j) => header_slot(all, name@) == Some(i + j),
                None => header_slot(all, name@) is None,
            },
    {
        assert(all.skip(i as int)[0] == (hs@[i as int].0@, hs@[i as int].1@));
        assert(all.skip(i as int).skip(1) =~= all.skip(i + 1));
        if same_ignore_case(hs[i].0.as_str(), name) {
            return Some(i);
        }
    }
    None
}

/// `base` with `overlay` folded on top: an overlay entry replaces a `base`
/// entry whose name matches case-insensitively, otherwise it is appended.
pub fn merge_header_lists(base: Vec<(String, String)>, overlay: &Vec<(String, String)>) -> (r: Vec<
    (String, String),
>)
    ensures
        r.deep_view() == merged_headers(base.deep_view(), overlay.deep_view()),
{
    let ghost first = base.deep_view();
    let ghost over = overlay.deep_view();
    let mut out = base;
    assert(over.take(0) =~= seq![]);
    for i in 0..overlay.len()
        invariant
            over == overlay.deep_view(),
            out.deep_view() == merged_headers(first, over.take(i as int)),
    {
        assert(over.take(i + 1).drop_last() =~= over.take(i as int));
        assert(over.take(i + 1).last() == (overlay@[i as int].0@, overlay@[i as int].1@));
        let ghost before = out.deep_view();
        let value = overlay[i].1.clone();
        match find_slot(&out, overlay[i].0.as_str()) {
            Some(j) => {
                let name = out[j].0.clone();
                assert(before[j as int].0 == name@);
                out.set(j, (name, value));
                assert(out.deep_view() =~= before.update(j as int, (name@, value@)));
            },
            None => {
                out.push((overlay[i].0.clone(), value));
                assert(out.deep_view() =~= before.push((overlay@[i as int].0@, value@)));
            },
        }
    }
    assert(over.take(overlay@.len() as int) =~= over);
    out
}

/// The headers an object stands for; a value that is no string is empty.
pub open spec fn headers_of(v: Option<JsonView>) -> Seq<(Seq<char>, Seq<char>)> {
    match v {
        Some(JsonView::Object(ms)) => ms.map_values(
            |m: (Seq<char>, JsonView)| (m.0, or_empty(m.1.str())),
        ),
        _ => seq![],
    }
}

/// The headers an object stands for.
pub fn header_map(v: Option<&Json>) -> (r: Vec<(String, String)>)
    ensures
        r.deep_view() == headers_of(
            match v {
                Some(j) => Some(j@),
                None => None,
            },
        ),
{
    let mut out: Vec<(String, String)> = Vec::new();
    assert(out.deep_view() =~= seq![]);
    match v {
        Some(j) => match j {
            Json::Object(ms) => {
                let ghost expect = headers_of(Some(j@));
                for i in 0..ms.len()
                    invariant
                        *j == Json::Object(*ms),
                        expect == headers_of(Some(j@)),
                        expect.len() == ms@.len(),
                        out@.len() == i,
                        forall|k: int|
                            0 <= k < i ==> ((#[trigger] out@[k]).0@, out@[k].1@) == expect[k],
                {
                    assert(j@->Object_0[i as int] == (ms@[i as int].0@, ms@[i as int].1@));
                    let value: String = match ms[i].1.as_str() {
                        Some(s) => s.to_owned(),
                        None => String::new(),
                    };
                    assert(value@ =~= or_empty(ms@[i as int].1@.str()));
                    out.push((ms[i].0.clone(), value));
                }
                assert(out.deep_view() =~= expect);
                out
            },
            _ => out,
        },
        None => out,
    }
}

// ---------------------------------------------------------------------------
// Response bodies
// ---------------------------------------------------------------------------

/// What `base64`'s standard engine decodes a string to.
pub uninterp spec fn base64_decoded(s: Seq<char>) -> Option<Seq<u8>>;

/// Calls `base64::engine::general_purpose::STANDARD.decode`. The result is named
/// and depends on the string alone; it is `None` where the call reports an error.
#[verifier::external_body]
fn call_base64(s: &str) -> (r: Option<Vec<u8>>)
    ensures
        r.deep_view() == base64_decoded(s@),
{
    base64::Engine::decode(&base64::engine::general_purpose::STANDARD, s).ok()
}

/// How many bytes of an encoded body are decoded: whole groups of four, at most
/// 24 KiB.
pub open spec fn encoded_prefix(raw: Seq<char>) -> int {
    (if byte_len(raw) < 24_576 {
        byte_len(raw) as int
    } else {
        24_576
    }) / 4 * 4
}

/// Whether a body's encoded prefix ends between two characters.
pub open spec fn body_cuts(reply: JsonView) -> bool {
    let raw = or_empty(reply.str_field("body"@));
    reply.bool_field("base64Encoded"@) == Some(true) ==> is_char_boundary(
        encode_utf8(raw),
        encoded_prefix(raw),
    )
}

/// The text that decoded bytes stand for; bytes that are no text, or none, are
/// an empty one.
pub open spec fn decoded_text(bytes: Option<Seq<u8>>) -> Seq<char> {
    match bytes {
        Some(b) => if valid_utf8(b) {
            decode_utf8(b)
        } else {
            seq![]
        },
        None => seq![],
    }
}

/// The head of a response body: enough to tell a manifest by.
pub open spec fn body_head(reply: JsonView) -> Seq<char> {
    let raw = or_empty(reply.str_field("body"@));
    if reply.bool_field("base64Encoded"@) == Some(true) {
        decoded_text(base64_decoded(byte_prefix(raw, encoded_prefix(raw))))
    } else if byte_len(raw) >= 16_384 && is_char_boundary(encode_utf8(raw), 16_384) {
        byte_prefix(raw, 16_384)
    } else {
        raw
    }
}

/// The text that decoded bytes stand for.
pub fn text_of_decoded(bytes: Option<Vec<u8>>) -> (r: String)
    ensures
        r@ == decoded_text(bytes.deep_view()),
{
    match bytes {
        Some(b) => {
            let ghost bv = b@;
            assert(b.deep_view() =~= b@);
            match strict_text(b) {
                Some(s) => {
                    proof {
                        encode_utf8_decode_utf8(s@);
                    }
                    s
                },
                None => {
                    let r = String::new();
                    assert(r@ =~= seq![]);
                    r
                },
            }
        },
        None => {
            let r = String::new();
            assert(r@ =~= seq![]);
            r
        },
    }
}

/// The head of a response body.
pub fn read_body_head(reply: &Json) -> (r: String)
    requires
        body_cuts(reply@),
    ensures
        r@ == body_head(reply@),
{
    let raw: String = match reply.str_at("body") {
        Some(s) => s,
        None => String::new(),
    };
    assert(raw@ =~= or_empty(reply@.str_field("body"@)));
    let total: usize = raw.as_str().as_bytes().len();
    if reply.bool_at("base64Encoded") == Some(true) {
        let n: usize = (if total < 24_576 {
            total
        } else {
            24_576
        }) / 4 * 4;
        let (head, _) = split_bytes(raw.as_str(), n);
        return text_of_decoded(call_base64(head.as_str()));
    }
    if total >= 16_384 && raw.as_str().is_char_boundary(16_384) {
        split_bytes(raw.as_str(), 16_384).0
    } else {
        raw
    }
}

// ---------------------------------------------------------------------------
// The sniff
// ---------------------------------------------------------------------------

/// One tracked request, so that a match on its response can still hand back the
/// URL and the replay headers.
pub struct Req {
    pub url: Option<Url>,
    pub headers: Vec<(String, String)>,
    /// The headers the browser adds after the first report of a request.
    pub extra_headers: Vec<(String, String)>,
    pub rtype: String,
    pub status: i64,
    pub mime: String,
}

/// What a tracked request stands for.
#[verifier::ext_equal]
pub struct ReqView {
    pub url: Option<UrlView>,
    pub headers: Seq<(Seq<char>, Seq<char>)>,
    pub extra_headers: Seq<(Seq<char>, Seq<char>)>,
    pub rtype: Seq<char>,
    pub status: i64,
    pub mime: Seq<char>,
}

impl DeepView for Req {
    type V = ReqView;

    open spec fn deep_view(&self) -> ReqView {
        ReqView {
            url: self.url.deep_view(),
            headers: self.headers.deep_view(),
            extra_headers: self.extra_headers.deep_view(),
            rtype: self.rtype@,
            status: self.status,
            mime: self.mime@,
        }
    }
}

/// A request of which nothing is known.
pub open spec fn blank_req() -> ReqView {
    ReqView {
        url: None,
        headers: seq![],
        extra_headers: seq![],
        rtype: seq![],
        status: 0,
        mime: seq![],
    }
}

impl Req {
    fn blank() -> (r: Req)
        ensures
            r.deep_view() == blank_req(),
    {
        let r = Req {
            url: None,
            headers: Vec::new(),
            extra_headers: Vec::new(),
            rtype: String::new(),
            status: 0,
            mime: String::new(),
        };
        assert(r.deep_view() =~= blank_req());
        r
    }
}

/// The tracked request of an id, or a blank one.
pub open spec fn req_of(reqs: Seq<(Seq<char>, ReqView)>, id: Seq<char>) -> ReqView {
    match lookup(reqs, id) {
        Some(r) => r,
        None => blank_req(),
    }
}

/// Whether an id is tracked or can be.
pub open spec fn has_room(reqs: Seq<(Seq<char>, ReqView)>, id: Seq<char>) -> bool {
    lookup(reqs, id) is Some || reqs.len() < MAX_TRACKED_REQS
}

/// What to do next.
pub enum SniffStep {
    /// Run the page interaction, and report its result.
    Interact,
    /// Read the head of the document, and report it.
    Probe,
    /// Wait for an event this long (milliseconds), and report what came.
    Wait { ms: u64 },
    /// Close a popup, then go on.
    ClosePopup { target: String },
    /// Instrument a sub-frame, then go on.
    Adopt { session: String },
    /// Read a response body, over a session where there is one, and report it.
    ReadBody { request: String, via: Option<String> },
    /// Go on from the top.
    Again,
    /// A match. The sniff is over.
    Hit { url: Url, headers: Vec<(String, String)> },
    /// A challenge that needs a person. The sniff is over.
    Challenge,
    /// Nothing matched in time. Read the head of the document and conclude.
    GiveUp,
}

/// What a step stands for.
pub enum SniffStepView {
    Interact,
    Probe,
    Wait { ms: u64 },
    ClosePopup { target: Seq<char> },
    Adopt { session: Seq<char> },
    ReadBody { request: Seq<char>, via: Option<Seq<char>> },
    Again,
    Hit { url: UrlView, headers: Seq<(Seq<char>, Seq<char>)> },
    Challenge,
    GiveUp,
}

impl View for SniffStep {
    type V = SniffStepView;

    open spec fn view(&self) -> SniffStepView {
        match *self {
            SniffStep::Interact => SniffStepView::Interact,
            SniffStep::Probe => SniffStepView::Probe,
            SniffStep::Wait { ms } => SniffStepView::Wait { ms },
            SniffStep::ClosePopup { target } => SniffStepView::ClosePopup { target: target@ },
            SniffStep::Adopt { session } => SniffStepView::Adopt { session: session@ },
            SniffStep::ReadBody { request, via } => SniffStepView::ReadBody {
                request: request@,
                via: via.deep_view(),
            },
            SniffStep::Again => SniffStepView::Again,
            SniffStep::Hit { url, headers } => SniffStepView::Hit {
                url: url@,
                headers: headers.deep_view(),
            },
            SniffStep::Challenge => SniffStepView::Challenge,
            SniffStep::GiveUp => SniffStepView::GiveUp,
        }
    }
}

/// How a wait ended without an event.
#[derive(Debug, Clone, Copy, PartialEq, Eq, Structural)]
pub enum WaitEnd {
    /// Nothing came in time.
    TimedOut,
    /// Events were lost.
    Lagged,
    /// No event will come any more.
    Closed,
}

/// The state of a sniff.
pub struct Sniff {
    trigger: Url,
    deadline: u64,
    /// The time left, as of the last turn.
    remaining: u64,
    /// A match that is held for the rest of its headers.
    pending: Option<(String, Url)>,
    pending_until: u64,
    next_probe: u64,
    challenge_since: Option<u64>,
    interact_done: bool,
    next_interact: u64,
    doc_403: bool,
    body_reads: usize,
    reqs: Vec<(String, Req)>,
}

/// What the state of a sniff stands for.
#[verifier::ext_equal]
pub struct SniffView {
    pub trigger: UrlView,
    pub deadline: u64,
    pub remaining: u64,
    pub pending: Option<(Seq<char>, UrlView)>,
    pub pending_until: u64,
    pub next_probe: u64,
    pub challenge_since: Option<u64>,
    pub interact_done: bool,
    pub next_interact: u64,
    pub doc_403: bool,
    pub body_reads: nat,
    pub reqs: Seq<(Seq<char>, ReqView)>,
}

impl View for Sniff {
    type V = SniffView;

    closed spec fn view(&self) -> SniffView {
        SniffView {
            trigger: self.trigger@,
            deadline: self.deadline,
            remaining: self.remaining,
            pending: self.pending.deep_view(),
            pending_until: self.pending_until,
            next_probe: self.next_probe,
            challenge_since: self.challenge_since,
            interact_done: self.interact_done,
            next_interact: self.next_interact,
            doc_403: self.doc_403,
            body_reads: self.body_reads as nat,
            reqs: self.reqs.deep_view(),
        }
    }
}

/// How long it is from one instant to a later one.
pub open spec fn until(now: u64, then: u64) -> u64 {
    if then > now {
        (then - now) as u64
    } else {
        0
    }
}

pub open spec fn least(a: u64, b: u64) -> u64 {
    if a <= b {
        a
    } else {
        b
    }
}

/// Whether the result of an interaction says that it is done.
pub open spec fn truthy(v: JsonView) -> bool {
    match v {
        JsonView::Null => false,
        JsonView::Bool(b) => b,
        JsonView::Str(s) => s.len() > 0,
        JsonView::Int(n) => n != 0,
        JsonView::Big(n) => n != 0,
        JsonView::Micros(n) => n != 0,
        _ => true,
    }
}

impl SniffView {
    /// A sniff at its start.
    pub open spec fn started(trigger: UrlView, now: u64, timeout: u64, interacts: bool) -> SniffView {
        SniffView {
            trigger,
            deadline: (now + timeout) as u64,
            remaining: timeout,
            pending: None,
            pending_until: (now + timeout) as u64,
            next_probe: (now + FIRST_PROBE_MS) as u64,
            challenge_since: None,
            interact_done: !interacts,
            next_interact: (now + FIRST_INTERACT_MS) as u64,
            doc_403: false,
            body_reads: 0,
            reqs: seq![],
        }
    }

    /// A turn starts: interact when it is due, nothing is held and time is left.
    pub open spec fn turn(self, now: u64) -> (SniffView, SniffStepView) {
        let s = SniffView { remaining: until(now, self.deadline), ..self };
        if !s.interact_done && s.pending is None && now >= s.next_interact && s.remaining > 0 {
            (
                SniffView { next_interact: (now + INTERACT_EVERY_MS) as u64, ..s },
                SniffStepView::Interact,
            )
        } else {
            s.probe_turn(now)
        }
    }

    /// Probe for a challenge when it is due and time is left.
    pub open spec fn probe_turn(self, now: u64) -> (SniffView, SniffStepView) {
        if now >= self.next_probe && self.remaining > 0 {
            (SniffView { next_probe: (now + PROBE_EVERY_MS) as u64, ..self }, SniffStepView::Probe)
        } else {
            (self, self.wait_turn(now))
        }
    }

    /// Whether the held match has all of its headers.
    pub open spec fn have_extra(self) -> bool {
        match self.pending {
            Some((id, _)) => req_of(self.reqs, id).extra_headers.len() > 0,
            None => false,
        }
    }

    /// Hand out a held match whose headers are in or whose time is up; give up
    /// when no time is left; else wait until something is due.
    pub open spec fn wait_turn(self, now: u64) -> SniffStepView {
        match self.pending {
            Some((id, url)) => if self.have_extra() || now >= self.pending_until || self.remaining
                == 0 {
                let r = req_of(self.reqs, id);
                SniffStepView::Hit { url, headers: merged_headers(r.headers, r.extra_headers) }
            } else {
                SniffStepView::Wait { ms: self.wait_ms(now) }
            },
            None => if self.remaining == 0 {
                SniffStepView::GiveUp
            } else {
                SniffStepView::Wait { ms: self.wait_ms(now) }
            },
        }
    }

    /// How long to wait: never past what is due next.
    pub open spec fn wait_ms(self, now: u64) -> u64 {
        let held = if self.pending is Some {
            least(until(now, self.pending_until), self.remaining)
        } else {
            self.remaining
        };
        let probed = least(held, until(now, self.next_probe));
        if self.interact_done {
            probed
        } else {
            least(probed, until(now, self.next_interact))
        }
    }

    /// The interaction ended, with a value or without.
    pub open spec fn interacted(self, now: u64, value: Option<JsonView>) -> (
        SniffView,
        SniffStepView,
    ) {
        let done = self.interact_done || (match value {
            Some(v) => truthy(v),
            None => false,
        });
        (SniffView { interact_done: done, ..self }).probe_turn(now)
    }

    /// The head of the document was read. A challenge that is still there after
    /// its grace ends the sniff.
    pub open spec fn probed(self, now: u64, html: Seq<char>) -> (SniffView, SniffStepView) {
        if is_challenge(200, html, None) {
            match self.challenge_since {
                None => {
                    let s = SniffView { challenge_since: Some(now), ..self };
                    (s, s.wait_turn(now))
                },
                Some(t) => if now - t >= CHALLENGE_GRACE_MS {
                    (self, SniffStepView::Challenge)
                } else {
                    (self, self.wait_turn(now))
                },
            }
        } else {
            let s = SniffView { challenge_since: None, ..self };
            (s, s.wait_turn(now))
        }
    }

    /// A request is about to be sent.
    pub open spec fn request_sent(
        self,
        now: u64,
        p: JsonView,
        id: Option<Seq<char>>,
        globs: Seq<Seq<char>>,
    ) -> (SniffView, SniffStepView) {
        match p.str_field2("request"@, "url"@) {
            None => (self, SniffStepView::Again),
            Some(text) => match url_parsed(text) {
                Err(_) => (self, SniffStepView::Again),
                Ok(url) => {
                    let rtype = or_empty(p.str_field("type"@));
                    let headers = headers_of(p.field2("request"@, "headers"@));
                    let hit = url_hits(globs, url);
                    match id {
                        None => if hit {
                            (self, SniffStepView::Hit { url, headers })
                        } else {
                            (self, SniffStepView::Again)
                        },
                        Some(i) => {
                            let seen = ReqView {
                                url: Some(url),
                                headers,
                                rtype,
                                ..req_of(self.reqs, i)
                            };
                            let noted = SniffView {
                                reqs: upserted(self.reqs, i, seen),
                                ..self
                            };
                            if hit && self.pending is Some {
                                (self, SniffStepView::Hit { url, headers })
                            } else if hit {
                                (
                                    SniffView {
                                        pending: Some((i, url)),
                                        pending_until: (now + PENDING_GRACE_MS) as u64,
                                        ..noted
                                    },
                                    SniffStepView::Again,
                                )
                            } else if trackable_type(rtype) && has_room(self.reqs, i) {
                                (noted, SniffStepView::Again)
                            } else {
                                (self, SniffStepView::Again)
                            }
                        },
                    }
                },
            },
        }
    }

    /// The rest of a request's headers came.
    pub open spec fn extra_info(self, p: JsonView, id: Option<Seq<char>>) -> SniffView {
        let headers = headers_of(p.field("headers"@));
        match id {
            Some(i) => if has_room(self.reqs, i) && headers.len() > 0 {
                SniffView {
                    reqs: upserted(
                        self.reqs,
                        i,
                        ReqView { extra_headers: headers, ..req_of(self.reqs, i) },
                    ),
                    ..self
                }
            } else {
                self
            },
            None => self,
        }
    }

    /// The state after the head of a response has been noted.
    pub open spec fn response_noted(self, p: JsonView, id: Option<Seq<char>>) -> SniffView {
        let mime = or_empty(p.str_field2("response"@, "mimeType"@));
        let text = or_empty(p.str_field2("response"@, "url"@));
        let rtype = or_empty(p.str_field("type"@));
        let status = status_of(p);
        let s = SniffView {
            doc_403: self.doc_403 || (rtype == "Document"@ && (status == 403 || status == 503)),
            ..self
        };
        match id {
            Some(i) => if has_room(self.reqs, i) {
                let r = req_of(self.reqs, i);
                let noted = ReqView {
                    status,
                    mime,
                    rtype: if rtype.len() > 0 {
                        rtype
                    } else {
                        r.rtype
                    },
                    url: match r.url {
                        Some(u) => Some(u),
                        None => parsed_url(text),
                    },
                    ..r
                };
                SniffView { reqs: upserted(self.reqs, i, noted), ..s }
            } else {
                s
            },
            None => s,
        }
    }

    /// The head of a response came: a match by content type, or by the URL that
    /// answered.
    pub open spec fn response(self, p: JsonView, id: Option<Seq<char>>, globs: Seq<Seq<char>>) -> (
        SniffView,
        SniffStepView,
    ) {
        let mime = or_empty(p.str_field2("response"@, "mimeType"@));
        let text = or_empty(p.str_field2("response"@, "url"@));
        let s = self.response_noted(p, id);
        let known = match id {
            Some(i) => lookup(s.reqs, i),
            None => None,
        };
        let rest = SniffView {
            reqs: match id {
                Some(i) => without_key(s.reqs, i),
                None => s.reqs,
            },
            ..s
        };
        let headers = match known {
            Some(r) => merged_headers(r.headers, r.extra_headers),
            None => seq![],
        };
        if manifest_mime(mime) {
            let url = match known {
                Some(r) => match r.url {
                    Some(u) => u,
                    None => self.trigger,
                },
                None => match parsed_url(text) {
                    Some(u) => u,
                    None => self.trigger,
                },
            };
            (rest, SniffStepView::Hit { url, headers })
        } else {
            match parsed_url(text) {
                Some(url) => if url_hits(globs, url) {
                    (rest, SniffStepView::Hit { url, headers })
                } else {
                    (s, SniffStepView::Again)
                },
                None => (s, SniffStepView::Again),
            }
        }
    }

    /// Whether a finished response is worth reading.
    pub open spec fn worth_reading(self, p: JsonView, id: Seq<char>) -> bool {
        let size = match p.field("encodedDataLength"@) {
            Some(v) => match v.micros() {
                Some(n) => n,
                None => 0,
            },
            None => 0,
        };
        match lookup(self.reqs, id) {
            Some(r) => readable_type(r.rtype) && 200 <= r.status < 300 && 0 < size
                < MAX_BODY_MICROS && !manifest_mime(r.mime) && self.body_reads < MAX_BODY_READS,
            None => false,
        }
    }

    /// A response is complete.
    pub open spec fn finished(
        self,
        p: JsonView,
        id: Option<Seq<char>>,
        session: Option<Seq<char>>,
    ) -> (SniffView, SniffStepView) {
        match id {
            Some(i) => if self.worth_reading(p, i) {
                (
                    SniffView { body_reads: self.body_reads + 1, ..self },
                    SniffStepView::ReadBody { request: i, via: session },
                )
            } else {
                (self, SniffStepView::Again)
            },
            None => (self, SniffStepView::Again),
        }
    }

    /// A response body was read, or could not be.
    pub open spec fn body_read(self, id: Seq<char>, reply: Option<JsonView>) -> (
        SniffView,
        SniffStepView,
    ) {
        match (reply, lookup(self.reqs, id)) {
            (Some(v), Some(r)) => if manifest_body(body_head(v)) {
                (
                    SniffView { reqs: without_key(self.reqs, id), ..self },
                    SniffStepView::Hit {
                        url: match r.url {
                            Some(u) => u,
                            None => self.trigger,
                        },
                        headers: merged_headers(r.headers, r.extra_headers),
                    },
                )
            } else {
                (self, SniffStepView::Again)
            },
            _ => (self, SniffStepView::Again),
        }
    }

    /// An event came. Sub-targets are closed or adopted; network events count
    /// where they are of one of the sniff's sessions, or of none.
    pub open spec fn event(
        self,
        now: u64,
        e: EventView,
        globs: Seq<Seq<char>>,
        sessions: Seq<Seq<char>>,
    ) -> (SniffView, SniffStepView) {
        let id = e.params.str_field("requestId"@);
        if e.method == "Target.attachedToTarget"@ {
            (self, attached(e.params))
        } else if e.session_id is Some && !sessions.contains(e.session_id->Some_0) {
            (self, SniffStepView::Again)
        } else if e.method == "Network.requestWillBeSent"@ {
            self.request_sent(now, e.params, id, globs)
        } else if e.method == "Network.requestWillBeSentExtraInfo"@ {
            (self.extra_info(e.params, id), SniffStepView::Again)
        } else if e.method == "Network.responseReceived"@ {
            self.response(e.params, id, globs)
        } else if e.method == "Network.loadingFinished"@ {
            self.finished(e.params, id, e.session_id)
        } else {
            (self, SniffStepView::Again)
        }
    }

    /// The verdict when nothing matched.
    pub open spec fn conclusion(self, html: Seq<char>) -> BrowserFault {
        if self.doc_403 || is_challenge(200, html, None) {
            BrowserFault::Challenge
        } else {
            BrowserFault::NoMatch
        }
    }
}

/// The URL a text parses to.
pub open spec fn parsed_url(text: Seq<char>) -> Option<UrlView> {
    match url_parsed(text) {
        Ok(u) => Some(u),
        Err(_) => None,
    }
}

/// The status of a response.
pub open spec fn status_of(p: JsonView) -> i64 {
    match p.field2("response"@, "status"@) {
        Some(JsonView::Int(n)) => n,
        _ => 0,
    }
}

/// What to do with a target that was attached: popups and new tabs are closed,
/// anything else with a session is adopted.
pub open spec fn attached(p: JsonView) -> SniffStepView {
    let kind = or_empty(p.str_field2("targetInfo"@, "type"@));
    if kind == "page"@ || kind == "tab"@ {
        match p.str_field2("targetInfo"@, "targetId"@) {
            Some(t) => SniffStepView::ClosePopup { target: t },
            None => SniffStepView::Again,
        }
    } else {
        match p.str_field("sessionId"@) {
            Some(s) => SniffStepView::Adopt { session: s },
            None => SniffStepView::Again,
        }
    }
}

fn time_until(now: u64, then: u64) -> (r: u64)
    ensures
        r == until(now, then),
{
    if then > now {
        then - now
    } else {
        0
    }
}

fn smaller(a: u64, b: u64) -> (r: u64)
    ensures
        r == least(a, b),
{
    if a <= b {
        a
    } else {
        b
    }
}

/// Whether the result of an interaction says that it is done.
pub fn is_truthy(v: &Json) -> (r: bool)
    ensures
        r == truthy(v@),
{
    match v {
        Json::Null => false,
        Json::Bool(b) => *b,
        Json::Str(s) => s.as_str().unicode_len() > 0,
        Json::Int(n) => *n != 0,
        Json::Big(n) => *n != 0,
        Json::Micros(n) => *n != 0,
        _ => true,
    }
}

fn parse_opt(text: &str) -> (r: Option<Url>)
    ensures
        r.deep_view() == parsed_url(text@),
{
    match Url::parse(text) {
        Ok(u) => Some(u),
        Err(_) => None,
    }
}

fn text_or_empty(s: Option<String>) -> (r: String)
    ensures
        r@ == or_empty(s.deep_view()),
{
    match s {
        Some(t) => t,
        None => {
            let t = String::new();
            assert(t@ =~= seq![]);
            t
        },
    }
}

fn contains_text(v: &Vec<String>, s: &str) -> (r: bool)
    ensures
        r == v.deep_view().contains(s@),
{
    for i in 0..v.len()
        invariant
            forall|k: int| 0 <= k < i ==> (#[trigger] v.deep_view()[k]) != s@,
    {
        if same(v[i].as_str(), s) {
            assert(v.deep_view()[i as int] == s@);
            return true;
        }
    }
    false
}

/// What to do with a target that was attached.
pub fn on_attached(p: &Json) -> (r: SniffStep)
    ensures
        r@ == attached(p@),
{
    let kind = text_or_empty(p.str_at2("targetInfo", "type"));
    if same(kind.as_str(), "page") || same(kind.as_str(), "tab") {
        match p.str_at2("targetInfo", "targetId") {
            Some(target) => SniffStep::ClosePopup { target },
            None => SniffStep::Again,
        }
    } else {
        match p.str_at("sessionId") {
            Some(session) => SniffStep::Adopt { session },
            None => SniffStep::Again,
        }
    }
}

impl Sniff {
    /// A sniff of `trigger` that starts now. `interacts` says whether there is a
    /// page interaction to run.
    pub fn start(trigger: Url, now: u64, timeout: u64, interacts: bool) -> (r: Sniff)
        requires
            now <= CLOCK_END_MS,
            now + timeout <= CLOCK_END_MS,
        ensures
            r@ == SniffView::started(trigger@, now, timeout, interacts),
    {
        let r = Sniff {
            trigger,
            deadline: now + timeout,
            remaining: timeout,
            pending: None,
            pending_until: now + timeout,
            next_probe: now + FIRST_PROBE_MS,
            challenge_since: None,
            interact_done: !interacts,
            next_interact: now + FIRST_INTERACT_MS,
            doc_403: false,
            body_reads: 0,
            reqs: Vec::new(),
        };
        assert(r@.reqs =~= seq![]);
        r
    }

    /// Start a turn.
    pub fn turn(&mut self, now: u64) -> (r: SniffStep)
        requires
            now <= CLOCK_END_MS,
        ensures
            (final(self)@, r@) == old(self)@.turn(now),
    {
        self.remaining = time_until(now, self.deadline);
        if !self.interact_done && self.pending.is_none() && now >= self.next_interact
            && self.remaining > 0 {
            self.next_interact = now + INTERACT_EVERY_MS;
            SniffStep::Interact
        } else {
            self.probe_turn(now)
        }
    }

    fn probe_turn(&mut self, now: u64) -> (r: SniffStep)
        requires
            now <= CLOCK_END_MS,
        ensures
            (final(self)@, r@) == old(self)@.probe_turn(now),
    {
        if now >= self.next_probe && self.remaining > 0 {
            self.next_probe = now + PROBE_EVERY_MS;
            SniffStep::Probe
        } else {
            self.wait_turn(now)
        }
    }

    fn wait_ms(&self, now: u64) -> (r: u64)
        ensures
            r == self@.wait_ms(now),
    {
        let held: u64 = if self.pending.is_some() {
            smaller(time_until(now, self.pending_until), self.remaining)
        } else {
            self.remaining
        };
        let probed: u64 = smaller(held, time_until(now, self.next_probe));
        if self.interact_done {
            probed
        } else {
            smaller(probed, time_until(now, self.next_interact))
        }
    }

    fn wait_turn(&self, now: u64) -> (r: SniffStep)
        ensures
            r@ == self@.wait_turn(now),
    {
        match &self.pending {
            Some((id, url)) => {
                let (headers, extra): (Vec<(String, String)>, Vec<(String, String)>) = match find_key(
                    &self.reqs,
                    id.as_str(),
                ) {
                    Some(i) => {
                        assert(self@.reqs[i as int].1 == self.reqs@[i as int].1.deep_view());
                        (
                            copy_headers(&self.reqs[i].1.headers),
                            copy_headers(&self.reqs[i].1.extra_headers),
                        )
                    },
                    None => {
                        let a: Vec<(String, String)> = Vec::new();
                        let b: Vec<(String, String)> = Vec::new();
                        assert(a.deep_view() =~= seq![]);
                        assert(b.deep_view() =~= seq![]);
                        (a, b)
                    },
                };
                assert(extra.deep_view().len() == extra@.len());
                if extra.len() > 0 || now >= self.pending_until || self.remaining == 0 {
                    SniffStep::Hit { url: url.copy(), headers: merge_header_lists(headers, &extra) }
                } else {
                    SniffStep::Wait { ms: self.wait_ms(now) }
                }
            },
            None => {
                if self.remaining == 0 {
                    SniffStep::GiveUp
                } else {
                    SniffStep::Wait { ms: self.wait_ms(now) }
                }
            },
        }
    }

    /// The interaction ended, with a value or without.
    pub fn interacted(&mut self, now: u64, value: Option<Json>) -> (r: SniffStep)
        requires
            now <= CLOCK_END_MS,
        ensures
            (final(self)@, r@) == old(self)@.interacted(
                now,
                match value {
                    Some(v) => Some(v@),
                    None => None,
                },
            ),
    {
        match &value {
            Some(v) => {
                if is_truthy(v) {
                    self.interact_done = true;
                }
            },
            None => {},
        }
        self.probe_turn(now)
    }

    /// The head of the document was read.
    pub fn probed(&mut self, now: u64, html: &str) -> (r: SniffStep)
        ensures
            (final(self)@, r@) == old(self)@.probed(now, html@),
    {
        if looks_like_cloudflare_challenge(200, html, None) {
            match self.challenge_since {
                None => {
                    self.challenge_since = Some(now);
                },
                Some(t) => {
                    if now >= t && now - t >= CHALLENGE_GRACE_MS {
                        return SniffStep::Challenge;
                    }
                },
            }
        } else {
            self.challenge_since = None;
        }
        self.wait_turn(now)
    }

    /// A wait ended without an event.
    pub fn waited(&self, end: WaitEnd) -> (r: SniffStep)
        ensures
            r@ == match end {
                WaitEnd::Closed => SniffStepView::GiveUp,
                _ => SniffStepView::Again,
            },
    {
        match end {
            WaitEnd::Closed => SniffStep::GiveUp,
            _ => SniffStep::Again,
        }
    }

    /// Replace what is tracked of a request.
    fn track(&mut self, id: &str, req: Req)
        ensures
            final(self)@ == (SniffView {
                reqs: upserted(old(self)@.reqs, id@, req.deep_view()),
                ..old(self)@
            }),
    {
        let ghost before = self@.reqs;
        let ghost rv = req.deep_view();
        match find_key(&self.reqs, id) {
            Some(i) => {
                self.reqs.set(i, (id.to_owned(), req));
                assert(self@.reqs =~= before.update(i as int, (id@, rv)));
            },
            None => {
                self.reqs.push((id.to_owned(), req));
                assert(self@.reqs =~= before.push((id@, rv)));
            },
        }
    }

    /// Take a request out of the tracked ones.
    fn untrack(&mut self, id: &str) -> (r: Option<Req>)
        ensures
            r.deep_view() == lookup(old(self)@.reqs, id@),
            final(self)@ == (SniffView {
                reqs: without_key(old(self)@.reqs, id@),
                ..old(self)@
            }),
    {
        let ghost before = self@.reqs;
        match find_key(&self.reqs, id) {
            Some(i) => {
                let (_, req) = self.reqs.remove(i);
                assert(before[i as int].1 == req.deep_view());
                assert(self@.reqs =~= before.remove(i as int));
                Some(req)
            },
            None => None,
        }
    }

    fn room_for(&self, id: &str) -> (r: bool)
        ensures
            r == has_room(self@.reqs, id@),
    {
        assert(self@.reqs.len() == self.reqs@.len());
        find_key(&self.reqs, id).is_some() || self.reqs.len() < MAX_TRACKED_REQS
    }

    /// What is tracked of a request, or a blank one.
    fn current(&self, id: &str) -> (r: Req)
        ensures
            r.deep_view() == req_of(self@.reqs, id@),
    {
        match find_key(&self.reqs, id) {
            Some(i) => {
                assert(self@.reqs[i as int].1 == self.reqs@[i as int].1.deep_view());
                let q: &Req = &self.reqs[i].1;
                Req {
                    url: match &q.url {
                        Some(u) => Some(u.copy()),
                        None => None,
                    },
                    headers: copy_headers(&q.headers),
                    extra_headers: copy_headers(&q.extra_headers),
                    rtype: q.rtype.clone(),
                    status: q.status,
                    mime: q.mime.clone(),
                }
            },
            None => Req::blank(),
        }
    }

    fn on_request(&mut self, now: u64, p: &Json, id: &Option<String>, globs: &Globs) -> (r:
        SniffStep)
        requires
            now <= CLOCK_END_MS,
        ensures
            (final(self)@, r@) == old(self)@.request_sent(now, p@, id.deep_view(), globs@),
    {
        let text = match p.str_at2("request", "url") {
            Some(t) => t,
            None => {
                return SniffStep::Again;
            },
        };
        let url = match Url::parse(text.as_str()) {
            Ok(u) => u,
            Err(_) => {
                return SniffStep::Again;
            },
        };
        let rtype = text_or_empty(p.str_at("type"));
        let hit = glob_hit(globs, &url);
        let headers = match p.get("request") {
            Some(q) => header_map(q.get("headers")),
            None => header_map(None),
        };
        match id {
            None => if hit {
                SniffStep::Hit { url, headers }
            } else {
                SniffStep::Again
            },
            Some(i) => {
                if hit && self.pending.is_some() {
                    return SniffStep::Hit { url, headers };
                }
                if !hit && !(req_type_trackable(rtype.as_str()) && self.room_for(i.as_str())) {
                    return SniffStep::Again;
                }
                let mut q = self.current(i.as_str());
                q.rtype = rtype;
                q.url = Some(url.copy());
                q.headers = headers;
                self.track(i.as_str(), q);
                if hit {
                    self.pending = Some((i.clone(), url));
                    self.pending_until = now + PENDING_GRACE_MS;
                }
                SniffStep::Again
            },
        }
    }

    fn on_extra_info(&mut self, p: &Json, id: &Option<String>)
        ensures
            final(self)@ == old(self)@.extra_info(p@, id.deep_view()),
    {
        match id {
            Some(i) => {
                if self.room_for(i.as_str()) {
                    let headers = header_map(p.get("headers"));
                    assert(headers.deep_view().len() == headers@.len());
                    if headers.len() > 0 {
                        let mut q = self.current(i.as_str());
                        q.extra_headers = headers;
                        self.track(i.as_str(), q);
                    }
                }
            },
            None => {},
        }
    }

    fn note_response(&mut self, p: &Json, id: &Option<String>)
        ensures
            final(self)@ == old(self)@.response_noted(p@, id.deep_view()),
    {
        let mime = text_or_empty(p.str_at2("response", "mimeType"));
        let text = text_or_empty(p.str_at2("response", "url"));
        let rtype = text_or_empty(p.str_at("type"));
        let status: i64 = match p.get("response") {
            Some(q) => match q.get("status") {
                Some(v) => match v.as_i64() {
                    Some(n) => n,
                    None => 0,
                },
                None => 0,
            },
            None => 0,
        };
        if same(rtype.as_str(), "Document") && (status == 403 || status == 503) {
            self.doc_403 = true;
        }
        match id {
            Some(i) => {
                if self.room_for(i.as_str()) {
                    let mut q = self.current(i.as_str());
                    q.status = status;
                    q.mime = mime;
                    if rtype.as_str().unicode_len() > 0 {
                        q.rtype = rtype;
                    }
                    if q.url.is_none() {
                        q.url = parse_opt(text.as_str());
                    }
                    self.track(i.as_str(), q);
                }
            },
            None => {},
        }
    }

    fn on_response(&mut self, p: &Json, id: &Option<String>, globs: &Globs) -> (r: SniffStep)
        ensures
            (final(self)@, r@) == old(self)@.response(p@, id.deep_view(), globs@),
    {
        let mime = text_or_empty(p.str_at2("response", "mimeType"));
        let text = text_or_empty(p.str_at2("response", "url"));
        self.note_response(p, id);
        let by_mime = is_manifest_mime(mime.as_str());
        let answered = parse_opt(text.as_str());
        let by_url = match &answered {
            Some(u) => glob_hit(globs, u),
            None => false,
        };
        if !by_mime && !by_url {
            return SniffStep::Again;
        }
        let taken = match id {
            Some(i) => self.untrack(i.as_str()),
            None => None,
        };
        let (own, headers): (Option<Url>, Vec<(String, String)>) = match taken {
            Some(q) => (
                Some(
                    match q.url {
                        Some(u) => u,
                        None => self.trigger.copy(),
                    },
                ),
                merge_header_lists(q.headers, &q.extra_headers),
            ),
            None => {
                let none: Vec<(String, String)> = Vec::new();
                assert(none.deep_view() =~= seq![]);
                (None, none)
            },
        };
        let url = if by_mime && own.is_some() {
            match own {
                Some(u) => u,
                None => self.trigger.copy(),
            }
        } else {
            match answered {
                Some(u) => u,
                None => self.trigger.copy(),
            }
        };
        SniffStep::Hit { url, headers }
    }

    fn on_finished(&mut self, p: &Json, id: &Option<String>, session: &Option<String>) -> (r:
        SniffStep)
        ensures
            (final(self)@, r@) == old(self)@.finished(p@, id.deep_view(), session.deep_view()),
    {
        let i = match id {
            Some(i) => i,
            None => {
                return SniffStep::Again;
            },
        };
        let size: i128 = match p.get("encodedDataLength") {
            Some(v) => match v.as_micros() {
                Some(n) => n,
                None => 0,
            },
            None => 0,
        };
        let worth = match find_key(&self.reqs, i.as_str()) {
            Some(k) => {
                assert(self@.reqs[k as int].1 == self.reqs@[k as int].1.deep_view());
                let q: &Req = &self.reqs[k].1;
                body_worth_type(q.rtype.as_str()) && 200 <= q.status && q.status < 300 && size > 0
                    && size < MAX_BODY_MICROS && !is_manifest_mime(q.mime.as_str())
                    && self.body_reads < MAX_BODY_READS
            },
            None => false,
        };
        if !worth {
            return SniffStep::Again;
        }
        self.body_reads = self.body_reads + 1;
        SniffStep::ReadBody {
            request: i.clone(),
            via: match session {
                Some(s) => Some(s.clone()),
                None => None,
            },
        }
    }

    /// An event came. `sessions` are the sessions of the sniff's own page and
    /// its adopted frames.
    pub fn event(&mut self, now: u64, e: &CdpEvent, globs: &Globs, sessions: &Vec<String>) -> (r:
        SniffStep)
        requires
            now <= CLOCK_END_MS,
        ensures
            (final(self)@, r@) == old(self)@.event(now, e@, globs@, sessions.deep_view()),
    {
        if same(e.method.as_str(), "Target.attachedToTarget") {
            return on_attached(&e.params);
        }
        match &e.session_id {
            Some(s) => {
                if !contains_text(sessions, s.as_str()) {
                    return SniffStep::Again;
                }
            },
            None => {},
        }
        let id = e.params.str_at("requestId");
        if same(e.method.as_str(), "Network.requestWillBeSent") {
            self.on_request(now, &e.params, &id, globs)
        } else if same(e.method.as_str(), "Network.requestWillBeSentExtraInfo") {
            self.on_extra_info(&e.params, &id);
            SniffStep::Again
        } else if same(e.method.as_str(), "Network.responseReceived") {
            self.on_response(&e.params, &id, globs)
        } else if same(e.method.as_str(), "Network.loadingFinished") {
            self.on_finished(&e.params, &id, &e.session_id)
        } else {
            SniffStep::Again
        }
    }

    /// A response body was read, or could not be.
    pub fn body_read(&mut self, id: &str, reply: Option<Json>) -> (r: SniffStep)
        requires
            reply matches Some(v) ==> body_cuts(v@),
        ensures
            (final(self)@, r@) == old(self)@.body_read(
                id@,
                match reply {
                    Some(v) => Some(v@),
                    None => None,
                },
            ),
    {
        match reply {
            Some(v) => {
                let head = read_body_head(&v);
                if !body_is_manifest(head.as_str()) {
                    return SniffStep::Again;
                }
                match self.untrack(id) {
                    Some(q) => {
                        let url = match q.url {
                            Some(u) => u,
                            None => self.trigger.copy(),
                        };
                        SniffStep::Hit {
                            url,
                            headers: merge_header_lists(q.headers, &q.extra_headers),
                        }
                    },
                    None => SniffStep::Again,
                }
            },
            None => SniffStep::Again,
        }
    }

    /// The verdict when nothing matched: a challenge, or just a dud.
    pub fn conclude(&self, html: &str) -> (r: BrowserError)
        ensures
            r@ == self@.conclusion(html@),
    {
        if self.doc_403 || looks_like_cloudflare_challenge(200, html, None) {
            BrowserError::Challenge
        } else {
            BrowserError::NoMatch
        }
    }
}

// ---------------------------------------------------------------------------
// Laws
// ---------------------------------------------------------------------------

/// The bounds that keep a sniff small whatever a page does.
pub open spec fn bounded(s: SniffView) -> bool {
    &&& s.body_reads <= MAX_BODY_READS
    &&& s.reqs.len() <= MAX_TRACKED_REQS + (if s.pending is Some {
        1int
    } else {
        0int
    })
    &&& distinct_keys(s.reqs)
}

proof fn lemma_upsert(reqs: Seq<(Seq<char>, ReqView)>, id: Seq<char>, r: ReqView)
    requires
        distinct_keys(reqs),
    ensures
        distinct_keys(upserted(reqs, id, r)),
        upserted(reqs, id, r).len() <= reqs.len() + 1,
        lookup(reqs, id) is Some ==> upserted(reqs, id, r).len() == reqs.len(),
{
    lemma_index_of_key(reqs, id);
}

proof fn lemma_without(reqs: Seq<(Seq<char>, ReqView)>, id: Seq<char>)
    requires
        distinct_keys(reqs),
    ensures
        distinct_keys(without_key(reqs, id)),
        without_key(reqs, id).len() <= reqs.len(),
{
    lemma_index_of_key(reqs, id);
}

/// A sniff starts within its bounds and no event takes it out of them: at most
/// `MAX_TRACKED_REQS` requests are tracked, besides one held match, and at most
/// `MAX_BODY_READS` bodies are read.
pub proof fn events_keep_a_sniff_bounded(
    s: SniffView,
    now: u64,
    e: EventView,
    globs: Seq<Seq<char>>,
    sessions: Seq<Seq<char>>,
)
    requires
        bounded(s),
    ensures
        bounded(s.event(now, e, globs, sessions).0),
{
    let id = e.params.str_field("requestId"@);
    if id is Some {
        let i = id->Some_0;
        assert forall|r: ReqView|
            distinct_keys(#[trigger] upserted(s.reqs, i, r)) && upserted(s.reqs, i, r).len()
                <= s.reqs.len() + 1 && (lookup(s.reqs, i) is Some ==> upserted(
                s.reqs,
                i,
                r,
            ).len() == s.reqs.len()) by {
            lemma_upsert(s.reqs, i, r);
        }
        lemma_without(s.response_noted(e.params, id).reqs, i);
    }
}

/// The other steps keep the bounds as well.
pub proof fn turns_keep_a_sniff_bounded(
    s: SniffView,
    now: u64,
    value: Option<JsonView>,
    html: Seq<char>,
    id: Seq<char>,
    reply: Option<JsonView>,
)
    requires
        bounded(s),
    ensures
        bounded(s.turn(now).0),
        bounded(s.interacted(now, value).0),
        bounded(s.probed(now, html).0),
        bounded(s.body_read(id, reply).0),
{
    lemma_without(s.reqs, id);
}

/// A new sniff is within its bounds.
pub proof fn new_sniffs_are_bounded(trigger: UrlView, now: u64, timeout: u64, interacts: bool)
    ensures
        bounded(SniffView::started(trigger, now, timeout, interacts)),
{
}

/// Once the deadline has passed a turn ends the sniff: with the held match if
/// there is one, else by giving up.
pub proof fn the_deadline_ends_a_sniff(s: SniffView, now: u64)
    requires
        now >= s.deadline,
    ensures
        s.turn(now).1 is Hit || s.turn(now).1 is GiveUp,
        s.turn(now).1 is Hit <==> s.pending is Some,
{
}

/// A wait never outlasts the deadline, the next probe or a held match.
pub proof fn waits_are_bounded(s: SniffView, now: u64)
    ensures
        s.turn(now).1 matches SniffStepView::Wait { ms } ==> ms <= until(now, s.deadline) && ms
            <= until(now, s.next_probe) && (s.pending is Some ==> ms <= until(
            now,
            s.pending_until,
        )),
{
}

/// Of the overlay's headers of one name, in any case, the last gives the value
/// that the name has after folding in.
pub proof fn overlay_values_win(
    base: Seq<(Seq<char>, Seq<char>)>,
    overlay: Seq<(Seq<char>, Seq<char>)>,
    j: int,
)
    requires
        0 <= j < overlay.len(),
        forall|k: int|
            j < k < overlay.len() ==> lower((#[trigger] overlay[k]).0) != lower(overlay[j].0),
    ensures
        header_slot(merged_headers(base, overlay), overlay[j].0) matches Some(i) && merged_headers(
            base,
            overlay,
        )[i].1 == overlay[j].1,
    decreases overlay.len(),
{
    let rest = overlay.drop_last();
    let before = merged_headers(base, rest);
    let after = merged_headers(base, overlay);
    let h = overlay.last();
    let name = overlay[j].0;
    lemma_header_slot(before, h.0);
    lemma_header_slot(before, name);
    lemma_header_slot(after, name);
    if j < rest.len() {
        assert(rest[j] == overlay[j]);
        assert forall|k: int| j < k < rest.len() implies lower((#[trigger] rest[k]).0) != lower(
            rest[j].0,
        ) by {
            assert(rest[k] == overlay[k]);
        }
        overlay_values_win(base, rest, j);
        assert(lower(overlay[overlay.len() - 1].0) != lower(name));
        let i = header_slot(before, name)->Some_0;
        assert(after[i] == before[i]);
        assert forall|k: int| 0 <= k < i implies lower((#[trigger] after[k]).0) != lower(name) by {
            assert(lower(before[k].0) != lower(name));
            assert(after[k].0 == before[k].0);
        }
    } else {
        let i = match header_slot(before, h.0) {
            Some(i) => i,
            None => before.len() as int,
        };
        assert(after[i].1 == h.1);
        assert(lower(after[i].0) == lower(name));
        assert forall|k: int| 0 <= k < i implies lower((#[trigger] after[k]).0) != lower(name) by {
            assert(lower(before[k].0) != lower(name));
            assert(after[k] == before[k]);
        }
    }
}

/// Whether no name occurs twice, in any case.
pub open spec fn distinct_names(hs: Seq<(Seq<char>, Seq<char>)>) -> bool {
    forall|i: int, j: int|
        0 <= i < j < hs.len() ==> lower((#[trigger] hs[i]).0) != lower((#[trigger] hs[j]).0)
}

/// Folding headers into a list without repeated names repeats none.
pub proof fn folding_repeats_no_name(
    base: Seq<(Seq<char>, Seq<char>)>,
    overlay: Seq<(Seq<char>, Seq<char>)>,
)
    requires
        distinct_names(base),
    ensures
        distinct_names(merged_headers(base, overlay)),
    decreases overlay.len(),
{
    if overlay.len() > 0 {
        let before = merged_headers(base, overlay.drop_last());
        let h = overlay.last();
        folding_repeats_no_name(base, overlay.drop_last());
        lemma_header_slot(before, h.0);
        assert forall|i: int, j: int| 0 <= i < j < with_header(before, h).len() implies lower(
            (#[trigger] with_header(before, h)[i]).0,
        ) != lower((#[trigger] with_header(before, h)[j]).0) by {
            match header_slot(before, h.0) {
                Some(k) => {
                    assert(lower(before[i].0) != lower(before[j].0));
                },
                None => {
                    if j < before.len() {
                        assert(lower(before[i].0) != lower(before[j].0));
                    } else {
                        assert(lower(before[i].0) != lower(h.0));
                    }
                },
            }
        }
    }
}

/// A URL is a match where a pattern matches its path, all of it, or what follows
/// the last slash of its path, whatever the rest of the URL is; no other URL is.
pub proof fn a_pattern_may_match_any_part(globs: Seq<Seq<char>>, u: UrlView, i: int)
    ensures
        any_matches(globs, u.path) ==> url_hits(globs, u),
        any_matches(globs, u.text) ==> url_hits(globs, u),
        0 <= i < u.path.len() && u.path[0] == '/' && u.path[i] == '/' && (forall|k: int|
            i < k < u.path.len() ==> #[trigger] u.path[k] != '/') && any_matches(
            globs,
            u.path.skip(i + 1),
        ) ==> url_hits(globs, u),
        0 <= i < u.path.len() && u.path[0] == '/' && u.path[i] == '/' && (forall|k: int|
            i < k < u.path.len() ==> #[trigger] u.path[k] != '/') && url_hits(globs, u)
            ==> any_matches(globs, u.path) || any_matches(globs, u.text) || any_matches(
            globs,
            u.path.skip(i + 1),
        ),
        globs.len() == 0 ==> !url_hits(globs, u),
{
    if 0 <= i < u.path.len() && u.path[0] == '/' && u.path[i] == '/' && (forall|k: int|
        i < k < u.path.len() ==> #[trigger] u.path[k] != '/') {
        let rest = u.path.skip(1);
        if i > 0 {
            assert(rest[i - 1] == '/');
            assert forall|k: int| i - 1 < k < rest.len() implies !only('/')(
                #[trigger] rest[k],
            ) by {
                assert(rest[k] == u.path[k + 1]);
            }
            the_last_piece_follows_the_last_separator(rest, only('/'), i - 1);
            assert(rest.skip(i) =~= u.path.skip(i + 1));
        } else {
            if rest.contains('/') {
                let k = choose|k: int| 0 <= k < rest.len() && rest[k] == '/';
                assert(rest[k] == u.path[k + 1]);
            }
            a_text_without_separator_is_one_piece(rest, '/');
        }
        assert(last_segment(u.path) == Some(u.path.skip(i + 1)));
    }
}

/// No request that matches is lost: it is handed out at once where nothing can be
/// held for it, and held with its headers otherwise.
pub proof fn a_matching_request_is_taken(
    s: SniffView,
    now: u64,
    p: JsonView,
    id: Option<Seq<char>>,
    globs: Seq<Seq<char>>,
    u: UrlView,
)
    requires
        p.str_field2("request"@, "url"@) matches Some(text) && (url_parsed(text) matches Ok(v) && v
            == u),
        any_matches(globs, u.path) || any_matches(globs, u.text),
        now + PENDING_GRACE_MS <= u64::MAX,
    ensures
        ({
            let (t, step) = s.request_sent(now, p, id, globs);
            let headers = headers_of(p.field2("request"@, "headers"@));
            &&& id is None || s.pending is Some ==> step == (SniffStepView::Hit { url: u, headers })
            &&& id matches Some(i) ==> (s.pending is None ==> {
                &&& step is Again
                &&& t.pending == Some((i, u))
                &&& t.pending_until == now + 400
                &&& lookup(t.reqs, i) matches Some(r) && r.url == Some(u) && r.headers == headers
            })
        }),
{
    a_pattern_may_match_any_part(globs, u, 0);
    if let Some(i) = id {
        let seen = ReqView {
            url: Some(u),
            headers: headers_of(p.field2("request"@, "headers"@)),
            rtype: or_empty(p.str_field("type"@)),
            ..req_of(s.reqs, i)
        };
        setting_a_key_sets_it_alone(s.reqs, i, seen, i);
    }
}

/// A request that does not match is remembered with its URL and headers where it
/// may turn out to be a stream and there is room, and changes nothing held.
pub proof fn other_requests_are_remembered(
    s: SniffView,
    now: u64,
    p: JsonView,
    i: Seq<char>,
    globs: Seq<Seq<char>>,
    u: UrlView,
)
    requires
        p.str_field2("request"@, "url"@) matches Some(text) && (url_parsed(text) matches Ok(v) && v
            == u),
        !url_hits(globs, u),
        s.reqs.len() < MAX_TRACKED_REQS,
    ensures
        ({
            let (t, step) = s.request_sent(now, p, Some(i), globs);
            let kind = or_empty(p.str_field("type"@));
            &&& step is Again
            &&& t.pending == s.pending
            &&& kind != "Image"@ && kind != "Font"@ && kind != "Stylesheet"@ && kind != "Script"@
                && kind != "Ping"@ && kind != "CSPViolationReport"@ ==> (lookup(
                t.reqs,
                i,
            ) matches Some(r) && r.url == Some(u) && r.headers == headers_of(
                p.field2("request"@, "headers"@),
            ) && r.rtype == kind)
            &&& kind == "Image"@ || kind == "Font"@ || kind == "Stylesheet"@ || kind == "Script"@
                || kind == "Ping"@ || kind == "CSPViolationReport"@ ==> t == s
        }),
{
    let seen = ReqView {
        url: Some(u),
        headers: headers_of(p.field2("request"@, "headers"@)),
        rtype: or_empty(p.str_field("type"@)),
        ..req_of(s.reqs, i)
    };
    setting_a_key_sets_it_alone(s.reqs, i, seen, i);
}

/// A held match comes out with its URL: as soon as the rest of its headers is
/// there, when its grace is over, or when no time is left; until then it is
/// waited for.
pub proof fn a_held_match_comes_out(s: SniffView, now: u64, i: Seq<char>, u: UrlView)
    requires
        s.pending == Some((i, u)),
    ensures
        ({
            let due = (lookup(s.reqs, i) matches Some(r) && r.extra_headers.len() > 0) || now
                >= s.pending_until || s.remaining == 0;
            &&& due ==> (s.wait_turn(now) matches SniffStepView::Hit { url, headers } && url == u
                && (lookup(s.reqs, i) matches Some(r) ==> headers == merged_headers(
                r.headers,
                r.extra_headers,
            )))
            &&& !due ==> s.wait_turn(now) is Wait
        }),
{
}

/// Without a held match a sniff waits while time is left and gives up when none
/// is.
pub proof fn a_sniff_without_a_match_waits(s: SniffView, now: u64)
    requires
        s.pending is None,
    ensures
        s.remaining > 0 ==> s.wait_turn(now) is Wait,
        s.remaining == 0 ==> s.wait_turn(now) is GiveUp,
{
}

/// What was sent is handed out: every header of a request is among those of the
/// match, with its own value or a later one of the same name, and no later one is
/// missing.
pub proof fn folding_keeps_every_name(
    base: Seq<(Seq<char>, Seq<char>)>,
    overlay: Seq<(Seq<char>, Seq<char>)>,
    i: int,
)
    requires
        0 <= i < base.len(),
    ensures
        i < merged_headers(base, overlay).len(),
        merged_headers(base, overlay)[i].0 == base[i].0,
        (forall|k: int|
            0 <= k < overlay.len() ==> lower((#[trigger] overlay[k]).0) != lower(base[i].0))
            ==> merged_headers(base, overlay)[i] == base[i],
        merged_headers(base, seq![]) == base,
    decreases overlay.len(),
{
    if overlay.len() > 0 {
        let rest = overlay.drop_last();
        folding_keeps_every_name(base, rest, i);
        lemma_header_slot(merged_headers(base, rest), overlay.last().0);
        if forall|k: int|
            0 <= k < overlay.len() ==> lower((#[trigger] overlay[k]).0) != lower(base[i].0) {
            assert forall|k: int| 0 <= k < rest.len() implies lower((#[trigger] rest[k]).0)
                != lower(base[i].0) by {
                assert(rest[k] == overlay[k]);
            }
            assert(lower(overlay[overlay.len() - 1].0) != lower(base[i].0));
        }
    }
}

/// The rest of a request's headers is remembered with it.
pub proof fn later_headers_are_remembered(s: SniffView, p: JsonView, i: Seq<char>, other: Seq<char>)
    requires
        lookup(s.reqs, i) is Some || s.reqs.len() < MAX_TRACKED_REQS,
        headers_of(p.field("headers"@)).len() > 0,
    ensures
        ({
            let t = s.extra_info(p, Some(i));
            &&& lookup(t.reqs, i) matches Some(r) && r.extra_headers == headers_of(
                p.field("headers"@),
            )
            &&& lookup(s.reqs, i) matches Some(before) ==> (lookup(t.reqs, i) matches Some(r)
                && r.url == before.url && r.headers == before.headers && r.rtype == before.rtype)
            &&& other != i ==> lookup(t.reqs, other) == lookup(s.reqs, other)
            &&& t.pending == s.pending
        }),
{
    let r = ReqView { extra_headers: headers_of(p.field("headers"@)), ..req_of(s.reqs, i) };
    setting_a_key_sets_it_alone(s.reqs, i, r, other);
}

/// The headers of an event are those of its object, in order, each with its text.
pub proof fn every_header_of_an_event_is_read(ms: Seq<(Seq<char>, JsonView)>, i: int)
    requires
        0 <= i < ms.len(),
    ensures
        headers_of(Some(JsonView::Object(ms))).len() == ms.len(),
        headers_of(Some(JsonView::Object(ms)))[i].0 == ms[i].0,
        ms[i].1 matches JsonView::Str(v) ==> headers_of(Some(JsonView::Object(ms)))[i].1 == v,
        headers_of(None).len() == 0,
{
}

/// A response of a manifest's content type, or from a URL that matches, is a
/// match: of the URL that was asked for, or of the one that answered, with the
/// headers that were sent.
pub proof fn a_manifest_response_is_taken(
    s: SniffView,
    p: JsonView,
    i: Seq<char>,
    globs: Seq<Seq<char>>,
    r: ReqView,
    u: UrlView,
)
    requires
        lookup(s.reqs, i) == Some(r),
        r.url == Some(u),
    ensures
        p.str_field2("response"@, "mimeType"@) matches Some(m) ==> (manifest_mime(m) ==> (s.response(
            p,
            Some(i),
            globs,
        ).1 matches SniffStepView::Hit { url, headers } && url == u && headers == merged_headers(
            r.headers,
            r.extra_headers,
        ))),
        p.str_field2("response"@, "url"@) matches Some(text) ==> (url_parsed(text) matches Ok(v)
            ==> (url_hits(globs, v) ==> (s.response(
            p,
            Some(i),
            globs,
        ).1 matches SniffStepView::Hit { url, headers } && (url == v || url == u) && headers
            == merged_headers(r.headers, r.extra_headers)))),
{
    let mime = or_empty(p.str_field2("response"@, "mimeType"@));
    let text = or_empty(p.str_field2("response"@, "url"@));
    let rtype = or_empty(p.str_field("type"@));
    let noted = ReqView {
        status: status_of(p),
        mime,
        rtype: if rtype.len() > 0 {
            rtype
        } else {
            r.rtype
        },
        url: r.url,
        ..r
    };
    setting_a_key_sets_it_alone(s.reqs, i, noted, i);
    assert(s.response_noted(p, Some(i)).reqs == upserted(s.reqs, i, noted));
}

/// A response without a request that is known is a match by the same marks, of
/// the URL that answered.
pub proof fn an_unknown_manifest_response_is_taken(
    s: SniffView,
    p: JsonView,
    globs: Seq<Seq<char>>,
    u: UrlView,
)
    requires
        p.str_field2("response"@, "url"@) matches Some(text) && (url_parsed(text) matches Ok(v) && v
            == u),
        url_hits(globs, u) || (p.str_field2("response"@, "mimeType"@) matches Some(m)
            && manifest_mime(m)),
    ensures
        s.response(p, None, globs).1 matches SniffStepView::Hit { url, .. } && url == u,
{
}

/// A document that is refused counts as a challenge at the end, as does a page
/// that is one; without either nothing matched.
pub proof fn refused_documents_are_challenges(
    s: SniffView,
    p: JsonView,
    id: Option<Seq<char>>,
    globs: Seq<Seq<char>>,
    html: Seq<char>,
)
    ensures
        p.str_field("type"@) == Some("Document"@) && (status_of(p) == 403 || status_of(p) == 503)
            ==> s.response(p, id, globs).0.doc_403,
        s.doc_403 ==> s.response(p, id, globs).0.doc_403,
        p.str_field("type"@) != Some("Document"@) && p.str_field("type"@) is Some ==> s.response(
            p,
            id,
            globs,
        ).0.doc_403 == s.doc_403,
        status_of(p) != 403 && status_of(p) != 503 ==> s.response(p, id, globs).0.doc_403
            == s.doc_403,
        s.doc_403 ==> s.conclusion(html) is Challenge,
        is_challenge(200, html, None) ==> s.conclusion(html) is Challenge,
        !s.doc_403 && !is_challenge(200, html, None) ==> s.conclusion(html) is NoMatch,
{
}

/// A complete response is read where its type, status and size allow it to be a
/// manifest in disguise and not too many were read before.
pub proof fn likely_bodies_are_read(
    s: SniffView,
    p: JsonView,
    i: Seq<char>,
    r: ReqView,
    session: Option<Seq<char>>,
    bytes: i64,
)
    requires
        lookup(s.reqs, i) == Some(r),
        p.field("encodedDataLength"@) == Some(JsonView::Int(bytes)),
    ensures
        (r.rtype == "XHR"@ || r.rtype == "Fetch"@ || r.rtype == "Document"@ || r.rtype == "Other"@
            || r.rtype == "Manifest"@ || r.rtype == "Prefetch"@ || r.rtype == "TextTrack"@) && 200
            <= r.status < 300 && 0 < bytes < 3_145_728 && !manifest_mime(r.mime) && s.body_reads
            < 24 ==> s.finished(p, Some(i), session).1 == (SniffStepView::ReadBody {
            request: i,
            via: session,
        }) && s.finished(p, Some(i), session).0.body_reads == s.body_reads + 1,
        bytes >= 3_145_728 || bytes <= 0 || r.status < 200 || r.status >= 300 || s.body_reads >= 24
            ==> s.finished(p, Some(i), session) == (s, SniffStepView::Again),
{
}

/// A body that is a manifest is a match of its request; any other is not.
pub proof fn a_manifest_body_is_taken(s: SniffView, i: Seq<char>, r: ReqView, u: UrlView, v: JsonView)
    requires
        lookup(s.reqs, i) == Some(r),
        r.url == Some(u),
    ensures
        manifest_body(body_head(v)) ==> s.body_read(i, Some(v)).1 == (SniffStepView::Hit {
            url: u,
            headers: merged_headers(r.headers, r.extra_headers),
        }),
        !manifest_body(body_head(v)) ==> s.body_read(i, Some(v)) == (s, SniffStepView::Again),
        s.body_read(i, None) == (s, SniffStepView::Again),
{
}

/// A body is a manifest by its first line, behind any white space, or by its two
/// marks.
pub proof fn manifests_are_told_by_their_marks(space: Seq<char>, rest: Seq<char>)
    requires
        forall|i: int| 0 <= i < space.len() ==> is_space(#[trigger] space[i]),
    ensures
        manifest_body(space + seq!['#', 'E', 'X', 'T', 'M', '3', 'U'] + rest),
        rest.len() > 0 && !is_space(rest[0]) && has(rest, "<MPD"@) && has(rest, "urn:mpeg:dash"@)
            ==> manifest_body(space + rest),
        rest.len() > 0 && !is_space(rest[0]) && rest[0] != '#' && !(has(rest, "<MPD"@) && has(
            rest,
            "urn:mpeg:dash"@,
        )) ==> !manifest_body(space + rest),
{
    reveal_strlit("#EXTM3U");
    let m = seq!['#', 'E', 'X', 'T', 'M', '3', 'U'];
    assert("#EXTM3U"@ =~= m);
    assert(space + m + rest =~= space + (m + rest));
    assert((m + rest)[0] == '#');
    leading_runs_are_dropped(space, m + rest, spaces());
    assert((m + rest).subrange(0, 7) =~= m);
    assert(m.is_prefix_of(m + rest));
    if rest.len() > 0 && !is_space(rest[0]) {
        leading_runs_are_dropped(space, rest, spaces());
        if rest[0] != '#' && m.is_prefix_of(rest) {
            assert(m[0] == rest[0]);
        }
    }
}

/// Each content type of a manifest is one, in any case and with parameters.
pub proof fn every_manifest_type_counts(m: Seq<char>, rest: Seq<char>)
    requires
        lower(m) == "application/vnd.apple.mpegurl"@ || lower(m) == "application/x-mpegurl"@
            || lower(m) == "application/mpegurl"@ || lower(m) == "audio/mpegurl"@ || lower(m)
            == "audio/x-mpegurl"@ || lower(m) == "application/dash+xml"@ || lower(m)
            == "video/vnd.mpeg.dash.mpd"@,
    ensures
        manifest_mime(m),
        manifest_mime(m.push(';') + rest),
{
    reveal_strlit("application/vnd.apple.mpegurl");
    reveal_strlit("application/x-mpegurl");
    reveal_strlit("application/mpegurl");
    reveal_strlit("audio/mpegurl");
    reveal_strlit("audio/x-mpegurl");
    reveal_strlit("application/dash+xml");
    reveal_strlit("video/vnd.mpeg.dash.mpd");
    let e = Seq::<char>::empty();
    let l = lower(m);
    assert(l.len() == m.len());
    assert forall|i: int| 0 <= i < m.len() implies !only(';')(#[trigger] m[i]) by {
        if m[i] == ';' {
            assert(l[i] == ';');
        }
    }
    pieces_end_at_separators(m, ';', rest, only(';'));
    assert(l[0] == 'a' || l[0] == 'v');
    assert(l.last() == 'l' || l.last() == 'd');
    assert(l.last() == l[m.len() - 1]);
    assert(!is_space(m[0]));
    assert(!is_space(m.last()));
    trimming_takes_both_ends(e, m, e);
    assert(e + m + e =~= m);
    assert((seq![m] + pieces(rest, only(';')))[0] == m);
}

/// Every network event of the sniff's own sessions, or of none, is looked at; one
/// of another session changes nothing.
pub proof fn every_event_of_the_page_counts(
    s: SniffView,
    now: u64,
    e: EventView,
    globs: Seq<Seq<char>>,
    sessions: Seq<Seq<char>>,
)
    ensures
        ({
            let ours = e.session_id matches Some(id) ==> sessions.contains(id);
            let id = e.params.str_field("requestId"@);
            &&& e.method == "Target.attachedToTarget"@ ==> s.event(now, e, globs, sessions) == (
                s,
                attached(e.params),
            )
            &&& ours && e.method == "Network.requestWillBeSent"@ ==> s.event(now, e, globs, sessions)
                == s.request_sent(now, e.params, id, globs)
            &&& ours && e.method == "Network.requestWillBeSentExtraInfo"@ ==> s.event(
                now,
                e,
                globs,
                sessions,
            ) == (s.extra_info(e.params, id), SniffStepView::Again)
            &&& ours && e.method == "Network.responseReceived"@ ==> s.event(now, e, globs, sessions)
                == s.response(e.params, id, globs)
            &&& ours && e.method == "Network.loadingFinished"@ ==> s.event(now, e, globs, sessions)
                == s.finished(e.params, id, e.session_id)
            &&& !ours && e.method != "Target.attachedToTarget"@ ==> s.event(now, e, globs, sessions)
                == (s, SniffStepView::Again)
        }),
{
    reveal_strlit("Target.attachedToTarget");
    reveal_strlit("Network.requestWillBeSent");
    reveal_strlit("Network.requestWillBeSentExtraInfo");
    reveal_strlit("Network.responseReceived");
    reveal_strlit("Network.loadingFinished");
    assert("Target.attachedToTarget"@.len() == 23);
    assert("Network.requestWillBeSent"@.len() == 25);
    assert("Network.requestWillBeSentExtraInfo"@.len() == 34);
    assert("Network.responseReceived"@.len() == 24);
    assert("Network.loadingFinished"@.len() == 23);
    assert("Network.loadingFinished"@[0] == 'N');
    assert("Target.attachedToTarget"@[0] == 'T');
}

/// Popups and new tabs are closed; a frame with a session of its own is adopted.
pub proof fn popups_are_closed_and_frames_adopted(p: JsonView, kind: Seq<char>)
    requires
        p.str_field2("targetInfo"@, "type"@) == Some(kind),
    ensures
        (kind == "page"@ || kind == "tab"@) ==> (p.str_field2("targetInfo"@, "targetId"@) matches Some(
            t,
        ) ==> attached(p) == (SniffStepView::ClosePopup { target: t })),
        kind != "page"@ && kind != "tab"@ ==> (p.str_field("sessionId"@) matches Some(id)
            ==> attached(p) == (SniffStepView::Adopt { session: id })),
{
}

/// The interaction runs when it is due, the page is probed when that is due, and
/// each again after its interval.
pub proof fn what_is_due_is_done(s: SniffView, now: u64)
    requires
        now < s.deadline,
        now + INTERACT_EVERY_MS <= u64::MAX,
        now + PROBE_EVERY_MS <= u64::MAX,
    ensures
        !s.interact_done && s.pending is None && now >= s.next_interact ==> s.turn(now).1 is Interact
            && s.turn(now).0.next_interact == now + 1_500,
        s.interact_done && now >= s.next_probe ==> s.turn(now).1 is Probe && s.turn(
            now,
        ).0.next_probe == now + 2_500,
        s.pending is Some && now >= s.next_probe ==> s.turn(now).1 is Probe,
        s.interact_done && now < s.next_probe && s.pending is None ==> s.turn(now).1 is Wait,
        s.turn(now).0.remaining == s.deadline - now,
        s.turn(now).0.pending == s.pending,
        s.turn(now).0.reqs == s.reqs,
{
}

/// An interaction that says that it is done is not run again; one that does not
/// is.
pub proof fn interactions_run_until_done(s: SniffView, now: u64, v: JsonView)
    ensures
        v == JsonView::Bool(true) ==> s.interacted(now, Some(v)).0.interact_done,
        v == JsonView::Bool(false) || v is Null ==> s.interacted(now, Some(v)).0.interact_done
            == s.interact_done,
        s.interacted(now, None).0.interact_done == s.interact_done,
        s.interact_done ==> s.interacted(now, Some(v)).0.interact_done,
{
}

/// A challenge ends the sniff once it has stood for its grace, is waited out until
/// then, and is forgotten when the page clears.
pub proof fn a_challenge_has_a_grace(s: SniffView, now: u64, html: Seq<char>, since: u64)
    ensures
        is_challenge(200, html, None) && s.challenge_since == Some(since) && now - since >= 15_000
            ==> s.probed(now, html).1 is Challenge,
        is_challenge(200, html, None) && s.challenge_since == Some(since) && now - since < 15_000
            ==> !(s.probed(now, html).1 is Challenge) && s.probed(now, html).0.challenge_since
            == Some(since),
        is_challenge(200, html, None) && s.challenge_since is None ==> !(s.probed(
            now,
            html,
        ).1 is Challenge) && s.probed(now, html).0.challenge_since == Some(now),
        !is_challenge(200, html, None) ==> !(s.probed(now, html).1 is Challenge) && s.probed(
            now,
            html,
        ).0.challenge_since is None,
{
}

/// A sniff starts with all of its time, nothing held and nothing tracked.
pub proof fn a_sniff_starts_fresh(trigger: UrlView, now: u64, timeout: u64, interacts: bool)
    requires
        now + timeout <= u64::MAX,
        now + FIRST_PROBE_MS <= u64::MAX,
    ensures
        ({
            let s = SniffView::started(trigger, now, timeout, interacts);
            &&& s.trigger == trigger
            &&& s.deadline == now + timeout
            &&& s.pending is None
            &&& s.reqs.len() == 0
            &&& s.body_reads == 0
            &&& !s.doc_403
            &&& s.challenge_since is None
            &&& s.interact_done == !interacts
            &&& s.next_probe == now + 3_000
            &&& s.next_interact == now + 2_000
        }),
{
}

/// A body that fits is looked at as a whole; an encoded one as what it encodes.
pub proof fn short_bodies_are_read_whole(reply: JsonView, raw: Seq<char>, text: Seq<char>)
    requires
        reply.str_field("body"@) == Some(raw),
    ensures
        reply.bool_field("base64Encoded"@) != Some(true) && byte_len(raw) < 16_384 ==> body_head(
            reply,
        ) == raw,
        reply.bool_field("base64Encoded"@) == Some(true) && byte_len(raw) <= 24_576 && byte_len(raw)
            % 4 == 0 && base64_decoded(raw) == Some(encode_utf8(text)) ==> body_head(reply) == text,
{
    encode_utf8_decode_utf8(raw);
    encode_utf8_decode_utf8(text);
    encode_utf8_valid_utf8(text);
    let n = byte_len(raw) as int;
    if byte_len(raw) % 4 == 0 && byte_len(raw) <= 24_576 {
        assert(n / 4 * 4 == n);
        assert(encoded_prefix(raw) == n);
        assert(encode_utf8(raw).subrange(0, n) =~= encode_utf8(raw));
    }
}

/// A text that says something and a number that is not zero end an interaction,
/// as does `true`; nothing, zero and an empty text do not.
pub proof fn truth_is_as_in_scripts(s: Seq<char>, n: i64)
    ensures
        truthy(JsonView::Str(s)) == (s.len() > 0),
        truthy(JsonView::Int(n)) == (n != 0),
        truthy(JsonView::Bool(true)),
        !truthy(JsonView::Bool(false)),
        !truthy(JsonView::Null),
{
}

/// A URL that matches by what follows its last slash is taken like any other.
pub proof fn a_request_is_taken_by_its_file(
    s: SniffView,
    now: u64,
    p: JsonView,
    globs: Seq<Seq<char>>,
    u: UrlView,
    i: int,
)
    requires
        p.str_field2("request"@, "url"@) matches Some(text) && (url_parsed(text) matches Ok(v) && v
            == u),
        0 <= i < u.path.len(),
        u.path[0] == '/',
        u.path[i] == '/',
        forall|k: int| i < k < u.path.len() ==> #[trigger] u.path[k] != '/',
        any_matches(globs, u.path.skip(i + 1)),
    ensures
        s.request_sent(now, p, None, globs).1 == (SniffStepView::Hit {
            url: u,
            headers: headers_of(p.field2("request"@, "headers"@)),
        }),
{
    a_pattern_may_match_any_part(globs, u, i);
}

} // verus!
