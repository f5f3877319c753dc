use cobweb::api::flaresolverr::cookie_json;
use cobweb::api::native::JarDeleteQuery;
use cobweb::browser::cdp_engine::cookie_from_json;
use cobweb::egress::Egress;
use cobweb::jar::cookie::{Cookie, StorageState, MICROS_PER_SEC};
use cobweb::jar::{count, is_jar_file, sanitize, Jar, JarEntry, NANOS, SCHEMA_VERSION};
use cobweb::json::{text_value, Json, Members};
use cobweb::weburl::Url;
use std::collections::HashMap;

const NOW: i128 = 1_700_000_000 * NANOS;

fn tmp_jar() -> Jar {
    Jar::new("/data/jar", 2700, 3)
}

fn mullvad() -> Egress {
    Egress {
        name: "mullvad".to_string(),
        proxy: Some(Url::parse("socks5://mullvad:1080").unwrap()),
    }
}

fn entry(domain: &str, egress: &str) -> JarEntry {
    JarEntry::new(domain, egress, 2700, NOW)
}

/// The files of a jar, by path.
struct Files {
    jar: Jar,
    held: HashMap<String, JarEntry>,
}

impl Files {
    fn new() -> Self {
        Files { jar: tmp_jar(), held: HashMap::new() }
    }

    fn save(&mut self, e: &JarEntry) {
        self.held.insert(self.jar.file_for(&e.domain, &e.egress), e.copy());
    }

    fn load(&self, domain: &str, egress: &Egress) -> Option<JarEntry> {
        self.held.get(&self.jar.file_for(domain, &egress.jar_key())).map(|e| e.copy())
    }

    fn delete(&mut self, domain: &str, key: &str) -> bool {
        self.held.remove(&self.jar.file_for(domain, key)).is_some()
    }

    fn all(&self) -> Vec<JarEntry> {
        self.held.values().map(|e| e.copy()).collect()
    }
}

#[test]
fn cookie_serde_matches_cdp_camelcase() {
    let json = Members::new()
        .with("name", text_value("cf_clearance"))
        .with("value", text_value("abc"))
        .with("domain", text_value(".example.com"))
        .with("path", text_value("/"))
        .with("expires", Json::Micros(1_900_000_000 * MICROS_PER_SEC))
        .with("httpOnly", Json::Bool(true))
        .with("secure", Json::Bool(true))
        .with("sameSite", text_value("None"))
        .object();
    let c = cookie_from_json(&json).unwrap();
    assert_eq!(c.name, "cf_clearance");
    assert!(c.http_only && c.secure);
    assert_eq!(c.same_site.as_deref(), Some("None"));
    let round = cookie_json(&c);
    assert_eq!(round.bool_at("httpOnly"), Some(true));
    assert_eq!(cookie_from_json(&round).unwrap().expires, c.expires);
}

#[test]
fn ignores_unknown_cdp_fields() {
    let json = Members::new()
        .with("name", text_value("a"))
        .with("value", text_value("b"))
        .with("domain", text_value("x.com"))
        .with("size", Json::Int(10))
        .with("priority", text_value("Medium"))
        .with("sameParty", Json::Bool(false))
        .object();
    let c = cookie_from_json(&json).unwrap();
    assert_eq!(c.value, "b");
    assert_eq!(c.path, "/");
    assert_eq!(c.expires, -MICROS_PER_SEC);
}

#[test]
fn a_cookie_needs_a_name_and_a_value() {
    let json = Members::new().with("name", text_value("a")).object();
    assert!(cookie_from_json(&json).is_none());
}

#[test]
fn cookie_header_filters_by_domain_and_liveness() {
    let mut expired = Cookie::new("expired", "x", "example.com");
    expired.expires = MICROS_PER_SEC;
    let state = StorageState::from_cookies(vec![
        Cookie::new("a", "1", ".example.com"),
        Cookie::new("b", "2", "other.com"),
        expired,
    ]);
    let hdr = state
        .cookie_header("cdn.example.com", 1000 * MICROS_PER_SEC)
        .unwrap();
    assert_eq!(hdr, "a=1");
    assert!(state.cookie_header("nowhere.net", 0).is_none());
}

#[test]
fn merge_replaces_same_key_appends_new() {
    let mut s = StorageState::from_cookies(vec![Cookie::new("a", "old", "x.com")]);
    s.merge_from(vec![
        Cookie::new("a", "new", "x.com"),
        Cookie::new("b", "2", "x.com"),
    ]);
    assert_eq!(s.cookies.len(), 2);
    assert_eq!(s.cookies[0].value, "new");
}

#[test]
fn the_last_cookie_under_a_key_is_the_one_stored() {
    let mut s = StorageState::from_cookies(vec![
        Cookie::new("a", "old", "x.com"),
        Cookie::new("b", "1", "x.com"),
    ]);
    s.merge_from(vec![
        Cookie::new("c", "2", "x.com"),
        Cookie::new("a", "newer", "x.com"),
        Cookie::new("a", "newest", "x.com"),
        Cookie::new("a", "other", "y.com"),
    ]);
    let values: Vec<&str> = s.cookies.iter().map(|c| c.value.as_str()).collect();
    assert_eq!(values, vec!["newest", "1", "2", "other"]);
}

#[test]
fn netscape_export_marks_httponly() {
    let mut c = Cookie::new("s", "v", "example.com");
    c.http_only = true;
    c.secure = true;
    c.expires = 1_900_000_000 * MICROS_PER_SEC;
    let line = c.to_netscape_line();
    assert!(line.starts_with("#HttpOnly_.example.com\tTRUE\t/\tTRUE\t1900000000\ts\tv"));
}

#[test]
fn netscape_files_start_with_their_header() {
    let s = StorageState::from_cookies(vec![Cookie::new("a", "1", ".x.com")]);
    let text = s.to_netscape();
    assert!(text.starts_with("# Netscape HTTP Cookie File\n"));
    assert!(text.contains(".x.com\tTRUE\t/\tFALSE\t0\ta\t1"));
}

#[test]
fn session_cookies_never_expire() {
    let c = Cookie::new("a", "1", "x.com");
    assert!(c.is_live(NOW));
    assert_eq!(c.header_pair(), "a=1");
    let mut d = c.copy();
    d.expires = 5;
    assert!(d.is_live(4));
    assert!(!d.is_live(5));
}

#[test]
fn round_trips_an_entry() {
    let mut e = entry("example.com", "mullvad");
    e.storage_state =
        StorageState::from_cookies(vec![Cookie::new("cf_clearance", "xyz", ".example.com")]);
    e.user_agent = "Mozilla/5.0".to_string();
    let mut files = Files::new();
    files.save(&e);
    let back = files.load("example.com", &mullvad()).unwrap();
    assert_eq!(back.storage_state.cookies[0].value, "xyz");
    assert_eq!(back.user_agent, "Mozilla/5.0");
    assert_eq!(back.schema_version, SCHEMA_VERSION);
}

#[test]
fn staleness_by_ttl() {
    let jar = tmp_jar();
    let mut e = entry("x.to", "direct");
    assert!(!jar.is_stale(&e, NOW));
    e.created = NOW - 2 * 3600 * NANOS;
    assert!(jar.is_stale(&e, NOW));
}

#[test]
fn an_entry_is_fresh_until_its_last_instant() {
    let jar = tmp_jar();
    let e = entry("x.to", "direct");
    assert_eq!(e.expiry(), NOW + 2700 * NANOS);
    assert!(!jar.is_stale(&e, NOW + 2700 * NANOS));
    assert!(jar.is_stale(&e, NOW + 2700 * NANOS + 1));
}

#[test]
fn staleness_by_fail_streak() {
    let jar = tmp_jar();
    let e = JarEntry { fail_streak: 3, ..entry("x.to", "direct") };
    assert!(jar.is_stale(&e, NOW));
}

#[test]
fn note_failure_then_success() {
    let jar = tmp_jar();
    let e = entry("x.to", "mullvad");
    let once = jar.note_failure(Some(e)).unwrap();
    let mid = jar.note_failure(Some(once)).unwrap();
    assert_eq!(mid.fail_streak, 2);

    let stored = mid.copy();
    let after = jar.note_success(mid, Some(stored), NOW + 1);
    assert_eq!(after.fail_streak, 0);
    assert!(after.last_ok.is_some());
    assert!(jar.note_failure(None).is_none());
}

#[test]
fn get_fresh_skips_stale() {
    let jar = tmp_jar();
    let mut e = entry("x.to", "mullvad");
    e.created = NOW - 2 * 3600 * NANOS;
    assert!(jar.get_fresh(Some(e), NOW).is_none());
    assert!(jar.get_fresh(Some(entry("x.to", "mullvad")), NOW).is_some());
}

#[test]
fn list_and_delete() {
    let mut files = Files::new();
    files.save(&entry("a.to", "direct"));
    files.save(&entry("b.to", "mullvad"));
    let rows = files.jar.list(&files.all(), NOW);
    assert_eq!(rows.len(), 2);
    assert_eq!(rows[0].domain, "a.to");
    assert!(!rows[0].stale);

    assert!(files.delete("a.to", "direct"));
    assert!(!files.delete("a.to", "direct"));
    assert_eq!(files.jar.list(&files.all(), NOW).len(), 1);
}

#[test]
fn note_success_does_not_lose_a_concurrent_writers_cookie() {
    let jar = tmp_jar();
    let seed = entry("race.to", "direct");

    let mut a = seed.copy();
    a.storage_state = StorageState::from_cookies(vec![Cookie::new("a", "1", "race.to")]);
    let stored = jar.note_success(a, Some(seed.copy()), NOW);

    let mut b = seed.copy();
    b.storage_state = StorageState::from_cookies(vec![Cookie::new("b", "2", "race.to")]);
    let after = jar.note_success(b, Some(stored), NOW);

    let names: Vec<&str> = after
        .storage_state
        .cookies
        .iter()
        .map(|c| c.name.as_str())
        .collect();
    assert!(names.contains(&"a"), "lost cookie `a` to a concurrent write");
    assert!(names.contains(&"b"));
}

#[test]
fn missing_entry_loads_as_none() {
    assert!(tmp_jar().get_fresh(None, NOW).is_none());
}

#[test]
fn sanitize_neutralises_path_traversal_and_separators() {
    assert_eq!(sanitize("../../etc/passwd"), "..-..-etc-passwd");
    assert_eq!(sanitize("/etc/passwd"), "-etc-passwd");
    assert_eq!(sanitize("a/b\\c"), "a-b-c");
    assert_eq!(sanitize(".."), "..");
    assert_eq!(sanitize(""), "");
    assert_eq!(sanitize("example.com"), "example.com");
    assert_eq!(sanitize("proxy-10.0.0.1-1080"), "proxy-10.0.0.1-1080");
}

#[test]
fn hostile_domain_cannot_escape_the_jar_directory() {
    let path = tmp_jar().file_for("../../../../tmp/pwned", "direct");
    assert_eq!(path, "/data/jar/..-..-..-..-tmp-pwned__direct.json");
    let name = path.strip_prefix("/data/jar/").unwrap();
    assert!(!name.contains('/'));
    assert!(is_jar_file(name));
}

#[test]
fn every_egress_has_a_file_of_its_own() {
    let jar = tmp_jar();
    let direct = jar.file_for("example.com", "direct");
    let mullvad = jar.file_for("example.com", "mullvad");
    assert_eq!(direct, "/data/jar/example.com__direct.json");
    assert_eq!(mullvad, "/data/jar/example.com__mullvad.json");
    assert_ne!(jar.file_for("example.org", "direct"), direct);
}

#[test]
fn only_entries_are_counted() {
    assert_eq!(
        count(&vec![
            "a__direct.json".to_string(),
            "a__direct.json.tmp".to_string(),
            ".json".to_string(),
            "b__fs.json".to_string(),
        ]),
        2
    );
}

#[test]
fn jar_list_and_delete_roundtrip() {
    let jar = tmp_jar();
    let rows = jar.list(&vec![entry("127.0.0.1", "direct")], NOW);
    assert_eq!(rows.len(), 1);
    assert_eq!(rows[0].domain, "127.0.0.1");
    assert_eq!(rows[0].egress, "direct");
    assert!(!rows[0].stale);
    let q = JarDeleteQuery { egress: Some("direct".to_string()) };
    assert_eq!(
        jar.file_for("127.0.0.1", &q.key()),
        jar.file_for(&rows[0].domain, &rows[0].egress)
    );
    assert_eq!(JarDeleteQuery { egress: None }.key(), "direct");
}

#[test]
fn the_streak_stops_at_its_limit() {
    let jar = tmp_jar();
    let mut e = entry("x.to", "direct");
    e.fail_streak = u32::MAX;
    assert_eq!(jar.note_failure(Some(e)).unwrap().fail_streak, u32::MAX);
}

#[test]
fn merging_twice_is_merging_once() {
    let batch = || {
        vec![
            Cookie::new("c", "1", "x.com"),
            Cookie::new("a", "2", "x.com"),
            Cookie::new("d", "3", "x.com"),
            Cookie::new("c", "4", "x.com"),
        ]
    };
    let mut s = StorageState::from_cookies(vec![Cookie::new("a", "0", "x.com")]);
    s.merge_from(batch());
    let pairs = |s: &StorageState| -> Vec<String> {
        s.cookies.iter().map(|c| c.header_pair()).collect()
    };
    let once = pairs(&s);
    assert_eq!(once, vec!["a=2", "c=4", "d=3"], "new keys in the order they came in");
    s.merge_from(batch());
    assert_eq!(pairs(&s), once);
}
