use cobweb::error::CobwebError;
use cobweb::text::{
    contains, dec_i64, dec_u128, hex_of, join, parse_i64, parse_u64, replace, sort_unique,
    split_once, split_words, strip_prefix, strip_suffix, to_lower, trim, trim_end_char,
};
use cobweb::util::{
    cap_bytes, constant_time_eq, join_path, push_bounded, random_token, redact_url_query,
    split_bytes, which, BoundedMap,
};
use cobweb::json::{number_value, Json};
use cobweb::weburl::Url;

#[test]
fn mod_constant_time_eq_matches_str_eq_semantics() {
    assert!(constant_time_eq("abc", "abc"));
    assert!(!constant_time_eq("abc", "abd"));
    assert!(!constant_time_eq("abc", "ab"));
    assert!(!constant_time_eq("", "a"));
    assert!(constant_time_eq("", ""));
}

#[test]
fn util_constant_time_eq_matches_str_eq_semantics() {
    assert!(constant_time_eq("abc", "abc"));
    assert!(!constant_time_eq("abc", "abd"));
    assert!(!constant_time_eq("abc", "ab"));
    assert!(!constant_time_eq("", "a"));
    assert!(constant_time_eq("", ""));
}

#[test]
fn bounded_map_evicts_oldest_first() {
    let mut m: BoundedMap<String, u32> = BoundedMap::new(2);
    m.insert("a".into(), 1);
    m.insert("b".into(), 2);
    m.insert("c".into(), 3);
    assert_eq!(m.len(), 2);
    assert!(m.get(&"a".to_string()).is_none());
    assert_eq!(m.get(&"b".to_string()), Some(&2));
    assert_eq!(m.get(&"c".to_string()), Some(&3));
}

#[test]
fn bounded_map_reinsert_does_not_evict() {
    let mut m: BoundedMap<String, u32> = BoundedMap::new(2);
    m.insert("a".into(), 1);
    m.insert("b".into(), 2);
    m.insert("a".into(), 10);
    assert_eq!(m.len(), 2);
    assert_eq!(m.get(&"a".to_string()), Some(&10));
    assert_eq!(m.get(&"b".to_string()), Some(&2));
}

#[test]
fn bounded_map_removes_and_updates_in_place() {
    let mut m: BoundedMap<String, u32> = BoundedMap::new(0);
    assert!(m.is_empty());
    m.insert("a".into(), 1);
    *m.get_mut(&"a".to_string()).unwrap() = 5;
    assert_eq!(m.iter().len(), 1);
    assert_eq!(m.remove(&"a".to_string()), Some(5));
    assert_eq!(m.remove(&"a".to_string()), None);
    m.insert("b".into(), 1);
    m.insert("c".into(), 2);
    assert_eq!(m.len(), 1, "a capacity of nothing counts as one");
}

#[test]
fn redact_url_query_strips_query_and_fragment() {
    let u = Url::parse("https://cdn.example.com/hls/master.m3u8?token=SECRET&x=1#frag").unwrap();
    let r = redact_url_query(&u);
    assert_eq!(r, "https://cdn.example.com/hls/master.m3u8");
    assert!(!r.contains("SECRET"));
}

#[test]
fn redaction_keeps_what_stands_before_the_query() {
    for (u, kept) in [
        ("https://h.example/a/b", "https://h.example/a/b"),
        ("https://h.example/a?", "https://h.example/a"),
        ("https://h.example/a#f?x", "https://h.example/a"),
        ("https://u:p@h.example:8443/?q#f", "https://u:p@h.example:8443/"),
        ("data:text/plain,x?y#z", "data:text/plain,x"),
    ] {
        assert_eq!(redact_url_query(&Url::parse(u).unwrap()), kept);
    }
}

#[test]
fn random_token_is_the_right_length_and_varies() {
    let a = random_token(16, &Some(vec![7; 16]), 0);
    let b = random_token(16, &Some(vec![8; 16]), 0);
    assert_eq!(a.len(), 32);
    assert_ne!(a, b, "two draws should not collide");
    let c = random_token(16, &None, 1);
    let d = random_token(16, &None, 2);
    assert_eq!(c.len(), 32);
    assert_ne!(c, d);
}

#[test]
fn which_finds_env_path_or_returns_none() {
    let dirs = vec!["/usr/bin".to_string(), "/opt/x/".to_string()];
    assert_eq!(which("sh", &dirs), vec!["/usr/bin/sh", "/opt/x/sh"]);
    assert_eq!(which("./bin/sh", &dirs), vec!["./bin/sh"]);
    assert!(which("sh", &Vec::new()).is_empty());
}

#[test]
fn paths_join_below_a_directory() {
    assert_eq!(join_path("/a", "b"), "/a/b");
    assert_eq!(join_path("/a/", "b"), "/a/b");
    assert_eq!(join_path("", "b"), "b");
}

#[test]
fn output_tails_keep_their_end() {
    let mut s = String::from("abc");
    push_bounded(&mut s, "def", 4);
    assert_eq!(s, "cdef");
    assert_eq!(cap_bytes("abcdef", 2), "ab");
    let (front, back) = split_bytes("h\u{e9}llo", 3);
    assert_eq!(front, "h\u{e9}");
    assert_eq!(back, "llo");
}

#[test]
fn urls_are_read_by_their_parts() {
    let u = Url::parse("HTTPS://Cdn.Example.com:8443/a/b?x=1").unwrap();
    assert_eq!(u.as_str(), "https://cdn.example.com:8443/a/b?x=1");
    assert_eq!(u.host_str(), Some("cdn.example.com"));
    assert_eq!(u.path, "/a/b");
    assert_eq!(u.join("../c").unwrap().as_str(), "https://cdn.example.com:8443/c");
    assert_eq!(u.join("http://[oops/").unwrap_err(), "invalid IPv6 address");
    assert_eq!(
        Url::parse("no scheme").unwrap_err(),
        "relative URL without a base"
    );
}

#[test]
fn errors_say_what_they_are() {
    let e = CobwebError::NeedsManualSolve { domain: "x.to".to_string() };
    assert_eq!(e.kind(), "needs_manual_solve");
    assert_eq!(e.status(), 422);
    let body = e.body();
    assert_eq!(body.str_at("kind").as_deref(), Some("needs_manual_solve"));
    assert_eq!(body.bool_at("needs_manual_solve"), Some(true));
    assert_eq!(body.str_at("domain").as_deref(), Some("x.to"));
    for (e, kind, status) in [
        (CobwebError::Config("x".into()), "config", 500),
        (CobwebError::UnknownEgress("x".into()), "unknown_egress", 400),
        (CobwebError::NeedsBrowser("x".into()), "needs_browser", 422),
        (CobwebError::NotResolved("x".into()), "not_resolved", 422),
        (CobwebError::BadRequest("x".into()), "bad_request", 400),
        (CobwebError::Blocked("x".into()), "blocked", 403),
        (CobwebError::Conflict("x".into()), "conflict", 409),
        (CobwebError::Browser("x".into()), "browser", 502),
        (CobwebError::Upstream("x".into()), "upstream", 502),
    ] {
        assert_eq!(e.kind(), kind);
        assert_eq!(e.status(), status, "{}", kind);
        assert_eq!(e.body().str_at("error"), Some(e.message()));
    }
}

#[test]
fn text_is_cut_as_std_cuts_it() {
    assert_eq!(trim(" \ta b\u{a0}\n"), "a b");
    assert_eq!(trim_end_char("a..", '.'), "a");
    assert_eq!(to_lower("ÀBc"), "Àbc");
    assert_eq!(strip_prefix("abc", "ab").as_deref(), Some("c"));
    assert_eq!(strip_prefix("abc", "bc"), None);
    assert_eq!(strip_suffix("abc", "bc").as_deref(), Some("a"));
    assert!(contains("hello", "ell"));
    assert!(contains("hello", ""));
    assert!(!contains("hello", "hellx"));
    assert_eq!(
        split_once("a=b=c", '='),
        Some(("a".to_string(), "b=c".to_string()))
    );
    assert_eq!(split_words("  a  b "), vec!["a", "b"]);
    assert_eq!(replace("aaa", "aa", "b"), "ba");
    assert_eq!(join(&vec!["a".to_string(), "b".to_string()], "; "), "a; b");
    assert_eq!(
        sort_unique(&vec!["b".to_string(), "a".to_string(), "b".to_string()]),
        vec!["a", "b"]
    );
}

#[test]
fn numbers_are_written_and_read() {
    assert_eq!(dec_u128(u128::MAX), u128::MAX.to_string());
    assert_eq!(dec_i64(i64::MIN), i64::MIN.to_string());
    assert_eq!(dec_i64(0), "0");
    for s in ["0", "+7", "007", "18446744073709551615"] {
        assert_eq!(parse_u64(s), s.parse::<u64>().ok(), "{}", s);
    }
    for s in ["", "+", "-1", "18446744073709551616", "1a", " 1"] {
        assert_eq!(parse_u64(s), None, "{}", s);
        assert!(s.parse::<u64>().is_err());
    }
    for s in ["-9223372036854775808", "9223372036854775807", "-0", "+5"] {
        assert_eq!(parse_i64(s), s.parse::<i64>().ok(), "{}", s);
    }
    for s in ["-", "9223372036854775808", "--1"] {
        assert_eq!(parse_i64(s), None, "{}", s);
    }
    assert_eq!(hex_of(&vec![0, 255, 16]), "00ff10");
}

#[test]
fn numbers_are_big_only_where_they_must_be() {
    assert!(matches!(number_value(60_000), Json::Int(60_000)));
    assert!(matches!(number_value(i64::MAX as u64), Json::Int(i64::MAX)));
    assert!(matches!(number_value(u64::MAX), Json::Big(u64::MAX)));
}
