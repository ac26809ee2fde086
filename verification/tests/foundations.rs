use std::time::Duration;

use ai_proxy::clock::{elapsed_or_default, seconds_or_zero, signed_seconds, unix_now};
use ai_proxy::json::Json;
use ai_proxy::maps::TextMap;
use ai_proxy::numbers::{decimal, parse_u64};
use ai_proxy::text::{
    contains, ends_with, rsplit_once, split_once, starts_with, text_eq, to_ascii_lowercase, trim,
};

#[test]
fn numerals_read_back() {
    for n in [0, 9, 10, 4096, u64::MAX] {
        assert_eq!(decimal(n), n.to_string());
        assert_eq!(parse_u64(&decimal(n)), Some(n));
    }
    for bad in ["", "+", "-1", " 1", "1 ", "18446744073709551616", "1_0"] {
        assert_eq!(parse_u64(bad), bad.parse::<u64>().ok(), "{bad}");
    }
    assert_eq!(parse_u64("+12"), Some(12));
    assert_eq!(parse_u64("00012"), Some(12));
}

#[test]
fn white_space_is_trimmed_as_unicode_has_it() {
    for s in [" a ", "\u{a0}a\u{3000}", "\t\n\u{85}a b\r", "", "  ", "a\u{200b}"] {
        assert_eq!(trim(s), s.trim(), "{s:?}");
    }
}

#[test]
fn texts_are_split_and_searched() {
    assert_eq!(
        split_once("a-x-b-x-c", "-x-"),
        Some(("a".to_string(), "b-x-c".to_string()))
    );
    assert_eq!(
        rsplit_once("a-x-b-x-c", "-x-"),
        Some(("a-x-b".to_string(), "c".to_string()))
    );
    assert_eq!(split_once("abc", "-"), None);
    assert_eq!(rsplit_once("", "-"), None);
    assert!(contains("\u{e9}tude", "tud"));
    assert!(!contains("abc", "abcd"));
    assert!(starts_with("abc", ""));
    assert!(starts_with("abc", "ab"));
    assert!(ends_with("abc", "bc"));
    assert!(!ends_with("bc", "abc"));
    assert_eq!(to_ascii_lowercase("ABC\u{c9}z"), "abc\u{c9}z");
    assert!(text_eq("same", "same"));
    assert!(!text_eq("same", "sama"));
}

#[test]
fn maps_hold_each_key_once() {
    let mut map = TextMap::new();
    assert!(map.is_empty());
    map.insert("a".to_string(), 1u64);
    map.insert("b".to_string(), 2);
    map.insert("a".to_string(), 3);
    assert_eq!(map.get("a"), Some(&3));
    assert_eq!(map.keys(), vec!["a", "b"]);
    map.tally("b", 5);
    map.tally("c", 1);
    assert_eq!(map.get("b"), Some(&7));
    assert_eq!(map.get("c"), Some(&1));
    let copy = map.copy();
    map.remove("a");
    assert!(!map.contains_key("a"));
    assert!(copy.contains_key("a"));
    map.remove("missing");
    assert_eq!(map.entries().len(), 2);
}

#[test]
fn json_fields_are_read_and_set() {
    let mut v = Json::Null;
    v.set("a", Json::Unsigned(1));
    v.set("b", Json::Text("x".to_string()));
    v.set("a", Json::Negative(-2));
    assert_eq!(v.get("a"), Some(&Json::Negative(-2)));
    assert_eq!(v.text_field("b"), Some("x".to_string()));
    assert_eq!(v.signed_field("a"), Some(-2));
    assert_eq!(v.number_field("a"), Some(Json::Negative(-2)));
    assert_eq!(v.number_field("b"), None);
    assert_eq!(v.as_object().unwrap().len(), 2);
    assert_eq!(v.copy(), v);
    assert!(Json::Array(vec![]).get("a").is_none());
    assert!(!Json::Bool(true).is_settable());
}

#[test]
fn json_integers_have_ranges() {
    assert_eq!(Json::Unsigned(u64::MAX).as_i64(), None);
    assert_eq!(Json::Unsigned(u64::MAX).as_u64(), Some(u64::MAX));
    assert_eq!(Json::Unsigned(i64::MAX as u64).as_i64(), Some(i64::MAX));
    assert_eq!(Json::Negative(-1).as_u64(), None);
    assert_eq!(Json::Bool(true).as_bool(), Some(true));
    assert_eq!(Json::Null.as_bool(), None);
    let half = Json::Fraction(serde_json::Number::from_f64(0.5).unwrap());
    assert_eq!(half.as_i64(), None);
    assert_eq!(half.as_number(), Some(half.copy()));
}

#[test]
fn a_clock_set_back_counts_as_no_time() {
    let d = Duration::from_millis(1500);
    assert_eq!(elapsed_or_default(Some(d)), d);
    assert_eq!(elapsed_or_default(None), Duration::ZERO);
    assert_eq!(seconds_or_zero(Some(7)), 7);
    assert_eq!(seconds_or_zero(None), 0);
}

#[test]
fn seconds_become_signed() {
    assert_eq!(signed_seconds(1_700_000_000), 1_700_000_000);
    assert_eq!(signed_seconds(u64::MAX), -1);
    assert!(unix_now() > 1_700_000_000);
}
