use bondar::json::{find_member, put_member, Json};
use bondar::numbers::{decimal, hash_text, hex, parse_number};
use bondar::order::{sort_positions, sort_texts, text_precedes};
use bondar::text::{
    contains, ends_with, has_char, replace, split, split_once, split_words, starts_with,
    strip_prefix, strip_suffix, trim,
};
use bondar::texts::Texts;

fn list(items: &[&str]) -> Texts {
    Texts { items: items.iter().map(|s| s.to_string()).collect() }
}

#[test]
fn documents_read_back() {
    for text in [
        "null",
        "true",
        "-1",
        "18446744073709551615",
        "1.5",
        r#""a\"b\n\u0001é""#,
        "[1,[],{}]",
        r#"{"b":1,"a":{"c":[null,false]}}"#,
    ] {
        let read = Json::parse(text).unwrap();
        let written = read.text();
        assert_eq!(Json::parse(&written).unwrap(), read);
        let value: serde_json::Value = serde_json::from_str(text).unwrap();
        assert_eq!(written, value.to_string());
        assert_eq!(read.to_value(), value);
        assert_eq!(Json::from_value(value), read);
        assert!(read.same(&read.copy()));
    }
    assert_eq!(Json::parse("{"), None);
    assert_eq!(Json::parse("1 2"), None);
}

#[test]
fn members_keep_their_order() {
    let read = Json::parse(r#"{"z": 1, "a": 2, "z": 3}"#).unwrap();
    assert_eq!(read.text(), r#"{"z":3,"a":2}"#);
    assert_eq!(read.get("a"), Some(&Json::parse("2").unwrap()));
    assert_eq!(read.get("b"), None);
    assert_eq!(Json::Null.get("a"), None);
}

#[test]
fn equality_does_not_look_at_the_order_of_members() {
    let a = Json::parse(r#"{"x": 1, "y": [1.0, "s"]}"#).unwrap();
    let b = Json::parse(r#"{"y": [1.0, "s"], "x": 1}"#).unwrap();
    let c = Json::parse(r#"{"y": [1, "s"], "x": 1}"#).unwrap();
    assert!(a.same(&b));
    assert!(!a.same(&c));
}

#[test]
fn texts_of_values() {
    assert_eq!(Json::parse(r#""a""#).unwrap().plain(), "a");
    assert_eq!(Json::parse("[1]").unwrap().plain(), "[1]");
    assert_eq!(Json::parse("1.50").unwrap().scalar(), Some("1.5".to_string()));
    assert_eq!(Json::parse("true").unwrap().scalar(), Some("true".to_string()));
    assert_eq!(Json::Null.scalar(), None);
}

#[test]
fn members_are_put() {
    let mut members = vec![("a".to_string(), Json::Null)];
    put_member(&mut members, "b", Json::Bool(true));
    put_member(&mut members, "a", Json::Bool(false));
    assert_eq!(find_member(&members, "b"), 1);
    assert_eq!(find_member(&members, "c"), 2);
    assert_eq!(members[0].1, Json::Bool(false));
}

#[test]
fn numbers() {
    assert_eq!(decimal(0), "0");
    assert_eq!(decimal(18446744073709551615), "18446744073709551615");
    assert_eq!(parse_number("+65535", 65535), Some(65535));
    assert_eq!(parse_number("65536", 65535), None);
    assert_eq!(parse_number("18446744073709551616", u64::MAX), None);
    assert_eq!(parse_number("", 10), None);
    assert_eq!(parse_number("+", 10), None);
    assert_eq!(parse_number("-1", 10), None);
    assert_eq!(hex(255, 4), "00ff");
    assert_eq!(hash_text(""), 14695981039346656037);
}

#[test]
fn texts() {
    assert_eq!(split("a,,b", ',').items, vec!["a", "", "b"]);
    assert_eq!(split_once("a=b=c", '='), Some(("a".to_string(), "b=c".to_string())));
    assert_eq!(split_once("a", '='), None);
    assert_eq!(split_words("  a\tb \n c ").items, vec!["a", "b", "c"]);
    assert!(split_words(" \n").items.is_empty());
    assert_eq!(trim("\u{a0} a b\u{2003}\n"), "a b");
    assert_eq!(replace("aXbXX", "X", "--"), "a--b----");
    assert!(contains("abc", "bc") && !contains("abc", "cb") && contains("abc", ""));
    assert!(starts_with("abc", "ab") && ends_with("abc", "bc") && has_char("abc", 'c'));
    assert_eq!(strip_prefix("abc", "ab"), Some("c".to_string()));
    assert_eq!(strip_suffix("abc", "x"), None);
}

#[test]
fn order_of_texts() {
    assert!(text_precedes("a", "b"));
    assert!(text_precedes("a", "aa"));
    assert!(!text_precedes("b", "a"));
    let items = ["b", "a", "é", "z", "B", "\u{10000}", "\u{ffff}", ""];
    let mut expected: Vec<String> = items.iter().map(|s| s.to_string()).collect();
    expected.sort();
    assert_eq!(sort_texts(&list(&items)).items, expected);
    assert_eq!(sort_positions(&list(&["b", "a", "b", "a"])), vec![1, 3, 0, 2]);
}
