//! Texts, documents and orders.

use traza::days::day_bucket;
use traza::hash::fnv_over;
use traza::json::{copy_entries, digits_only, read_json, same_json, single, texts_json, Json};
use traza::sort::{lex_at_most, sort, sort_texts, sort_unique, text_at_most};
use traza::text::{
    cut_text, cut_text_once, decimal, parse_number, quoted, same_ignoring_case, split_text,
    split_text_last, split_text_once, split_words, text_after, text_contains, text_ends_with,
    text_starts_with, to_lower, to_upper, trim, trim_text_end,
};

fn texts(words: &[&str]) -> Vec<String> {
    words.iter().map(|word| (*word).to_owned()).collect()
}

#[test]
fn texts_are_taken_apart() {
    assert_eq!(split_text("a,b,,c", ','), ["a", "b", "", "c"]);
    assert_eq!(split_text("", ','), [""]);
    assert_eq!(
        split_text_once("a=b=c", '='),
        Some(("a".to_owned(), "b=c".to_owned()))
    );
    assert_eq!(split_text_once("abc", '='), None);
    assert_eq!(
        split_text_last("a:b:c", ':'),
        Some(("a:b".to_owned(), "c".to_owned()))
    );
    assert_eq!(
        cut_text_once("a://b://c", "://"),
        Some(("a".to_owned(), "b://c".to_owned()))
    );
    assert_eq!(cut_text("a--b--", "--"), ["a", "b", ""]);
    assert_eq!(split_words("  a \t b\nc "), ["a", "b", "c"]);
    assert!(split_words(" ").is_empty());
}

#[test]
fn texts_are_compared() {
    assert!(text_starts_with("segment-1", "segment-"));
    assert!(text_ends_with("x.seg", ".seg"));
    assert!(!text_ends_with("seg", ".seg"));
    assert!(text_contains("abc", "bc"));
    assert!(text_contains("abc", ""));
    assert!(!text_contains("abc", "cb"));
    assert!(same_ignoring_case("Close", "cLOSE"));
    assert_eq!(text_after("Bearer x", "Bearer "), Some("x".to_owned()));
    assert_eq!(text_after("x", "Bearer "), None);
    assert_eq!(to_lower("AbC-\u{c4}"), "abc-\u{c4}");
    assert_eq!(to_upper("abC"), "ABC");
    assert_eq!(trim("\u{a0} a b \r\n"), "a b");
    assert_eq!(trim_text_end("a//", '/'), "a");
}

#[test]
fn numbers_read_back() {
    for n in [0, 7, 10, 999, u64::MAX] {
        assert_eq!(decimal(n), n.to_string());
        assert_eq!(parse_number(&decimal(n), u64::MAX), Some(n));
    }
    assert_eq!(parse_number("+5", 9), Some(5));
    assert_eq!(parse_number("10", 9), None);
    assert_eq!(parse_number("-5", 9), None);
    assert_eq!(parse_number("", 9), None);
    assert_eq!(parse_number("+", 9), None);
    assert_eq!(parse_number("18446744073709551616", u64::MAX), None);
}

#[test]
fn quoting_escapes() {
    assert_eq!(quoted("a\"b\n"), "\"a\\\"b\\n\"");
    assert_eq!(quoted(""), "\"\"");
}

#[test]
fn orders_are_by_bytes() {
    assert_eq!(sort_texts(texts(&["b", "a", "B", "\u{e9}"])), ["B", "a", "b", "\u{e9}"]);
    assert_eq!(sort_unique(texts(&["b", "a", "b"])), ["a", "b"]);
    assert_eq!(sort(vec![3u64, 1, 2, 1]), [1, 1, 2, 3]);
    assert!(text_at_most("a", "ab"));
    assert!(!text_at_most("b", "ab"));
    assert!(lex_at_most(&["a", "z"], &["b", "a"]));
    assert!(lex_at_most(&["a"], &["a", ""]));
    assert!(!lex_at_most(&["a", ""], &["a"]));
}

#[test]
fn documents_are_looked_into() {
    let document = read_json(
        b"{\"n\":12,\"t\":\"x\",\"b\":true,\"list\":[\"a\",\"b\"],\"nums\":[1,2],\"deep\":{\"k\":null}}",
    )
    .expect("a document");
    assert_eq!(document.uint_at("n"), Some(12));
    assert_eq!(document.text_at("t"), Some("x"));
    assert!(document.is_true("b"));
    assert!(!document.is_true("n"));
    assert_eq!(document.uint_at("absent"), None);
    assert_eq!(document.text_at("n"), None);
    let list = document.get("list").expect("a list");
    assert!(matches!(list, Json::Array(items) if items.len() == 2 && items[1].as_str() == Some("b")));
    assert!(matches!(document.get("nums"), Some(Json::Array(items)) if items[0].as_u64() == Some(1)));
    assert!(document.get("absent").is_none());
    assert!(same_json(&document, &document.copy()));
    assert!(!same_json(&document, list));
    assert!(matches!(read_json(b"-1"), Ok(n) if n.as_u64().is_none()));
    assert!(matches!(read_json(b"18446744073709551615"), Ok(n) if n.as_u64() == Some(u64::MAX)));
}

#[test]
fn a_repeated_key_keeps_one_entry() {
    let document = read_json(b"{\"a\":1,\"a\":2}").expect("a document");
    assert_eq!(document.uint_at("a"), Some(2));
}

#[test]
fn documents_are_built() {
    let built = single("names", texts_json(&texts(&["a"])));
    assert!(same_json(&built, &read_json(b"{\"names\":[\"a\"]}").expect("a document")));
    match &built {
        Json::Object(entries) => assert_eq!(copy_entries(entries).len(), 1),
        other => panic!("{other:?}"),
    }
    assert!(digits_only("012"));
    assert!(!digits_only(""));
    assert!(!digits_only("1a"));
}

#[test]
fn days_are_dates() {
    assert_eq!(day_bucket(0), "1970-01-01");
    assert_eq!(day_bucket(951_782_400_000_000_000), "2000-02-29");
    assert_eq!(day_bucket(1_700_000_000_000_000_000), "2023-11-14");
    assert_eq!(day_bucket(u64::MAX), "2554-07-21");
}

#[test]
fn the_hash_is_fnv() {
    assert_eq!(fnv_over(0xcbf2_9ce4_8422_2325, b""), 0xcbf2_9ce4_8422_2325);
    assert_eq!(fnv_over(0xcbf2_9ce4_8422_2325, b"a"), 0xaf63_dc4c_8601_ec8c);
}
