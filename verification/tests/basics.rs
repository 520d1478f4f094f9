//! Texts, JSON and the heap.

use qwen2api_rs::heap::{Entry, EntryHeap};
use qwen2api_rs::json::Json;
use qwen2api_rs::text::{contains, decimal, is_white_space, starts_with, str_eq, take_chars, trim};

#[test]
fn white_space_is_what_unicode_says() {
    for c in '\0'..=char::MAX {
        assert_eq!(is_white_space(c), c.is_whitespace(), "{:?}", c);
    }
}

#[test]
fn texts_are_trimmed_and_searched() {
    for s in ["", " ", "a", " a b\t", "\u{3000}é\u{a0}"] {
        assert_eq!(trim(s), s.trim());
    }
    for (s, p) in [("", ""), ("abc", ""), ("abc", "bc"), ("abc", "abcd"), ("aab", "ab"), ("é", "e")] {
        assert_eq!(contains(s, p), s.contains(p));
        assert_eq!(starts_with(s, p), s.starts_with(p));
        assert_eq!(str_eq(s, p), s == p);
    }
    assert_eq!(take_chars("héllo", 2), "hé");
    assert_eq!(take_chars("hi", 5), "hi");
}

#[test]
fn numbers_in_decimal() {
    for n in [0u64, 7, 10, 429, 1_234_567_890, u64::MAX] {
        assert_eq!(decimal(n), n.to_string());
    }
}

#[test]
fn json_goes_there_and_back() {
    let text = "{\"a\":[1,-2,2.5,true,null],\"b\":{\"c\":\"é\\n\"}}";
    let j = Json::parse(text).unwrap();
    assert_eq!(j.to_text(), text);
    assert_eq!(j.clone().to_text(), text);
    assert_eq!(Json::parse_bytes(text.as_bytes()).unwrap().to_text(), text);
    assert!(Json::parse_bytes(b"{").is_none());
    match Json::parse("{\"a\" 1}") {
        Err(m) => assert_eq!(m, "expected `:` at line 1 column 6"),
        Ok(_) => panic!("should not parse"),
    }
    // The last of two entries with one key counts.
    assert_eq!(Json::parse("{\"k\":1,\"k\":2}").unwrap().to_text(), "{\"k\":2}");
    assert_eq!(Json::integer(5).as_i64(), Some(5));
    assert_eq!(Json::integer(u64::MAX).as_i64(), None);
    assert_eq!(Json::integer(5).to_text(), "5");
    assert_eq!(Json::text("x").as_str(), Some("x"));
    assert_eq!(Json::parse("-3").unwrap().as_i64(), Some(-3));
}

#[test]
fn heap_gives_the_least_entry_first() {
    let mut h = EntryHeap::new();
    for (rank, at, email) in [(1, 5, "b"), (0, 9, "z"), (0, 9, "a"), (2, 0, "c"), (0, 3, "q")] {
        h.push(Entry { rank, at, email: email.to_string() });
    }
    assert_eq!(h.peek().map(|e| e.email.clone()), Some("q".to_string()));
    let mut out = Vec::new();
    while let Some(e) = h.pop() {
        out.push(e.email);
    }
    assert_eq!(out, vec!["q", "a", "z", "b", "c"]);
}
