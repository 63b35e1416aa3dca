use std::path::Path;

use gatecmd::paths::same_path;
use gatecmd::text::{chars_of, is_whitespace, push_decimal, push_padded, push_signed_decimal, split_words, string_of, trim_chars};

#[test]
fn whitespace_agrees_with_std() {
    for u in 0u32..=0x10FFFF {
        if let Some(c) = char::from_u32(u) {
            assert_eq!(is_whitespace(c), c.is_whitespace(), "U+{:04X}", u);
        }
    }
}

fn words_of(s: &str) -> Vec<String> {
    split_words(&chars_of(s)).iter().map(|w| string_of(w)).collect()
}

#[test]
fn split_agrees_with_std() {
    for s in ["", " ", "a", " a ", "a  b", "\tab\u{2003}cd\n", "x\u{85}y", "  lead", "trail  "] {
        let expected: Vec<String> = s.split_whitespace().map(|w| w.to_string()).collect();
        assert_eq!(words_of(s), expected, "{:?}", s);
    }
}

#[test]
fn trim_agrees_with_std() {
    for s in ["", "   ", " a ", "\u{3000}x y\u{2029}", "ab", "\n\ra\r\n"] {
        assert_eq!(string_of(&trim_chars(&chars_of(s))), s.trim(), "{:?}", s);
    }
}

#[test]
fn decimals() {
    for n in [0u64, 7, 10, 42, 1000, 65535, u64::MAX] {
        let mut s = String::from("n=");
        push_decimal(&mut s, n);
        assert_eq!(s, format!("n={}", n));
    }
    for i in [0i32, -1, 5, -42, i32::MIN, i32::MAX] {
        let mut s = String::new();
        push_signed_decimal(&mut s, i);
        assert_eq!(s, i.to_string());
    }
}

#[test]
fn padding_right_aligns() {
    for (t, w) in [("5", 10usize), ("?", 10), ("1234567890", 10), ("12345678901", 10), ("", 3)] {
        let mut s = String::from("|");
        push_padded(&mut s, t, w);
        assert_eq!(s, format!("|{:>w$}", t, w = w));
    }
}

#[test]
fn paths_compare_by_components() {
    let cases = [
        ("/tmp/shared", "/tmp/shared"),
        ("/tmp/shared/", "/tmp/shared"),
        ("/tmp/shared/.", "/tmp/shared"),
        ("/tmp//shared", "/tmp/shared"),
        ("/tmp/shared/./", "/tmp/shared"),
        ("/tmp/shared/a", "/tmp/shared"),
        ("/tmp/shared/..", "/tmp"),
        ("tmp/shared", "/tmp/shared"),
        ("./a", "a"),
        (".", ""),
        ("./", "."),
        ("a/.", "a"),
        ("/", "//"),
        (".a", "a"),
    ];
    for (a, b) in cases {
        assert_eq!(same_path(a, b), Path::new(a) == Path::new(b), "{:?} vs {:?}", a, b);
    }
}
