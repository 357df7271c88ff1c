//! Tests for the runtime scanner combinators.

use scan_rules::scanner::misc::Word;
use scan_rules::scanner::runtime::{
    exact_width_a, max_width_a, min_width_a, re_str, until_pat_str,
};
use scan_rules::scanner::ScanStr;

fn owned(s: &str) -> Vec<u8> {
    s.as_bytes().to_vec()
}

#[test]
fn test_exact_width() {
    let scan = exact_width_a::<Word>;

    assert!(scan(2).scan(b"").is_err());
    assert!(scan(2).scan(b"a").is_err());
    assert!(scan(2).scan(b"a b").is_err());
    assert_eq!(scan(2).scan(b"ab").unwrap(), (owned("ab"), 2));
    assert_eq!(scan(2).scan(b"abc").unwrap(), (owned("ab"), 2));
}

#[test]
fn test_max_width() {
    let scan = max_width_a::<Word>;

    assert!(scan(2).scan(b"").is_err());
    assert_eq!(scan(2).scan(b"a").unwrap(), (owned("a"), 1));
    assert_eq!(scan(2).scan(b"a b").unwrap(), (owned("a"), 1));
    assert_eq!(scan(2).scan(b"ab").unwrap(), (owned("ab"), 2));
    assert_eq!(scan(2).scan(b"abc").unwrap(), (owned("ab"), 2));
}

#[test]
fn test_min_width() {
    let scan = min_width_a::<Word>;

    assert!(scan(2).scan(b"").is_err());
    assert!(scan(2).scan(b"a").is_err());
    assert!(scan(2).scan(b"a b").is_err());
    assert_eq!(scan(2).scan(b"ab").unwrap(), (owned("ab"), 2));
    assert_eq!(scan(2).scan(b"abc").unwrap(), (owned("abc"), 3));
}

#[test]
fn test_until() {
    let scan = |pat: &str| until_pat_str(pat.as_bytes().to_vec());

    assert!(scan("x").scan(b"").is_err());
    assert!(scan("x").scan(b"a").is_err());
    assert!(scan("x").scan(b"ab").is_err());
    assert_eq!(scan("x").scan(b"x").unwrap(), (owned(""), 0));
    assert_eq!(scan("x").scan(b"ax").unwrap(), (owned("a"), 1));
    assert_eq!(scan("x").scan(b"abx").unwrap(), (owned("ab"), 2));
}

#[test]
fn test_re() {
    let scan = |pat: &str| re_str(pat).unwrap();

    assert!(scan("[a-z][0-9]").scan(b"").is_err());
    assert!(scan("[a-z][0-9]").scan(b"a").is_err());
    assert!(scan("[a-z][0-9]").scan(b"a 0").is_err());
    assert_eq!(scan("[a-z][0-9]").scan(b"a0").unwrap(), (owned("a0"), 2));
    assert_eq!(scan("[a-z][0-9]").scan(b"a0c").unwrap(), (owned("a0"), 2));
    assert_eq!(scan("[a-z][0-9]").scan(b" a0").unwrap(), (owned("a0"), 3));
    assert!(re_str("[unclosed").is_none());
}
