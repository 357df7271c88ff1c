//! Tests for the whitespace, word and comparison policies.

use scan_rules::input::{
    ExactCompare, ExactSpace, FuzzySpace, IgnoreAsciiCase, IgnoreCase, IgnoreCaseNormalized,
    IgnoreNonLine, IgnoreSpace, NonSpace, Normalized, Wordish,
};

#[test]
fn input_test_exact_space() {
    assert_eq!(ExactSpace::match_spaces(b"", b""), Ok((0, 0)));
    assert_eq!(ExactSpace::match_spaces(b" ", b" "), Ok((1, 1)));
    assert_eq!(ExactSpace::match_spaces(b" x", b" x"), Ok((1, 1)));
    assert_eq!(ExactSpace::match_spaces(b" ", b" x"), Ok((1, 1)));
    assert_eq!(ExactSpace::match_spaces(b" x", b" "), Ok((1, 1)));
    assert_eq!(ExactSpace::match_spaces(b" \t ", b"   "), Err(1));
}

#[test]
fn input_test_fuzzy_space() {
    assert_eq!(FuzzySpace::match_spaces(b"x", b"x"), Ok((0, 0)));
    assert_eq!(FuzzySpace::match_spaces(b" x", b" x"), Ok((1, 1)));
    assert_eq!(FuzzySpace::match_spaces(b"  x", b" x"), Ok((2, 1)));
    assert_eq!(FuzzySpace::match_spaces(b" x", b"  x"), Ok((1, 2)));
    assert_eq!(FuzzySpace::match_spaces(b"\tx", b" x"), Ok((1, 1)));
    assert_eq!(FuzzySpace::match_spaces(b" x", b"\tx"), Ok((1, 1)));
    assert_eq!(FuzzySpace::match_spaces(b"x", b" x"), Err(0));
    assert_eq!(FuzzySpace::match_spaces(b" x", b"x"), Err(0));
}

#[test]
fn test_ignore_case() {
    assert_eq!(IgnoreCase::compare(b"hi", b"hi"), true);
    assert_eq!(IgnoreCase::compare(b"Hi", b"hI"), true);
    assert_eq!(IgnoreCase::compare(b"hI", b"Hi"), true);
    assert_eq!(IgnoreCase::compare("ẞß".as_bytes(), "ßẞ".as_bytes()), true);
    assert_eq!(IgnoreCase::compare("ßẞ".as_bytes(), "ẞß".as_bytes()), true);
}

#[test]
fn test_ignore_case_normalized() {
    assert_eq!(IgnoreCaseNormalized::compare(b"hi", b"hi"), true);
    assert_eq!(IgnoreCaseNormalized::compare(b"Hi", b"hI"), true);
    assert_eq!(IgnoreCaseNormalized::compare(b"hI", b"Hi"), true);
    assert_eq!(IgnoreCaseNormalized::compare("café".as_bytes(), "cafe\u{301}".as_bytes()), true);
    assert_eq!(IgnoreCaseNormalized::compare("cafe\u{301}".as_bytes(), "café".as_bytes()), true);
    assert_eq!(IgnoreCaseNormalized::compare("CafÉ".as_bytes(), "CafE\u{301}".as_bytes()), true);
    assert_eq!(IgnoreCaseNormalized::compare("CAFÉ".as_bytes(), "cafe\u{301}".as_bytes()), true);
}

#[test]
fn input_test_normalized() {
    assert_eq!(Normalized::compare(b"hi", b"hi"), true);
    assert_eq!(Normalized::compare("café".as_bytes(), "cafe\u{301}".as_bytes()), true);
    assert_eq!(Normalized::compare("cafe\u{301}".as_bytes(), "café".as_bytes()), true);
}

#[test]
fn test_ignore_ascii_case() {
    assert_eq!(IgnoreAsciiCase::compare(b"UPPERCASE", b"uppercase"), true);
    assert_eq!(IgnoreAsciiCase::compare(b"mIxeDcAsE", b"MiXEdCaSe"), true);
    assert_eq!(IgnoreAsciiCase::compare(b"same", b"different"), false);
}

#[test]
fn test_exact_compare() {
    assert_eq!(ExactCompare::compare(b"abc", b"abc"), true);
    assert_eq!(ExactCompare::compare(b"abc", b"abd"), false);
    assert_eq!(ExactCompare::compare(b"abc", b"ab"), false);
}

#[test]
fn test_slice_word_policies() {
    assert_eq!(NonSpace::slice_word(b"abc def"), Some(3));
    assert_eq!(NonSpace::slice_word(b" abc"), None);
    assert_eq!(NonSpace::slice_word(b""), None);
    assert_eq!(Wordish::slice_word(b"abc,def"), Some(3));
    assert_eq!(Wordish::slice_word(b",abc"), Some(1));
    assert_eq!(Wordish::slice_word(b""), None);
}

#[test]
fn test_skip_space_policies() {
    assert_eq!(IgnoreSpace::skip_space(b"  \t x"), 4);
    assert_eq!(IgnoreNonLine::skip_space(b" \t\nx"), 2);
    assert_eq!(ExactSpace::skip_space(b"   x"), 0);
    assert_eq!(FuzzySpace::skip_space(b"   x"), 0);
}
