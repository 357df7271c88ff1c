//! Tests for the miscellaneous abstract scanners.

use scan_rules::error::ScanErrorKind;
use scan_rules::scanner::misc::{
    Everything, HorSpace, Ident, Line, Newline, NonSpace, Number, QuotedString, Space, Word,
    Wordish,
};
use scan_rules::scanner::ScanFromStr;

fn owned(s: &str) -> Vec<u8> {
    s.as_bytes().to_vec()
}

#[test]
fn test_everything() {
    assert_eq!(Everything::scan_from(b"").unwrap(), (owned(""), 0));
    assert_eq!(Everything::scan_from("で".as_bytes()).unwrap(), (owned("で"), 3));
    assert_eq!(
        Everything::scan_from("うまいー　うまいー　ぼうぼうぼうぼう".as_bytes()).unwrap(),
        (owned("うまいー　うまいー　ぼうぼうぼうぼう"), 54)
    );
}

#[test]
fn test_hor_space() {
    assert!(matches!(
        HorSpace::scan_from(b"").unwrap_err().kind,
        ScanErrorKind::SyntaxNoMessage
    ));
    assert!(matches!(
        HorSpace::scan_from(b"a").unwrap_err().kind,
        ScanErrorKind::SyntaxNoMessage
    ));
    assert!(matches!(
        HorSpace::scan_from(b"0").unwrap_err().kind,
        ScanErrorKind::SyntaxNoMessage
    ));
    assert_eq!(HorSpace::scan_from(b" ").unwrap(), (owned(" "), 1));
    assert_eq!(HorSpace::scan_from(b"\t").unwrap(), (owned("\t"), 1));
    assert!(matches!(
        HorSpace::scan_from(b"\r").unwrap_err().kind,
        ScanErrorKind::SyntaxNoMessage
    ));
    assert!(matches!(
        HorSpace::scan_from(b"\n").unwrap_err().kind,
        ScanErrorKind::SyntaxNoMessage
    ));
    assert!(matches!(
        HorSpace::scan_from(b"\r\n").unwrap_err().kind,
        ScanErrorKind::SyntaxNoMessage
    ));
    assert_eq!(HorSpace::scan_from(b"  \t \n \t\t ").unwrap(), (owned("  \t "), 4));
}

#[test]
fn test_ident() {
    assert!(matches!(
        Ident::scan_from(b"").unwrap_err().kind,
        ScanErrorKind::SyntaxNoMessage
    ));
    assert_eq!(Ident::scan_from(b"a").unwrap(), (owned("a"), 1));
    assert_eq!(Ident::scan_from(b"two words ").unwrap(), (owned("two"), 3));
    assert_eq!(Ident::scan_from(b"two_words ").unwrap(), (owned("two_words"), 9));
    assert!(matches!(
        Ident::scan_from(b"0123abc456 ").unwrap_err().kind,
        ScanErrorKind::SyntaxNoMessage
    ));
    assert_eq!(Ident::scan_from(b"_0123abc456 ").unwrap(), (owned("_0123abc456"), 11));
    assert_eq!(Ident::scan_from(b"f(blah)").unwrap(), (owned("f"), 1));
}

#[test]
fn test_line() {
    assert_eq!(Line::scan_from(b"").unwrap(), (owned(""), 0));
    assert_eq!(Line::scan_from(b"abc def").unwrap(), (owned("abc def"), 7));
    assert_eq!(Line::scan_from(b"abc\ndef").unwrap(), (owned("abc"), 4));
    assert_eq!(Line::scan_from(b"abc\r\ndef").unwrap(), (owned("abc"), 5));
    assert_eq!(Line::scan_from(b"abc\rdef").unwrap(), (owned("abc"), 4));
}

#[test]
fn test_newline() {
    assert!(matches!(
        Newline::scan_from(b"").unwrap_err().kind,
        ScanErrorKind::SyntaxNoMessage
    ));
    assert!(matches!(
        Newline::scan_from(b"x").unwrap_err().kind,
        ScanErrorKind::SyntaxNoMessage
    ));
    assert_eq!(Newline::scan_from(b"\rx").unwrap(), (owned("\r"), 1));
    assert_eq!(Newline::scan_from(b"\nx").unwrap(), (owned("\n"), 1));
    assert_eq!(Newline::scan_from(b"\r\nx").unwrap(), (owned("\r\n"), 2));
    assert_eq!(Newline::scan_from(b"\n\rx").unwrap(), (owned("\n"), 1));
}

#[test]
fn misc_test_non_space() {
    assert!(matches!(
        NonSpace::scan_from(b"").unwrap_err().kind,
        ScanErrorKind::SyntaxNoMessage
    ));
    assert!(matches!(
        NonSpace::scan_from(b" abc ").unwrap_err().kind,
        ScanErrorKind::SyntaxNoMessage
    ));
    assert_eq!(NonSpace::scan_from(b"abc ").unwrap(), (owned("abc"), 3));
    assert_eq!(NonSpace::scan_from(b"abc\t").unwrap(), (owned("abc"), 3));
    assert_eq!(NonSpace::scan_from(b"abc\r").unwrap(), (owned("abc"), 3));
    assert_eq!(NonSpace::scan_from(b"abc\n").unwrap(), (owned("abc"), 3));
    assert_eq!(NonSpace::scan_from("abc\u{a0}".as_bytes()).unwrap(), (owned("abc"), 3));
    assert_eq!(NonSpace::scan_from("abc\u{2003}".as_bytes()).unwrap(), (owned("abc"), 3));
    assert_eq!(
        NonSpace::scan_from("abc\u{200B}".as_bytes()).unwrap(),
        (owned("abc\u{200B}"), 6)
    );
    assert_eq!(NonSpace::scan_from("abc\u{3000}".as_bytes()).unwrap(), (owned("abc"), 3));
}

#[test]
fn test_number() {
    assert!(matches!(
        Number::scan_from(b"").unwrap_err().kind,
        ScanErrorKind::SyntaxNoMessage
    ));
    assert!(matches!(
        Number::scan_from(b"a").unwrap_err().kind,
        ScanErrorKind::SyntaxNoMessage
    ));
    assert_eq!(Number::scan_from(b"0").unwrap(), (owned("0"), 1));
    assert_eq!(Number::scan_from(b"0x").unwrap(), (owned("0"), 1));
    assert!(matches!(
        Number::scan_from(b"x0").unwrap_err().kind,
        ScanErrorKind::SyntaxNoMessage
    ));
    assert_eq!(Number::scan_from(b"123 456 xyz").unwrap(), (owned("123"), 3));
    assert_eq!(
        Number::scan_from("123４５６789 ".as_bytes()).unwrap(),
        (owned("123４５６789"), 15)
    );
    assert_eq!(
        Number::scan_from("𐒩０꘠᧑ ".as_bytes()).unwrap(),
        (owned("𐒩０꘠᧑"), 13)
    );
}

#[test]
fn test_space() {
    assert!(matches!(
        Space::scan_from(b"").unwrap_err().kind,
        ScanErrorKind::SyntaxNoMessage
    ));
    assert!(matches!(
        Space::scan_from(b"a").unwrap_err().kind,
        ScanErrorKind::SyntaxNoMessage
    ));
    assert!(matches!(
        Space::scan_from(b"0").unwrap_err().kind,
        ScanErrorKind::SyntaxNoMessage
    ));
    assert_eq!(Space::scan_from(b" ").unwrap(), (owned(" "), 1));
    assert_eq!(Space::scan_from(b"\t").unwrap(), (owned("\t"), 1));
    assert_eq!(Space::scan_from(b"\r").unwrap(), (owned("\r"), 1));
    assert_eq!(Space::scan_from(b"\n").unwrap(), (owned("\n"), 1));
    assert_eq!(Space::scan_from(b"\r\n").unwrap(), (owned("\r\n"), 2));
    assert_eq!(Space::scan_from(b"  \t \n \t\t ").unwrap(), (owned("  \t \n \t\t "), 9));
    assert_eq!(Space::scan_from(b"  \t \nx \t\t ").unwrap(), (owned("  \t \n"), 5));
}

#[test]
fn test_word() {
    assert!(matches!(
        Word::scan_from(b"").unwrap_err().kind,
        ScanErrorKind::SyntaxNoMessage
    ));
    assert_eq!(Word::scan_from(b"a").unwrap(), (owned("a"), 1));
    assert_eq!(Word::scan_from(b"0").unwrap(), (owned("0"), 1));
    assert_eq!(Word::scan_from(b"0x").unwrap(), (owned("0x"), 2));
    assert_eq!(Word::scan_from(b"x0").unwrap(), (owned("x0"), 2));
    assert_eq!(Word::scan_from(b"123 456 xyz").unwrap(), (owned("123"), 3));
    assert_eq!(
        Word::scan_from("123４５６789 ".as_bytes()).unwrap(),
        (owned("123４５６789"), 15)
    );
    assert_eq!(
        Word::scan_from("𐒩０꘠᧑ ".as_bytes()).unwrap(),
        (owned("𐒩０꘠᧑"), 13)
    );
    assert_eq!(Word::scan_from(b"kumquat,bingo").unwrap(), (owned("kumquat"), 7));
    assert_eq!(
        Word::scan_from("mixed言葉كتابة ".as_bytes()).unwrap(),
        (owned("mixed言葉كتابة"), 21)
    );
}

#[test]
fn test_wordish() {
    assert_eq!(Wordish::scan_from(b"abc def").unwrap(), (owned("abc"), 3));
    assert_eq!(Wordish::scan_from(b",abc").unwrap(), (owned(","), 1));
    assert!(matches!(
        Wordish::scan_from(b"").unwrap_err().kind,
        ScanErrorKind::SyntaxNoMessage
    ));
}

fn chars(s: &str) -> Vec<char> {
    s.chars().collect()
}

#[test]
fn test_quoted_string() {
    assert!(matches!(
        QuotedString::scan_from(b"").unwrap_err().kind,
        ScanErrorKind::Syntax(_)
    ));
    assert!(matches!(
        QuotedString::scan_from(b"dummy xyz").unwrap_err().kind,
        ScanErrorKind::Syntax(_)
    ));
    assert!(matches!(
        QuotedString::scan_from(b"'dummy' xyz").unwrap_err().kind,
        ScanErrorKind::Syntax(_)
    ));
    assert_eq!(QuotedString::scan_from(b"\"dummy\" xyz").unwrap(), (chars("dummy"), 7));
    assert_eq!(QuotedString::scan_from(b"\"ab\\\"cd\" xyz").unwrap(), (chars("ab\"cd"), 8));
    assert_eq!(QuotedString::scan_from(b"\"ab\\x41cd\" xyz").unwrap(), (chars("abAcd"), 10));
    assert_eq!(
        QuotedString::scan_from("\"a\\'b\\u{5B57}c\\0d\" xyz".as_bytes()).unwrap(),
        (chars("a'b字c\0d"), 18)
    );
}
