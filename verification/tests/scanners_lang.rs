//! Tests for the primitive-type scanners.

use scan_rules::error::ScanErrorKind;
use scan_rules::scanner::lang::{format_dec_i64, format_dec_u64};
use scan_rules::scanner::misc::{Binary, Hex, Octal};
use scan_rules::scanner::ScanFromStr;

#[test]
fn test_scan_bool() {
    assert!(matches!(
        <bool>::scan_from(b"").unwrap_err().kind,
        ScanErrorKind::Syntax(_)
    ));
    assert!(matches!(
        <bool>::scan_from(b"y").unwrap_err().kind,
        ScanErrorKind::Syntax(_)
    ));
    assert!(matches!(
        <bool>::scan_from(b"n").unwrap_err().kind,
        ScanErrorKind::Syntax(_)
    ));
    assert!(matches!(
        <bool>::scan_from(b"yes").unwrap_err().kind,
        ScanErrorKind::Syntax(_)
    ));
    assert!(matches!(
        <bool>::scan_from(b"no").unwrap_err().kind,
        ScanErrorKind::Syntax(_)
    ));
    assert!(matches!(
        <bool>::scan_from(b" ").unwrap_err().kind,
        ScanErrorKind::Syntax(_)
    ));
    assert!(matches!(
        <bool>::scan_from(b" true").unwrap_err().kind,
        ScanErrorKind::Syntax(_)
    ));
    assert!(matches!(
        <bool>::scan_from(b" false").unwrap_err().kind,
        ScanErrorKind::Syntax(_)
    ));
    assert_eq!(<bool>::scan_from(b"true").unwrap(), (true, 4));
    assert_eq!(<bool>::scan_from(b"false").unwrap(), (false, 5));
    assert!(matches!(
        <bool>::scan_from(b"True").unwrap_err().kind,
        ScanErrorKind::Syntax(_)
    ));
    assert!(matches!(
        <bool>::scan_from(b"False").unwrap_err().kind,
        ScanErrorKind::Syntax(_)
    ));
}

#[test]
fn test_scan_char() {
    assert!(matches!(
        <char>::scan_from(b"").unwrap_err().kind,
        ScanErrorKind::Syntax(_)
    ));
    assert_eq!(<char>::scan_from(b" ").unwrap(), (' ', 1));
    assert_eq!(<char>::scan_from(b"x").unwrap(), ('x', 1));
    assert_eq!(<char>::scan_from(b"xy").unwrap(), ('x', 1));
    assert_eq!(<char>::scan_from("é".as_bytes()).unwrap(), ('é', 2));
    assert_eq!(<char>::scan_from("字".as_bytes()).unwrap(), ('字', 3));
}

#[test]
fn test_scan_i32() {
    assert!(matches!(
        <i32>::scan_from(b"").unwrap_err().kind,
        ScanErrorKind::Syntax(_)
    ));
    assert!(matches!(
        <i32>::scan_from(b"-").unwrap_err().kind,
        ScanErrorKind::Syntax(_)
    ));
    assert!(matches!(
        <i32>::scan_from(b"+").unwrap_err().kind,
        ScanErrorKind::Syntax(_)
    ));
    assert!(matches!(
        <i32>::scan_from(b"x").unwrap_err().kind,
        ScanErrorKind::Syntax(_)
    ));
    assert!(matches!(
        <i32>::scan_from(b" ").unwrap_err().kind,
        ScanErrorKind::Syntax(_)
    ));
    assert!(matches!(
        <i32>::scan_from(b" 0").unwrap_err().kind,
        ScanErrorKind::Syntax(_)
    ));
    assert_eq!(<i32>::scan_from(b"0").unwrap(), (0, 1));
    assert_eq!(<i32>::scan_from(b"42").unwrap(), (42, 2));
    assert_eq!(<i32>::scan_from(b"-312").unwrap(), (-312, 4));
    assert_eq!(<i32>::scan_from(b"1_234").unwrap(), (1, 1));
    assert!(matches!(
        <i32>::scan_from(b"2147483648").unwrap_err().kind,
        ScanErrorKind::Int
    ));
    assert_eq!(<i32>::scan_from(b"-2147483648").unwrap(), (-2147483648, 11));
}

#[test]
fn test_scan_u32() {
    assert!(matches!(
        <u32>::scan_from(b"").unwrap_err().kind,
        ScanErrorKind::Syntax(_)
    ));
    assert!(matches!(
        <u32>::scan_from(b"-").unwrap_err().kind,
        ScanErrorKind::Syntax(_)
    ));
    assert!(matches!(
        <u32>::scan_from(b"+").unwrap_err().kind,
        ScanErrorKind::Syntax(_)
    ));
    assert!(matches!(
        <u32>::scan_from(b"x").unwrap_err().kind,
        ScanErrorKind::Syntax(_)
    ));
    assert!(matches!(
        <u32>::scan_from(b" ").unwrap_err().kind,
        ScanErrorKind::Syntax(_)
    ));
    assert!(matches!(
        <u32>::scan_from(b" 0").unwrap_err().kind,
        ScanErrorKind::Syntax(_)
    ));
    assert_eq!(<u32>::scan_from(b"0").unwrap(), (0, 1));
    assert_eq!(<u32>::scan_from(b"42").unwrap(), (42, 2));
    assert!(matches!(
        <u32>::scan_from(b"-312").unwrap_err().kind,
        ScanErrorKind::Syntax(_)
    ));
    assert_eq!(<u32>::scan_from(b"1_234").unwrap(), (1, 1));
    assert!(matches!(
        <u32>::scan_from(b"4294967296").unwrap_err().kind,
        ScanErrorKind::Int
    ));
}

#[test]
fn test_binary() {
    assert_eq!(Binary::<i32>::scan_from(b"0 1 2 x").unwrap(), (0b0, 1));
    assert_eq!(Binary::<i32>::scan_from(b"012x").unwrap(), (0b1, 2));
    assert_eq!(Binary::<i32>::scan_from(b"0b012x").unwrap(), (0b0, 1));
    assert_eq!(Binary::<i32>::scan_from(b"110010101110000b").unwrap(), (0x6570, 15));
}

#[test]
fn test_octal() {
    assert_eq!(Octal::<i32>::scan_from(b"0 1 2 x").unwrap(), (0o0, 1));
    assert_eq!(Octal::<i32>::scan_from(b"012x").unwrap(), (0o12, 3));
    assert_eq!(Octal::<i32>::scan_from(b"0o012x").unwrap(), (0o0, 1));
    assert_eq!(Octal::<i32>::scan_from(b"7558").unwrap(), (0o755, 3));
}

#[test]
fn test_hex() {
    assert_eq!(Hex::<i32>::scan_from(b"0 1 2 x").unwrap(), (0x0, 1));
    assert_eq!(Hex::<i32>::scan_from(b"012x").unwrap(), (0x12, 3));
    assert_eq!(Hex::<i32>::scan_from(b"0x012x").unwrap(), (0x0, 1));
    assert_eq!(Hex::<i32>::scan_from("BadCafé".as_bytes()).unwrap(), (0xbadcaf, 6));
}

#[test]
fn test_int_roundtrip() {
    // The canonical decimal form of a value scans back to that value,
    // consuming all of it.
    for &n in &[0u64, 1, 9, 10, 42, 65535, u64::MAX] {
        let text = format_dec_u64(n);
        let (v, used) = <u64>::scan_from(&text).unwrap();
        assert_eq!(v, n);
        assert_eq!(used, text.len());
    }
    for &n in &[0i64, 1, -1, 42, -312, i64::MAX, i64::MIN] {
        let text = format_dec_i64(n);
        let (v, used) = <i64>::scan_from(&text).unwrap();
        assert_eq!(v, n);
        assert_eq!(used, text.len());
    }
}

#[test]
fn test_char_roundtrip() {
    for &c in &['a', 'Z', '0', 'é', '字', '\u{1F600}'] {
        let mut buf = [0u8; 4];
        let text = c.encode_utf8(&mut buf).as_bytes();
        let (v, used) = <char>::scan_from(text).unwrap();
        assert_eq!(v, c);
        assert_eq!(used, text.len());
    }
}

#[test]
fn test_bool_roundtrip() {
    for &b in &[true, false] {
        let text = if b { "true" } else { "false" };
        let (v, used) = <bool>::scan_from(text.as_bytes()).unwrap();
        assert_eq!(v, b);
        assert_eq!(used, text.len());
    }
}
