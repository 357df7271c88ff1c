//! Tests for the cursor, the scan dispatchers and the error type.

use scan_rules::error::{MsgErr, ScanError, ScanErrorKind};
use scan_rules::input::{ComparePolicy, SpacePolicy, StrCursor, WordPolicy};
use scan_rules::internal::{try_scan_static, try_scan_static_self};
use scan_rules::scanner::misc::{KeyValuePair, Word};
use scan_rules::scanner::ScanFromStr;

#[test]
fn test_cursor_basics() {
    let cur = StrCursor::new(b"hello world");
    assert_eq!(cur.offset(), 0);
    assert_eq!(cur.as_bytes(), b"hello world" as &[u8]);
}

#[test]
fn test_try_end() {
    assert!(StrCursor::new(b"").try_end().is_ok());
    assert!(StrCursor::new(b"   ").try_end().is_ok());

    let (e, cur) = StrCursor::new(b"  x").try_end().unwrap_err();
    assert!(matches!(e.kind, ScanErrorKind::ExpectedEnd));
    assert_eq!(e.at.offset(), 2);
    assert_eq!(cur.offset(), 0);

    // Under the exact whitespace policy nothing is skipped.
    let cur = StrCursor::with_policies(
        b"  ",
        ComparePolicy::Exact,
        SpacePolicy::Exact,
        WordPolicy::Wordish,
    );
    let (e, _) = cur.try_end().unwrap_err();
    assert_eq!(e.at.offset(), 0);
}

#[test]
fn test_try_match_literal() {
    let cur = StrCursor::new(b"  one two");
    let cur = cur.try_match_literal(b"one").unwrap();
    assert_eq!(cur.offset(), 5);
    let cur = cur.try_match_literal(b"two").unwrap();
    assert_eq!(cur.offset(), 9);
    assert!(cur.try_end().is_ok());

    let cur = StrCursor::new(b"one two");
    let (e, back) = cur.try_match_literal(b"one three").unwrap_err();
    assert!(matches!(e.kind, ScanErrorKind::LiteralMismatch));
    assert_eq!(e.at.offset(), 4);
    assert_eq!(back.offset(), 0);
}

#[test]
fn test_try_scan_dispatch() {
    let cur = StrCursor::new(b"  word rest");
    let (w, cur) = try_scan_static::<Word>(cur).unwrap();
    assert_eq!(w, b"word".to_vec());
    assert_eq!(cur.offset(), 6);

    let cur = StrCursor::new(b" 42 rest");
    let (n, cur) = try_scan_static_self::<i32>(cur).unwrap();
    assert_eq!(n, 42);
    assert_eq!(cur.offset(), 3);
}

#[test]
fn test_key_value_pair() {
    let (pair, used) = KeyValuePair::<i32, i32>::scan_from(b"0: 1, 2: 3").unwrap();
    assert_eq!(pair, (0, 1));
    assert_eq!(used, 4);

    assert!(KeyValuePair::<i32, i32>::scan_from(b"0 1").is_err());
}

#[test]
fn test_error_constructors() {
    let e = ScanError::new(3, ScanErrorKind::LiteralMismatch);
    assert_eq!(e.at.offset(), 3);
    assert!(matches!(e.kind, ScanErrorKind::LiteralMismatch));

    assert!(matches!(ScanError::expected_end(7).kind, ScanErrorKind::ExpectedEnd));
    assert_eq!(ScanError::expected_end(7).at.offset(), 7);
    assert!(matches!(ScanError::io().kind, ScanErrorKind::Io));
    assert_eq!(ScanError::io().at.offset(), 0);
    assert!(matches!(
        ScanError::literal_mismatch(2).kind,
        ScanErrorKind::LiteralMismatch
    ));
    assert!(matches!(
        ScanError::syntax(1, "expected word").kind,
        ScanErrorKind::Syntax("expected word")
    ));
    assert!(matches!(
        ScanError::other(0, MsgErr("boom")).kind,
        ScanErrorKind::Other(MsgErr("boom"))
    ));
    assert_eq!(ScanError::syntax(1, "expected word").description(), "expected word");

    // The error further along wins; ties go to the receiver.
    let a = ScanError::new(3, ScanErrorKind::LiteralMismatch);
    let b = ScanError::new(7, ScanErrorKind::ExpectedEnd);
    assert_eq!(a.furthest_along(b).at.offset(), 7);
    assert_eq!(b.furthest_along(a).at.offset(), 7);
    let c = ScanError::new(7, ScanErrorKind::LiteralMismatch);
    assert!(matches!(b.furthest_along(c).kind, ScanErrorKind::ExpectedEnd));

    let moved = ScanError::new(2, ScanErrorKind::Int).add_offset(5);
    assert_eq!(moved.at.offset(), 7);
    assert!(matches!(moved.kind, ScanErrorKind::Int));
}
