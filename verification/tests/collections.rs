//! Tests for scanning bracketed sequences into collections.

use scan_rules::error::ScanErrorKind;
use scan_rules::scanner::ScanFromStr;

#[test]
fn test_vec() {
    assert_eq!(<Vec<i32>>::scan_from(b"[]").unwrap(), (vec![], 2));
    assert_eq!(<Vec<i32>>::scan_from(b"[0]").unwrap(), (vec![0], 3));
    assert_eq!(<Vec<i32>>::scan_from(b"[0, 1]").unwrap(), (vec![0, 1], 6));
    assert_eq!(
        <Vec<bool>>::scan_from(b"[true, false]").unwrap(),
        (vec![true, false], 13)
    );
    assert!(matches!(
        <Vec<i32>>::scan_from(b"[0, ]").unwrap_err().kind,
        ScanErrorKind::Syntax(_)
    ));
    assert!(<Vec<i32>>::scan_from(b"[0, 1").is_err());
}

#[test]
fn test_option_and_result() {
    assert_eq!(<Option<i32>>::scan_from(b"Some(42) rest").unwrap(), (Some(42), 8));
    assert_eq!(<Option<i32>>::scan_from(b"None rest").unwrap(), (None, 4));
    assert!(<Option<i32>>::scan_from(b"Maybe(42)").is_err());

    assert_eq!(<Result<i32, bool>>::scan_from(b"Ok(7)").unwrap(), (Ok(7), 5));
    assert_eq!(
        <Result<i32, bool>>::scan_from(b"Err(true)").unwrap(),
        (Err(true), 9)
    );
    assert!(<Result<i32, bool>>::scan_from(b"Nope(1)").is_err());
}
