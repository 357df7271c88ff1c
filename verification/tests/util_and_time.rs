//! Tests for the utility functions and the duration scanner.

use scan_rules::scanner::time::{DurationValue, Iso8601Duration};
use scan_rules::scanner::ScanFromStr;
use scan_rules::util::{span_table_contains, split_escape_default, subslice_offset, EscapeError};
use scan_rules::{error::ScanErrorKind, strip_line_term};

#[test]
fn util_test_split_escape_default() {
    let split = |s: &str| split_escape_default(s.as_bytes());

    assert_eq!(split(""), Err(EscapeError::LoneSlash));
    assert_eq!(split("0bc"), Ok(('\0', 1)));
    assert_eq!(split("'bc"), Ok(('\'', 1)));
    assert_eq!(split("nbc"), Ok(('\n', 1)));
    assert_eq!(split("rbc"), Ok(('\r', 1)));
    assert_eq!(split("wbc"), Err(EscapeError::UnknownEscape('w')));
    assert_eq!(split("x"), Err(EscapeError::MalformedHex));
    assert_eq!(split("x6"), Err(EscapeError::MalformedHex));
    assert_eq!(split("x61"), Ok(('a', 3)));
    assert_eq!(split("x61bc"), Ok(('a', 3)));
    assert_eq!(split("x7f"), Ok(('\x7f', 3)));
    assert_eq!(split("x80"), Err(EscapeError::InvalidValue));
    assert_eq!(split("u"), Err(EscapeError::MalformedUnicode));
    assert_eq!(split("u{"), Err(EscapeError::MalformedUnicode));
    assert_eq!(split("u{6"), Err(EscapeError::MalformedUnicode));
    assert_eq!(split("u{61"), Err(EscapeError::MalformedUnicode));
    assert_eq!(split("u{61}"), Ok(('a', 5)));
    assert_eq!(split("u{61}bc"), Ok(('a', 5)));
    assert_eq!(split("u{7f}"), Ok(('\x7f', 5)));
    assert_eq!(split("u{80}"), Ok(('\u{80}', 5)));
    assert_eq!(split("u{2764}"), Ok(('❤', 7)));
    assert_eq!(split("u{110000}"), Err(EscapeError::InvalidValue));
}

#[test]
fn test_span_table_contains() {
    // Spans of decimal-digit code points, ordered and disjoint.
    let table: Vec<(u32, u32)> = vec![
        (0x30, 0x39),
        (0x1090, 0x1099),
        (0x111D0, 0x111D9),
        (0x1D7CE, 0x1D7FF),
    ];

    assert_eq!(span_table_contains(&table, '/' as u32), false);
    assert_eq!(span_table_contains(&table, '0' as u32), true);
    assert_eq!(span_table_contains(&table, '1' as u32), true);
    assert_eq!(span_table_contains(&table, '2' as u32), true);
    assert_eq!(span_table_contains(&table, '3' as u32), true);
    assert_eq!(span_table_contains(&table, '4' as u32), true);
    assert_eq!(span_table_contains(&table, '5' as u32), true);
    assert_eq!(span_table_contains(&table, '6' as u32), true);
    assert_eq!(span_table_contains(&table, '7' as u32), true);
    assert_eq!(span_table_contains(&table, '8' as u32), true);
    assert_eq!(span_table_contains(&table, '9' as u32), true);
    assert_eq!(span_table_contains(&table, ':' as u32), false);

    assert_eq!(span_table_contains(&table, 0x108F), false);
    assert_eq!(span_table_contains(&table, 0x1090), true);
    assert_eq!(span_table_contains(&table, 0x1099), true);
    assert_eq!(span_table_contains(&table, 0x109A), false);

    assert_eq!(span_table_contains(&table, 0x111CF), false);
    assert_eq!(span_table_contains(&table, 0x111D0), true);
    assert_eq!(span_table_contains(&table, 0x111D9), true);
    assert_eq!(span_table_contains(&table, 0x111DA), false);

    assert_eq!(span_table_contains(&table, 0x1D7CD), false);
    assert_eq!(span_table_contains(&table, 0x1D7CE), true);
    assert_eq!(span_table_contains(&table, 0x1D7FF), true);
    assert_eq!(span_table_contains(&table, 0x1D800), false);
}

#[test]
fn util_test_subslice_offset() {
    let text = b"a\nb\nc";

    assert_eq!(subslice_offset(text, b"a"), Some(0));
    assert_eq!(subslice_offset(text, b"b"), Some(2));
    assert_eq!(subslice_offset(text, b"c"), Some(4));
    assert_eq!(subslice_offset(text, b"other"), None);
}

#[test]
fn test_strip_line_term() {
    assert_eq!(strip_line_term(b"abc\r\n"), b"abc" as &[u8]);
    assert_eq!(strip_line_term(b"abc\n"), b"abc" as &[u8]);
    assert_eq!(strip_line_term(b"abc\r"), b"abc" as &[u8]);
    assert_eq!(strip_line_term(b"abc"), b"abc" as &[u8]);
    assert_eq!(strip_line_term(b""), b"" as &[u8]);
}

#[test]
fn test_iso_8601_duration() {
    const SECS_IN_MIN: u64 = 60;
    const SECS_IN_HOUR: u64 = 60 * SECS_IN_MIN;
    const NANOS_IN_SEC: u32 = 1_000_000_000;

    let scan = |s: &str| Iso8601Duration::scan_from(s.as_bytes());
    let dur = |secs: u64, nanos: u32| DurationValue::new(secs, nanos);

    assert_eq!(scan("PT1H").unwrap(), (dur(SECS_IN_HOUR, 0), 4));
    assert_eq!(scan("PT1M").unwrap(), (dur(SECS_IN_MIN, 0), 4));
    assert_eq!(scan("PT1S").unwrap(), (dur(1, 0), 4));
    assert_eq!(
        scan("PT12H34M56.78S").unwrap(),
        (dur(12 * SECS_IN_HOUR + 34 * SECS_IN_MIN + 56, 780_000_000), 14)
    );
    assert_eq!(
        scan("PT34M56.78S").unwrap(),
        (dur(34 * SECS_IN_MIN + 56, 780_000_000), 11)
    );
    assert_eq!(
        scan("PT12H56.78S").unwrap(),
        (dur(12 * SECS_IN_HOUR + 56, 780_000_000), 11)
    );
    assert_eq!(
        scan("PT12H34M56S").unwrap(),
        (dur(12 * SECS_IN_HOUR + 34 * SECS_IN_MIN + 56, 0), 11)
    );
    assert_eq!(
        scan("PT12H34M").unwrap(),
        (dur(12 * SECS_IN_HOUR + 34 * SECS_IN_MIN, 0), 8)
    );

    assert_eq!(scan("PT0.5H").unwrap(), (dur(30 * SECS_IN_MIN, 0), 6));
    assert_eq!(scan("PT0,5H").unwrap(), (dur(30 * SECS_IN_MIN, 0), 6));
    assert_eq!(scan("PT0.5M").unwrap(), (dur(30, 0), 6));
    assert_eq!(scan("PT0.5S").unwrap(), (dur(0, NANOS_IN_SEC / 2), 6));

    assert_eq!(scan("PT0.000000001S").unwrap(), (dur(0, 1), 14));
    assert_eq!(scan("PT0.000000000016666666666666667M").unwrap(), (dur(0, 1), 32));
    assert_eq!(scan("PT0.0000000000002777777777777778H").unwrap(), (dur(0, 1), 33));

    assert!(scan("").is_err());
    assert!(scan("a while").is_err());
    assert!(scan("P").is_err());
    assert!(scan("Px").is_err());
    assert!(scan("PY").is_err());
    assert!(scan("PM").is_err());
    assert!(scan("PD").is_err());
    assert!(scan("PW").is_err());
    assert!(scan("P1H").is_err());
    assert!(scan("P1S").is_err());
}

#[test]
fn time_test_iso_8601_duration_dates() {
    let scan = |s: &str| Iso8601Duration::scan_from(s.as_bytes());

    let e = scan("P1W").unwrap_err();
    assert!(matches!(e.kind, ScanErrorKind::Syntax(_)));
    assert_eq!(e.at.offset(), 0);
    let e = scan("P1Y").unwrap_err();
    assert!(matches!(e.kind, ScanErrorKind::Syntax(_)));
    assert_eq!(e.at.offset(), 0);
    let e = scan("P1M").unwrap_err();
    assert!(matches!(e.kind, ScanErrorKind::Syntax(_)));
    assert_eq!(e.at.offset(), 0);
    let e = scan("P1D").unwrap_err();
    assert!(matches!(e.kind, ScanErrorKind::Syntax(_)));
    assert_eq!(e.at.offset(), 0);
}
