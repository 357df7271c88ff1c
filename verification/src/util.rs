//! String and table utilities: escape-sequence decoding, span-table lookup,
//! and subslice location.

use vstd::prelude::*;

use crate::scanner::lang::{is_radix_digit, radix_run_end, radix_value};
use crate::text::{cp_at, cp_len_at, decode_cp, is_scalar_cp};

verus! {

/// Why unescaping a character from a string failed.
#[derive(Clone, Copy, PartialEq, Eq, Debug)]
pub enum EscapeError {
    /// Backslash with nothing after it.
    LoneSlash,
    /// Backslash followed by an unrecognised character.
    UnknownEscape(char),
    /// Malformed hex escape sequence.
    MalformedHex,
    /// Malformed unicode escape sequence.
    MalformedUnicode,
    /// Escape produced an invalid code point value.
    InvalidValue,
}

/// The message a rejected escape sequence is reported with.
pub open spec fn escape_error_msg(e: EscapeError) -> &'static str {
    match e {
        EscapeError::LoneSlash => "backslash with nothing after it",
        EscapeError::UnknownEscape(c) => "unknown escape",
        EscapeError::MalformedHex => "malformed hex escape",
        EscapeError::MalformedUnicode => "malformed Unicode escape",
        EscapeError::InvalidValue => "escape produced invalid code point value",
    }
}

impl EscapeError {
    /// A short description of why the escape was rejected.
    pub fn description(&self) -> (r: &'static str)
        ensures
            r == escape_error_msg(*self),
    {
        match self {
            EscapeError::LoneSlash => "backslash with nothing after it",
            EscapeError::UnknownEscape(_) => "unknown escape",
            EscapeError::MalformedHex => "malformed hex escape",
            EscapeError::MalformedUnicode => "malformed Unicode escape",
            EscapeError::InvalidValue => "escape produced invalid code point value",
        }
    }
}

/// How an escape sequence (without its leading backslash) at the start of
/// `s` unescapes: the code point it denotes and the bytes it occupies, or
/// the reason it is rejected.
///
/// The simple escapes are a quote, an apostrophe, a backslash, `0`, `n` and
/// `r`.  `x` must be followed by exactly two hex digits denoting at most
/// `0x7F`; `u` must be followed by one or more hex digits in braces,
/// denoting a Unicode scalar value.
pub open spec fn spec_split_escape(s: Seq<u8>) -> Result<(char, int), EscapeError> {
    if s.len() == 0 {
        Err(EscapeError::LoneSlash)
    } else {
        let cp = cp_at(s, 0);
        let len = cp_len_at(s, 0);
        if cp == 0x22 {
            Ok(('"', 1))
        } else if cp == 0x30 {
            Ok(('\0', 1))
        } else if cp == 0x27 {
            Ok(('\'', 1))
        } else if cp == 0x5C {
            Ok(('\\', 1))
        } else if cp == 0x6E {
            Ok(('\n', 1))
        } else if cp == 0x72 {
            Ok(('\r', 1))
        } else if cp == 0x78 {
            spec_hex_escape(s)
        } else if cp == 0x75 {
            spec_uni_escape(s)
        } else if is_scalar_cp(cp) {
            Err(EscapeError::UnknownEscape(cp as char))
        } else {
            Err(EscapeError::UnknownEscape('\u{FFFD}'))
        }
    }
}

/// An `x` escape: exactly two hex digits, denoting at most `0x7F`.
pub open spec fn spec_hex_escape(s: Seq<u8>) -> Result<(char, int), EscapeError> {
    if s.len() >= 3 && is_radix_digit(s[1], 16) && is_radix_digit(s[2], 16) {
        let v = radix_value(s, 1, 3, 16);
        if v > 0x7F {
            Err(EscapeError::InvalidValue)
        } else {
            Ok(((v as u32) as char, 3))
        }
    } else {
        Err(EscapeError::MalformedHex)
    }
}

/// A `u` escape: one or more hex digits in braces, denoting a Unicode
/// scalar value.
pub open spec fn spec_uni_escape(s: Seq<u8>) -> Result<(char, int), EscapeError> {
    if s.len() >= 2 && s[1] == 0x7Bu8 {
        let e = radix_run_end(s, 2, 16);
        if e == 2 || !(e < s.len() && s[e] == 0x7Du8) {
            Err(EscapeError::MalformedUnicode)
        } else {
            let v = radix_value(s, 2, e, 16);
            if v <= 0x10FFFF && is_scalar_cp(v as u32) {
                Ok(((v as u32) as char, e + 1))
            } else {
                Err(EscapeError::InvalidValue)
            }
        }
    } else {
        Err(EscapeError::MalformedUnicode)
    }
}

/// Extract an escape sequence (without its leading backslash) from the
/// start of `s`, returning the unescaped code point and the bytes consumed.
pub fn split_escape_default(s: &[u8]) -> (r: Result<(char, usize), EscapeError>)
    ensures
        spec_split_escape(s@) matches Ok((c, n)) ==> ({
            &&& r matches Ok((c2, n2))
            &&& c2 == c
            &&& n2 as int == n
            &&& n2 <= s@.len()
        }),
        spec_split_escape(s@) matches Err(k) ==> r == Err::<(char, usize), EscapeError>(k),
{
    if s.len() == 0 {
        return Err(EscapeError::LoneSlash);
    }
    let (cp, _len) = decode_cp(s, 0);
    if cp == 0x22 {
        Ok(('"', 1))
    } else if cp == 0x30 {
        Ok(('\0', 1))
    } else if cp == 0x27 {
        Ok(('\'', 1))
    } else if cp == 0x5C {
        Ok(('\\', 1))
    } else if cp == 0x6E {
        Ok(('\n', 1))
    } else if cp == 0x72 {
        Ok(('\r', 1))
    } else if cp == 0x78 {
        if s.len() >= 3 && hex_digit(s[1]) && hex_digit(s[2]) {
            match crate::scanner::lang::parse_radix_magnitude(s, 1, 3, 16, 0xFF) {
                Some(v) => {
                    if v > 0x7F {
                        Err(EscapeError::InvalidValue)
                    } else {
                        match char::from_u32(v as u32) {
                            Some(c) => Ok((c, 3)),
                            None => Err(EscapeError::InvalidValue),
                        }
                    }
                },
                None => Err(EscapeError::InvalidValue),
            }
        } else {
            Err(EscapeError::MalformedHex)
        }
    } else if cp == 0x75 {
        if s.len() >= 2 && s[1] == 0x7B {
            let e = crate::scanner::lang::radix_run(s, 2, 16);
            if e == 2 || !(e < s.len() && s[e] == 0x7D) {
                Err(EscapeError::MalformedUnicode)
            } else {
                proof {
                    lemma_hex_run_digits(s@, 2);
                }
                match crate::scanner::lang::parse_radix_magnitude(s, 2, e, 16, 0x10FFFF) {
                    Some(v) => {
                        match char::from_u32(v as u32) {
                            Some(c) => Ok((c, e + 1)),
                            None => Err(EscapeError::InvalidValue),
                        }
                    },
                    None => {
                        proof {
                            crate::scanner::lang::lemma_radix_value_nonneg(s@, 2, e as int, 16);
                        }
                        Err(EscapeError::InvalidValue)
                    },
                }
            }
        } else {
            Err(EscapeError::MalformedUnicode)
        }
    } else {
        match char::from_u32(cp) {
            Some(c) => Err(EscapeError::UnknownEscape(c)),
            None => Err(EscapeError::UnknownEscape('\u{FFFD}')),
        }
    }
}

/// Whether a byte is a hexadecimal digit.
fn hex_digit(b: u8) -> (r: bool)
    ensures
        r == is_radix_digit(b, 16),
{
    (0x30 <= b && b <= 0x39) || (0x61 <= b && b <= 0x66) || (0x41 <= b && b <= 0x46)
}

/// All bytes of a hex digit run are hex digits.
proof fn lemma_hex_run_digits(s: Seq<u8>, i: int)
    requires
        0 <= i <= s.len(),
    ensures
        forall|m: int| i <= m < radix_run_end(s, i, 16) ==> is_radix_digit(#[trigger] s[m], 16),
    decreases s.len() - i,
{
    if i < s.len() && is_radix_digit(s[i], 16) {
        lemma_hex_run_digits(s, i + 1);
    }
}

/// A span table is well formed when each span is ordered and the spans are
/// strictly increasing and disjoint.
pub open spec fn span_table_wf(t: Seq<(u32, u32)>) -> bool {
    &&& forall|i: int| 0 <= i < t.len() ==> (#[trigger] t[i]).0 <= t[i].1
    &&& forall|i: int, j: int| 0 <= i < j < t.len() ==> (#[trigger] t[i]).1 < (#[trigger] t[j]).0
}

/// Whether a code point falls in one of the table's spans.
pub open spec fn in_spans(t: Seq<(u32, u32)>, e: u32) -> bool {
    exists|i: int| 0 <= i < t.len() && (#[trigger] t[i]).0 <= e <= t[i].1
}

/// Whether `e` lies in one of the spans of the ordered table `t`, by binary
/// search.
pub fn span_table_contains(t: &[(u32, u32)], e: u32) -> (r: bool)
    requires
        span_table_wf(t@),
    ensures
        r == in_spans(t@, e),
{
    let len = t.len();
    let mut lo: usize = 0;
    let mut hi: usize = len;
    while lo < hi
        invariant
            lo <= hi <= t@.len(),
            span_table_wf(t@),
            forall|i: int| 0 <= i < lo ==> (#[trigger] t@[i]).1 < e,
            forall|i: int| hi <= i < t@.len() ==> e < (#[trigger] t@[i]).0,
        decreases hi - lo,
    {
        let mid = lo + (hi - lo) / 2;
        let (span_lo, span_hi) = t[mid];
        if e < span_lo {
            hi = mid;
        } else if e <= span_hi {
            proof {
                assert(t@[mid as int].0 <= e <= t@[mid as int].1);
            }
            return true;
        } else {
            lo = mid + 1;
        }
    }
    proof {
        assert forall|i: int| 0 <= i < t@.len() implies !((#[trigger] t@[i]).0 <= e <= t@[i].1) by {
            if i < lo {
            } else {
            }
        }
    }
    false
}

/// The byte offset of the first occurrence of `inner` within `outer`, if it
/// occurs at all.
pub fn subslice_offset(outer: &[u8], inner: &[u8]) -> (r: Option<usize>)
    ensures
        r matches Some(i) ==> Some(i as int) == crate::scanner::runtime::spec_find_at(
            outer@, inner@, 0) && i + inner@.len() <= outer@.len(),
        r is None ==> crate::scanner::runtime::spec_find_at(outer@, inner@, 0) is None,
{
    crate::scanner::runtime::find_pattern(outer, inner)
}

} // verus!
