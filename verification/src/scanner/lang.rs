//! Scanners for primitive language types: integers in several radixes,
//! booleans, and characters.
//!
//! The integer scanners share one model: a run of digits denotes a value by
//! positional notation, and a scan succeeds exactly when a non-empty digit
//! run is present and its value lies in the target type's range.

use vstd::prelude::*;

use crate::error::{ScanError, ScanErrorKind};
use crate::scanner::misc::spec_match_word;
use crate::scanner::ScanFromStr;
use crate::scanner::{ScanFromBinary, ScanFromHex, ScanFromOctal};
use crate::text::{cp_at, cp_len_at, decode_cp, is_alphabetic_char, is_scalar_cp};

verus! {

/// The numeric value a byte denotes as a digit: `0`-`9`, `a`-`f` and `A`-`F`
/// denote 0 through 15, and every other byte denotes 99, which no radix
/// admits.
pub open spec fn digit_val(b: u8) -> int {
    if 0x30 <= b <= 0x39 {
        b - 0x30
    } else if 0x61 <= b <= 0x66 {
        b - 0x61 + 10
    } else if 0x41 <= b <= 0x46 {
        b - 0x41 + 10
    } else {
        99
    }
}

/// Whether a byte is a digit of the given radix.
pub open spec fn is_radix_digit(b: u8, radix: int) -> bool {
    digit_val(b) < radix
}

/// The first index at or after `i` that does not hold a digit of the radix.
pub open spec fn radix_run_end(s: Seq<u8>, i: int, radix: int) -> int
    recommends
        0 <= i <= s.len(),
    decreases s.len() - i,
{
    if i < s.len() && is_radix_digit(s[i], radix) {
        radix_run_end(s, i + 1, radix)
    } else {
        i
    }
}

/// `radix_run_end` stays within the slice.
pub proof fn lemma_radix_run_end_bounds(s: Seq<u8>, i: int, radix: int)
    requires
        0 <= i <= s.len(),
    ensures
        i <= radix_run_end(s, i, radix) <= s.len(),
    decreases s.len() - i,
{
    if i < s.len() && is_radix_digit(s[i], radix) {
        lemma_radix_run_end_bounds(s, i + 1, radix);
    }
}

/// The value denoted by the digits `s[i..j)` in the given radix.
pub open spec fn radix_value(s: Seq<u8>, i: int, j: int, radix: int) -> int
    recommends
        0 <= i <= j <= s.len(),
    decreases j - i,
{
    if i >= j {
        0
    } else {
        radix_value(s, i, j - 1, radix) * radix + digit_val(s[j - 1])
    }
}

/// Digit-run values are non-negative.
pub proof fn lemma_radix_value_nonneg(s: Seq<u8>, i: int, k: int, radix: int)
    requires
        0 <= i <= k <= s.len(),
        2 <= radix,
        forall|m: int| i <= m < k ==> digit_val(#[trigger] s[m]) >= 0,
    ensures
        0 <= radix_value(s, i, k, radix),
    decreases k - i,
{
    if i < k {
        lemma_radix_value_nonneg(s, i, k - 1, radix);
        assert(radix_value(s, i, k - 1, radix) * radix >= 0) by (nonlinear_arith)
            requires
                radix_value(s, i, k - 1, radix) >= 0,
                radix >= 2,
        ;
    }
}

/// Digit-run values are non-negative and grow with the run.
pub proof fn lemma_radix_value_mono(s: Seq<u8>, i: int, k: int, j: int, radix: int)
    requires
        0 <= i <= k <= j <= s.len(),
        2 <= radix,
        forall|m: int| i <= m < j ==> digit_val(#[trigger] s[m]) >= 0,
    ensures
        0 <= radix_value(s, i, k, radix) <= radix_value(s, i, j, radix),
    decreases j - k,
{
    lemma_radix_value_nonneg(s, i, k, radix);
    if k < j {
        lemma_radix_value_mono(s, i, k, j - 1, radix);
        assert(radix_value(s, i, j, radix) == radix_value(s, i, j - 1, radix) * radix + digit_val(
            s[j - 1]));
        assert(radix_value(s, i, j - 1, radix) * radix >= radix_value(s, i, j - 1, radix)) by (
        nonlinear_arith)
            requires
                radix_value(s, i, j - 1, radix) >= 0,
                radix >= 2,
        ;
    }
}

/// Find the end of the digit run of the given radix starting at `i`.
pub fn radix_run(s: &[u8], i: usize, radix: u64) -> (r: usize)
    requires
        i <= s@.len(),
    ensures
        r == radix_run_end(s@, i as int, radix as int),
        i <= r <= s@.len(),
{
    let mut k: usize = i;
    loop
        invariant
            i <= k <= s@.len(),
            radix_run_end(s@, i as int, radix as int) == radix_run_end(
                s@, k as int, radix as int),
        decreases s@.len() - k,
    {
        if k >= s.len() {
            return k;
        }
        let b = s[k];
        let v: u64 = if 0x30 <= b && b <= 0x39 {
            (b - 0x30) as u64
        } else if 0x61 <= b && b <= 0x66 {
            (b - 0x61 + 10) as u64
        } else if 0x41 <= b && b <= 0x46 {
            (b - 0x41 + 10) as u64
        } else {
            99
        };
        if v >= radix {
            return k;
        }
        k += 1;
    }
}

/// Parse the digits `s[i..j)` in the given radix, refusing values above
/// `limit`.
pub fn parse_radix_magnitude(s: &[u8], i: usize, j: usize, radix: u64, limit: u128) -> (r: Option<
    u128,
>)
    requires
        i <= j <= s@.len(),
        2 <= radix <= 16,
        limit <= 0xFFFF_FFFF_FFFF_FFFFu128,
        forall|m: int| i <= m < j ==> is_radix_digit(#[trigger] s@[m], radix as int),
    ensures
        r matches Some(v) ==> v == radix_value(s@, i as int, j as int, radix as int) && v <= limit,
        r is None ==> radix_value(s@, i as int, j as int, radix as int) > limit,
{
    let mut acc: u128 = 0;
    let mut k: usize = i;
    proof {
        assert(forall|m: int| i <= m < j ==> digit_val(#[trigger] s@[m]) >= 0);
    }
    loop
        invariant
            i <= k <= j <= s@.len(),
            2 <= radix <= 16,
            limit <= 0xFFFF_FFFF_FFFF_FFFFu128,
            acc == radix_value(s@, i as int, k as int, radix as int),
            acc <= limit,
            forall|m: int| i <= m < j ==> is_radix_digit(#[trigger] s@[m], radix as int),
            forall|m: int| i <= m < j ==> digit_val(#[trigger] s@[m]) >= 0,
        decreases j - k,
    {
        if k >= j {
            return Some(acc);
        }
        let b = s[k];
        proof {
            assert(is_radix_digit(s@[k as int], radix as int));
        }
        let d: u128 = if 0x30 <= b && b <= 0x39 {
            (b - 0x30) as u128
        } else if 0x61 <= b && b <= 0x66 {
            (b - 0x61 + 10) as u128
        } else {
            (b - 0x41 + 10) as u128
        };
        proof {
            assert(d == digit_val(s@[k as int]));
        }
        proof {
            assert(acc * (radix as u128) <= 0xFFFF_FFFF_FFFF_FFFFu128 * 16) by (nonlinear_arith)
                requires
                    0 <= acc <= 0xFFFF_FFFF_FFFF_FFFFu128,
                    0 <= radix <= 16,
            ;
        }
        let next: u128 = acc * (radix as u128) + d;
        proof {
            assert(next == radix_value(s@, i as int, k + 1, radix as int));
        }
        if next > limit {
            proof {
                lemma_radix_value_mono(s@, i as int, k + 1, j as int, radix as int);
            }
            return None;
        }
        acc = next;
        k += 1;
    }
}

/// How a signed decimal integer scan of `s` turns out, for a target range
/// `lo ..= hi`: the extent is an optional sign followed by a non-empty run
/// of decimal digits; a missing run is a syntax error, and a value outside
/// the range is an integer error.
pub open spec fn spec_scan_signed(s: Seq<u8>, lo: int, hi: int) -> Result<
    (int, int),
    ScanErrorKind,
> {
    let sign: int = if s.len() > 0 && (s[0] == 0x2Bu8 || s[0] == 0x2Du8) {
        1
    } else {
        0
    };
    let neg = s.len() > 0 && s[0] == 0x2Du8;
    let e = radix_run_end(s, sign, 10);
    if e == sign {
        Err(ScanErrorKind::Syntax("expected integer"))
    } else {
        let m = radix_value(s, sign, e, 10);
        let v: int = if neg {
            -m
        } else {
            m
        };
        if lo <= v <= hi {
            Ok((v, e))
        } else {
            Err(ScanErrorKind::Int)
        }
    }
}

/// How an unsigned decimal integer scan of `s` turns out for the range
/// `0 ..= hi`: an optional plus sign followed by a non-empty digit run.
pub open spec fn spec_scan_unsigned(s: Seq<u8>, hi: int) -> Result<(int, int), ScanErrorKind> {
    let sign: int = if s.len() > 0 && s[0] == 0x2Bu8 {
        1
    } else {
        0
    };
    let e = radix_run_end(s, sign, 10);
    if e == sign {
        Err(ScanErrorKind::Syntax("expected integer"))
    } else {
        let v = radix_value(s, sign, e, 10);
        if v <= hi {
            Ok((v, e))
        } else {
            Err(ScanErrorKind::Int)
        }
    }
}

/// How a radix integer scan of `s` turns out for the range `0 ..= hi`: a
/// non-empty run of digits of the radix, with no sign.
pub open spec fn spec_scan_radix(s: Seq<u8>, radix: int, hi: int, desc: &'static str) -> Result<
    (int, int),
    ScanErrorKind,
> {
    let e = radix_run_end(s, 0, radix);
    if e == 0 {
        Err(ScanErrorKind::Syntax(desc))
    } else {
        let v = radix_value(s, 0, e, radix);
        if v <= hi {
            Ok((v, e))
        } else {
            Err(ScanErrorKind::Int)
        }
    }
}

/// All bytes of a digit run are digits of the radix.
proof fn lemma_radix_run_digits(s: Seq<u8>, i: int, radix: int)
    requires
        0 <= i <= s.len(),
    ensures
        forall|m: int|
            i <= m < radix_run_end(s, i, radix) ==> is_radix_digit(#[trigger] s[m], radix),
    decreases s.len() - i,
{
    if i < s.len() && is_radix_digit(s[i], radix) {
        lemma_radix_run_digits(s, i + 1, radix);
    }
}

/// Scan a signed decimal integer whose value must lie in `lo ..= hi`.
pub fn scan_signed_range(s: &[u8], lo: i64, hi: i64) -> (r: Result<(i64, usize), ScanError>)
    requires
        lo <= 0 <= hi,
    ensures
        spec_scan_signed(s@, lo as int, hi as int) matches Ok((v, n)) ==> {
            &&& r matches Ok((w, m))
            &&& w as int == v
            &&& m as int == n
            &&& m <= s@.len()
        },
        spec_scan_signed(s@, lo as int, hi as int) matches Err(k) ==> {
            &&& r matches Err(e)
            &&& e.kind == k
            &&& e.at.spec_offset() == 0
        },
    {
    let sign: usize = if s.len() > 0 && (s[0] == 0x2B || s[0] == 0x2D) {
        1
    } else {
        0
    };
    let neg = s.len() > 0 && s[0] == 0x2D;
    let e = radix_run(s, sign, 10);
    if e == sign {
        return Err(ScanError::new(0, ScanErrorKind::Syntax("expected integer")));
    }
    proof {
        lemma_radix_run_digits(s@, sign as int, 10);
    }
    match parse_radix_magnitude(s, sign, e, 10, 0xFFFF_FFFF_FFFF_FFFFu128) {
        None => {
            proof {
                lemma_radix_value_mono(s@, sign as int, sign as int, e as int, 10);
            }
            Err(ScanError::new(0, ScanErrorKind::Int))
        },
        Some(m) => {
            let v: i128 = if neg {
                -(m as i128)
            } else {
                m as i128
            };
            if (lo as i128) <= v && v <= (hi as i128) {
                Ok((v as i64, e))
            } else {
                Err(ScanError::new(0, ScanErrorKind::Int))
            }
        },
    }
}

/// Scan an unsigned decimal integer whose value must lie in `0 ..= hi`.
pub fn scan_unsigned_range(s: &[u8], hi: u64) -> (r: Result<(u64, usize), ScanError>)
    ensures
        spec_scan_unsigned(s@, hi as int) matches Ok((v, n)) ==> {
            &&& r matches Ok((w, m))
            &&& w as int == v
            &&& m as int == n
            &&& m <= s@.len()
        },
        spec_scan_unsigned(s@, hi as int) matches Err(k) ==> {
            &&& r matches Err(e)
            &&& e.kind == k
            &&& e.at.spec_offset() == 0
        },
{
    let sign: usize = if s.len() > 0 && s[0] == 0x2B {
        1
    } else {
        0
    };
    let e = radix_run(s, sign, 10);
    if e == sign {
        return Err(ScanError::new(0, ScanErrorKind::Syntax("expected integer")));
    }
    proof {
        lemma_radix_run_digits(s@, sign as int, 10);
    }
    match parse_radix_magnitude(s, sign, e, 10, hi as u128) {
        None => Err(ScanError::new(0, ScanErrorKind::Int)),
        Some(m) => Ok((m as u64, e)),
    }
}

/// Scan an unsigned integer in the given radix whose value must lie in
/// `0 ..= hi`; `desc` is the syntax-error description when no digit is
/// present.
pub fn scan_radix_range(s: &[u8], radix: u64, hi: u64, desc: &'static str) -> (r: Result<
    (u64, usize),
    ScanError,
>)
    requires
        2 <= radix <= 16,
    ensures
        spec_scan_radix(s@, radix as int, hi as int, desc) matches Ok((v, n)) ==> {
            &&& r matches Ok((w, m))
            &&& w as int == v
            &&& m as int == n
            &&& m <= s@.len()
        },
        spec_scan_radix(s@, radix as int, hi as int, desc) matches Err(k) ==> {
            &&& r matches Err(e)
            &&& e.kind == k
            &&& e.at.spec_offset() == 0
        },
{
    let e = radix_run(s, 0, radix);
    if e == 0 {
        return Err(ScanError::new(0, ScanErrorKind::Syntax(desc)));
    }
    proof {
        lemma_radix_run_digits(s@, 0, radix as int);
    }
    match parse_radix_magnitude(s, 0, e, radix, hi as u128) {
        None => Err(ScanError::new(0, ScanErrorKind::Int)),
        Some(m) => Ok((m as u64, e)),
    }
}


/// Whether a byte string spells `true`.
pub open spec fn is_true_word(s: Seq<u8>) -> bool {
    s.len() == 4 && s[0] == 0x74u8 && s[1] == 0x72u8 && s[2] == 0x75u8 && s[3] == 0x65u8
}

/// Whether a byte string spells `false`.
pub open spec fn is_false_word(s: Seq<u8>) -> bool {
    s.len() == 5 && s[0] == 0x66u8 && s[1] == 0x61u8 && s[2] == 0x6Cu8 && s[3] == 0x73u8 && s[4]
        == 0x65u8
}

/// How a boolean scan of `s` turns out: the leading word must spell `true`
/// or `false` exactly.
pub open spec fn spec_scan_bool(s: Seq<u8>) -> Result<(bool, int), ScanErrorKind> {
    match spec_match_word(s) {
        Some(n) => if is_true_word(s.subrange(0, n)) {
            Ok((true, n))
        } else if is_false_word(s.subrange(0, n)) {
            Ok((false, n))
        } else {
            Err(ScanErrorKind::Syntax("expected `true` or `false`"))
        },
        None => Err(ScanErrorKind::Syntax("expected `true` or `false`")),
    }
}

impl ScanFromStr for bool {
    type Output = bool;

    type ModelValue = bool;

    open spec fn value_model(v: bool) -> bool {
        v
    }

    open spec fn modeled() -> bool {
        true
    }

    open spec fn scan_model(s: Seq<u8>) -> Result<(bool, int), (int, ScanErrorKind)> {
        match spec_scan_bool(s) {
            Ok((v, n)) => Ok((v, n)),
            Err(k) => Err((0, k)),
        }
    }

    open spec fn spec_wants_strip() -> bool {
        true
    }

    fn scan_from(s: &[u8]) -> (r: Result<(bool, usize), ScanError>) {
        match crate::scanner::misc::match_word(s) {
            Some(n) => {
                if n == 4 && s[0] == 0x74 && s[1] == 0x72 && s[2] == 0x75 && s[3] == 0x65 {
                    Ok((true, n))
                } else if n == 5 && s[0] == 0x66 && s[1] == 0x61 && s[2] == 0x6C && s[3] == 0x73
                    && s[4] == 0x65 {
                    Ok((false, n))
                } else {
                    Err(ScanError::new(0, ScanErrorKind::Syntax("expected `true` or `false`")))
                }
            },
            None => Err(ScanError::new(0, ScanErrorKind::Syntax("expected `true` or `false`"))),
        }
    }

    fn wants_leading_junk_stripped() -> (r: bool) {
        true
    }
}

/// How a character scan of `s` turns out: the single code point at the start
/// of the input, which must be a Unicode scalar value.
pub open spec fn spec_scan_char(s: Seq<u8>) -> Result<(char, int), ScanErrorKind> {
    if s.len() == 0 {
        Err(ScanErrorKind::Syntax("expected a character"))
    } else {
        let cp = cp_at(s, 0);
        if is_scalar_cp(cp) {
            Ok(((cp as char), cp_len_at(s, 0)))
        } else {
            Err(ScanErrorKind::Syntax("expected a character"))
        }
    }
}

impl ScanFromStr for char {
    type Output = char;

    type ModelValue = char;

    open spec fn value_model(v: char) -> char {
        v
    }

    open spec fn modeled() -> bool {
        true
    }

    open spec fn scan_model(s: Seq<u8>) -> Result<(char, int), (int, ScanErrorKind)> {
        match spec_scan_char(s) {
            Ok((v, n)) => Ok((v, n)),
            Err(k) => Err((0, k)),
        }
    }

    open spec fn spec_wants_strip() -> bool {
        true
    }

    fn scan_from(s: &[u8]) -> (r: Result<(char, usize), ScanError>) {
        if s.len() == 0 {
            return Err(ScanError::new(0, ScanErrorKind::Syntax("expected a character")));
        }
        let (cp, len) = decode_cp(s, 0);
        match char::from_u32(cp) {
            Some(c) => Ok((c, len)),
            None => Err(ScanError::new(0, ScanErrorKind::Syntax("expected a character"))),
        }
    }

    fn wants_leading_junk_stripped() -> (r: bool) {
        true
    }
}



impl ScanFromStr for i8 {
    type Output = i8;

    type ModelValue = int;

    open spec fn value_model(v: i8) -> int {
        v as int
    }

    open spec fn modeled() -> bool {
        true
    }

    open spec fn scan_model(s: Seq<u8>) -> Result<(int, int), (int, ScanErrorKind)> {
        match spec_scan_signed(s, i8::MIN as int, i8::MAX as int) {
            Ok((v, n)) => Ok((v, n)),
            Err(k) => Err((0, k)),
        }
    }

    open spec fn spec_wants_strip() -> bool {
        true
    }

    fn scan_from(s: &[u8]) -> (r: Result<(i8, usize), ScanError>) {
        match scan_signed_range(s, -128i64, 127i64) {
            Ok((v, n)) => Ok((v as i8, n)),
            Err(e) => Err(e),
        }
    }

    fn wants_leading_junk_stripped() -> (r: bool) {
        true
    }
}


impl ScanFromStr for i16 {
    type Output = i16;

    type ModelValue = int;

    open spec fn value_model(v: i16) -> int {
        v as int
    }

    open spec fn modeled() -> bool {
        true
    }

    open spec fn scan_model(s: Seq<u8>) -> Result<(int, int), (int, ScanErrorKind)> {
        match spec_scan_signed(s, i16::MIN as int, i16::MAX as int) {
            Ok((v, n)) => Ok((v, n)),
            Err(k) => Err((0, k)),
        }
    }

    open spec fn spec_wants_strip() -> bool {
        true
    }

    fn scan_from(s: &[u8]) -> (r: Result<(i16, usize), ScanError>) {
        match scan_signed_range(s, -32768i64, 32767i64) {
            Ok((v, n)) => Ok((v as i16, n)),
            Err(e) => Err(e),
        }
    }

    fn wants_leading_junk_stripped() -> (r: bool) {
        true
    }
}


impl ScanFromStr for i32 {
    type Output = i32;

    type ModelValue = int;

    open spec fn value_model(v: i32) -> int {
        v as int
    }

    open spec fn modeled() -> bool {
        true
    }

    open spec fn scan_model(s: Seq<u8>) -> Result<(int, int), (int, ScanErrorKind)> {
        match spec_scan_signed(s, i32::MIN as int, i32::MAX as int) {
            Ok((v, n)) => Ok((v, n)),
            Err(k) => Err((0, k)),
        }
    }

    open spec fn spec_wants_strip() -> bool {
        true
    }

    fn scan_from(s: &[u8]) -> (r: Result<(i32, usize), ScanError>) {
        match scan_signed_range(s, -2147483648i64, 2147483647i64) {
            Ok((v, n)) => Ok((v as i32, n)),
            Err(e) => Err(e),
        }
    }

    fn wants_leading_junk_stripped() -> (r: bool) {
        true
    }
}


impl ScanFromStr for i64 {
    type Output = i64;

    type ModelValue = int;

    open spec fn value_model(v: i64) -> int {
        v as int
    }

    open spec fn modeled() -> bool {
        true
    }

    open spec fn scan_model(s: Seq<u8>) -> Result<(int, int), (int, ScanErrorKind)> {
        match spec_scan_signed(s, i64::MIN as int, i64::MAX as int) {
            Ok((v, n)) => Ok((v, n)),
            Err(k) => Err((0, k)),
        }
    }

    open spec fn spec_wants_strip() -> bool {
        true
    }

    fn scan_from(s: &[u8]) -> (r: Result<(i64, usize), ScanError>) {
        match scan_signed_range(s, -9223372036854775808i64, 9223372036854775807i64) {
            Ok((v, n)) => Ok((v as i64, n)),
            Err(e) => Err(e),
        }
    }

    fn wants_leading_junk_stripped() -> (r: bool) {
        true
    }
}


impl ScanFromStr for isize {
    type Output = isize;

    type ModelValue = int;

    open spec fn value_model(v: isize) -> int {
        v as int
    }

    open spec fn modeled() -> bool {
        true
    }

    open spec fn scan_model(s: Seq<u8>) -> Result<(int, int), (int, ScanErrorKind)> {
        match spec_scan_signed(s, isize::MIN as int, isize::MAX as int) {
            Ok((v, n)) => Ok((v, n)),
            Err(k) => Err((0, k)),
        }
    }

    open spec fn spec_wants_strip() -> bool {
        true
    }

    fn scan_from(s: &[u8]) -> (r: Result<(isize, usize), ScanError>) {
        match scan_signed_range(s, isize::MIN as i64, isize::MAX as i64) {
            Ok((v, n)) => Ok((v as isize, n)),
            Err(e) => Err(e),
        }
    }

    fn wants_leading_junk_stripped() -> (r: bool) {
        true
    }
}


impl ScanFromStr for u8 {
    type Output = u8;

    type ModelValue = int;

    open spec fn value_model(v: u8) -> int {
        v as int
    }

    open spec fn modeled() -> bool {
        true
    }

    open spec fn scan_model(s: Seq<u8>) -> Result<(int, int), (int, ScanErrorKind)> {
        match spec_scan_unsigned(s, u8::MAX as int) {
            Ok((v, n)) => Ok((v, n)),
            Err(k) => Err((0, k)),
        }
    }

    open spec fn spec_wants_strip() -> bool {
        true
    }

    fn scan_from(s: &[u8]) -> (r: Result<(u8, usize), ScanError>) {
        match scan_unsigned_range(s, 255u64) {
            Ok((v, n)) => Ok((v as u8, n)),
            Err(e) => Err(e),
        }
    }

    fn wants_leading_junk_stripped() -> (r: bool) {
        true
    }
}


impl ScanFromStr for u16 {
    type Output = u16;

    type ModelValue = int;

    open spec fn value_model(v: u16) -> int {
        v as int
    }

    open spec fn modeled() -> bool {
        true
    }

    open spec fn scan_model(s: Seq<u8>) -> Result<(int, int), (int, ScanErrorKind)> {
        match spec_scan_unsigned(s, u16::MAX as int) {
            Ok((v, n)) => Ok((v, n)),
            Err(k) => Err((0, k)),
        }
    }

    open spec fn spec_wants_strip() -> bool {
        true
    }

    fn scan_from(s: &[u8]) -> (r: Result<(u16, usize), ScanError>) {
        match scan_unsigned_range(s, 65535u64) {
            Ok((v, n)) => Ok((v as u16, n)),
            Err(e) => Err(e),
        }
    }

    fn wants_leading_junk_stripped() -> (r: bool) {
        true
    }
}


impl ScanFromStr for u32 {
    type Output = u32;

    type ModelValue = int;

    open spec fn value_model(v: u32) -> int {
        v as int
    }

    open spec fn modeled() -> bool {
        true
    }

    open spec fn scan_model(s: Seq<u8>) -> Result<(int, int), (int, ScanErrorKind)> {
        match spec_scan_unsigned(s, u32::MAX as int) {
            Ok((v, n)) => Ok((v, n)),
            Err(k) => Err((0, k)),
        }
    }

    open spec fn spec_wants_strip() -> bool {
        true
    }

    fn scan_from(s: &[u8]) -> (r: Result<(u32, usize), ScanError>) {
        match scan_unsigned_range(s, 4294967295u64) {
            Ok((v, n)) => Ok((v as u32, n)),
            Err(e) => Err(e),
        }
    }

    fn wants_leading_junk_stripped() -> (r: bool) {
        true
    }
}


impl ScanFromStr for u64 {
    type Output = u64;

    type ModelValue = int;

    open spec fn value_model(v: u64) -> int {
        v as int
    }

    open spec fn modeled() -> bool {
        true
    }

    open spec fn scan_model(s: Seq<u8>) -> Result<(int, int), (int, ScanErrorKind)> {
        match spec_scan_unsigned(s, u64::MAX as int) {
            Ok((v, n)) => Ok((v, n)),
            Err(k) => Err((0, k)),
        }
    }

    open spec fn spec_wants_strip() -> bool {
        true
    }

    fn scan_from(s: &[u8]) -> (r: Result<(u64, usize), ScanError>) {
        match scan_unsigned_range(s, 18446744073709551615u64) {
            Ok((v, n)) => Ok((v as u64, n)),
            Err(e) => Err(e),
        }
    }

    fn wants_leading_junk_stripped() -> (r: bool) {
        true
    }
}


impl ScanFromStr for usize {
    type Output = usize;

    type ModelValue = int;

    open spec fn value_model(v: usize) -> int {
        v as int
    }

    open spec fn modeled() -> bool {
        true
    }

    open spec fn scan_model(s: Seq<u8>) -> Result<(int, int), (int, ScanErrorKind)> {
        match spec_scan_unsigned(s, usize::MAX as int) {
            Ok((v, n)) => Ok((v, n)),
            Err(k) => Err((0, k)),
        }
    }

    open spec fn spec_wants_strip() -> bool {
        true
    }

    fn scan_from(s: &[u8]) -> (r: Result<(usize, usize), ScanError>) {
        match scan_unsigned_range(s, usize::MAX as u64) {
            Ok((v, n)) => Ok((v as usize, n)),
            Err(e) => Err(e),
        }
    }

    fn wants_leading_junk_stripped() -> (r: bool) {
        true
    }
}


impl ScanFromBinary for i8 {
    open spec fn binary_model(s: Seq<u8>) -> Result<(int, int), (int, ScanErrorKind)> {
        match spec_scan_radix(s, 2, i8::MAX as int, "expected binary integer") {
            Ok((v, n)) => Ok((v, n)),
            Err(k) => Err((0, k)),
        }
    }

    fn scan_from_binary(s: &[u8]) -> (r: Result<(i8, usize), ScanError>) {
        match scan_radix_range(s, 2, i8::MAX as u64, "expected binary integer") {
            Ok((v, n)) => Ok((v as i8, n)),
            Err(e) => Err(e),
        }
    }
}


impl ScanFromBinary for i16 {
    open spec fn binary_model(s: Seq<u8>) -> Result<(int, int), (int, ScanErrorKind)> {
        match spec_scan_radix(s, 2, i16::MAX as int, "expected binary integer") {
            Ok((v, n)) => Ok((v, n)),
            Err(k) => Err((0, k)),
        }
    }

    fn scan_from_binary(s: &[u8]) -> (r: Result<(i16, usize), ScanError>) {
        match scan_radix_range(s, 2, i16::MAX as u64, "expected binary integer") {
            Ok((v, n)) => Ok((v as i16, n)),
            Err(e) => Err(e),
        }
    }
}


impl ScanFromBinary for i32 {
    open spec fn binary_model(s: Seq<u8>) -> Result<(int, int), (int, ScanErrorKind)> {
        match spec_scan_radix(s, 2, i32::MAX as int, "expected binary integer") {
            Ok((v, n)) => Ok((v, n)),
            Err(k) => Err((0, k)),
        }
    }

    fn scan_from_binary(s: &[u8]) -> (r: Result<(i32, usize), ScanError>) {
        match scan_radix_range(s, 2, i32::MAX as u64, "expected binary integer") {
            Ok((v, n)) => Ok((v as i32, n)),
            Err(e) => Err(e),
        }
    }
}


impl ScanFromBinary for i64 {
    open spec fn binary_model(s: Seq<u8>) -> Result<(int, int), (int, ScanErrorKind)> {
        match spec_scan_radix(s, 2, i64::MAX as int, "expected binary integer") {
            Ok((v, n)) => Ok((v, n)),
            Err(k) => Err((0, k)),
        }
    }

    fn scan_from_binary(s: &[u8]) -> (r: Result<(i64, usize), ScanError>) {
        match scan_radix_range(s, 2, i64::MAX as u64, "expected binary integer") {
            Ok((v, n)) => Ok((v as i64, n)),
            Err(e) => Err(e),
        }
    }
}


impl ScanFromBinary for isize {
    open spec fn binary_model(s: Seq<u8>) -> Result<(int, int), (int, ScanErrorKind)> {
        match spec_scan_radix(s, 2, isize::MAX as int, "expected binary integer") {
            Ok((v, n)) => Ok((v, n)),
            Err(k) => Err((0, k)),
        }
    }

    fn scan_from_binary(s: &[u8]) -> (r: Result<(isize, usize), ScanError>) {
        match scan_radix_range(s, 2, isize::MAX as u64, "expected binary integer") {
            Ok((v, n)) => Ok((v as isize, n)),
            Err(e) => Err(e),
        }
    }
}


impl ScanFromBinary for u8 {
    open spec fn binary_model(s: Seq<u8>) -> Result<(int, int), (int, ScanErrorKind)> {
        match spec_scan_radix(s, 2, u8::MAX as int, "expected binary integer") {
            Ok((v, n)) => Ok((v, n)),
            Err(k) => Err((0, k)),
        }
    }

    fn scan_from_binary(s: &[u8]) -> (r: Result<(u8, usize), ScanError>) {
        match scan_radix_range(s, 2, u8::MAX as u64, "expected binary integer") {
            Ok((v, n)) => Ok((v as u8, n)),
            Err(e) => Err(e),
        }
    }
}


impl ScanFromBinary for u16 {
    open spec fn binary_model(s: Seq<u8>) -> Result<(int, int), (int, ScanErrorKind)> {
        match spec_scan_radix(s, 2, u16::MAX as int, "expected binary integer") {
            Ok((v, n)) => Ok((v, n)),
            Err(k) => Err((0, k)),
        }
    }

    fn scan_from_binary(s: &[u8]) -> (r: Result<(u16, usize), ScanError>) {
        match scan_radix_range(s, 2, u16::MAX as u64, "expected binary integer") {
            Ok((v, n)) => Ok((v as u16, n)),
            Err(e) => Err(e),
        }
    }
}


impl ScanFromBinary for u32 {
    open spec fn binary_model(s: Seq<u8>) -> Result<(int, int), (int, ScanErrorKind)> {
        match spec_scan_radix(s, 2, u32::MAX as int, "expected binary integer") {
            Ok((v, n)) => Ok((v, n)),
            Err(k) => Err((0, k)),
        }
    }

    fn scan_from_binary(s: &[u8]) -> (r: Result<(u32, usize), ScanError>) {
        match scan_radix_range(s, 2, u32::MAX as u64, "expected binary integer") {
            Ok((v, n)) => Ok((v as u32, n)),
            Err(e) => Err(e),
        }
    }
}


impl ScanFromBinary for u64 {
    open spec fn binary_model(s: Seq<u8>) -> Result<(int, int), (int, ScanErrorKind)> {
        match spec_scan_radix(s, 2, u64::MAX as int, "expected binary integer") {
            Ok((v, n)) => Ok((v, n)),
            Err(k) => Err((0, k)),
        }
    }

    fn scan_from_binary(s: &[u8]) -> (r: Result<(u64, usize), ScanError>) {
        match scan_radix_range(s, 2, u64::MAX as u64, "expected binary integer") {
            Ok((v, n)) => Ok((v as u64, n)),
            Err(e) => Err(e),
        }
    }
}


impl ScanFromBinary for usize {
    open spec fn binary_model(s: Seq<u8>) -> Result<(int, int), (int, ScanErrorKind)> {
        match spec_scan_radix(s, 2, usize::MAX as int, "expected binary integer") {
            Ok((v, n)) => Ok((v, n)),
            Err(k) => Err((0, k)),
        }
    }

    fn scan_from_binary(s: &[u8]) -> (r: Result<(usize, usize), ScanError>) {
        match scan_radix_range(s, 2, usize::MAX as u64, "expected binary integer") {
            Ok((v, n)) => Ok((v as usize, n)),
            Err(e) => Err(e),
        }
    }
}


impl ScanFromOctal for i8 {
    open spec fn octal_model(s: Seq<u8>) -> Result<(int, int), (int, ScanErrorKind)> {
        match spec_scan_radix(s, 8, i8::MAX as int, "expected octal integer") {
            Ok((v, n)) => Ok((v, n)),
            Err(k) => Err((0, k)),
        }
    }

    fn scan_from_octal(s: &[u8]) -> (r: Result<(i8, usize), ScanError>) {
        match scan_radix_range(s, 8, i8::MAX as u64, "expected octal integer") {
            Ok((v, n)) => Ok((v as i8, n)),
            Err(e) => Err(e),
        }
    }
}


impl ScanFromOctal for i16 {
    open spec fn octal_model(s: Seq<u8>) -> Result<(int, int), (int, ScanErrorKind)> {
        match spec_scan_radix(s, 8, i16::MAX as int, "expected octal integer") {
            Ok((v, n)) => Ok((v, n)),
            Err(k) => Err((0, k)),
        }
    }

    fn scan_from_octal(s: &[u8]) -> (r: Result<(i16, usize), ScanError>) {
        match scan_radix_range(s, 8, i16::MAX as u64, "expected octal integer") {
            Ok((v, n)) => Ok((v as i16, n)),
            Err(e) => Err(e),
        }
    }
}


impl ScanFromOctal for i32 {
    open spec fn octal_model(s: Seq<u8>) -> Result<(int, int), (int, ScanErrorKind)> {
        match spec_scan_radix(s, 8, i32::MAX as int, "expected octal integer") {
            Ok((v, n)) => Ok((v, n)),
            Err(k) => Err((0, k)),
        }
    }

    fn scan_from_octal(s: &[u8]) -> (r: Result<(i32, usize), ScanError>) {
        match scan_radix_range(s, 8, i32::MAX as u64, "expected octal integer") {
            Ok((v, n)) => Ok((v as i32, n)),
            Err(e) => Err(e),
        }
    }
}


impl ScanFromOctal for i64 {
    open spec fn octal_model(s: Seq<u8>) -> Result<(int, int), (int, ScanErrorKind)> {
        match spec_scan_radix(s, 8, i64::MAX as int, "expected octal integer") {
            Ok((v, n)) => Ok((v, n)),
            Err(k) => Err((0, k)),
        }
    }

    fn scan_from_octal(s: &[u8]) -> (r: Result<(i64, usize), ScanError>) {
        match scan_radix_range(s, 8, i64::MAX as u64, "expected octal integer") {
            Ok((v, n)) => Ok((v as i64, n)),
            Err(e) => Err(e),
        }
    }
}


impl ScanFromOctal for isize {
    open spec fn octal_model(s: Seq<u8>) -> Result<(int, int), (int, ScanErrorKind)> {
        match spec_scan_radix(s, 8, isize::MAX as int, "expected octal integer") {
            Ok((v, n)) => Ok((v, n)),
            Err(k) => Err((0, k)),
        }
    }

    fn scan_from_octal(s: &[u8]) -> (r: Result<(isize, usize), ScanError>) {
        match scan_radix_range(s, 8, isize::MAX as u64, "expected octal integer") {
            Ok((v, n)) => Ok((v as isize, n)),
            Err(e) => Err(e),
        }
    }
}


impl ScanFromOctal for u8 {
    open spec fn octal_model(s: Seq<u8>) -> Result<(int, int), (int, ScanErrorKind)> {
        match spec_scan_radix(s, 8, u8::MAX as int, "expected octal integer") {
            Ok((v, n)) => Ok((v, n)),
            Err(k) => Err((0, k)),
        }
    }

    fn scan_from_octal(s: &[u8]) -> (r: Result<(u8, usize), ScanError>) {
        match scan_radix_range(s, 8, u8::MAX as u64, "expected octal integer") {
            Ok((v, n)) => Ok((v as u8, n)),
            Err(e) => Err(e),
        }
    }
}


impl ScanFromOctal for u16 {
    open spec fn octal_model(s: Seq<u8>) -> Result<(int, int), (int, ScanErrorKind)> {
        match spec_scan_radix(s, 8, u16::MAX as int, "expected octal integer") {
            Ok((v, n)) => Ok((v, n)),
            Err(k) => Err((0, k)),
        }
    }

    fn scan_from_octal(s: &[u8]) -> (r: Result<(u16, usize), ScanError>) {
        match scan_radix_range(s, 8, u16::MAX as u64, "expected octal integer") {
            Ok((v, n)) => Ok((v as u16, n)),
            Err(e) => Err(e),
        }
    }
}


impl ScanFromOctal for u32 {
    open spec fn octal_model(s: Seq<u8>) -> Result<(int, int), (int, ScanErrorKind)> {
        match spec_scan_radix(s, 8, u32::MAX as int, "expected octal integer") {
            Ok((v, n)) => Ok((v, n)),
            Err(k) => Err((0, k)),
        }
    }

    fn scan_from_octal(s: &[u8]) -> (r: Result<(u32, usize), ScanError>) {
        match scan_radix_range(s, 8, u32::MAX as u64, "expected octal integer") {
            Ok((v, n)) => Ok((v as u32, n)),
            Err(e) => Err(e),
        }
    }
}


impl ScanFromOctal for u64 {
    open spec fn octal_model(s: Seq<u8>) -> Result<(int, int), (int, ScanErrorKind)> {
        match spec_scan_radix(s, 8, u64::MAX as int, "expected octal integer") {
            Ok((v, n)) => Ok((v, n)),
            Err(k) => Err((0, k)),
        }
    }

    fn scan_from_octal(s: &[u8]) -> (r: Result<(u64, usize), ScanError>) {
        match scan_radix_range(s, 8, u64::MAX as u64, "expected octal integer") {
            Ok((v, n)) => Ok((v as u64, n)),
            Err(e) => Err(e),
        }
    }
}


impl ScanFromOctal for usize {
    open spec fn octal_model(s: Seq<u8>) -> Result<(int, int), (int, ScanErrorKind)> {
        match spec_scan_radix(s, 8, usize::MAX as int, "expected octal integer") {
            Ok((v, n)) => Ok((v, n)),
            Err(k) => Err((0, k)),
        }
    }

    fn scan_from_octal(s: &[u8]) -> (r: Result<(usize, usize), ScanError>) {
        match scan_radix_range(s, 8, usize::MAX as u64, "expected octal integer") {
            Ok((v, n)) => Ok((v as usize, n)),
            Err(e) => Err(e),
        }
    }
}


impl ScanFromHex for i8 {
    open spec fn hex_model(s: Seq<u8>) -> Result<(int, int), (int, ScanErrorKind)> {
        match spec_scan_radix(s, 16, i8::MAX as int, "expected hex integer") {
            Ok((v, n)) => Ok((v, n)),
            Err(k) => Err((0, k)),
        }
    }

    fn scan_from_hex(s: &[u8]) -> (r: Result<(i8, usize), ScanError>) {
        match scan_radix_range(s, 16, i8::MAX as u64, "expected hex integer") {
            Ok((v, n)) => Ok((v as i8, n)),
            Err(e) => Err(e),
        }
    }
}


impl ScanFromHex for i16 {
    open spec fn hex_model(s: Seq<u8>) -> Result<(int, int), (int, ScanErrorKind)> {
        match spec_scan_radix(s, 16, i16::MAX as int, "expected hex integer") {
            Ok((v, n)) => Ok((v, n)),
            Err(k) => Err((0, k)),
        }
    }

    fn scan_from_hex(s: &[u8]) -> (r: Result<(i16, usize), ScanError>) {
        match scan_radix_range(s, 16, i16::MAX as u64, "expected hex integer") {
            Ok((v, n)) => Ok((v as i16, n)),
            Err(e) => Err(e),
        }
    }
}


impl ScanFromHex for i32 {
    open spec fn hex_model(s: Seq<u8>) -> Result<(int, int), (int, ScanErrorKind)> {
        match spec_scan_radix(s, 16, i32::MAX as int, "expected hex integer") {
            Ok((v, n)) => Ok((v, n)),
            Err(k) => Err((0, k)),
        }
    }

    fn scan_from_hex(s: &[u8]) -> (r: Result<(i32, usize), ScanError>) {
        match scan_radix_range(s, 16, i32::MAX as u64, "expected hex integer") {
            Ok((v, n)) => Ok((v as i32, n)),
            Err(e) => Err(e),
        }
    }
}


impl ScanFromHex for i64 {
    open spec fn hex_model(s: Seq<u8>) -> Result<(int, int), (int, ScanErrorKind)> {
        match spec_scan_radix(s, 16, i64::MAX as int, "expected hex integer") {
            Ok((v, n)) => Ok((v, n)),
            Err(k) => Err((0, k)),
        }
    }

    fn scan_from_hex(s: &[u8]) -> (r: Result<(i64, usize), ScanError>) {
        match scan_radix_range(s, 16, i64::MAX as u64, "expected hex integer") {
            Ok((v, n)) => Ok((v as i64, n)),
            Err(e) => Err(e),
        }
    }
}


impl ScanFromHex for isize {
    open spec fn hex_model(s: Seq<u8>) -> Result<(int, int), (int, ScanErrorKind)> {
        match spec_scan_radix(s, 16, isize::MAX as int, "expected hex integer") {
            Ok((v, n)) => Ok((v, n)),
            Err(k) => Err((0, k)),
        }
    }

    fn scan_from_hex(s: &[u8]) -> (r: Result<(isize, usize), ScanError>) {
        match scan_radix_range(s, 16, isize::MAX as u64, "expected hex integer") {
            Ok((v, n)) => Ok((v as isize, n)),
            Err(e) => Err(e),
        }
    }
}


impl ScanFromHex for u8 {
    open spec fn hex_model(s: Seq<u8>) -> Result<(int, int), (int, ScanErrorKind)> {
        match spec_scan_radix(s, 16, u8::MAX as int, "expected hex integer") {
            Ok((v, n)) => Ok((v, n)),
            Err(k) => Err((0, k)),
        }
    }

    fn scan_from_hex(s: &[u8]) -> (r: Result<(u8, usize), ScanError>) {
        match scan_radix_range(s, 16, u8::MAX as u64, "expected hex integer") {
            Ok((v, n)) => Ok((v as u8, n)),
            Err(e) => Err(e),
        }
    }
}


impl ScanFromHex for u16 {
    open spec fn hex_model(s: Seq<u8>) -> Result<(int, int), (int, ScanErrorKind)> {
        match spec_scan_radix(s, 16, u16::MAX as int, "expected hex integer") {
            Ok((v, n)) => Ok((v, n)),
            Err(k) => Err((0, k)),
        }
    }

    fn scan_from_hex(s: &[u8]) -> (r: Result<(u16, usize), ScanError>) {
        match scan_radix_range(s, 16, u16::MAX as u64, "expected hex integer") {
            Ok((v, n)) => Ok((v as u16, n)),
            Err(e) => Err(e),
        }
    }
}


impl ScanFromHex for u32 {
    open spec fn hex_model(s: Seq<u8>) -> Result<(int, int), (int, ScanErrorKind)> {
        match spec_scan_radix(s, 16, u32::MAX as int, "expected hex integer") {
            Ok((v, n)) => Ok((v, n)),
            Err(k) => Err((0, k)),
        }
    }

    fn scan_from_hex(s: &[u8]) -> (r: Result<(u32, usize), ScanError>) {
        match scan_radix_range(s, 16, u32::MAX as u64, "expected hex integer") {
            Ok((v, n)) => Ok((v as u32, n)),
            Err(e) => Err(e),
        }
    }
}


impl ScanFromHex for u64 {
    open spec fn hex_model(s: Seq<u8>) -> Result<(int, int), (int, ScanErrorKind)> {
        match spec_scan_radix(s, 16, u64::MAX as int, "expected hex integer") {
            Ok((v, n)) => Ok((v, n)),
            Err(k) => Err((0, k)),
        }
    }

    fn scan_from_hex(s: &[u8]) -> (r: Result<(u64, usize), ScanError>) {
        match scan_radix_range(s, 16, u64::MAX as u64, "expected hex integer") {
            Ok((v, n)) => Ok((v as u64, n)),
            Err(e) => Err(e),
        }
    }
}


impl ScanFromHex for usize {
    open spec fn hex_model(s: Seq<u8>) -> Result<(int, int), (int, ScanErrorKind)> {
        match spec_scan_radix(s, 16, usize::MAX as int, "expected hex integer") {
            Ok((v, n)) => Ok((v, n)),
            Err(k) => Err((0, k)),
        }
    }

    fn scan_from_hex(s: &[u8]) -> (r: Result<(usize, usize), ScanError>) {
        match scan_radix_range(s, 16, usize::MAX as u64, "expected hex integer") {
            Ok((v, n)) => Ok((v as usize, n)),
            Err(e) => Err(e),
        }
    }
}



/// The canonical decimal form of a non-negative integer.
pub open spec fn spec_format_dec(m: nat) -> Seq<u8>
    decreases m,
{
    if m < 10 {
        seq![(0x30 + m) as u8]
    } else {
        spec_format_dec(m / 10).push((0x30 + m % 10) as u8)
    }
}

/// The canonical decimal form of an integer, with a leading minus sign when
/// it is negative.
pub open spec fn spec_format_int(v: int) -> Seq<u8> {
    if v < 0 {
        seq![0x2Du8] + spec_format_dec((-v) as nat)
    } else {
        spec_format_dec(v as nat)
    }
}

/// Every byte of the canonical decimal form is a decimal digit.
pub proof fn lemma_format_dec_digits(m: nat)
    ensures
        spec_format_dec(m).len() >= 1,
        forall|k: int|
            0 <= k < spec_format_dec(m).len() ==> 0x30 <= #[trigger] spec_format_dec(m)[k]
                <= 0x39,
    decreases m,
{
    if m >= 10 {
        lemma_format_dec_digits(m / 10);
    }
}

/// A digit run's value depends only on the bytes in its range.
pub proof fn lemma_radix_value_congruent(s1: Seq<u8>, s2: Seq<u8>, i: int, j: int, radix: int)
    requires
        0 <= i <= j <= s1.len(),
        j <= s2.len(),
        forall|k: int| i <= k < j ==> s1[k] == #[trigger] s2[k],
    ensures
        radix_value(s1, i, j, radix) == radix_value(s2, i, j, radix),
    decreases j - i,
{
    if i < j {
        lemma_radix_value_congruent(s1, s2, i, j - 1, radix);
    }
}

/// The canonical decimal form denotes the value it was formed from.
pub proof fn lemma_format_dec_value(m: nat)
    ensures
        radix_value(spec_format_dec(m), 0, spec_format_dec(m).len() as int, 10) == m,
    decreases m,
{
    let s = spec_format_dec(m);
    if m < 10 {
        assert(radix_value(s, 0, 1, 10) == radix_value(s, 0, 0, 10) * 10 + digit_val(s[0]));
    } else {
        lemma_format_dec_value(m / 10);
        let p = spec_format_dec(m / 10);
        assert(s == p.push((0x30 + m % 10) as u8));
        assert(s.len() == p.len() + 1);
        lemma_radix_value_congruent(s, p, 0, p.len() as int, 10);
        assert(radix_value(s, 0, s.len() as int, 10) == radix_value(s, 0, p.len() as int, 10) * 10
            + digit_val(s[p.len() as int]));
        assert(digit_val(s[p.len() as int]) == m % 10);
        assert((m / 10) * 10 + m % 10 == m) by (nonlinear_arith);
    }
}

/// A run of digits runs to the end of a sequence made only of digits.
pub proof fn lemma_radix_run_full(s: Seq<u8>, i: int, radix: int)
    requires
        0 <= i <= s.len(),
        forall|k: int| i <= k < s.len() ==> is_radix_digit(#[trigger] s[k], radix),
    ensures
        radix_run_end(s, i, radix) == s.len(),
    decreases s.len() - i,
{
    if i < s.len() {
        lemma_radix_run_full(s, i + 1, radix);
    }
}

/// Round trip for unsigned integers: for any range that holds the value,
/// the unsigned decimal scanner re-parses the canonical decimal form of the
/// value back into that value, consuming all of it.  Instantiating `hi`
/// with a type's greatest value gives the law for that type's scanner.
pub proof fn lemma_scan_unsigned_roundtrip(n: u64, hi: int)
    requires
        n as int <= hi,
    ensures
        spec_scan_unsigned(spec_format_dec(n as nat), hi) == Ok::<
            (int, int),
            ScanErrorKind,
        >((n as int, spec_format_dec(n as nat).len() as int)),
{
    let s = spec_format_dec(n as nat);
    lemma_format_dec_digits(n as nat);
    assert(forall|k: int| 0 <= k < s.len() ==> is_radix_digit(#[trigger] s[k], 10));
    lemma_radix_run_full(s, 0, 10);
    lemma_format_dec_value(n as nat);
    assert(s[0] != 0x2Bu8);
}

/// Round trip for signed integers: for any range that holds the value, the
/// signed decimal scanner re-parses the canonical decimal form of the value
/// back into that value, consuming all of it.  Instantiating the bounds
/// with a type's range gives the law for that type's scanner.
pub proof fn lemma_scan_signed_roundtrip(n: i64, lo: int, hi: int)
    requires
        lo <= n as int <= hi,
    ensures
        spec_scan_signed(spec_format_int(n as int), lo, hi) == Ok::<
            (int, int),
            ScanErrorKind,
        >((n as int, spec_format_int(n as int).len() as int)),
{
    let s = spec_format_int(n as int);
    if n >= 0 {
        let d = spec_format_dec(n as nat);
        lemma_format_dec_digits(n as nat);
        assert(forall|k: int| 0 <= k < d.len() ==> is_radix_digit(#[trigger] d[k], 10));
        lemma_radix_run_full(d, 0, 10);
        lemma_format_dec_value(n as nat);
        assert(s[0] != 0x2Bu8 && s[0] != 0x2Du8);
    } else {
        let m = (-(n as int)) as nat;
        let d = spec_format_dec(m);
        lemma_format_dec_digits(m);
        assert(s == seq![0x2Du8] + d);
        assert(s.len() == 1 + d.len());
        assert(s[0] == 0x2Du8);
        assert(forall|k: int| 1 <= k < s.len() ==> s[k] == d[k - 1]);
        assert(forall|k: int| 1 <= k < s.len() ==> is_radix_digit(#[trigger] s[k], 10));
        lemma_radix_run_full(s, 1, 10);
        lemma_format_dec_value(m);
        lemma_radix_value_offset(seq![0x2Du8], d, 10);
    }
}

/// Prepending bytes shifts a digit run's value range without changing its
/// value.
pub proof fn lemma_radix_value_offset(pre: Seq<u8>, t: Seq<u8>, radix: int)
    ensures
        radix_value(pre + t, pre.len() as int, (pre.len() + t.len()) as int, radix)
            == radix_value(t, 0, t.len() as int, radix),
    decreases t.len(),
{
    if t.len() > 0 {
        let t2 = t.subrange(0, t.len() - 1);
        lemma_radix_value_offset(pre, t2, radix);
        assert(pre + t2 =~= (pre + t).subrange(0, pre.len() + t.len() - 1));
        lemma_radix_value_congruent(
            pre + t2,
            pre + t,
            pre.len() as int,
            (pre.len() + t2.len()) as int,
            radix,
        );
        assert((pre + t)[pre.len() + t.len() - 1] == t[t.len() - 1]);
        lemma_radix_value_congruent(t2, t, 0, t2.len() as int, radix);
    }
}

/// Format a value in its canonical decimal form.
pub fn format_dec_u64(n: u64) -> (r: Vec<u8>)
    ensures
        r@ == spec_format_dec(n as nat),
    decreases n,
{
    if n < 10 {
        let mut v: Vec<u8> = Vec::new();
        v.push(0x30 + (n as u8));
        proof {
            assert(v@ =~= spec_format_dec(n as nat));
        }
        v
    } else {
        let mut v = format_dec_u64(n / 10);
        v.push(0x30 + ((n % 10) as u8));
        v
    }
}

/// Format a signed value in its canonical decimal form.
pub fn format_dec_i64(n: i64) -> (r: Vec<u8>)
    ensures
        r@ == spec_format_int(n as int),
{
    if n >= 0 {
        format_dec_u64(n as u64)
    } else {
        let mag: u64 = (-(n as i128)) as u64;
        let digits = format_dec_u64(mag);
        let mut v: Vec<u8> = Vec::new();
        v.push(0x2D);
        let mut i: usize = 0;
        while i < digits.len()
            invariant
                i <= digits@.len(),
                v@ == seq![0x2Du8] + digits@.subrange(0, i as int),
            decreases digits@.len() - i,
        {
            v.push(digits[i]);
            proof {
                assert(v@ =~= seq![0x2Du8] + digits@.subrange(0, i + 1));
            }
            i += 1;
        }
        proof {
            assert(digits@.subrange(0, digits@.len() as int) =~= digits@);
        }
        v
    }
}



/// Whether the code point at offset `i` is alphabetic; past the end of the
/// input nothing is.
pub open spec fn alphabetic_at(s: Seq<u8>, i: int) -> bool {
    0 <= i < s.len() && is_scalar_cp(cp_at(s, i)) && is_alphabetic_char(cp_at(s, i) as char)
}

/// Whether one of the named floating point constants stands at the start
/// of `s`, not followed by another letter: the extent is its length.
pub open spec fn spec_float_const(s: Seq<u8>) -> Option<int> {
    if s.len() >= 3 && s[0] == 0x69u8 && s[1] == 0x6Eu8 && s[2] == 0x66u8 && !alphabetic_at(s, 3) {
        Some(3)
    } else if s.len() >= 4 && s[0] == 0x2Du8 && s[1] == 0x69u8 && s[2] == 0x6Eu8 && s[3] == 0x66u8
        && !alphabetic_at(s, 4) {
        Some(4)
    } else if s.len() >= 3 && s[0] == 0x4Eu8 && s[1] == 0x61u8 && s[2] == 0x4Eu8 && !alphabetic_at(
        s,
        3,
    ) {
        Some(3)
    } else {
        None
    }
}

/// The extent of an exponent's tail at offset `i`: an optional sign and a
/// non-empty digit run.
pub open spec fn spec_float_exp(s: Seq<u8>, i: int) -> Option<int>
    recommends
        0 <= i <= s.len(),
{
    let sign: int = if i < s.len() && (s[i] == 0x2Bu8 || s[i] == 0x2Du8) {
        1
    } else {
        0
    };
    let e = radix_run_end(s, i + sign, 10);
    if e == i + sign {
        None
    } else {
        Some(e)
    }
}

/// The extent of a floating point number at the start of `s`: a named
/// constant, or an optional sign and digits followed by a decimal point
/// (with optional fraction and exponent) or an exponent.  A plain integer
/// with neither is not a float.
pub open spec fn spec_match_float(s: Seq<u8>) -> Option<int> {
    match spec_float_const(s) {
        Some(n) => Some(n),
        None => {
            let sign: int = if s.len() > 0 && (s[0] == 0x2Bu8 || s[0] == 0x2Du8) {
                1
            } else {
                0
            };
            let d = radix_run_end(s, sign, 10);
            if d < s.len() && s[d] == 0x2Eu8 {
                let f = radix_run_end(s, d + 1, 10);
                let end = if f == d + 1 {
                    d + 1
                } else {
                    f
                };
                if end < s.len() && (s[end] == 0x65u8 || s[end] == 0x45u8) {
                    spec_float_exp(s, end + 1)
                } else {
                    Some(end)
                }
            } else if d < s.len() && (s[d] == 0x65u8 || s[d] == 0x45u8) {
                spec_float_exp(s, d + 1)
            } else {
                None
            }
        },
    }
}

/// Whether an alphabetic code point starts at offset `i`.
fn alphabetic_here(s: &[u8], i: usize) -> (r: bool)
    ensures
        r == alphabetic_at(s@, i as int),
{
    if i >= s.len() {
        return false;
    }
    let (cp, _) = decode_cp(s, i);
    match char::from_u32(cp) {
        Some(c) => crate::text::char_alphabetic(c),
        None => false,
    }
}

/// The extent of a floating point number at the start of `s`, if one
/// starts there.  The text within the extent is what a floating point
/// parser should be handed; this matcher only delimits it.
pub fn match_float(s: &[u8]) -> (r: Option<usize>)
    ensures
        r matches Some(n) ==> Some(n as int) == spec_match_float(s@) && 0 < n <= s@.len(),
        r is None ==> spec_match_float(s@) is None,
{
    if s.len() >= 3 && s[0] == 0x69 && s[1] == 0x6E && s[2] == 0x66 && !alphabetic_here(s, 3) {
        return Some(3);
    }
    if s.len() >= 4 && s[0] == 0x2D && s[1] == 0x69 && s[2] == 0x6E && s[3] == 0x66
        && !alphabetic_here(s, 4) {
        return Some(4);
    }
    if s.len() >= 3 && s[0] == 0x4E && s[1] == 0x61 && s[2] == 0x4E && !alphabetic_here(s, 3) {
        return Some(3);
    }
    let sign: usize = if s.len() > 0 && (s[0] == 0x2B || s[0] == 0x2D) {
        1
    } else {
        0
    };
    let d = radix_run(s, sign, 10);
    if d < s.len() && s[d] == 0x2E {
        let f = radix_run(s, d + 1, 10);
        let end = if f == d + 1 {
            d + 1
        } else {
            f
        };
        if end < s.len() && (s[end] == 0x65 || s[end] == 0x45) {
            float_exp(s, end + 1)
        } else {
            Some(end)
        }
    } else if d < s.len() && (s[d] == 0x65 || s[d] == 0x45) {
        float_exp(s, d + 1)
    } else {
        None
    }
}

/// The end of an exponent's tail at offset `i`, if one stands there.
fn float_exp(s: &[u8], i: usize) -> (r: Option<usize>)
    requires
        i <= s@.len(),
    ensures
        r matches Some(n) ==> Some(n as int) == spec_float_exp(s@, i as int) && 0 < n <= s@.len(),
        r is None ==> spec_float_exp(s@, i as int) is None,
{
    let sign: usize = if i < s.len() && (s[i] == 0x2B || s[i] == 0x2D) {
        1
    } else {
        0
    };
    let e = radix_run(s, i + sign, 10);
    if e == i + sign {
        None
    } else {
        Some(e)
    }
}



/// Round trip for characters: the character scanner re-parses the UTF-8
/// form of any character back into that character, consuming all of it.
pub proof fn lemma_scan_char_roundtrip(c: char)
    ensures
        spec_scan_char(vstd::utf8::encode_utf8(seq![c])) == Ok::<(char, int), ScanErrorKind>(
            (c, vstd::utf8::encode_utf8(seq![c]).len() as int),
        ),
{
    let cs = seq![c];
    let bytes = vstd::utf8::encode_utf8(cs);
    vstd::utf8::encode_utf8_first_scalar(cs);
    vstd::utf8::char_is_scalar(c);
    assert(cs.len() == 1 && cs[0] == c);
    assert(cs.drop_first() =~= Seq::<char>::empty());
    assert(bytes == vstd::utf8::encode_scalar(c as u32) + vstd::utf8::encode_utf8(
        cs.drop_first()));
    assert(vstd::utf8::encode_utf8(Seq::<char>::empty()) =~= Seq::<u8>::empty());
    assert(bytes =~= vstd::utf8::encode_scalar(c as u32) + Seq::<u8>::empty());
    assert(bytes =~= vstd::utf8::encode_scalar(c as u32));
    assert(bytes.skip(0) =~= bytes);
    assert(cp_at(bytes, 0) == c as u32);
    vstd::utf8::char_u32_cast(c, c as u32);
    assert(cp_len_at(bytes, 0) == bytes.len());
}

/// Round trip for booleans: the boolean scanner re-parses the word a value
/// prints as back into that value, consuming all of it.
pub proof fn lemma_scan_bool_roundtrip(b: bool)
    ensures
        spec_scan_bool(spec_bool_text(b)) == Ok::<(bool, int), ScanErrorKind>(
            (b, spec_bool_text(b).len() as int),
        ),
{
    let s = spec_bool_text(b);
    lemma_bool_text_word(b);
    if b {
        assert(is_true_word(s.subrange(0, 4))) by {
            assert(s.subrange(0, 4) =~= s);
        }
    } else {
        assert(!is_true_word(s.subrange(0, 5)));
        assert(is_false_word(s.subrange(0, 5))) by {
            assert(s.subrange(0, 5) =~= s);
        }
    }
}

/// The text a boolean prints as.
pub open spec fn spec_bool_text(b: bool) -> Seq<u8> {
    if b {
        seq![0x74u8, 0x72u8, 0x75u8, 0x65u8]
    } else {
        seq![0x66u8, 0x61u8, 0x6Cu8, 0x73u8, 0x65u8]
    }
}

/// The word matcher takes all of a boolean's text: each of its letters is
/// an ASCII letter, and ASCII letters are word characters.
proof fn lemma_bool_text_word(b: bool)
    ensures
        spec_match_word(spec_bool_text(b)) == Some(spec_bool_text(b).len() as int),
{
    let s = spec_bool_text(b);
    assert(forall|k: int| 0 <= k < s.len() ==> 0x61 <= #[trigger] s[k] <= 0x7A);
    lemma_ascii_letter_run(s, 0);
}

/// A run of word code points covers any sequence of ASCII lowercase
/// letters entirely.
proof fn lemma_ascii_letter_run(s: Seq<u8>, i: int)
    requires
        0 <= i <= s.len(),
        forall|k: int| 0 <= k < s.len() ==> 0x61 <= #[trigger] s[k] <= 0x7A,
    ensures
        crate::input::cp_skip_while(s, i, crate::input::word_pred()) == s.len(),
    decreases s.len() - i,
{
    if i < s.len() {
        let b = s[i];
        assert(s.skip(i)[0] == s[i]);
        assert(vstd::utf8::is_leading_byte_width_1(b));
        assert(cp_at(s, i) == (b & 0x7F) as u32);
        assert(b & 0x7F == b) by (bit_vector)
            requires
                0x61 <= b <= 0x7A,
        ;
        assert(cp_len_at(s, i) == 1);
        let cp = cp_at(s, i);
        assert(is_scalar_cp(cp));
        assert('a' <= (cp as char) <= 'z');
        assert(crate::text::is_alphabetic_char(cp as char));
        assert(crate::text::is_word_cp(cp));
        assert(crate::input::word_pred()(cp));
        lemma_ascii_letter_run(s, i + 1);
    }
}



/// Round trip at the scanner itself: the unsigned 64-bit scanner's model
/// re-parses the canonical decimal form of any value back into that value,
/// consuming all of it.  The other integer scanners' models follow the
/// same way from the range-generalised lemmas.
pub proof fn lemma_u64_scanner_roundtrip(n: u64)
    ensures
        <u64 as ScanFromStr>::scan_model(spec_format_dec(n as nat)) == Ok::<
            (int, int),
            (int, ScanErrorKind),
        >((n as int, spec_format_dec(n as nat).len() as int)),
{
    lemma_scan_unsigned_roundtrip(n, u64::MAX as int);
}

/// Round trip at the scanner itself: the signed 64-bit scanner's model
/// re-parses the canonical decimal form of any value back into that value,
/// consuming all of it.
pub proof fn lemma_i64_scanner_roundtrip(n: i64)
    ensures
        <i64 as ScanFromStr>::scan_model(spec_format_int(n as int)) == Ok::<
            (int, int),
            (int, ScanErrorKind),
        >((n as int, spec_format_int(n as int).len() as int)),
{
    lemma_scan_signed_roundtrip(n, i64::MIN as int, i64::MAX as int);
}

/// Round trip at the scanner itself: the character scanner's model
/// re-parses the UTF-8 form of any character back into that character.
pub proof fn lemma_char_scanner_roundtrip(c: char)
    ensures
        <char as ScanFromStr>::scan_model(vstd::utf8::encode_utf8(seq![c])) == Ok::<
            (char, int),
            (int, ScanErrorKind),
        >((c, vstd::utf8::encode_utf8(seq![c]).len() as int)),
{
    lemma_scan_char_roundtrip(c);
}

/// Round trip at the scanner itself: the boolean scanner's model re-parses
/// the word a value prints as back into that value.
pub proof fn lemma_bool_scanner_roundtrip(b: bool)
    ensures
        <bool as ScanFromStr>::scan_model(spec_bool_text(b)) == Ok::<
            (bool, int),
            (int, ScanErrorKind),
        >((b, spec_bool_text(b).len() as int)),
{
    lemma_scan_bool_roundtrip(b);
}


} // verus!
