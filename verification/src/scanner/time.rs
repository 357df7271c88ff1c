//! A scanner for ISO 8601 durations of the form `PT[nH][nM][nS]`.
//!
//! Each component is an integer or a fractional value using `.` or `,` as
//! the decimal point; fractional seconds give nanosecond precision.
//! Durations with date components (years, months, weeks, days) are not
//! supported: a calendar month has no fixed length in seconds.

use vstd::prelude::*;

use crate::error::{MsgErr, ScanError, ScanErrorKind};
use crate::scanner::lang::{is_radix_digit, radix_run_end, radix_value};
use crate::scanner::ScanFromStr;

verus! {

/// A span of time: whole seconds and a nanosecond remainder below one
/// billion.
#[derive(Clone, Copy, Debug, PartialEq, Eq, Structural)]
pub struct DurationValue {
    /// Whole seconds.
    pub secs: u64,
    /// Nanoseconds, always below one billion.
    pub nanos: u32,
}

impl DurationValue {
    /// A duration from seconds and nanoseconds, carrying surplus
    /// nanoseconds into the seconds.
    pub fn new(secs: u64, nanos: u32) -> (r: Self)
        requires
            secs + nanos as int / 1_000_000_000 <= u64::MAX,
        ensures
            r.secs as int == secs + nanos as int / 1_000_000_000,
            r.nanos as int == nanos as int % 1_000_000_000,
    {
        DurationValue { secs: secs + (nanos / 1_000_000_000) as u64, nanos: nanos % 1_000_000_000 }
    }
}

/// Powers of ten.
pub open spec fn spec_pow10(k: nat) -> int
    decreases k,
{
    if k == 0 {
        1
    } else {
        10 * spec_pow10((k - 1) as nat)
    }
}

/// Powers of ten stay positive.
pub proof fn lemma_pow10_pos(k: nat)
    ensures
        spec_pow10(k) >= 1,
    decreases k,
{
    if k > 0 {
        lemma_pow10_pos((k - 1) as nat);
    }
}

/// How a real number at offset `i` scans: its integer part, fractional
/// digits value and count, and the offset after it.  Both parts must fit an
/// unsigned 64-bit value.
pub open spec fn spec_scan_real(s: Seq<u8>, i: int) -> Result<
    ((int, int, nat), int),
    (int, ScanErrorKind),
>
    recommends
        0 <= i <= s.len(),
{
    let e1 = radix_run_end(s, i, 10);
    if e1 == i {
        Err((i, ScanErrorKind::Syntax("expected digit")))
    } else {
        let int_v = radix_value(s, i, e1, 10);
        if int_v > u64::MAX {
            Err((e1, ScanErrorKind::Int))
        } else if e1 < s.len() && (s[e1] == 0x2Eu8 || s[e1] == 0x2Cu8) {
            let e2 = radix_run_end(s, e1 + 1, 10);
            if e2 == e1 + 1 {
                Err((e1 + 1, ScanErrorKind::Syntax("expected digit")))
            } else {
                let frac_v = radix_value(s, e1 + 1, e2, 10);
                if frac_v > u64::MAX {
                    Err((e2, ScanErrorKind::Int))
                } else {
                    Ok(((int_v, frac_v, (e2 - e1 - 1) as nat), e2))
                }
            }
        } else {
            Ok(((int_v, 0, 0), e1))
        }
    }
}

/// The seconds and nanoseconds a component denotes: the integer part scaled
/// to seconds, plus the fractional part's floor in seconds and nanoseconds.
/// A fraction finer than the scale resolves can only contribute zero.
pub open spec fn spec_component(int_v: int, frac_v: int, frac_len: nat, scale: int) -> (int, int) {
    let whole = int_v * scale;
    if frac_len >= 34 {
        (whole, 0)
    } else {
        let total_ns = frac_v * scale * 1_000_000_000 / spec_pow10(frac_len);
        (whole + total_ns / 1_000_000_000, total_ns % 1_000_000_000)
    }
}

/// Two components summed, with the nanosecond carry the scanner applies; a
/// sum of seconds beyond the 64-bit range is an overflow.
pub open spec fn spec_add_dur(a: (int, int), b: (int, int)) -> Option<(int, int)> {
    let c_ns = a.1 + b.1;
    let (ns, carry): (int, int) = if c_ns > 1_000_000_000 {
        (c_ns - 1_000_000_000, 1)
    } else {
        (c_ns, 0)
    };
    if a.0 + b.0 + carry <= u64::MAX && a.0 >= 0 && b.0 >= 0 {
        Some((a.0 + b.0 + carry, ns))
    } else {
        None
    }
}

/// The component at offset `i` with the given scale, or why it is
/// rejected.
pub open spec fn spec_time_part(s: Seq<u8>, i: int, scale: int, acc: (int, int)) -> Result<
    ((int, int), int),
    (int, ScanErrorKind),
> {
    match spec_scan_real(s, i) {
        Err(e) => Err(e),
        Ok(((int_v, frac_v, frac_len), j)) => {
            if int_v * scale > u64::MAX {
                Err((0, ScanErrorKind::Other(MsgErr("overflow converting a component into seconds"))))
            } else {
                match spec_add_dur(acc, spec_component(int_v, frac_v, frac_len, scale)) {
                    None => Err((0, ScanErrorKind::Other(MsgErr("duration overflowed")))),
                    Some(d) => Ok((d, j)),
                }
            }
        },
    }
}

/// Whether a decimal digit stands at offset `i`.
pub open spec fn digit_here(s: Seq<u8>, i: int) -> bool {
    0 <= i < s.len() && 0x30 <= s[i] <= 0x39
}

/// The time components after the minutes component: an optional seconds
/// component.
pub open spec fn spec_given_min(s: Seq<u8>, i: int, acc: (int, int)) -> Result<
    ((int, int), int),
    (int, ScanErrorKind),
> {
    if !digit_here(s, i) {
        Ok((acc, i))
    } else {
        match spec_time_part(s, i, 1, acc) {
            Err(e) => Err(e),
            Ok((d, j)) => if j < s.len() && s[j] == 0x53u8 {
                Ok((d, j + 1))
            } else {
                Err((j, ScanErrorKind::Syntax("expected number followed by `S`")))
            },
        }
    }
}

/// The time components after the hours component: optional minutes and
/// seconds components.
pub open spec fn spec_given_hour(s: Seq<u8>, i: int, acc: (int, int)) -> Result<
    ((int, int), int),
    (int, ScanErrorKind),
> {
    if !digit_here(s, i) {
        Ok((acc, i))
    } else {
        match spec_scan_real(s, i) {
            Err(e) => Err(e),
            Ok((parts, j)) => {
                if j < s.len() && s[j] == 0x4Du8 {
                    match spec_time_part(s, i, 60, acc) {
                        Err(e) => Err(e),
                        Ok((d, _)) => spec_given_min(s, j + 1, d),
                    }
                } else if j < s.len() && s[j] == 0x53u8 {
                    match spec_time_part(s, i, 1, acc) {
                        Err(e) => Err(e),
                        Ok((d, _)) => Ok((d, j + 1)),
                    }
                } else {
                    Err((j, ScanErrorKind::Syntax("expected number followed by one of `M`, or `S`")))
                }
            },
        }
    }
}

/// The time components after `T`: at least one of hours, minutes and
/// seconds, in that order.
pub open spec fn spec_given_time(s: Seq<u8>, i: int) -> Result<
    ((int, int), int),
    (int, ScanErrorKind),
> {
    match spec_scan_real(s, i) {
        Err(e) => Err(e),
        Ok((parts, j)) => {
            if j < s.len() && s[j] == 0x48u8 {
                match spec_time_part(s, i, 3600, (0, 0)) {
                    Err(e) => Err(e),
                    Ok((d, _)) => spec_given_hour(s, j + 1, d),
                }
            } else if j < s.len() && s[j] == 0x4Du8 {
                match spec_time_part(s, i, 60, (0, 0)) {
                    Err(e) => Err(e),
                    Ok((d, _)) => spec_given_min(s, j + 1, d),
                }
            } else if j < s.len() && s[j] == 0x53u8 {
                match spec_time_part(s, i, 1, (0, 0)) {
                    Err(e) => Err(e),
                    Ok((d, _)) => Ok((d, j + 1)),
                }
            } else {
                Err((
                    j,
                    ScanErrorKind::Syntax("expected number followed by one of `H`, `M`, or `S`"),
                ))
            }
        },
    }
}

/// How an ISO 8601 duration scan of `s` turns out: `P`, then `T` and time
/// components.  A duration with date components is rejected: its error is
/// reported at the start of the input.
pub open spec fn spec_scan_8601(s: Seq<u8>) -> Result<((int, int), int), (int, ScanErrorKind)> {
    if !(s.len() >= 1 && s[0] == 0x50u8) {
        Err((0, ScanErrorKind::Syntax("expected `P`")))
    } else if s.len() >= 2 && s[1] == 0x54u8 {
        spec_given_time(s, 2)
    } else {
        Err((0, ScanErrorKind::Syntax("durations with date components not supported")))
    }
}


/// Ten to the `k`, for exponents small enough to fit the working width.
fn pow10_u128(k: usize) -> (r: u128)
    requires
        k <= 33,
    ensures
        r == spec_pow10(k as nat),
        r >= 1,
{
    let mut r: u128 = 1;
    let mut j: usize = 0;
    while j < k
        invariant
            j <= k <= 33,
            r == spec_pow10(j as nat),
            r >= 1,
        decreases k - j,
    {
        proof {
            lemma_pow10_le(j as nat, 33);
            lemma_pow10_concrete();
        }
        r = r * 10;
        j += 1;
    }
    r
}

/// Powers of ten grow with the exponent, and stay within bounds useful for
/// the working width.
pub proof fn lemma_pow10_le(k: nat, cap: nat)
    requires
        k < cap,
        cap <= 34,
    ensures
        spec_pow10(k) * 10 <= spec_pow10(cap as nat),
        spec_pow10(k) < 0x1_0000_0000_0000_0000_0000_0000_0000_0000,
    decreases cap - k,
{
    lemma_pow10_pos(k);
    if k + 1 < cap {
        lemma_pow10_le((k + 1) as nat, cap);
        assert(spec_pow10(k) * 10 == spec_pow10((k + 1) as nat));
        lemma_pow10_pos((k + 1) as nat);
        assert(spec_pow10((k + 1) as nat) <= spec_pow10((k + 1) as nat) * 10) by (nonlinear_arith)
            requires
                spec_pow10((k + 1) as nat) >= 1,
        ;
    } else {
        assert(cap == k + 1);
        assert(spec_pow10(k) * 10 == spec_pow10(cap as nat));
    }
    lemma_pow10_concrete();
    if cap < 34 {
        lemma_pow10_mono(cap as nat, 33);
    }
}

/// Powers of ten grow with the exponent.
pub proof fn lemma_pow10_mono(a: nat, b: nat)
    requires
        a <= b,
    ensures
        spec_pow10(a) <= spec_pow10(b),
    decreases b - a,
{
    lemma_pow10_pos(a);
    if a < b {
        lemma_pow10_mono(a, (b - 1) as nat);
        lemma_pow10_pos((b - 1) as nat);
        assert(spec_pow10((b - 1) as nat) <= 10 * spec_pow10((b - 1) as nat)) by (nonlinear_arith)
            requires
                spec_pow10((b - 1) as nat) >= 1,
        ;
    }
}

/// The largest power of ten the scanner multiplies by fits the working
/// width.
pub proof fn lemma_pow10_concrete()
    ensures
        spec_pow10(33) == 1000000000000000000000000000000000,
{
    assert(spec_pow10(0) == 1);
    assert(spec_pow10(1) == 10);
    assert(spec_pow10(2) == 100);
    assert(spec_pow10(3) == 1000);
    assert(spec_pow10(4) == 10000);
    assert(spec_pow10(5) == 100000);
    assert(spec_pow10(6) == 1000000);
    assert(spec_pow10(7) == 10000000);
    assert(spec_pow10(8) == 100000000);
    assert(spec_pow10(9) == 1000000000);
    assert(spec_pow10(10) == 10000000000);
    assert(spec_pow10(11) == 100000000000);
    assert(spec_pow10(12) == 1000000000000);
    assert(spec_pow10(13) == 10000000000000);
    assert(spec_pow10(14) == 100000000000000);
    assert(spec_pow10(15) == 1000000000000000);
    assert(spec_pow10(16) == 10000000000000000);
    assert(spec_pow10(17) == 100000000000000000);
    assert(spec_pow10(18) == 1000000000000000000);
    assert(spec_pow10(19) == 10000000000000000000);
    assert(spec_pow10(20) == 100000000000000000000);
    assert(spec_pow10(21) == 1000000000000000000000);
    assert(spec_pow10(22) == 10000000000000000000000);
    assert(spec_pow10(23) == 100000000000000000000000);
    assert(spec_pow10(24) == 1000000000000000000000000);
    assert(spec_pow10(25) == 10000000000000000000000000);
    assert(spec_pow10(26) == 100000000000000000000000000);
    assert(spec_pow10(27) == 1000000000000000000000000000);
    assert(spec_pow10(28) == 10000000000000000000000000000);
    assert(spec_pow10(29) == 100000000000000000000000000000);
    assert(spec_pow10(30) == 1000000000000000000000000000000);
    assert(spec_pow10(31) == 10000000000000000000000000000000);
    assert(spec_pow10(32) == 100000000000000000000000000000000);
    assert(spec_pow10(33) == 1000000000000000000000000000000000);
}

/// Scan a real number at offset `i`: an integer part and an optional
/// fraction.
fn scan_real_run(s: &[u8], i: usize) -> (r: Result<((u64, u64, usize), usize), ScanError>)
    requires
        i <= s@.len(),
    ensures
        spec_scan_real(s@, i as int) matches Ok(((int_v, frac_v, frac_len), j)) ==> ({
            &&& r matches Ok(((iv, fv, fl), j2))
            &&& iv as int == int_v
            &&& fv as int == frac_v
            &&& fl as nat == frac_len
            &&& j2 as int == j
            &&& j2 <= s@.len()
        }),
        spec_scan_real(s@, i as int) matches Err((at, kind)) ==> ({
            &&& r matches Err(e)
            &&& e.at.spec_offset() as int == at
            &&& e.kind == kind
        }),
{
    let e1 = crate::scanner::lang::radix_run(s, i, 10);
    if e1 == i {
        return Err(ScanError::new(i, ScanErrorKind::Syntax("expected digit")));
    }
    proof {
        lemma_dec_run_digits(s@, i as int);
    }
    let int_v = match crate::scanner::lang::parse_radix_magnitude(
        s,
        i,
        e1,
        10,
        0xFFFF_FFFF_FFFF_FFFFu128,
    ) {
        Some(v) => v as u64,
        None => {
            return Err(ScanError::new(e1, ScanErrorKind::Int));
        },
    };
    if e1 < s.len() && (s[e1] == 0x2E || s[e1] == 0x2C) {
        let e2 = crate::scanner::lang::radix_run(s, e1 + 1, 10);
        if e2 == e1 + 1 {
            return Err(ScanError::new(e1 + 1, ScanErrorKind::Syntax("expected digit")));
        }
        proof {
            lemma_dec_run_digits(s@, e1 + 1);
        }
        let frac_v = match crate::scanner::lang::parse_radix_magnitude(
            s,
            e1 + 1,
            e2,
            10,
            0xFFFF_FFFF_FFFF_FFFFu128,
        ) {
            Some(v) => v as u64,
            None => {
                return Err(ScanError::new(e2, ScanErrorKind::Int));
            },
        };
        Ok(((int_v, frac_v, e2 - e1 - 1), e2))
    } else {
        Ok(((int_v, 0, 0), e1))
    }
}

/// All bytes of a decimal digit run are decimal digits.
proof fn lemma_dec_run_digits(s: Seq<u8>, i: int)
    requires
        0 <= i <= s.len(),
    ensures
        forall|m: int| i <= m < radix_run_end(s, i, 10) ==> is_radix_digit(#[trigger] s[m], 10),
    decreases s.len() - i,
{
    if i < s.len() && is_radix_digit(s[i], 10) {
        lemma_dec_run_digits(s, i + 1);
    }
}

/// Scan one component at offset `i` and add it, at the given scale, to the
/// accumulated duration.
fn time_part_run(s: &[u8], i: usize, scale: u64, acc: (u64, u32)) -> (r: Result<
    ((u64, u32), usize),
    ScanError,
>)
    requires
        i <= s@.len(),
        1 <= scale <= 3600,
        acc.1 <= 1_000_000_000,
    ensures
        spec_time_part(s@, i as int, scale as int, (acc.0 as int, acc.1 as int)) matches Ok(
            (d, j)) ==> ({
            &&& r matches Ok(((ds, dn), j2))
            &&& ds as int == d.0
            &&& dn as int == d.1
            &&& dn <= 1_000_000_000
            &&& j2 as int == j
            &&& j2 <= s@.len()
        }),
        spec_time_part(s@, i as int, scale as int, (acc.0 as int, acc.1 as int)) matches Err(
            (at, kind)) ==> ({
            &&& r matches Err(e)
            &&& e.at.spec_offset() as int == at
            &&& e.kind == kind
        }),
{
    let ((int_v, frac_v, frac_len), j) = match scan_real_run(s, i) {
        Ok(p) => p,
        Err(e) => {
            return Err(e);
        },
    };
    proof {
        assert((int_v as u128) * (scale as u128) <= 0xFFFF_FFFF_FFFF_FFFFu128 * 3600) by (
        nonlinear_arith)
            requires
                int_v <= 0xFFFF_FFFF_FFFF_FFFFu128,
                scale <= 3600,
        ;
    }
    let whole: u128 = (int_v as u128) * (scale as u128);
    if whole > 0xFFFF_FFFF_FFFF_FFFF {
        return Err(ScanError::new(
            0,
            ScanErrorKind::Other(MsgErr("overflow converting a component into seconds")),
        ));
    }
    let (extra_s, extra_ns): (u128, u128) = if frac_len >= 34 {
        (0, 0)
    } else {
        proof {
            assert((frac_v as u128) * (scale as u128) * 1_000_000_000 <= 0xFFFF_FFFF_FFFF_FFFFu128
                * 3600 * 1_000_000_000) by (nonlinear_arith)
                requires
                    frac_v <= 0xFFFF_FFFF_FFFF_FFFFu128,
                    scale <= 3600,
            ;
        }
        let total_ns: u128 = (frac_v as u128) * (scale as u128) * 1_000_000_000 / pow10_u128(
            frac_len,
        );
        proof {
            lemma_pow10_pos(frac_len as nat);
        }
        (total_ns / 1_000_000_000, total_ns % 1_000_000_000)
    };
    let comp_s_wide: u128 = whole + extra_s;
    let comp_ns: u64 = extra_ns as u64;
    let c_ns: u64 = (acc.1 as u64) + comp_ns;
    let (ns, carry): (u64, u64) = if c_ns > 1_000_000_000 {
        (c_ns - 1_000_000_000, 1)
    } else {
        (c_ns, 0)
    };
    let sum: u128 = (acc.0 as u128) + comp_s_wide + (carry as u128);
    if sum > 0xFFFF_FFFF_FFFF_FFFF {
        return Err(ScanError::new(0, ScanErrorKind::Other(MsgErr("duration overflowed"))));
    }
    proof {
        assert(extra_s * 1_000_000_000 + extra_ns == (frac_v as u128) * (scale as u128)
            * 1_000_000_000 / spec_pow10(frac_len as nat) || frac_len >= 34);
    }
    Ok(((sum as u64, ns as u32), j))
}

/// Scans an ISO 8601 duration of the form `PT[nH][nM][nS]` into a
/// `DurationValue`.  Durations with date components are rejected at the
/// start of the input.
pub struct Iso8601Duration;

impl ScanFromStr for Iso8601Duration {
    type Output = DurationValue;

    type ModelValue = DurationValue;

    open spec fn value_model(v: DurationValue) -> DurationValue {
        v
    }

    open spec fn modeled() -> bool {
        true
    }

    open spec fn scan_model(s: Seq<u8>) -> Result<(DurationValue, int), (int, ScanErrorKind)> {
        match spec_scan_8601(s) {
            Ok((d, j)) => if 0 <= d.0 && 0 <= d.1 && d.0 + d.1 / 1_000_000_000 <= u64::MAX {
                Ok(
                    (
                        DurationValue {
                            secs: (d.0 + d.1 / 1_000_000_000) as u64,
                            nanos: (d.1 % 1_000_000_000) as u32,
                        },
                        j,
                    ),
                )
            } else {
                Err((0, ScanErrorKind::Other(MsgErr("duration overflowed"))))
            },
            Err(e) => Err(e),
        }
    }

    open spec fn spec_wants_strip() -> bool {
        true
    }

    fn scan_from(s: &[u8]) -> (r: Result<(Self::Output, usize), ScanError>) {
        if !(s.len() >= 1 && s[0] == 0x50) {
            return Err(ScanError::new(0, ScanErrorKind::Syntax("expected `P`")));
        }
        if !(s.len() >= 2 && s[1] == 0x54) {
            return Err(ScanError::new(
                0,
                ScanErrorKind::Syntax("durations with date components not supported"),
            ));
        }
        let ((int_v, frac_v, frac_len), j) = match scan_real_run(s, 2) {
            Ok(p) => p,
            Err(e) => {
                return Err(e);
            },
        };
        let (acc, after): ((u64, u32), usize) = if j < s.len() && s[j] == 0x48 {
            let (d, _) = match time_part_run(s, 2, 3600, (0, 0)) {
                Ok(p) => p,
                Err(e) => {
                    return Err(e);
                },
            };
            match given_hour_run(s, j + 1, d) {
                Ok(p) => p,
                Err(e) => {
                    return Err(e);
                },
            }
        } else if j < s.len() && s[j] == 0x4D {
            let (d, _) = match time_part_run(s, 2, 60, (0, 0)) {
                Ok(p) => p,
                Err(e) => {
                    return Err(e);
                },
            };
            match given_min_run(s, j + 1, d) {
                Ok(p) => p,
                Err(e) => {
                    return Err(e);
                },
            }
        } else if j < s.len() && s[j] == 0x53 {
            let (d, _) = match time_part_run(s, 2, 1, (0, 0)) {
                Ok(p) => p,
                Err(e) => {
                    return Err(e);
                },
            };
            (d, j + 1)
        } else {
            return Err(ScanError::new(
                j,
                ScanErrorKind::Syntax("expected number followed by one of `H`, `M`, or `S`"),
            ));
        };
        if acc.0 == u64::MAX && acc.1 >= 1_000_000_000 {
            return Err(ScanError::new(0, ScanErrorKind::Other(MsgErr("duration overflowed"))));
        }
        Ok((DurationValue::new(acc.0, acc.1), after))
    }

    fn wants_leading_junk_stripped() -> (r: bool) {
        true
    }
}

/// The components allowed after the hours component.
fn given_hour_run(s: &[u8], i: usize, acc: (u64, u32)) -> (r: Result<((u64, u32), usize), ScanError>)
    requires
        i <= s@.len(),
        acc.1 <= 1_000_000_000,
    ensures
        spec_given_hour(s@, i as int, (acc.0 as int, acc.1 as int)) matches Ok((d, j)) ==> ({
            &&& r matches Ok(((ds, dn), j2))
            &&& ds as int == d.0
            &&& dn as int == d.1
            &&& dn <= 1_000_000_000
            &&& j2 as int == j
            &&& j2 <= s@.len()
        }),
        spec_given_hour(s@, i as int, (acc.0 as int, acc.1 as int)) matches Err((at, kind)) ==> ({
            &&& r matches Err(e)
            &&& e.at.spec_offset() as int == at
            &&& e.kind == kind
        }),
{
    if !(i < s.len() && 0x30 <= s[i] && s[i] <= 0x39) {
        return Ok((acc, i));
    }
    let ((int_v, frac_v, frac_len), j) = match scan_real_run(s, i) {
        Ok(p) => p,
        Err(e) => {
            return Err(e);
        },
    };
    if j < s.len() && s[j] == 0x4D {
        let (d, _) = match time_part_run(s, i, 60, acc) {
            Ok(p) => p,
            Err(e) => {
                return Err(e);
            },
        };
        given_min_run(s, j + 1, d)
    } else if j < s.len() && s[j] == 0x53 {
        let (d, _) = match time_part_run(s, i, 1, acc) {
            Ok(p) => p,
            Err(e) => {
                return Err(e);
            },
        };
        Ok((d, j + 1))
    } else {
        Err(ScanError::new(
            j,
            ScanErrorKind::Syntax("expected number followed by one of `M`, or `S`"),
        ))
    }
}

/// The components allowed after the minutes component.
fn given_min_run(s: &[u8], i: usize, acc: (u64, u32)) -> (r: Result<((u64, u32), usize), ScanError>)
    requires
        i <= s@.len(),
        acc.1 <= 1_000_000_000,
    ensures
        spec_given_min(s@, i as int, (acc.0 as int, acc.1 as int)) matches Ok((d, j)) ==> ({
            &&& r matches Ok(((ds, dn), j2))
            &&& ds as int == d.0
            &&& dn as int == d.1
            &&& dn <= 1_000_000_000
            &&& j2 as int == j
            &&& j2 <= s@.len()
        }),
        spec_given_min(s@, i as int, (acc.0 as int, acc.1 as int)) matches Err((at, kind)) ==> ({
            &&& r matches Err(e)
            &&& e.at.spec_offset() as int == at
            &&& e.kind == kind
        }),
{
    if !(i < s.len() && 0x30 <= s[i] && s[i] <= 0x39) {
        return Ok((acc, i));
    }
    let (d, j) = match time_part_run(s, i, 1, acc) {
        Ok(p) => p,
        Err(e) => {
            return Err(e);
        },
    };
    if j < s.len() && s[j] == 0x53 {
        Ok((d, j + 1))
    } else {
        Err(ScanError::new(j, ScanErrorKind::Syntax("expected number followed by `S`")))
    }
}


} // verus!
