//! Runtime scanners: scanner values, constructed before use, that bound or
//! transform the text another scanner sees.
//!
//! Composition is outside-in: the outer scanner decides how much text the
//! inner scanner may see, then validates how much of that the inner scanner
//! consumed.

use core::marker::PhantomData;
use vstd::prelude::*;

use crate::error::{ScanError, ScanErrorKind};
use crate::scanner::{ScanFromStr, ScanStr};
use crate::text::cp_len_at;

verus! {

/// Returns a runtime scanner that delegates to the static scanner `S`.
pub fn scan_a<S: ScanFromStr>() -> ScanA<S> {
    ScanA(PhantomData)
}

/// Runtime scanner that delegates to a static scanner.
pub struct ScanA<S>(PhantomData<S>);

impl<S: ScanFromStr> ScanStr for ScanA<S> {
    type Output = S::Output;

    type ModelValue = <S as ScanFromStr>::ModelValue;

    open spec fn value_model(v: S::Output) -> Self::ModelValue {
        <S as ScanFromStr>::value_model(v)
    }

    open spec fn modeled(&self) -> bool {
        S::modeled()
    }

    open spec fn scan_model(&self, s: Seq<u8>) -> Result<(Self::ModelValue, int), (int, ScanErrorKind)> {
        S::scan_model(s)
    }

    open spec fn spec_wants_strip(&self) -> bool {
        S::spec_wants_strip()
    }

    fn scan(&mut self, s: &[u8]) -> (r: Result<(Self::Output, usize), ScanError>) {
        S::scan_from(s)
    }

    fn wants_leading_junk_stripped(&self) -> (r: bool) {
        S::wants_leading_junk_stripped()
    }
}

/// Creates a runtime scanner that forces exactly `width` bytes to be
/// consumed: the inner scanner sees exactly `width` bytes and must consume
/// them all.
pub fn exact_width<Next: ScanStr>(width: usize, inner: Next) -> (r: ExactWidth<Next>)
    ensures
        r.width == width,
        r.inner == inner,
{
    ExactWidth { width, inner }
}

/// Creates a runtime scanner that forces exactly `width` bytes to be
/// consumed by the static scanner `S`.
pub fn exact_width_a<S: ScanFromStr>(width: usize) -> (r: ExactWidth<ScanA<S>>)
    ensures
        r.width == width,
{
    exact_width(width, scan_a::<S>())
}

/// Runtime scanner that forces exactly `width` bytes to be consumed.
pub struct ExactWidth<Next> {
    /// The width, in bytes, the inner scanner must consume.
    pub width: usize,
    /// The scanner the truncated input is handed to.
    pub inner: Next,
}

impl<Next: ScanStr> ScanStr for ExactWidth<Next> {
    type Output = Next::Output;

    type ModelValue = <Next as ScanStr>::ModelValue;

    open spec fn value_model(v: Next::Output) -> Self::ModelValue {
        <Next as ScanStr>::value_model(v)
    }

    open spec fn modeled(&self) -> bool {
        self.inner.modeled()
    }

    open spec fn scan_model(&self, s: Seq<u8>) -> Result<
        (Self::ModelValue, int),
        (int, ScanErrorKind),
    > {
        if s.len() < self.width {
            Err((0, ScanErrorKind::Syntax("input not long enough")))
        } else {
            match self.inner.scan_model(s.subrange(0, self.width as int)) {
                Ok((mv, mn)) => if mn == self.width {
                    Ok((mv, self.width as int))
                } else {
                    Err((0, ScanErrorKind::Syntax("value did not consume enough characters")))
                },
                Err(e) => Err(e),
            }
        }
    }

    open spec fn spec_wants_strip(&self) -> bool {
        self.inner.spec_wants_strip()
    }

    fn scan(&mut self, s: &[u8]) -> (r: Result<(Self::Output, usize), ScanError>)
        ensures
            r matches Ok((v, n)) ==> n == old(self).width && n <= s@.len(),
            s@.len() < old(self).width ==> ({
                &&& r matches Err(e)
                &&& e.kind == ScanErrorKind::Syntax("input not long enough")
                &&& e.at.spec_offset() == 0
            }),
    {
        if s.len() < self.width {
            return Err(ScanError::new(0, ScanErrorKind::Syntax("input not long enough")));
        }
        let sl = &s[0..self.width];
        match self.inner.scan(sl) {
            Ok((v, n)) => {
                if n != self.width {
                    Err(ScanError::new(
                        0,
                        ScanErrorKind::Syntax("value did not consume enough characters"),
                    ))
                } else {
                    Ok((v, n))
                }
            },
            Err(err) => Err(err),
        }
    }

    fn wants_leading_junk_stripped(&self) -> (r: bool) {
        self.inner.wants_leading_junk_stripped()
    }
}

/// The largest code point boundary in `s` at or below `w`.
pub open spec fn spec_boundary_before(s: Seq<u8>, w: int, i: int) -> int
    recommends
        0 <= i <= w,
    decreases w - i,
{
    if i < s.len() && i < w && i + cp_len_at(s, i) <= w {
        spec_boundary_before(s, w, i + cp_len_at(s, i))
    } else {
        i
    }
}

/// Find the largest code point boundary at or below `w`.
pub fn boundary_before(s: &[u8], w: usize) -> (r: usize)
    requires
        w <= s@.len(),
    ensures
        r == spec_boundary_before(s@, w as int, 0),
        r <= w,
{
    let mut i: usize = 0;
    loop
        invariant
            i <= w <= s@.len(),
            spec_boundary_before(s@, w as int, 0) == spec_boundary_before(s@, w as int, i as int),
        decreases w - i,
    {
        if i >= s.len() || i >= w {
            return i;
        }
        let (_, len) = crate::text::decode_cp(s, i);
        if i + len > w {
            return i;
        }
        i += len;
    }
}

/// Creates a runtime scanner that forces at most `width` bytes to be
/// consumed, by truncating the inner scanner's input to the largest code
/// point boundary at or below `width` bytes.
pub fn max_width<Next: ScanStr>(width: usize, inner: Next) -> (r: MaxWidth<Next>)
    ensures
        r.width == width,
        r.inner == inner,
{
    MaxWidth { width, inner }
}

/// Creates a runtime scanner that forces at most `width` bytes to be
/// consumed by the static scanner `S`.
pub fn max_width_a<S: ScanFromStr>(width: usize) -> (r: MaxWidth<ScanA<S>>)
    ensures
        r.width == width,
{
    max_width(width, scan_a::<S>())
}

/// Runtime scanner that forces at most `width` bytes to be consumed.
pub struct MaxWidth<Next> {
    /// The width, in bytes, beyond which the inner scanner sees nothing.
    pub width: usize,
    /// The scanner the truncated input is handed to.
    pub inner: Next,
}

impl<Next: ScanStr> ScanStr for MaxWidth<Next> {
    type Output = Next::Output;

    type ModelValue = <Next as ScanStr>::ModelValue;

    open spec fn value_model(v: Next::Output) -> Self::ModelValue {
        <Next as ScanStr>::value_model(v)
    }

    open spec fn modeled(&self) -> bool {
        self.inner.modeled()
    }

    open spec fn scan_model(&self, s: Seq<u8>) -> Result<
        (Self::ModelValue, int),
        (int, ScanErrorKind),
    > {
        let cap: int = if s.len() < self.width {
            s.len() as int
        } else {
            self.width as int
        };
        self.inner.scan_model(s.subrange(0, spec_boundary_before(s, cap, 0)))
    }

    open spec fn spec_wants_strip(&self) -> bool {
        self.inner.spec_wants_strip()
    }

    fn scan(&mut self, s: &[u8]) -> (r: Result<(Self::Output, usize), ScanError>)
        ensures
            r matches Ok((v, n)) ==> n <= old(self).width && n <= s@.len(),
    {
        let len = if s.len() < self.width {
            s.len()
        } else {
            self.width
        };
        let stop = boundary_before(s, len);
        let sl = &s[0..stop];
        self.inner.scan(sl)
    }

    fn wants_leading_junk_stripped(&self) -> (r: bool) {
        self.inner.wants_leading_junk_stripped()
    }
}

/// Creates a runtime scanner that forces at least `width` bytes to be
/// consumed, by checking how much the inner scanner consumed.
pub fn min_width<Next: ScanStr>(width: usize, inner: Next) -> (r: MinWidth<Next>)
    ensures
        r.width == width,
        r.inner == inner,
{
    MinWidth { width, inner }
}

/// Creates a runtime scanner that forces at least `width` bytes to be
/// consumed by the static scanner `S`.
pub fn min_width_a<S: ScanFromStr>(width: usize) -> (r: MinWidth<ScanA<S>>)
    ensures
        r.width == width,
{
    min_width(width, scan_a::<S>())
}

/// Runtime scanner that forces at least `width` bytes to be consumed.
pub struct MinWidth<Next> {
    /// The least number of bytes the inner scanner must consume.
    pub width: usize,
    /// The scanner the input is handed to.
    pub inner: Next,
}

impl<Next: ScanStr> ScanStr for MinWidth<Next> {
    type Output = Next::Output;

    type ModelValue = <Next as ScanStr>::ModelValue;

    open spec fn value_model(v: Next::Output) -> Self::ModelValue {
        <Next as ScanStr>::value_model(v)
    }

    open spec fn modeled(&self) -> bool {
        self.inner.modeled()
    }

    open spec fn scan_model(&self, s: Seq<u8>) -> Result<
        (Self::ModelValue, int),
        (int, ScanErrorKind),
    > {
        if s.len() < self.width {
            Err((0, ScanErrorKind::Syntax("expected more bytes to scan")))
        } else {
            match self.inner.scan_model(s) {
                Ok((mv, mn)) => if mn < self.width {
                    Err((0, ScanErrorKind::Syntax("scanned value too short")))
                } else {
                    Ok((mv, mn))
                },
                Err(e) => Err(e),
            }
        }
    }

    open spec fn spec_wants_strip(&self) -> bool {
        self.inner.spec_wants_strip()
    }

    fn scan(&mut self, s: &[u8]) -> (r: Result<(Self::Output, usize), ScanError>)
        ensures
            r matches Ok((v, n)) ==> old(self).width <= n <= s@.len(),
            s@.len() < old(self).width ==> ({
                &&& r matches Err(e)
                &&& e.kind == ScanErrorKind::Syntax("expected more bytes to scan")
                &&& e.at.spec_offset() == 0
            }),
    {
        if s.len() < self.width {
            return Err(ScanError::new(0, ScanErrorKind::Syntax("expected more bytes to scan")));
        }
        match self.inner.scan(s) {
            Ok((v, n)) => {
                if n < self.width {
                    Err(ScanError::new(0, ScanErrorKind::Syntax("scanned value too short")))
                } else {
                    Ok((v, n))
                }
            },
            Err(err) => Err(err),
        }
    }

    fn wants_leading_junk_stripped(&self) -> (r: bool) {
        self.inner.wants_leading_junk_stripped()
    }
}

/// The index of the first occurrence of `pat` in `s` at or after `i`, if
/// one exists.
pub open spec fn spec_find_at(s: Seq<u8>, pat: Seq<u8>, i: int) -> Option<int>
    recommends
        0 <= i,
    decreases s.len() + 1 - i,
{
    if i + pat.len() > s.len() {
        None
    } else if s.subrange(i, i + pat.len() as int) == pat {
        Some(i)
    } else {
        spec_find_at(s, pat, i + 1)
    }
}

/// Find the first occurrence of `pat` in `s`.
pub fn find_pattern(s: &[u8], pat: &[u8]) -> (r: Option<usize>)
    ensures
        r matches Some(i) ==> Some(i as int) == spec_find_at(s@, pat@, 0) && i + pat@.len()
            <= s@.len(),
        r is None ==> spec_find_at(s@, pat@, 0) is None,
{
    let n = s.len();
    let m = pat.len();
    if m > n {
        proof {
            assert(spec_find_at(s@, pat@, 0) is None);
        }
        return None;
    }
    if m == 0 {
        proof {
            assert(s@.subrange(0, 0) =~= pat@);
        }
        return Some(0);
    }
    let mut i: usize = 0;
    loop
        invariant
            i <= n - m + 1,
            0 < m <= n,
            n == s@.len(),
            m == pat@.len(),
            spec_find_at(s@, pat@, 0) == spec_find_at(s@, pat@, i as int),
        decreases n - m + 1 - i,
    {
        if i > n - m {
            proof {
                assert(spec_find_at(s@, pat@, i as int) is None);
            }
            return None;
        }
        let window = &s[i..i + m];
        if crate::input::ExactCompare::compare(window, pat) {
            return Some(i);
        }
        i += 1;
    }
}

/// Creates a runtime scanner that hands the inner scanner only the input up
/// to, but not including, the first occurrence of `pat`.
pub fn until_pat<Next: ScanStr>(pat: Vec<u8>, inner: Next) -> (r: UntilPat<Next>)
    ensures
        r.pat == pat,
        r.inner == inner,
{
    UntilPat { pat, inner }
}

/// Creates a runtime scanner that hands the static scanner `S` only the
/// input up to, but not including, the first occurrence of `pat`.
pub fn until_pat_a<S: ScanFromStr>(pat: Vec<u8>) -> (r: UntilPat<ScanA<S>>)
    ensures
        r.pat == pat,
{
    until_pat(pat, scan_a::<S>())
}

/// Creates a runtime scanner that yields the input up to, but not
/// including, the first occurrence of `pat`.
pub fn until_pat_str(pat: Vec<u8>) -> (r: UntilPat<ScanA<crate::scanner::misc::Everything>>)
    ensures
        r.pat == pat,
{
    until_pat_a::<crate::scanner::misc::Everything>(pat)
}

/// Runtime scanner that slices the input at the first occurrence of a byte
/// pattern.
pub struct UntilPat<Next> {
    /// The pattern the input is cut at.
    pub pat: Vec<u8>,
    /// The scanner the prefix is handed to.
    pub inner: Next,
}

impl<Next: ScanStr> ScanStr for UntilPat<Next> {
    type Output = Next::Output;

    type ModelValue = <Next as ScanStr>::ModelValue;

    open spec fn value_model(v: Next::Output) -> Self::ModelValue {
        <Next as ScanStr>::value_model(v)
    }

    open spec fn modeled(&self) -> bool {
        self.inner.modeled()
    }

    open spec fn scan_model(&self, s: Seq<u8>) -> Result<
        (Self::ModelValue, int),
        (int, ScanErrorKind),
    > {
        match spec_find_at(s, self.pat@, 0) {
            None => Err((0, ScanErrorKind::Syntax("no match for pattern"))),
            Some(i) => self.inner.scan_model(s.subrange(0, i)),
        }
    }

    open spec fn spec_wants_strip(&self) -> bool {
        self.inner.spec_wants_strip()
    }

    fn scan(&mut self, s: &[u8]) -> (r: Result<(Self::Output, usize), ScanError>)
        ensures
            spec_find_at(s@, old(self).pat@, 0) is None ==> ({
                &&& r matches Err(e)
                &&& e.kind == ScanErrorKind::Syntax("no match for pattern")
                &&& e.at.spec_offset() == 0
            }),
            r matches Ok((v, n)) ==> ({
                &&& spec_find_at(s@, old(self).pat@, 0) matches Some(i)
                &&& n <= i
                &&& i + old(self).pat@.len() <= s@.len()
            }),
    {
        let off = match find_pattern(s, self.pat.as_slice()) {
            Some(off) => off,
            None => {
                return Err(ScanError::new(0, ScanErrorKind::Syntax("no match for pattern")));
            },
        };
        let sl = &s[0..off];
        self.inner.scan(sl)
    }

    fn wants_leading_junk_stripped(&self) -> (r: bool) {
        self.inner.wants_leading_junk_stripped()
    }
}


#[verifier::external_type_specification]
#[verifier::external_body]
pub struct ExRegex(regex::bytes::Regex);

/// Whether a pattern is a valid regular expression, that is, whether it
/// compiles.
pub uninterp spec fn regex_valid_pattern(pat: Seq<char>) -> bool;

/// The pattern a compiled regular expression was built from.
pub uninterp spec fn regex_pattern_of(re: regex::bytes::Regex) -> Seq<char>;

/// What a compiled pattern's capture search finds in a haystack, if the
/// pattern matches anywhere: the whole match's span, then the selected
/// span — the group named `scan` if one participates in the match, else
/// the first capturing group if it does, else the whole match.  The result
/// is a function of the pattern and the haystack alone.
pub uninterp spec fn regex_spans_of(pat: Seq<char>, hay: Seq<u8>) -> Option<(int, int, int, int)>;

/// Relies on `regex::bytes::Regex::new`: a compiled regular expression for
/// a valid pattern, and nothing for an invalid one.
#[verifier::external_body]
fn regex_new(pattern: &str) -> (r: Option<regex::bytes::Regex>)
    ensures
        r is Some <==> regex_valid_pattern(pattern@),
        r matches Some(re) ==> regex_pattern_of(re) == pattern@,
{
    regex::bytes::Regex::new(pattern).ok()
}

/// Relies on `regex::bytes::Regex::captures`: the search depends on the
/// pattern and the haystack alone, and on a match the returned spans lie
/// within the haystack.
#[verifier::external_body]
fn regex_captures(re: &regex::bytes::Regex, hay: &[u8]) -> (r: Option<(usize, usize, usize, usize)>)
    ensures
        r is Some <==> regex_spans_of(regex_pattern_of(*re), hay@) is Some,
        r matches Some((ms, me, ss, se)) ==> ({
            &&& Some((ms as int, me as int, ss as int, se as int)) == regex_spans_of(
                regex_pattern_of(*re), hay@)
            &&& ms <= me <= hay@.len()
            &&& ss <= se <= hay@.len()
        }),
{
    let caps = re.captures(hay)?;
    let whole = caps.get(0)?;
    let sel = caps.name("scan").or_else(|| caps.get(1)).unwrap_or(whole);
    Some((whole.start(), whole.end(), sel.start(), sel.end()))
}

/// Creates a runtime scanner that extracts a slice of the input with the
/// regular expression `pattern` and hands it to `inner`; the scanner
/// consumes the whole regular expression match.  An invalid pattern gives
/// nothing.
pub fn re<Next: ScanStr>(pattern: &str, inner: Next) -> (r: Option<ScanRegex<Next>>)
    ensures
        r is Some <==> regex_valid_pattern(pattern@),
        r matches Some(sc) ==> regex_pattern_of(sc.compiled) == pattern@ && sc.inner == inner,
{
    match regex_new(pattern) {
        Some(compiled) => Some(ScanRegex { compiled, inner }),
        None => None,
    }
}

/// Creates a runtime regex scanner that passes the matched input to the
/// static scanner `S`.
pub fn re_a<S: ScanFromStr>(pattern: &str) -> (r: Option<ScanRegex<ScanA<S>>>)
    ensures
        r is Some <==> regex_valid_pattern(pattern@),
        r matches Some(sc) ==> regex_pattern_of(sc.compiled) == pattern@,
{
    re(pattern, scan_a::<S>())
}

/// Creates a runtime regex scanner that yields the matched input as a byte
/// string.
pub fn re_str(pattern: &str) -> (r: Option<ScanRegex<ScanA<crate::scanner::misc::Everything>>>)
    ensures
        r is Some <==> regex_valid_pattern(pattern@),
        r matches Some(sc) ==> regex_pattern_of(sc.compiled) == pattern@,
{
    re_a::<crate::scanner::misc::Everything>(pattern)
}

/// Runtime scanner that slices the input with a regular expression.
pub struct ScanRegex<Next> {
    /// The compiled expression the input is sliced with.
    pub compiled: regex::bytes::Regex,
    /// The scanner the sliced input is handed to.
    pub inner: Next,
}

impl<Next: ScanStr> ScanStr for ScanRegex<Next> {
    type Output = Next::Output;

    type ModelValue = <Next as ScanStr>::ModelValue;

    open spec fn value_model(v: Next::Output) -> Self::ModelValue {
        <Next as ScanStr>::value_model(v)
    }

    open spec fn modeled(&self) -> bool {
        self.inner.modeled()
    }

    open spec fn scan_model(&self, s: Seq<u8>) -> Result<
        (Self::ModelValue, int),
        (int, ScanErrorKind),
    > {
        match regex_spans_of(regex_pattern_of(self.compiled), s) {
            None => Err((0, ScanErrorKind::Syntax("no match for regular expression"))),
            Some((ms, me, ss, se)) => if 0 <= ss <= se <= s.len() && 0 <= me {
                match self.inner.scan_model(s.subrange(ss, se)) {
                    Ok((mv, mn)) => Ok((mv, me)),
                    Err(e) => Err(e),
                }
            } else {
                Err((0, ScanErrorKind::SyntaxNoMessage))
            },
        }
    }

    open spec fn spec_wants_strip(&self) -> bool {
        self.inner.spec_wants_strip()
    }

    fn scan(&mut self, s: &[u8]) -> (r: Result<(Self::Output, usize), ScanError>)
        ensures
            r matches Ok((v, n)) ==> n <= s@.len(),
            regex_spans_of(regex_pattern_of(old(self).compiled), s@) is None ==> ({
                &&& r matches Err(e)
                &&& e.kind == ScanErrorKind::Syntax("no match for regular expression")
                &&& e.at.spec_offset() == 0
            }),
            regex_spans_of(regex_pattern_of(old(self).compiled), s@) matches Some(spans) ==> ({
                &&& 0 <= spans.1 <= s@.len()
                &&& (r matches Ok((v, n)) ==> n as int == spans.1)
            }),
    {
        let (ms, me, ss, se) = match regex_captures(&self.compiled, s) {
            Some(spans) => spans,
            None => {
                return Err(ScanError::new(
                    0,
                    ScanErrorKind::Syntax("no match for regular expression"),
                ));
            },
        };
        let sl = &s[ss..se];
        match self.inner.scan(sl) {
            Ok((v, _)) => Ok((v, me)),
            Err(err) => Err(err),
        }
    }

    fn wants_leading_junk_stripped(&self) -> (r: bool) {
        self.inner.wants_leading_junk_stripped()
    }
}


} // verus!
