//! Miscellaneous abstract scanners: words, numbers, whitespace, lines.
//!
//! Each scanner rests on a matcher: a function that reports how many leading
//! bytes of the input belong to the scanner's class of text.  The matchers
//! carry the exact contracts; the scanners slice the matched prefix out and
//! package it with the consumed byte count.

use vstd::prelude::*;
use vstd::slice::slice_to_vec;

use crate::error::{ScanError, ScanErrorKind};
use crate::error::sat_offset;
use crate::input::{
    cp_skip_while, non_space_pred, space_pred, spec_policy_skip_space, spec_try_match_literal,
    word_pred, wordless_literal_kind, ComparePolicy, LitMatch, SpacePolicy, WordPolicy,
};
use crate::text::{
    cp_at, cp_len_at, decode_cp, digit_cp, ident_continue_cp, ident_start_cp, is_digit_cp,
    is_ident_continue_cp, is_ident_start_cp, is_line_term_cp, is_scalar_cp, is_space_cp,
    line_term_cp, space_cp, word_cp,
};
use crate::scanner::{ScanFromBinary, ScanFromHex, ScanFromOctal, ScanFromStr, ScanSelfFromStr};
use core::marker::PhantomData;

verus! {

/// The horizontal-whitespace test as a predicate on code points: whitespace
/// that is not a line terminator.
pub open spec fn hor_space_pred() -> spec_fn(u32) -> bool {
    |cp: u32| is_space_cp(cp) && !is_line_term_cp(cp)
}

/// The decimal-digit test as a predicate on code points.
pub open spec fn digit_pred() -> spec_fn(u32) -> bool {
    |cp: u32| is_digit_cp(cp)
}

/// The identifier-continuation test as a predicate on code points.
pub open spec fn ident_continue_pred() -> spec_fn(u32) -> bool {
    |cp: u32| is_ident_continue_cp(cp)
}

/// The length of the leading whitespace run, if it is not empty.
pub open spec fn spec_match_space(s: Seq<u8>) -> Option<int> {
    let n = cp_skip_while(s, 0, space_pred());
    if n == 0 {
        None
    } else {
        Some(n)
    }
}

/// How many leading bytes of `s` are whitespace; `None` when there are none.
pub fn match_space(s: &[u8]) -> (r: Option<usize>)
    ensures
        r matches Some(n) ==> Some(n as int) == spec_match_space(s@) && 0 < n <= s@.len(),
        r is None ==> spec_match_space(s@) is None,
{
    let n = crate::input::skip_space(s);
    if n == 0 {
        None
    } else {
        Some(n)
    }
}

/// The length of the leading run of horizontal (non-line-break) whitespace,
/// if it is not empty.
pub open spec fn spec_match_hor_space(s: Seq<u8>) -> Option<int> {
    let n = cp_skip_while(s, 0, hor_space_pred());
    if n == 0 {
        None
    } else {
        Some(n)
    }
}

/// How many leading bytes of `s` are horizontal whitespace; `None` when there
/// are none.
pub fn match_hor_space(s: &[u8]) -> (r: Option<usize>)
    ensures
        r matches Some(n) ==> Some(n as int) == spec_match_hor_space(s@) && 0 < n <= s@.len(),
        r is None ==> spec_match_hor_space(s@) is None,
{
    let mut i: usize = 0;
    loop
        invariant
            i <= s@.len(),
            cp_skip_while(s@, 0, hor_space_pred()) == cp_skip_while(s@, i as int, hor_space_pred()),
        decreases s@.len() - i,
    {
        if i >= s.len() {
            return if i == 0 {
                None
            } else {
                Some(i)
            };
        }
        let (cp, len) = decode_cp(s, i);
        let keep = space_cp(cp) && !line_term_cp(cp);
        proof {
            assert(hor_space_pred()(cp) == (is_space_cp(cp) && !is_line_term_cp(cp)));
        }
        if !keep {
            return if i == 0 {
                None
            } else {
                Some(i)
            };
        }
        i += len;
    }
}

/// The length of the leading run of non-whitespace code points, if it is not
/// empty.
pub open spec fn spec_match_non_space(s: Seq<u8>) -> Option<int> {
    let n = cp_skip_while(s, 0, non_space_pred());
    if n == 0 {
        None
    } else {
        Some(n)
    }
}

/// How many leading bytes of `s` are not whitespace; `None` when there are
/// none.
pub fn match_non_space(s: &[u8]) -> (r: Option<usize>)
    ensures
        r matches Some(n) ==> Some(n as int) == spec_match_non_space(s@) && 0 < n <= s@.len(),
        r is None ==> spec_match_non_space(s@) is None,
{
    let mut i: usize = 0;
    loop
        invariant
            i <= s@.len(),
            cp_skip_while(s@, 0, non_space_pred()) == cp_skip_while(s@, i as int, non_space_pred()),
        decreases s@.len() - i,
    {
        if i >= s.len() {
            return if i == 0 {
                None
            } else {
                Some(i)
            };
        }
        let (cp, len) = decode_cp(s, i);
        let is_sp = space_cp(cp);
        proof {
            assert(non_space_pred()(cp) == !is_space_cp(cp));
        }
        if is_sp {
            return if i == 0 {
                None
            } else {
                Some(i)
            };
        }
        i += len;
    }
}

/// The length of the leading run of word code points, if it is not empty.
pub open spec fn spec_match_word(s: Seq<u8>) -> Option<int> {
    let n = cp_skip_while(s, 0, word_pred());
    if n == 0 {
        None
    } else {
        Some(n)
    }
}

/// How many leading bytes of `s` are word characters; `None` when there are
/// none.
pub fn match_word(s: &[u8]) -> (r: Option<usize>)
    ensures
        r matches Some(n) ==> Some(n as int) == spec_match_word(s@) && 0 < n <= s@.len(),
        r is None ==> spec_match_word(s@) is None,
{
    let mut i: usize = 0;
    loop
        invariant
            i <= s@.len(),
            cp_skip_while(s@, 0, word_pred()) == cp_skip_while(s@, i as int, word_pred()),
        decreases s@.len() - i,
    {
        if i >= s.len() {
            return if i == 0 {
                None
            } else {
                Some(i)
            };
        }
        let (cp, len) = decode_cp(s, i);
        let is_w = word_cp(cp);
        proof {
            assert(word_pred()(cp) == crate::text::is_word_cp(cp));
        }
        if !is_w {
            return if i == 0 {
                None
            } else {
                Some(i)
            };
        }
        i += len;
    }
}

/// The length of the leading word run, or of the single leading code point
/// when no word run starts here, if the input is not empty.
pub open spec fn spec_match_wordish(s: Seq<u8>) -> Option<int> {
    let n = cp_skip_while(s, 0, word_pred());
    if n > 0 {
        Some(n)
    } else if s.len() > 0 {
        Some(cp_len_at(s, 0))
    } else {
        None
    }
}

/// The word-ish extent at the start of `s`: a word run, or one other
/// non-space code point.
pub fn match_wordish(s: &[u8]) -> (r: Option<usize>)
    ensures
        r matches Some(n) ==> Some(n as int) == spec_match_wordish(s@) && 0 < n <= s@.len(),
        r is None ==> spec_match_wordish(s@) is None,
{
    match match_word(s) {
        Some(n) => Some(n),
        None => {
            if s.len() > 0 {
                let (_, len) = decode_cp(s, 0);
                Some(len)
            } else {
                None
            }
        },
    }
}

/// The length of the leading run of decimal digits, if it is not empty.
pub open spec fn spec_match_number(s: Seq<u8>) -> Option<int> {
    let n = cp_skip_while(s, 0, digit_pred());
    if n == 0 {
        None
    } else {
        Some(n)
    }
}

/// How many leading bytes of `s` are decimal digits; `None` when there are
/// none.
pub fn match_number(s: &[u8]) -> (r: Option<usize>)
    ensures
        r matches Some(n) ==> Some(n as int) == spec_match_number(s@) && 0 < n <= s@.len(),
        r is None ==> spec_match_number(s@) is None,
{
    let mut i: usize = 0;
    loop
        invariant
            i <= s@.len(),
            cp_skip_while(s@, 0, digit_pred()) == cp_skip_while(s@, i as int, digit_pred()),
        decreases s@.len() - i,
    {
        if i >= s.len() {
            return if i == 0 {
                None
            } else {
                Some(i)
            };
        }
        let (cp, len) = decode_cp(s, i);
        let is_d = digit_cp(cp);
        proof {
            assert(digit_pred()(cp) == is_digit_cp(cp));
        }
        if !is_d {
            return if i == 0 {
                None
            } else {
                Some(i)
            };
        }
        i += len;
    }
}

/// The length of the leading identifier, if one starts here: an identifier
/// start (or underscore) followed by identifier continuations.
pub open spec fn spec_match_ident(s: Seq<u8>) -> Option<int> {
    if s.len() > 0 && is_ident_start_cp(cp_at(s, 0)) {
        Some(cp_skip_while(s, cp_len_at(s, 0), ident_continue_pred()))
    } else {
        None
    }
}

/// The identifier extent at the start of `s`, if an identifier starts there.
pub fn match_ident(s: &[u8]) -> (r: Option<usize>)
    ensures
        r matches Some(n) ==> Some(n as int) == spec_match_ident(s@) && 0 < n <= s@.len(),
        r is None ==> spec_match_ident(s@) is None,
{
    if s.len() == 0 {
        return None;
    }
    let (cp0, len0) = decode_cp(s, 0);
    if !ident_start_cp(cp0) {
        return None;
    }
    let mut i: usize = len0;
    loop
        invariant
            0 < i <= s@.len(),
            s@.len() > 0,
            len0 == cp_len_at(s@, 0),
            is_ident_start_cp(cp_at(s@, 0)),
            cp_skip_while(s@, len0 as int, ident_continue_pred()) == cp_skip_while(
                s@, i as int, ident_continue_pred()),
        decreases s@.len() - i,
    {
        if i >= s.len() {
            return Some(i);
        }
        let (cp, len) = decode_cp(s, i);
        let keep = ident_continue_cp(cp);
        proof {
            assert(ident_continue_pred()(cp) == is_ident_continue_cp(cp));
        }
        if !keep {
            return Some(i);
        }
        i += len;
    }
}

/// The first index at or after `i` holding a carriage return or line feed.
pub open spec fn line_break_at(s: Seq<u8>, i: int) -> int
    recommends
        0 <= i <= s.len(),
    decreases s.len() - i,
{
    if i >= s.len() {
        i
    } else if s[i] == 13u8 || s[i] == 10u8 {
        i
    } else {
        line_break_at(s, i + 1)
    }
}

/// The line at the start of `s`: the length of its content, and the number
/// of bytes consumed including one trailing line terminator, if any.
pub open spec fn spec_match_line(s: Seq<u8>) -> (int, int) {
    let e = line_break_at(s, 0);
    if e >= s.len() {
        (e, e)
    } else if s[e] == 10u8 {
        (e, e + 1)
    } else if e + 1 < s.len() && s[e + 1] == 10u8 {
        (e, e + 2)
    } else {
        (e, e + 1)
    }
}

/// `line_break_at` stays within the slice.
pub proof fn lemma_line_break_at_bounds(s: Seq<u8>, i: int)
    requires
        0 <= i <= s.len(),
    ensures
        i <= line_break_at(s, i) <= s.len(),
    decreases s.len() - i,
{
    if i < s.len() && !(s[i] == 13u8 || s[i] == 10u8) {
        lemma_line_break_at_bounds(s, i + 1);
    }
}

/// Everything up to the end of the current line or of the input, whichever
/// comes first: the content length, and the consumed length including the
/// line terminator.
pub fn match_line(s: &[u8]) -> (r: (usize, usize))
    ensures
        (r.0 as int, r.1 as int) == spec_match_line(s@),
        r.0 <= r.1 <= s@.len(),
{
    let mut i: usize = 0;
    loop
        invariant
            i <= s@.len(),
            line_break_at(s@, 0) == line_break_at(s@, i as int),
        decreases s@.len() - i,
    {
        if i >= s.len() {
            return (i, i);
        }
        if s[i] == 10u8 {
            return (i, i + 1);
        }
        if s[i] == 13u8 {
            if i + 1 < s.len() && s[i + 1] == 10u8 {
                return (i, i + 2);
            }
            return (i, i + 1);
        }
        i += 1;
    }
}

/// Copy the first `n` bytes of `s`.
fn copy_prefix(s: &[u8], n: usize) -> (r: Vec<u8>)
    requires
        n <= s@.len(),
    ensures
        r@ == s@.subrange(0, n as int),
{
    slice_to_vec(&s[0..n])
}

/// Scans all remaining input into a byte string.
pub struct Everything;

impl ScanFromStr for Everything {
    type Output = Vec<u8>;

    type ModelValue = Seq<u8>;

    open spec fn value_model(v: Vec<u8>) -> Seq<u8> {
        v@
    }

    open spec fn modeled() -> bool {
        true
    }

    open spec fn scan_model(s: Seq<u8>) -> Result<(Seq<u8>, int), (int, ScanErrorKind)> {
        Ok((s, s.len() as int))
    }

    open spec fn spec_wants_strip() -> bool {
        true
    }

    fn scan_from(s: &[u8]) -> (r: Result<(Self::Output, usize), ScanError>) {
        proof {
            assert(s@.subrange(0, s@.len() as int) =~= s@);
        }
        Ok((copy_prefix(s, s.len()), s.len()))
    }

    fn wants_leading_junk_stripped() -> (r: bool) {
        true
    }
}

/// Scans everything up to the end of the current line, or of the input,
/// whichever comes first.  The result does not include the line terminator,
/// which is nonetheless consumed.
pub struct Line;

impl ScanFromStr for Line {
    type Output = Vec<u8>;

    type ModelValue = Seq<u8>;

    open spec fn value_model(v: Vec<u8>) -> Seq<u8> {
        v@
    }

    open spec fn modeled() -> bool {
        true
    }

    open spec fn scan_model(s: Seq<u8>) -> Result<(Seq<u8>, int), (int, ScanErrorKind)> {
        Ok((s.subrange(0, spec_match_line(s).0), spec_match_line(s).1))
    }

    open spec fn spec_wants_strip() -> bool {
        true
    }

    fn scan_from(s: &[u8]) -> (r: Result<(Self::Output, usize), ScanError>) {
        proof {
            lemma_line_break_at_bounds(s@, 0);
        }
        let (a, b) = match_line(s);
        Ok((copy_prefix(s, a), b))
    }

    fn wants_leading_junk_stripped() -> (r: bool) {
        true
    }
}

/// Scans a single word into a byte string: a maximal run of word characters.
pub struct Word;

impl ScanFromStr for Word {
    type Output = Vec<u8>;

    type ModelValue = Seq<u8>;

    open spec fn value_model(v: Vec<u8>) -> Seq<u8> {
        v@
    }

    open spec fn modeled() -> bool {
        true
    }

    open spec fn scan_model(s: Seq<u8>) -> Result<(Seq<u8>, int), (int, ScanErrorKind)> {
        match spec_match_word(s) {
            Some(n) => Ok((s.subrange(0, n), n)),
            None => Err((0, ScanErrorKind::SyntaxNoMessage)),
        }
    }

    open spec fn spec_wants_strip() -> bool {
        true
    }

    fn scan_from(s: &[u8]) -> (r: Result<(Self::Output, usize), ScanError>) {
        match match_word(s) {
            Some(b) => Ok((copy_prefix(s, b), b)),
            None => Err(ScanError::new(0, ScanErrorKind::SyntaxNoMessage)),
        }
    }

    fn wants_leading_junk_stripped() -> (r: bool) {
        true
    }
}

/// Scans a single word-ish thing into a byte string: a word run, or one
/// other non-space code point.
pub struct Wordish;

impl ScanFromStr for Wordish {
    type Output = Vec<u8>;

    type ModelValue = Seq<u8>;

    open spec fn value_model(v: Vec<u8>) -> Seq<u8> {
        v@
    }

    open spec fn modeled() -> bool {
        true
    }

    open spec fn scan_model(s: Seq<u8>) -> Result<(Seq<u8>, int), (int, ScanErrorKind)> {
        match spec_match_wordish(s) {
            Some(n) => Ok((s.subrange(0, n), n)),
            None => Err((0, ScanErrorKind::SyntaxNoMessage)),
        }
    }

    open spec fn spec_wants_strip() -> bool {
        true
    }

    fn scan_from(s: &[u8]) -> (r: Result<(Self::Output, usize), ScanError>) {
        match match_wordish(s) {
            Some(b) => Ok((copy_prefix(s, b), b)),
            None => Err(ScanError::new(0, ScanErrorKind::SyntaxNoMessage)),
        }
    }

    fn wants_leading_junk_stripped() -> (r: bool) {
        true
    }
}

/// Scans a sequence of non-space characters into a byte string.
pub struct NonSpace;

impl ScanFromStr for NonSpace {
    type Output = Vec<u8>;

    type ModelValue = Seq<u8>;

    open spec fn value_model(v: Vec<u8>) -> Seq<u8> {
        v@
    }

    open spec fn modeled() -> bool {
        true
    }

    open spec fn scan_model(s: Seq<u8>) -> Result<(Seq<u8>, int), (int, ScanErrorKind)> {
        match spec_match_non_space(s) {
            Some(n) => Ok((s.subrange(0, n), n)),
            None => Err((0, ScanErrorKind::SyntaxNoMessage)),
        }
    }

    open spec fn spec_wants_strip() -> bool {
        true
    }

    fn scan_from(s: &[u8]) -> (r: Result<(Self::Output, usize), ScanError>) {
        match match_non_space(s) {
            Some(b) => Ok((copy_prefix(s, b), b)),
            None => Err(ScanError::new(0, ScanErrorKind::SyntaxNoMessage)),
        }
    }

    fn wants_leading_junk_stripped() -> (r: bool) {
        true
    }
}

/// Scans a single number into a byte string: a maximal run of decimal
/// digits.
pub struct Number;

impl ScanFromStr for Number {
    type Output = Vec<u8>;

    type ModelValue = Seq<u8>;

    open spec fn value_model(v: Vec<u8>) -> Seq<u8> {
        v@
    }

    open spec fn modeled() -> bool {
        true
    }

    open spec fn scan_model(s: Seq<u8>) -> Result<(Seq<u8>, int), (int, ScanErrorKind)> {
        match spec_match_number(s) {
            Some(n) => Ok((s.subrange(0, n), n)),
            None => Err((0, ScanErrorKind::SyntaxNoMessage)),
        }
    }

    open spec fn spec_wants_strip() -> bool {
        true
    }

    fn scan_from(s: &[u8]) -> (r: Result<(Self::Output, usize), ScanError>) {
        match match_number(s) {
            Some(b) => Ok((copy_prefix(s, b), b)),
            None => Err(ScanError::new(0, ScanErrorKind::SyntaxNoMessage)),
        }
    }

    fn wants_leading_junk_stripped() -> (r: bool) {
        true
    }
}

/// Scans a single identifier into a byte string: an identifier-start
/// character or underscore followed by identifier continuations.
pub struct Ident;

impl ScanFromStr for Ident {
    type Output = Vec<u8>;

    type ModelValue = Seq<u8>;

    open spec fn value_model(v: Vec<u8>) -> Seq<u8> {
        v@
    }

    open spec fn modeled() -> bool {
        true
    }

    open spec fn scan_model(s: Seq<u8>) -> Result<(Seq<u8>, int), (int, ScanErrorKind)> {
        match spec_match_ident(s) {
            Some(n) => Ok((s.subrange(0, n), n)),
            None => Err((0, ScanErrorKind::SyntaxNoMessage)),
        }
    }

    open spec fn spec_wants_strip() -> bool {
        true
    }

    fn scan_from(s: &[u8]) -> (r: Result<(Self::Output, usize), ScanError>) {
        match match_ident(s) {
            Some(b) => Ok((copy_prefix(s, b), b)),
            None => Err(ScanError::new(0, ScanErrorKind::SyntaxNoMessage)),
        }
    }

    fn wants_leading_junk_stripped() -> (r: bool) {
        true
    }
}

/// Scans a sequence of whitespace characters into a byte string.  Leading
/// whitespace is significant to this scanner, so it is not stripped.
pub struct Space;

impl ScanFromStr for Space {
    type Output = Vec<u8>;

    type ModelValue = Seq<u8>;

    open spec fn value_model(v: Vec<u8>) -> Seq<u8> {
        v@
    }

    open spec fn modeled() -> bool {
        true
    }

    open spec fn scan_model(s: Seq<u8>) -> Result<(Seq<u8>, int), (int, ScanErrorKind)> {
        match spec_match_space(s) {
            Some(n) => Ok((s.subrange(0, n), n)),
            None => Err((0, ScanErrorKind::SyntaxNoMessage)),
        }
    }

    open spec fn spec_wants_strip() -> bool {
        false
    }

    fn scan_from(s: &[u8]) -> (r: Result<(Self::Output, usize), ScanError>) {
        match match_space(s) {
            Some(b) => Ok((copy_prefix(s, b), b)),
            None => Err(ScanError::new(0, ScanErrorKind::SyntaxNoMessage)),
        }
    }

    fn wants_leading_junk_stripped() -> (r: bool) {
        false
    }
}

/// Scans a sequence of horizontal (non-line-break) whitespace characters
/// into a byte string.  Leading whitespace is not stripped.
pub struct HorSpace;

impl ScanFromStr for HorSpace {
    type Output = Vec<u8>;

    type ModelValue = Seq<u8>;

    open spec fn value_model(v: Vec<u8>) -> Seq<u8> {
        v@
    }

    open spec fn modeled() -> bool {
        true
    }

    open spec fn scan_model(s: Seq<u8>) -> Result<(Seq<u8>, int), (int, ScanErrorKind)> {
        match spec_match_hor_space(s) {
            Some(n) => Ok((s.subrange(0, n), n)),
            None => Err((0, ScanErrorKind::SyntaxNoMessage)),
        }
    }

    open spec fn spec_wants_strip() -> bool {
        false
    }

    fn scan_from(s: &[u8]) -> (r: Result<(Self::Output, usize), ScanError>) {
        match match_hor_space(s) {
            Some(b) => Ok((copy_prefix(s, b), b)),
            None => Err(ScanError::new(0, ScanErrorKind::SyntaxNoMessage)),
        }
    }

    fn wants_leading_junk_stripped() -> (r: bool) {
        false
    }
}

/// The extent of the single line terminator at the start of `s`, if one
/// starts there: a line feed, vertical tab, form feed, a carriage return
/// optionally followed by a line feed, or another Unicode line separator.
pub open spec fn spec_match_newline(s: Seq<u8>) -> Option<int> {
    if s.len() == 0 {
        None
    } else {
        let cp = cp_at(s, 0);
        if cp == 0x0D {
            if s.len() >= 2 && s[1] == 10u8 {
                Some(2)
            } else {
                Some(1)
            }
        } else if is_line_term_cp(cp) {
            Some(cp_len_at(s, 0))
        } else {
            None
        }
    }
}

/// The single newline at the start of `s`, if one starts there.
pub fn match_newline(s: &[u8]) -> (r: Option<usize>)
    ensures
        r matches Some(n) ==> Some(n as int) == spec_match_newline(s@) && 0 < n <= s@.len(),
        r is None ==> spec_match_newline(s@) is None,
{
    if s.len() == 0 {
        return None;
    }
    let (cp, len) = decode_cp(s, 0);
    if cp == 0x0D {
        if s.len() >= 2 && s[1] == 10u8 {
            Some(2)
        } else {
            Some(1)
        }
    } else if line_term_cp(cp) {
        Some(len)
    } else {
        None
    }
}

/// Scans a single newline into a byte string.  Leading whitespace is not
/// stripped.
pub struct Newline;

impl ScanFromStr for Newline {
    type Output = Vec<u8>;

    type ModelValue = Seq<u8>;

    open spec fn value_model(v: Vec<u8>) -> Seq<u8> {
        v@
    }

    open spec fn modeled() -> bool {
        true
    }

    open spec fn scan_model(s: Seq<u8>) -> Result<(Seq<u8>, int), (int, ScanErrorKind)> {
        match spec_match_newline(s) {
            Some(n) => Ok((s.subrange(0, n), n)),
            None => Err((0, ScanErrorKind::SyntaxNoMessage)),
        }
    }

    open spec fn spec_wants_strip() -> bool {
        false
    }

    fn scan_from(s: &[u8]) -> (r: Result<(Self::Output, usize), ScanError>) {
        match match_newline(s) {
            Some(b) => Ok((copy_prefix(s, b), b)),
            None => Err(ScanError::new(0, ScanErrorKind::SyntaxNoMessage)),
        }
    }

    fn wants_leading_junk_stripped() -> (r: bool) {
        false
    }
}


/// Scans the `Output` type from its binary representation.
pub struct Binary<Output>(PhantomData<Output>);

impl<Output: ScanFromBinary> ScanFromStr for Binary<Output> {
    type Output = Output;

    type ModelValue = <Output as ScanFromStr>::ModelValue;

    open spec fn value_model(v: Output) -> Self::ModelValue {
        <Output as ScanFromStr>::value_model(v)
    }

    open spec fn modeled() -> bool {
        true
    }

    open spec fn scan_model(s: Seq<u8>) -> Result<(Self::ModelValue, int), (int, ScanErrorKind)> {
        Output::binary_model(s)
    }

    open spec fn spec_wants_strip() -> bool {
        true
    }

    fn scan_from(s: &[u8]) -> (r: Result<(Self::Output, usize), ScanError>) {
        Output::scan_from_binary(s)
    }

    fn wants_leading_junk_stripped() -> (r: bool) {
        true
    }
}

/// Scans the `Output` type from its octal representation.
pub struct Octal<Output>(PhantomData<Output>);

impl<Output: ScanFromOctal> ScanFromStr for Octal<Output> {
    type Output = Output;

    type ModelValue = <Output as ScanFromStr>::ModelValue;

    open spec fn value_model(v: Output) -> Self::ModelValue {
        <Output as ScanFromStr>::value_model(v)
    }

    open spec fn modeled() -> bool {
        true
    }

    open spec fn scan_model(s: Seq<u8>) -> Result<(Self::ModelValue, int), (int, ScanErrorKind)> {
        Output::octal_model(s)
    }

    open spec fn spec_wants_strip() -> bool {
        true
    }

    fn scan_from(s: &[u8]) -> (r: Result<(Self::Output, usize), ScanError>) {
        Output::scan_from_octal(s)
    }

    fn wants_leading_junk_stripped() -> (r: bool) {
        true
    }
}

/// Scans the `Output` type from its hexadecimal representation.
pub struct Hex<Output>(PhantomData<Output>);

impl<Output: ScanFromHex> ScanFromStr for Hex<Output> {
    type Output = Output;

    type ModelValue = <Output as ScanFromStr>::ModelValue;

    open spec fn value_model(v: Output) -> Self::ModelValue {
        <Output as ScanFromStr>::value_model(v)
    }

    open spec fn modeled() -> bool {
        true
    }

    open spec fn scan_model(s: Seq<u8>) -> Result<(Self::ModelValue, int), (int, ScanErrorKind)> {
        Output::hex_model(s)
    }

    open spec fn spec_wants_strip() -> bool {
        true
    }

    fn scan_from(s: &[u8]) -> (r: Result<(Self::Output, usize), ScanError>) {
        Output::scan_from_hex(s)
    }

    fn wants_leading_junk_stripped() -> (r: bool) {
        true
    }
}

/// Explicitly requires the inner type to scan to itself, to help type
/// inference where a partially specified scanner type would be ambiguous.
pub struct Inferred<T>(PhantomData<T>);

impl<T: ScanSelfFromStr> ScanFromStr for Inferred<T> {
    type Output = T;

    type ModelValue = <T as ScanFromStr>::ModelValue;

    open spec fn value_model(v: T) -> Self::ModelValue {
        <T as ScanFromStr>::value_model(v)
    }

    open spec fn modeled() -> bool {
        T::modeled()
    }

    open spec fn scan_model(s: Seq<u8>) -> Result<(Self::ModelValue, int), (int, ScanErrorKind)> {
        T::scan_model(s)
    }

    open spec fn spec_wants_strip() -> bool {
        true
    }

    fn scan_from(s: &[u8]) -> (r: Result<(Self::Output, usize), ScanError>) {
        T::scan_from(s)
    }

    fn wants_leading_junk_stripped() -> (r: bool) {
        true
    }
}

/// Scans a `(K, V)` pair using the syntax `K: V`, the shape associative
/// containers print themselves with.
pub struct KeyValuePair<K, V>(PhantomData<(K, V)>);

impl<K: ScanSelfFromStr, V: ScanSelfFromStr> ScanFromStr for KeyValuePair<K, V> {
    type Output = (K, V);

    type ModelValue = (K::ModelValue, V::ModelValue);

    open spec fn value_model(v: (K, V)) -> (K::ModelValue, V::ModelValue) {
        (K::value_model(v.0), V::value_model(v.1))
    }

    open spec fn modeled() -> bool {
        K::modeled() && V::modeled()
    }

    open spec fn scan_model(s: Seq<u8>) -> Result<
        ((K::ModelValue, V::ModelValue), int),
        (int, ScanErrorKind),
    > {
        match elem_at::<K>(s, 0) {
            Err(e) => Err(e),
            Ok((kv, p1)) => if !(0 <= p1 <= s.len()) {
                Err((0, ScanErrorKind::SyntaxNoMessage))
            } else {
                match dflt_lit_at(s, p1, seq![0x3Au8]) {
                    LitMatch::Mis(x) => Err((p1 + x, ScanErrorKind::LiteralMismatch)),
                    LitMatch::BadLit(x) => Err((p1 + x, wordless_literal_kind())),
                    LitMatch::Done(n) => match elem_at::<V>(s, p1 + n) {
                        Err(e) => Err(e),
                        Ok((vv, p2)) => Ok(((kv, vv), p2)),
                    },
                }
            },
        }
    }

    open spec fn spec_wants_strip() -> bool {
        true
    }

    fn scan_from(s: &[u8]) -> (r: Result<(Self::Output, usize), ScanError>) {
        let ghost sv = s@;
        proof {
            assert(sv.skip(0) == sv);
            let sk0: int = if K::spec_wants_strip() {
                spec_policy_skip_space(SpacePolicy::Ignore, sv)
            } else {
                0
            };
            crate::input::lemma_policy_skip_space_bounds(SpacePolicy::Ignore, sv);
            assert(sv.skip(0 + sk0) == sv.skip(sk0));
        }
        let cur = crate::input::StrCursor::new(s);
        let (k, cur) = match crate::internal::try_scan_static_self::<K>(cur) {
            Ok(p) => p,
            Err((e, _)) => {
                proof {
                    assert(elem_at::<K>(sv, 0) matches Ok(p) ==> !K::modeled());
                }
                return Err(e);
            },
        };
        let ghost p1 = cur.spec_offset() as int;
        proof {
            assert(K::modeled() ==> (elem_at::<K>(sv, 0) matches Ok(p) && p.0 == K::value_model(k)
                && p.1 == p1));
            assert(cur.remaining() == sv.skip(p1));
            assert(cur.spec_offset() + cur.remaining().len() == sv.len());
        }
        let colon: &[u8] = &[0x3Au8];
        proof {
            assert(colon@ =~= seq![0x3Au8]);
        }
        let cur = match cur.match_literal(colon) {
            Ok(c) => c,
            Err((e, _)) => {
                proof {
                    assert(dflt_lit_at(sv, p1, seq![0x3Au8]) matches LitMatch::Done(n) ==> false);
                }
                return Err(e);
            },
        };
        let ghost p12 = cur.spec_offset() as int;
        proof {
            assert(dflt_lit_at(sv, p1, seq![0x3Au8]) matches LitMatch::Mis(x) ==> false);
            assert(dflt_lit_at(sv, p1, seq![0x3Au8]) matches LitMatch::BadLit(x) ==> false);
            assert(dflt_lit_at(sv, p1, seq![0x3Au8]) == LitMatch::Done(p12 - p1));
            assert(sv.skip(p1).skip(p12 - p1) =~= sv.skip(p12));
            assert(cur.remaining() == sv.skip(p12));
            assert(cur.spec_offset() + cur.remaining().len() == sv.len());
            let sk2: int = if V::spec_wants_strip() {
                spec_policy_skip_space(SpacePolicy::Ignore, sv.skip(p12))
            } else {
                0
            };
            crate::input::lemma_policy_skip_space_bounds(SpacePolicy::Ignore, sv.skip(p12));
            assert(sv.skip(p12).skip(sk2) =~= sv.skip(p12 + sk2));
        }
        let (v, cur) = match crate::internal::try_scan_static_self::<V>(cur) {
            Ok(p) => p,
            Err((e, _)) => {
                proof {
                    assert(elem_at::<V>(sv, p12) matches Ok(p) ==> !V::modeled());
                }
                return Err(e);
            },
        };
        Ok(((k, v), cur.offset()))
    }

    fn wants_leading_junk_stripped() -> (r: bool) {
        true
    }
}



/// The body of a quoted string from offset `i` to its closing quote: the
/// unescaped characters and the offset just past the closing quote, or the
/// offset and kind of the failure.
pub open spec fn spec_quoted_rec(s: Seq<u8>, i: int) -> Result<
    (Seq<char>, int),
    (int, ScanErrorKind),
>
    recommends
        0 <= i <= s.len(),
    decreases s.len() - i,
{
    if i >= s.len() {
        Err((0, ScanErrorKind::Syntax("unterminated quoted string")))
    } else {
        let cp = cp_at(s, i);
        let len = cp_len_at(s, i);
        if cp == 0x22 {
            Ok((Seq::empty(), i + 1))
        } else if cp == 0x5C {
            match crate::util::spec_split_escape(s.skip(i + 1)) {
                Err(e) => Err((i + 1, ScanErrorKind::Other(crate::error::MsgErr(
                    crate::util::escape_error_msg(e),
                )))),
                Ok((c, n)) => if 0 < n <= s.len() - i - 1 {
                    match spec_quoted_rec(s, i + 1 + n) {
                        Ok((cs, end)) => Ok((seq![c] + cs, end)),
                        Err(e) => Err(e),
                    }
                } else {
                    Err((i + 1, ScanErrorKind::SyntaxNoMessage))
                },
            }
        } else if is_scalar_cp(cp) && i + len <= s.len() {
            match spec_quoted_rec(s, i + len) {
                Ok((cs, end)) => Ok((seq![(cp as char)] + cs, end)),
                Err(e) => Err(e),
            }
        } else if is_scalar_cp(cp) {
            Err((i, ScanErrorKind::SyntaxNoMessage))
        } else {
            Err((i, ScanErrorKind::Syntax("malformed text in quoted string")))
        }
    }
}

/// How a quoted-string scan of `s` turns out: a leading double quote, a
/// body whose escape sequences are expanded, and a closing double quote.
pub open spec fn spec_scan_quoted(s: Seq<u8>) -> Result<(Seq<char>, int), (int, ScanErrorKind)> {
    if s.len() == 0 {
        Err((0, ScanErrorKind::Syntax("expected quoted string")))
    } else if cp_at(s, 0) != 0x22 {
        Err((0, ScanErrorKind::Syntax("expected `\"` for quoted string")))
    } else {
        spec_quoted_rec(s, 1)
    }
}

/// Scans a quoted string: the quoting format the `Debug` formatter uses.
/// The scanned characters have every escape sequence expanded, and the
/// surrounding quotes are not part of the result.
pub struct QuotedString;

impl ScanFromStr for QuotedString {
    type Output = Vec<char>;

    type ModelValue = Seq<char>;

    open spec fn value_model(v: Vec<char>) -> Seq<char> {
        v@
    }

    open spec fn modeled() -> bool {
        true
    }

    open spec fn scan_model(s: Seq<u8>) -> Result<(Seq<char>, int), (int, ScanErrorKind)> {
        spec_scan_quoted(s)
    }

    open spec fn spec_wants_strip() -> bool {
        true
    }

    fn scan_from(s: &[u8]) -> (r: Result<(Self::Output, usize), ScanError>) {
        if s.len() == 0 {
            return Err(ScanError::new(0, ScanErrorKind::Syntax("expected quoted string")));
        }
        let (cp0, _) = decode_cp(s, 0);
        if cp0 != 0x22 {
            return Err(ScanError::new(
                0,
                ScanErrorKind::Syntax("expected `\"` for quoted string"),
            ));
        }
        let mut out: Vec<char> = Vec::new();
        let mut i: usize = 1;
        let ghost whole = spec_quoted_rec(s@, 1);
        proof {
            assert(out@ =~= Seq::<char>::empty());
            match spec_quoted_rec(s@, 1) {
                Ok((cs2, end)) => {
                    assert(Seq::<char>::empty() + cs2 =~= cs2);
                },
                _ => {},
            }
        }
        loop
            invariant
                1 <= i <= s@.len(),
                whole == spec_quoted_rec(s@, 1),
                spec_scan_quoted(s@) == whole,
                whole == quoted_prefix(out@, spec_quoted_rec(s@, i as int)),
            decreases s@.len() - i,
        {
            if i >= s.len() {
                return Err(ScanError::new(0, ScanErrorKind::Syntax("unterminated quoted string")));
            }
            let (cp, len) = decode_cp(s, i);
            if cp == 0x22 {
                proof {
                    assert(out@ + Seq::<char>::empty() =~= out@);
                }
                return Ok((out, i + 1));
            } else if cp == 0x5C {
                proof {
                    assert(s@.subrange(i + 1, s@.len() as int) =~= s@.skip(i + 1));
                }
                match crate::util::split_escape_default(&s[i + 1..s.len()]) {
                    Err(e) => {
                        return Err(ScanError::new(
                            i + 1,
                            ScanErrorKind::Other(crate::error::MsgErr(e.description())),
                        ));
                    },
                    Ok((c, n)) => {
                        if n == 0 || n > s.len() - i - 1 {
                            return Err(ScanError::new(i + 1, ScanErrorKind::SyntaxNoMessage));
                        }
                        let ghost out0 = out@;
                        out.push(c);
                        proof {
                            assert(out@ =~= out0 + seq![c]);
                            lemma_quoted_prefix_assoc(
                                out0,
                                seq![c],
                                spec_quoted_rec(s@, i + 1 + n),
                            );
                        }
                        i = i + 1 + n;
                    },
                }
            } else {
                match char::from_u32(cp) {
                    Some(c) => {
                        let ghost out0 = out@;
                        out.push(c);
                        proof {
                            assert(out@ =~= out0 + seq![c]);
                            lemma_quoted_prefix_assoc(out0, seq![c], spec_quoted_rec(s@, i + len));
                        }
                        i = i + len;
                    },
                    None => {
                        return Err(ScanError::new(
                            i,
                            ScanErrorKind::Syntax("malformed text in quoted string"),
                        ));
                    },
                }
            }
        }
    }

    fn wants_leading_junk_stripped() -> (r: bool) {
        true
    }
}

/// The given characters, prepended to a quoted-string outcome's characters.
pub open spec fn quoted_prefix(cs: Seq<char>, o: Result<(Seq<char>, int), (int, ScanErrorKind)>)
    -> Result<(Seq<char>, int), (int, ScanErrorKind)> {
    match o {
        Ok((cs2, end)) => Ok((cs + cs2, end)),
        Err(e) => Err(e),
    }
}

/// Prefixing characters twice is prefixing their concatenation once.
pub proof fn lemma_quoted_prefix_assoc(
    a: Seq<char>,
    b: Seq<char>,
    o: Result<(Seq<char>, int), (int, ScanErrorKind)>,
)
    ensures
        quoted_prefix(a, quoted_prefix(b, o)) == quoted_prefix(a + b, o),
{
    match o {
        Ok((cs, end)) => {
            assert(a + (b + cs) =~= (a + b) + cs);
        },
        _ => {},
    }
}



/// The run of comma-separated elements following the one at hand: the models
/// of the elements taken and the offset where the run ends, or the failure of
/// an element that a separator promised.  A separator that leads to no net
/// progress ends the run where it stands.
pub open spec fn spec_vec_rest<T: ScanSelfFromStr>(s: Seq<u8>, i: int) -> Result<
    (Seq<T::ModelValue>, int),
    (int, ScanErrorKind),
>
    decreases s.len() - i,
{
    match dflt_lit_at(s, i, seq![0x2Cu8]) {
        LitMatch::Mis(x) => Ok((Seq::empty(), i)),
        LitMatch::BadLit(x) => Ok((Seq::empty(), i)),
        LitMatch::Done(n) => match elem_at::<T>(s, i + n) {
            Err(e) => Err(e),
            Ok((mv, p)) => if !(i < p <= s.len()) {
                Ok((Seq::empty(), i))
            } else {
                match spec_vec_rest::<T>(s, p) {
                    Err(e) => Err(e),
                    Ok((ms, q)) => Ok((seq![mv] + ms, q)),
                }
            },
        },
    }
}

/// The element run of a bracketed list at offset `i` of `s`: a first element
/// if one scans, then whatever `spec_vec_rest` adds.  A run with no first
/// element is empty and ends where it began.
pub open spec fn spec_vec_elems<T: ScanSelfFromStr>(s: Seq<u8>, i: int) -> Result<
    (Seq<T::ModelValue>, int),
    (int, ScanErrorKind),
> {
    match elem_at::<T>(s, i) {
        Err(e) => Ok((Seq::empty(), i)),
        Ok((mv, p)) => match spec_vec_rest::<T>(s, p) {
            Err(e) => Err(e),
            Ok((ms, q)) => Ok((seq![mv] + ms, q)),
        },
    }
}

/// Scan the comma-separated element run of a bracketed list, starting just
/// past the opening bracket.
fn scan_vec_elems<'a, T: ScanSelfFromStr>(
    start: crate::input::StrCursor<'a>,
    Ghost(sv): Ghost<Seq<u8>>,
) -> (r: Result<(Vec<T>, crate::input::StrCursor<'a>), ScanError>)
    requires
        start.wf(),
        start.cmp_policy() == ComparePolicy::Exact,
        start.space_policy() == SpacePolicy::Ignore,
        start.word_policy() == WordPolicy::Wordish,
        start.spec_offset() <= sv.len(),
        start.remaining() == sv.skip(start.spec_offset() as int),
    ensures
        r matches Ok((out, c)) ==> {
            &&& c.wf()
            &&& c.same_policies(start)
            &&& start.spec_offset() <= c.spec_offset() <= sv.len()
            &&& c.remaining() == sv.skip(c.spec_offset() as int)
        },
        T::modeled() ==> match spec_vec_elems::<T>(sv, start.spec_offset() as int) {
            Ok((ms, q)) => r matches Ok((out, c)) && out@.map_values(
                |t: T| T::value_model(t),
            ) == ms && c.spec_offset() as int == q,
            Err((at, kind)) => r matches Err(e) && e.at.spec_offset() as int == at && e.kind
                == kind,
        },
{
    let ghost i0 = start.spec_offset() as int;
    proof {
        let sk0: int = if T::spec_wants_strip() {
            spec_policy_skip_space(SpacePolicy::Ignore, sv.skip(i0))
        } else {
            0
        };
        crate::input::lemma_policy_skip_space_bounds(SpacePolicy::Ignore, sv.skip(i0));
        assert(sv.skip(i0).skip(sk0) =~= sv.skip(i0 + sk0));
    }
    let mut out: Vec<T> = Vec::new();
    let (v0, c1) = match crate::internal::try_scan_static_self::<T>(start) {
        Err(_) => {
            proof {
                assert(elem_at::<T>(sv, i0) matches Ok(p) ==> !T::modeled());
                assert(out@.map_values(|t: T| T::value_model(t)) =~= Seq::<
                    T::ModelValue,
                >::empty());
            }
            return Ok((out, start));
        },
        Ok(p) => p,
    };
    out.push(v0);
    let mut cur = c1;
    proof {
        assert(sv.skip(i0).skip(cur.spec_offset() - i0) =~= sv.skip(cur.spec_offset() as int));
        if T::modeled() {
            assert(elem_at::<T>(sv, i0) matches Ok(p) && p.0 == T::value_model(v0) && p.1
                == cur.spec_offset());
            assert(out@.map_values(|t: T| T::value_model(t)) =~= seq![T::value_model(v0)]);
        }
    }
    loop
        invariant
            cur.wf(),
            cur.same_policies(start),
            start.cmp_policy() == ComparePolicy::Exact,
            start.space_policy() == SpacePolicy::Ignore,
            start.word_policy() == WordPolicy::Wordish,
            i0 == start.spec_offset() as int,
            i0 <= cur.spec_offset() <= sv.len(),
            cur.remaining() == sv.skip(cur.spec_offset() as int),
            T::modeled() ==> match spec_vec_rest::<T>(sv, cur.spec_offset() as int) {
                Ok((ms, q)) => spec_vec_elems::<T>(sv, i0) == Ok::<
                    (Seq<T::ModelValue>, int),
                    (int, ScanErrorKind),
                >((out@.map_values(|t: T| T::value_model(t)) + ms, q)),
                Err(e) => spec_vec_elems::<T>(sv, i0) == Err::<
                    (Seq<T::ModelValue>, int),
                    (int, ScanErrorKind),
                >(e),
            },
        decreases sv.len() - cur.spec_offset(),
    {
        let ghost i = cur.spec_offset() as int;
        let comma: &[u8] = &[0x2Cu8];
        proof {
            assert(comma@ =~= seq![0x2Cu8]);
        }
        let sep = match cur.match_literal(comma) {
            Ok(c3) => c3,
            Err(_) => {
                proof {
                    if T::modeled() {
                        assert(dflt_lit_at(sv, i, seq![0x2Cu8]) matches LitMatch::Done(n)
                            ==> false);
                        assert(spec_vec_rest::<T>(sv, i) == Ok::<
                            (Seq<T::ModelValue>, int),
                            (int, ScanErrorKind),
                        >((Seq::empty(), i)));
                        assert(out@.map_values(|t: T| T::value_model(t)) + Seq::<
                            T::ModelValue,
                        >::empty() =~= out@.map_values(|t: T| T::value_model(t)));
                    }
                }
                return Ok((out, cur));
            },
        };
        let ghost n = sep.spec_offset() - i;
        proof {
            assert(dflt_lit_at(sv, i, seq![0x2Cu8]) == LitMatch::Done(n));
            assert(sv.skip(i).skip(n) =~= sv.skip(i + n));
            assert(sep.remaining() == sv.skip(i + n));
            let sk: int = if T::spec_wants_strip() {
                spec_policy_skip_space(SpacePolicy::Ignore, sv.skip(i + n))
            } else {
                0
            };
            crate::input::lemma_policy_skip_space_bounds(SpacePolicy::Ignore, sv.skip(i + n));
            assert(sv.skip(i + n).skip(sk) =~= sv.skip(i + n + sk));
        }
        match crate::internal::try_scan_static_self::<T>(sep) {
            Err((e, _)) => {
                proof {
                    assert(elem_at::<T>(sv, i + n) matches Ok(p) ==> !T::modeled());
                }
                return Err(e);
            },
            Ok((v, c4)) => {
                if c4.offset() <= cur.offset() {
                    proof {
                        if T::modeled() {
                            assert(elem_at::<T>(sv, i + n) matches Ok(p) && p.1
                                == c4.spec_offset());
                            assert(spec_vec_rest::<T>(sv, i) == Ok::<
                                (Seq<T::ModelValue>, int),
                                (int, ScanErrorKind),
                            >((Seq::empty(), i)));
                            assert(out@.map_values(|t: T| T::value_model(t)) + Seq::<
                                T::ModelValue,
                            >::empty() =~= out@.map_values(|t: T| T::value_model(t)));
                        }
                    }
                    return Ok((out, cur));
                }
                proof {
                    assert(sv.skip(i + n).skip(c4.spec_offset() - (i + n)) =~= sv.skip(
                        c4.spec_offset() as int,
                    ));
                    if T::modeled() {
                        let old_map = out@.map_values(|t: T| T::value_model(t));
                        assert(elem_at::<T>(sv, i + n) matches Ok(p) && p.0 == T::value_model(v)
                            && p.1 == c4.spec_offset());
                        assert(out@.push(v).map_values(|t: T| T::value_model(t)) =~= old_map
                            + seq![T::value_model(v)]);
                        assert forall|ms: Seq<T::ModelValue>|
                            old_map + (seq![T::value_model(v)] + ms) =~= (old_map + seq![
                                T::value_model(v),
                            ]) + ms by {}
                    }
                }
                out.push(v);
                cur = c4;
            },
        }
    }
}

impl<T: ScanSelfFromStr> ScanFromStr for Vec<T> {
    type Output = Vec<T>;

    type ModelValue = Seq<T::ModelValue>;

    open spec fn value_model(v: Vec<T>) -> Seq<T::ModelValue> {
        v@.map_values(|t: T| T::value_model(t))
    }

    open spec fn modeled() -> bool {
        T::modeled()
    }

    open spec fn scan_model(s: Seq<u8>) -> Result<
        (Seq<T::ModelValue>, int),
        (int, ScanErrorKind),
    > {
        match dflt_lit_at(s, 0, seq![0x5Bu8]) {
            LitMatch::Mis(x) => Err((x, ScanErrorKind::LiteralMismatch)),
            LitMatch::BadLit(x) => Err((x, wordless_literal_kind())),
            LitMatch::Done(n1) => match spec_vec_elems::<T>(s, n1) {
                Err(e) => Err(e),
                Ok((ms, q)) => match dflt_lit_at(s, q, seq![0x5Du8]) {
                    LitMatch::Mis(x) => Err((q + x, ScanErrorKind::LiteralMismatch)),
                    LitMatch::BadLit(x) => Err((q + x, wordless_literal_kind())),
                    LitMatch::Done(n2) => Ok((ms, q + n2)),
                },
            },
        }
    }

    open spec fn spec_wants_strip() -> bool {
        true
    }

    fn scan_from(s: &[u8]) -> (r: Result<(Self::Output, usize), ScanError>) {
        let ghost sv = s@;
        proof {
            assert(sv.skip(0) == sv);
        }
        let start = crate::input::StrCursor::new(s);
        let open_b: &[u8] = &[0x5Bu8];
        proof {
            assert(open_b@ =~= seq![0x5Bu8]);
        }
        let cur = match start.match_literal(open_b) {
            Ok(c) => c,
            Err((e, _)) => {
                proof {
                    assert(dflt_lit_at(sv, 0, seq![0x5Bu8]) matches LitMatch::Done(n) ==> false);
                }
                return Err(e);
            },
        };
        let ghost n1 = cur.spec_offset() as int;
        proof {
            assert(dflt_lit_at(sv, 0, seq![0x5Bu8]) == LitMatch::Done(n1));
            assert(cur.remaining() == sv.skip(n1));
        }
        let (out, cur) = match scan_vec_elems::<T>(cur, Ghost(sv)) {
            Ok(p) => p,
            Err(e) => {
                proof {
                    assert(spec_vec_elems::<T>(sv, n1) matches Ok(p) ==> !T::modeled());
                }
                return Err(e);
            },
        };
        let ghost q = cur.spec_offset() as int;
        let close_b: &[u8] = &[0x5Du8];
        proof {
            assert(close_b@ =~= seq![0x5Du8]);
        }
        match cur.match_literal(close_b) {
            Ok(done) => {
                proof {
                    assert(dflt_lit_at(sv, q, seq![0x5Du8]) matches LitMatch::Mis(x) ==> false);
                    assert(dflt_lit_at(sv, q, seq![0x5Du8]) matches LitMatch::BadLit(x)
                        ==> false);
                }
                Ok((out, done.offset()))
            },
            Err((e, _)) => {
                proof {
                    assert(dflt_lit_at(sv, q, seq![0x5Du8]) matches LitMatch::Done(n) ==> false);
                }
                Err(e)
            },
        }
    }

    fn wants_leading_junk_stripped() -> (r: bool) {
        true
    }
}




/// The literal-match outcome at offset `i` of `s` under the default
/// policies, which the container scanners run with.
pub open spec fn dflt_lit_at(s: Seq<u8>, i: int, lit: Seq<u8>) -> LitMatch {
    spec_try_match_literal(
        ComparePolicy::Exact,
        SpacePolicy::Ignore,
        WordPolicy::Wordish,
        s.skip(i),
        lit,
    )
}

/// One element of type `T` scanned at offset `i` of `s` under the default
/// policies: the element's model outcome with offsets made absolute, as
/// the cursor dispatch computes them.
pub open spec fn elem_at<T: ScanSelfFromStr>(s: Seq<u8>, i: int) -> Result<
    (T::ModelValue, int),
    (int, ScanErrorKind),
> {
    let skip: int = if T::spec_wants_strip() {
        spec_policy_skip_space(SpacePolicy::Ignore, s.skip(i))
    } else {
        0
    };
    match T::scan_model(s.skip(i + skip)) {
        Ok((mv, mn)) => Ok((mv, i + skip + mn)),
        Err((at, kind)) => Err((sat_offset(i + skip + at), kind)),
    }
}

/// How a name-wrapped scan of `s` turns out: `name`, an opening
/// parenthesis, a `T`, and a closing parenthesis, under the default
/// policies.
pub open spec fn spec_scan_wrapped<T: ScanSelfFromStr>(s: Seq<u8>, name: Seq<u8>) -> Result<
    (T::ModelValue, int),
    (int, ScanErrorKind),
> {
    match dflt_lit_at(s, 0, name) {
        LitMatch::Mis(x) => Err((x, ScanErrorKind::LiteralMismatch)),
        LitMatch::BadLit(x) => Err((x, wordless_literal_kind())),
        LitMatch::Done(n1) => match dflt_lit_at(s, n1, seq![0x28u8]) {
            LitMatch::Mis(x) => Err((n1 + x, ScanErrorKind::LiteralMismatch)),
            LitMatch::BadLit(x) => Err((n1 + x, wordless_literal_kind())),
            LitMatch::Done(n2) => match elem_at::<T>(s, n1 + n2) {
                Err(e) => Err(e),
                Ok((mv, e1)) => if !(0 <= e1 <= s.len()) {
                    Err((0, ScanErrorKind::SyntaxNoMessage))
                } else {
                    match dflt_lit_at(s, e1, seq![0x29u8]) {
                        LitMatch::Mis(x) => Err((e1 + x, ScanErrorKind::LiteralMismatch)),
                        LitMatch::BadLit(x) => Err((e1 + x, wordless_literal_kind())),
                        LitMatch::Done(n3) => Ok((mv, e1 + n3)),
                    }
                },
            },
        },
    }
}

/// Scan `name`, an opening parenthesis, a `T`, and a closing parenthesis,
/// with the default policies.
fn scan_wrapped<T: ScanSelfFromStr>(s: &[u8], name: &[u8]) -> (r: Result<(T, usize), ScanError>)
    ensures
        r matches Ok((v, n)) ==> n <= s@.len(),
        T::modeled() ==> match spec_scan_wrapped::<T>(s@, name@) {
            Ok((mv, mn)) => r matches Ok((v, n)) && T::value_model(v) == mv && n as int == mn,
            Err((at, kind)) => r matches Err(e) && e.at.spec_offset() as int == at && e.kind
                == kind,
        },
{
    let ghost sv = s@;
    proof {
        assert(sv.skip(0) == sv);
    }
    let cur0 = crate::input::StrCursor::new(s);
    let cur = match cur0.match_literal(name) {
        Ok(c) => c,
        Err((e, _)) => {
            proof {
                assert(dflt_lit_at(sv, 0, name@) matches LitMatch::Done(n) ==> false);
            }
            return Err(e);
        },
    };
    let ghost n1 = cur.spec_offset() as int;
    proof {
        assert(dflt_lit_at(sv, 0, name@) matches LitMatch::Mis(x) ==> false);
        assert(dflt_lit_at(sv, 0, name@) matches LitMatch::BadLit(x) ==> false);
        assert(dflt_lit_at(sv, 0, name@) == LitMatch::Done(n1));
        assert(cur.remaining() == sv.skip(n1));
    }
    let open_p: &[u8] = &[0x28u8];
    proof {
        assert(open_p@ =~= seq![0x28u8]);
    }
    let cur = match cur.match_literal(open_p) {
        Ok(c) => c,
        Err((e, _)) => {
            proof {
                assert(dflt_lit_at(sv, n1, seq![0x28u8]) matches LitMatch::Done(n) ==> false);
            }
            return Err(e);
        },
    };
    let ghost n12 = cur.spec_offset() as int;
    proof {
        assert(dflt_lit_at(sv, n1, seq![0x28u8]) matches LitMatch::Mis(x) ==> false);
        assert(dflt_lit_at(sv, n1, seq![0x28u8]) matches LitMatch::BadLit(x) ==> false);
        assert(dflt_lit_at(sv, n1, seq![0x28u8]) == LitMatch::Done(n12 - n1));
        assert(sv.skip(n1).skip(n12 - n1) =~= sv.skip(n12));
        assert(cur.remaining() == sv.skip(n12));
        assert(cur.spec_offset() + cur.remaining().len() == sv.len());
        let sk: int = if T::spec_wants_strip() {
            spec_policy_skip_space(SpacePolicy::Ignore, sv.skip(n12))
        } else {
            0
        };
        crate::input::lemma_policy_skip_space_bounds(SpacePolicy::Ignore, sv.skip(n12));
        assert(sv.skip(n12).skip(sk) =~= sv.skip(n12 + sk));
    }
    let (v, cur) = match crate::internal::try_scan_static_self::<T>(cur) {
        Ok(p) => p,
        Err((e, _)) => {
            proof {
                assert(elem_at::<T>(sv, n12) matches Ok(p) ==> !T::modeled());
            }
            return Err(e);
        },
    };
    let ghost e1 = cur.spec_offset() as int;
    proof {
        assert(T::modeled() ==> (elem_at::<T>(sv, n12) matches Ok(p) && p.0 == T::value_model(v)
            && p.1 == e1));
        assert(sv.skip(n12).skip(e1 - n12) =~= sv.skip(e1));
        assert(cur.remaining() == sv.skip(e1));
        assert(0 <= e1 <= sv.len());
    }
    let close_p: &[u8] = &[0x29u8];
    proof {
        assert(close_p@ =~= seq![0x29u8]);
    }
    let cur = match cur.match_literal(close_p) {
        Ok(c) => c,
        Err((e, _)) => {
            proof {
                assert(dflt_lit_at(sv, e1, seq![0x29u8]) matches LitMatch::Done(n) ==> false);
            }
            return Err(e);
        },
    };
    proof {
        assert(dflt_lit_at(sv, e1, seq![0x29u8]) matches LitMatch::Mis(x) ==> false);
        assert(dflt_lit_at(sv, e1, seq![0x29u8]) matches LitMatch::BadLit(x) ==> false);
    }
    Ok((v, cur.offset()))
}

impl<T: ScanSelfFromStr> ScanFromStr for Option<T> {
    type Output = Option<T>;

    type ModelValue = Option<T::ModelValue>;

    open spec fn value_model(v: Option<T>) -> Option<T::ModelValue> {
        match v {
            Some(x) => Some(T::value_model(x)),
            None => None,
        }
    }

    open spec fn modeled() -> bool {
        T::modeled()
    }

    open spec fn scan_model(s: Seq<u8>) -> Result<
        (Option<T::ModelValue>, int),
        (int, ScanErrorKind),
    > {
        match spec_scan_wrapped::<T>(s, seq![0x53u8, 0x6Fu8, 0x6Du8, 0x65u8]) {
            Ok((mv, n)) => Ok((Some(mv), n)),
            Err((a1, k1)) => match dflt_lit_at(s, 0, seq![0x4Eu8, 0x6Fu8, 0x6Eu8, 0x65u8]) {
                LitMatch::Done(n) => Ok((None, n)),
                LitMatch::Mis(x) => if a1 >= x {
                    Err((a1, k1))
                } else {
                    Err((x, ScanErrorKind::LiteralMismatch))
                },
                LitMatch::BadLit(x) => if a1 >= x {
                    Err((a1, k1))
                } else {
                    Err((x, wordless_literal_kind()))
                },
            },
        }
    }

    open spec fn spec_wants_strip() -> bool {
        true
    }

    fn scan_from(s: &[u8]) -> (r: Result<(Self::Output, usize), ScanError>) {
        let ghost sv = s@;
        let some_name: &[u8] = &[0x53, 0x6F, 0x6D, 0x65];
        proof {
            assert(some_name@ =~= seq![0x53u8, 0x6Fu8, 0x6Du8, 0x65u8]);
        }
        let e1 = match scan_wrapped::<T>(s, some_name) {
            Ok((v, n)) => {
                return Ok((Some(v), n));
            },
            Err(e) => e,
        };
        let none_name: &[u8] = &[0x4E, 0x6F, 0x6E, 0x65];
        proof {
            assert(none_name@ =~= seq![0x4Eu8, 0x6Fu8, 0x6Eu8, 0x65u8]);
            assert(sv.skip(0) == sv);
        }
        let cur = crate::input::StrCursor::new(s);
        match cur.match_literal(none_name) {
            Ok(c) => Ok((None, c.offset())),
            Err((e2, _)) => Err(e1.furthest_along(e2)),
        }
    }

    fn wants_leading_junk_stripped() -> (r: bool) {
        true
    }
}

impl<T: ScanSelfFromStr, E: ScanSelfFromStr> ScanFromStr for Result<T, E> {
    type Output = Result<T, E>;

    type ModelValue = Result<T::ModelValue, E::ModelValue>;

    open spec fn value_model(v: Result<T, E>) -> Result<T::ModelValue, E::ModelValue> {
        match v {
            Ok(x) => Ok(T::value_model(x)),
            Err(x) => Err(E::value_model(x)),
        }
    }

    open spec fn modeled() -> bool {
        T::modeled() && E::modeled()
    }

    open spec fn scan_model(s: Seq<u8>) -> Result<
        (Result<T::ModelValue, E::ModelValue>, int),
        (int, ScanErrorKind),
    > {
        match spec_scan_wrapped::<T>(s, seq![0x4Fu8, 0x6Bu8]) {
            Ok((mv, n)) => Ok((Ok(mv), n)),
            Err((a1, k1)) => match spec_scan_wrapped::<E>(s, seq![0x45u8, 0x72u8, 0x72u8]) {
                Ok((mv, n)) => Ok((Err(mv), n)),
                Err((a2, k2)) => if a1 >= a2 {
                    Err((a1, k1))
                } else {
                    Err((a2, k2))
                },
            },
        }
    }

    open spec fn spec_wants_strip() -> bool {
        true
    }

    fn scan_from(s: &[u8]) -> (r: Result<(Self::Output, usize), ScanError>) {
        let ok_name: &[u8] = &[0x4F, 0x6B];
        proof {
            assert(ok_name@ =~= seq![0x4Fu8, 0x6Bu8]);
        }
        let e1 = match scan_wrapped::<T>(s, ok_name) {
            Ok((v, n)) => {
                return Ok((Ok(v), n));
            },
            Err(e) => e,
        };
        let err_name: &[u8] = &[0x45, 0x72, 0x72];
        proof {
            assert(err_name@ =~= seq![0x45u8, 0x72u8, 0x72u8]);
        }
        match scan_wrapped::<E>(s, err_name) {
            Ok((v, n)) => Ok((Err(v), n)),
            Err(e2) => Err(e1.furthest_along(e2)),
        }
    }

    fn wants_leading_junk_stripped() -> (r: bool) {
        true
    }
}


} // verus!
