//! Byte-level text primitives: UTF-8 code point stepping and Unicode
//! character classification.
//!
//! The scanner engine works on byte slices and byte offsets.  This module
//! supplies the one step it needs from the encoding: reading the code point
//! that starts at a byte offset, together with its encoded length.  Bytes that
//! do not form a well-formed encoding are treated as one-byte units carrying
//! their own value, so every byte sequence can be walked deterministically.

use unicode_general_category::{get_general_category, GeneralCategory};
use vstd::prelude::*;
use vstd::utf8::{
    decode_first_codepoint, length_of_first_codepoint,
    valid_leading_and_continuation_bytes_first_codepoint,
};

verus! {

/// The byte length of the code point that starts at offset `i`: the UTF-8
/// width given by the leading byte when a well-formed encoding starts there,
/// and 1 otherwise.
pub open spec fn cp_len_at(s: Seq<u8>, i: int) -> int
    recommends
        0 <= i < s.len(),
{
    if valid_leading_and_continuation_bytes_first_codepoint(s.skip(i)) {
        length_of_first_codepoint(s.skip(i))
    } else {
        1
    }
}

/// The code point that starts at offset `i`: the decoded value of a
/// well-formed encoding, and the raw byte value otherwise.
pub open spec fn cp_at(s: Seq<u8>, i: int) -> u32
    recommends
        0 <= i < s.len(),
{
    if valid_leading_and_continuation_bytes_first_codepoint(s.skip(i)) {
        decode_first_codepoint(s.skip(i))
    } else {
        s[i] as u32
    }
}

/// `cp_len_at` stays within the slice and makes progress.
pub proof fn lemma_cp_len_at_bounds(s: Seq<u8>, i: int)
    requires
        0 <= i < s.len(),
    ensures
        1 <= cp_len_at(s, i),
        i + cp_len_at(s, i) <= s.len(),
{
}

/// Read the code point that starts at byte offset `i`, returning it together
/// with its byte length.
pub fn decode_cp(s: &[u8], i: usize) -> (r: (u32, usize))
    requires
        i < s@.len(),
    ensures
        r.0 == cp_at(s@, i as int),
        r.1 == cp_len_at(s@, i as int),
        1 <= r.1,
        i + r.1 <= s@.len(),
{
    let ghost t = s@.skip(i as int);
    proof {
        assert(t.len() == s@.len() - i);
        assert forall|k: int| 0 <= k < t.len() implies t[k] == s@[i + k] by {}
    }
    let n = s.len();
    let b0 = s[i];
    if b0 < 0x80 {
        (((b0 & 0x7F) as u32), 1)
    } else if 0xc0 <= b0 && b0 <= 0xdf {
        if n - i > 1 && 0x80 <= s[i + 1] && s[i + 1] <= 0xbf {
            let b1 = s[i + 1];
            let cp = (((b0 & 0x1f) as u32) << 6) | ((b1 & 0x3f) as u32);
            (cp, 2)
        } else {
            (b0 as u32, 1)
        }
    } else if 0xe0 <= b0 && b0 <= 0xef {
        if n - i > 2 && 0x80 <= s[i + 1] && s[i + 1] <= 0xbf && 0x80 <= s[i + 2] && s[i + 2]
            <= 0xbf {
            let b1 = s[i + 1];
            let b2 = s[i + 2];
            let cp = (((b0 & 0x0f) as u32) << 12) | (((b1 & 0x3f) as u32) << 6) | ((b2
                & 0x3f) as u32);
            (cp, 3)
        } else {
            (b0 as u32, 1)
        }
    } else if 0xf0 <= b0 && b0 <= 0xf7 {
        if n - i > 3 && 0x80 <= s[i + 1] && s[i + 1] <= 0xbf && 0x80 <= s[i + 2] && s[i + 2]
            <= 0xbf && 0x80 <= s[i + 3] && s[i + 3] <= 0xbf {
            let b1 = s[i + 1];
            let b2 = s[i + 2];
            let b3 = s[i + 3];
            let cp = (((b0 & 0x07) as u32) << 18) | (((b1 & 0x3f) as u32) << 12) | (((b2
                & 0x3f) as u32) << 6) | ((b3 & 0x3f) as u32);
            (cp, 4)
        } else {
            (b0 as u32, 1)
        }
    } else {
        (b0 as u32, 1)
    }
}

/// True when `cp` is a Unicode scalar value, that is, a value a `char` can hold.
pub open spec fn is_scalar_cp(cp: u32) -> bool {
    cp < 0xD800 || (0xDFFF < cp && cp <= 0x10FFFF)
}

pub assume_specification[ char::from_u32 ](i: u32) -> (r: Option<char>)
    ensures
        r is Some <==> is_scalar_cp(i),
        r matches Some(c) ==> c == (i as char),
;

/// Whether a character has the Unicode `White_Space` property.
pub uninterp spec fn is_whitespace_char(c: char) -> bool;

/// Relies on `char::is_whitespace`: true exactly for characters with the
/// Unicode `White_Space` property.
#[verifier::external_body]
fn char_is_whitespace(c: char) -> (r: bool)
    ensures
        r == is_whitespace_char(c),
{
    c.is_whitespace()
}

/// Whether a non-ASCII character has the Unicode `Alphabetic` property.
pub uninterp spec fn non_ascii_alphabetic_char(c: char) -> bool;

/// Whether a character has the Unicode `Alphabetic` property.  The ASCII
/// letters are documented members; beyond them the property is known only
/// through the classification call.
pub open spec fn is_alphabetic_char(c: char) -> bool {
    ('a' <= c <= 'z') || ('A' <= c <= 'Z') || non_ascii_alphabetic_char(c)
}

/// Relies on `char::is_alphabetic`: true exactly for characters with the
/// Unicode `Alphabetic` property, of which the ASCII letters are documented
/// members.
#[verifier::external_body]
fn char_is_alphabetic(c: char) -> (r: bool)
    ensures
        r == is_alphabetic_char(c),
        !(('a' <= c <= 'z') || ('A' <= c <= 'Z')) ==> r == non_ascii_alphabetic_char(c),
{
    c.is_alphabetic()
}

/// The classification a character receives from its Unicode general category:
/// 1 for decimal digits, 2 for marks, 3 for connector punctuation, 0 for
/// everything else.
pub uninterp spec fn category_class_of(c: char) -> u8;

/// Relies on `unicode_general_category::get_general_category`: the returned
/// category is collapsed to the classes the scanners distinguish (decimal
/// digit, mark, connector punctuation, other).
#[verifier::external_body]
fn char_category_class(c: char) -> (r: u8)
    ensures
        r == category_class_of(c),
        r <= 3,
{
    match get_general_category(c) {
        GeneralCategory::DecimalNumber => 1,
        GeneralCategory::NonspacingMark => 2,
        GeneralCategory::SpacingMark => 2,
        GeneralCategory::EnclosingMark => 2,
        GeneralCategory::ConnectorPunctuation => 3,
        _ => 0,
    }
}

/// Whether a character has the Unicode `XID_Start` property.
pub uninterp spec fn is_xid_start_char(c: char) -> bool;

/// Relies on `unicode_xid::UnicodeXID::is_xid_start`: true exactly for
/// characters with the `XID_Start` property.
#[verifier::external_body]
fn char_is_xid_start(c: char) -> (r: bool)
    ensures
        r == is_xid_start_char(c),
{
    unicode_xid::UnicodeXID::is_xid_start(c)
}

/// Whether a character has the Unicode `XID_Continue` property.
pub uninterp spec fn is_xid_continue_char(c: char) -> bool;

/// Relies on `unicode_xid::UnicodeXID::is_xid_continue`: true exactly for
/// characters with the `XID_Continue` property.
#[verifier::external_body]
fn char_is_xid_continue(c: char) -> (r: bool)
    ensures
        r == is_xid_continue_char(c),
{
    unicode_xid::UnicodeXID::is_xid_continue(c)
}

/// The full lowercase mapping of a character, which may be several characters
/// long.
pub uninterp spec fn lower_chars_of(c: char) -> Seq<char>;

/// Relies on `char::to_lowercase`: the result is the character's full Unicode
/// lowercase mapping, a function of the character alone.
#[verifier::external_body]
pub(crate) fn char_to_lowercase(c: char) -> (r: Vec<char>)
    ensures
        r@ == lower_chars_of(c),
{
    c.to_lowercase().collect()
}

/// The canonical decomposition of a character.
pub uninterp spec fn nfd_chars_of(c: char) -> Seq<char>;

fn push_char(v: &mut Vec<char>, c: char)
    ensures
        final(v)@ == old(v)@.push(c),
{
    v.push(c);
}

/// Relies on `unicode_normalization::char::decompose_canonical`: the emitted
/// characters are the canonical decomposition of `c`, a function of the
/// character alone.
#[verifier::external_body]
pub(crate) fn char_decompose_canonical(c: char) -> (r: Vec<char>)
    ensures
        r@ == nfd_chars_of(c),
{
    let mut v: Vec<char> = Vec::new();
    unicode_normalization::char::decompose_canonical(c, |d| push_char(&mut v, d));
    v
}

/// Run the alphabetic test on a character.
pub fn char_alphabetic(c: char) -> (r: bool)
    ensures
        r == is_alphabetic_char(c),
{
    char_is_alphabetic(c)
}

/// Whether the code point at the given position is whitespace.  Code points
/// outside the scalar range are never whitespace.
pub open spec fn is_space_cp(cp: u32) -> bool {
    is_scalar_cp(cp) && is_whitespace_char(cp as char)
}

/// Run the whitespace test on a raw code point.
pub fn space_cp(cp: u32) -> (r: bool)
    ensures
        r == is_space_cp(cp),
{
    match char::from_u32(cp) {
        Some(c) => char_is_whitespace(c),
        None => false,
    }
}

/// Whether a code point is a "word" character: alphabetic, a decimal digit, a
/// mark, connector punctuation, or a join control character.
pub open spec fn is_word_cp(cp: u32) -> bool {
    is_scalar_cp(cp) && {
        ||| is_alphabetic_char(cp as char)
        ||| category_class_of(cp as char) == 1
        ||| category_class_of(cp as char) == 2
        ||| category_class_of(cp as char) == 3
        ||| cp == 0x200C
        ||| cp == 0x200D
    }
}

/// Run the word-character test on a raw code point.
pub fn word_cp(cp: u32) -> (r: bool)
    ensures
        r == is_word_cp(cp),
{
    match char::from_u32(cp) {
        Some(c) => {
            if char_is_alphabetic(c) {
                true
            } else {
                let class = char_category_class(c);
                class == 1 || class == 2 || class == 3 || cp == 0x200C || cp == 0x200D
            }
        },
        None => false,
    }
}

/// Whether a code point is a decimal digit in the Unicode sense.
pub open spec fn is_digit_cp(cp: u32) -> bool {
    is_scalar_cp(cp) && category_class_of(cp as char) == 1
}

/// Run the decimal-digit test on a raw code point.
pub fn digit_cp(cp: u32) -> (r: bool)
    ensures
        r == is_digit_cp(cp),
{
    match char::from_u32(cp) {
        Some(c) => char_category_class(c) == 1,
        None => false,
    }
}

/// Whether a code point may start an identifier: `XID_Start` or an underscore.
pub open spec fn is_ident_start_cp(cp: u32) -> bool {
    cp == 0x5F || (is_scalar_cp(cp) && is_xid_start_char(cp as char))
}

/// Run the identifier-start test on a raw code point.
pub fn ident_start_cp(cp: u32) -> (r: bool)
    ensures
        r == is_ident_start_cp(cp),
{
    if cp == 0x5F {
        true
    } else {
        match char::from_u32(cp) {
            Some(c) => char_is_xid_start(c),
            None => false,
        }
    }
}

/// Whether a code point may continue an identifier.
pub open spec fn is_ident_continue_cp(cp: u32) -> bool {
    is_scalar_cp(cp) && is_xid_continue_char(cp as char)
}

/// Run the identifier-continue test on a raw code point.
pub fn ident_continue_cp(cp: u32) -> (r: bool)
    ensures
        r == is_ident_continue_cp(cp),
{
    match char::from_u32(cp) {
        Some(c) => char_is_xid_continue(c),
        None => false,
    }
}

/// Whether a code point is a line terminator.
pub open spec fn is_line_term_cp(cp: u32) -> bool {
    cp == 0x0A || cp == 0x0B || cp == 0x0C || cp == 0x0D || cp == 0x85 || cp == 0x2028 || cp
        == 0x2029
}

/// Run the line-terminator test on a raw code point.
pub fn line_term_cp(cp: u32) -> (r: bool)
    ensures
        r == is_line_term_cp(cp),
{
    cp == 0x0A || cp == 0x0B || cp == 0x0C || cp == 0x0D || cp == 0x85 || cp == 0x2028 || cp
        == 0x2029
}

/// The sequence of code points encoded in `s`, reading ill-formed bytes as
/// one-byte units.
pub open spec fn decoded_cps(s: Seq<u8>) -> Seq<u32>
    decreases s.len(),
{
    if s.len() == 0 {
        Seq::empty()
    } else if cp_len_at(s, 0) <= s.len() {
        seq![cp_at(s, 0)] + decoded_cps(s.skip(cp_len_at(s, 0)))
    } else {
        seq![cp_at(s, 0)]
    }
}

/// The lowercase folding of the code points of `s`: each scalar is replaced by
/// its full lowercase mapping, and each non-scalar unit is dropped.
pub open spec fn lower_fold(s: Seq<u8>) -> Seq<char>
    decreases s.len(),
{
    if s.len() == 0 {
        Seq::empty()
    } else if cp_len_at(s, 0) <= s.len() {
        lower_fold_one(cp_at(s, 0)) + lower_fold(s.skip(cp_len_at(s, 0)))
    } else {
        lower_fold_one(cp_at(s, 0))
    }
}

/// The lowercase mapping of one code point.
pub open spec fn lower_fold_one(cp: u32) -> Seq<char> {
    if is_scalar_cp(cp) {
        lower_chars_of(cp as char)
    } else {
        Seq::empty()
    }
}

/// The canonical decomposition of the code points of `s`: each scalar is
/// replaced by its canonical decomposition, and each non-scalar unit is
/// dropped.
pub open spec fn nfd_fold(s: Seq<u8>) -> Seq<char>
    decreases s.len(),
{
    if s.len() == 0 {
        Seq::empty()
    } else if cp_len_at(s, 0) <= s.len() {
        nfd_fold_one(cp_at(s, 0)) + nfd_fold(s.skip(cp_len_at(s, 0)))
    } else {
        nfd_fold_one(cp_at(s, 0))
    }
}

/// The canonical decomposition of one code point.
pub open spec fn nfd_fold_one(cp: u32) -> Seq<char> {
    if is_scalar_cp(cp) {
        nfd_chars_of(cp as char)
    } else {
        Seq::empty()
    }
}

/// Compute the lowercase folding of `s`.
pub fn fold_lower(s: &[u8]) -> (r: Vec<char>)
    ensures
        r@ == lower_fold(s@),
{
    let mut out: Vec<char> = Vec::new();
    let mut i: usize = 0;
    proof {
        assert(s@.skip(0) == s@);
        assert(Seq::<char>::empty() + lower_fold(s@) == lower_fold(s@));
    }
    while i < s.len()
        invariant
            i <= s@.len(),
            lower_fold(s@) == out@ + lower_fold(s@.skip(i as int)),
        decreases s@.len() - i,
    {
        let (cp, len) = decode_cp(s, i);
        let ghost rest = s@.skip(i as int);
        proof {
            assert(rest.skip(0) == rest);
            assert(cp_at(rest, 0) == cp);
            assert(cp_len_at(rest, 0) == len);
            assert(rest.skip(len as int) == s@.skip(i as int + len));
        }
        match char::from_u32(cp) {
            Some(c) => {
                let lowered = char_to_lowercase(c);
                let ghost out0 = out@;
                let mut j: usize = 0;
                while j < lowered.len()
                    invariant
                        j <= lowered@.len(),
                        out@ == out0 + lowered@.subrange(0, j as int),
                    decreases lowered@.len() - j,
                {
                    out.push(lowered[j]);
                    j += 1;
                }
                proof {
                    assert(lowered@.subrange(0, lowered@.len() as int) == lowered@);
                    assert(out@ == out0 + lower_fold_one(cp));
                }
            },
            None => {},
        }
        i += len;
    }
    proof {
        assert(s@.skip(s@.len() as int).len() == 0);
        assert(out@ + lower_fold(s@.skip(s@.len() as int)) == out@);
    }
    out
}

} // verus!
