//! Input handling: the cursor over the remaining input, and the pluggable
//! policies that decide how whitespace is skipped, how words are sliced, and
//! how two word tokens are compared.
//!
//! Policies are strategy values: the cursor carries one selector for each of
//! the three roles.  Each concrete policy also exists as a named type whose
//! static methods expose its behaviour directly.

use vstd::prelude::*;

use crate::error::{ScanError, ScanErrorKind};
use crate::scanner::{ScanFromStr, ScanStr};
use crate::text::{
    cp_at, cp_len_at, decode_cp, is_space_cp, is_word_cp, space_cp, word_cp, fold_lower,
    lower_fold, nfd_fold, nfd_chars_of, lower_chars_of,
};

verus! {

/// The offset of the first code point at or after `i` that fails `pred`,
/// walking code points one at a time.
pub open spec fn cp_skip_while(s: Seq<u8>, i: int, pred: spec_fn(u32) -> bool) -> int
    recommends
        0 <= i <= s.len(),
    decreases s.len() - i,
{
    if i < s.len() && i + cp_len_at(s, i) <= s.len() && pred(cp_at(s, i)) {
        cp_skip_while(s, i + cp_len_at(s, i), pred)
    } else {
        i
    }
}

/// `cp_skip_while` never leaves the slice.
pub proof fn lemma_cp_skip_while_bounds(s: Seq<u8>, i: int, pred: spec_fn(u32) -> bool)
    requires
        0 <= i <= s.len(),
    ensures
        i <= cp_skip_while(s, i, pred) <= s.len(),
    decreases s.len() - i,
{
    if i < s.len() && i + cp_len_at(s, i) <= s.len() && pred(cp_at(s, i)) {
        lemma_cp_skip_while_bounds(s, i + cp_len_at(s, i), pred);
    }
}

/// The whitespace test as a predicate on code points.
pub open spec fn space_pred() -> spec_fn(u32) -> bool {
    |cp: u32| is_space_cp(cp)
}

/// The non-line whitespace test as a predicate on code points.
pub open spec fn space_non_line_pred() -> spec_fn(u32) -> bool {
    |cp: u32| is_space_cp(cp) && cp != 0x0D && cp != 0x0A
}

/// The non-whitespace test as a predicate on code points.
pub open spec fn non_space_pred() -> spec_fn(u32) -> bool {
    |cp: u32| !is_space_cp(cp)
}

/// The word-character test as a predicate on code points.
pub open spec fn word_pred() -> spec_fn(u32) -> bool {
    |cp: u32| is_word_cp(cp)
}

/// The number of leading whitespace bytes of `s`.
pub open spec fn spec_skip_space(s: Seq<u8>) -> int {
    cp_skip_while(s, 0, space_pred())
}

/// The number of leading whitespace bytes of `s`, not counting carriage
/// returns and line feeds as whitespace.
pub open spec fn spec_skip_space_non_line(s: Seq<u8>) -> int {
    cp_skip_while(s, 0, space_non_line_pred())
}

/// Skip all leading whitespace in `s`, returning the number of bytes skipped.
pub fn skip_space(s: &[u8]) -> (n: usize)
    ensures
        n == spec_skip_space(s@),
        n <= s@.len(),
{
    let mut i: usize = 0;
    loop
        invariant
            i <= s@.len(),
            cp_skip_while(s@, 0, space_pred()) == cp_skip_while(s@, i as int, space_pred()),
        decreases s@.len() - i,
    {
        if i >= s.len() {
            return i;
        }
        let (cp, len) = decode_cp(s, i);
        let is_sp = space_cp(cp);
        proof {
            assert(space_pred()(cp) == is_space_cp(cp));
        }
        if !is_sp {
            return i;
        }
        i += len;
    }
}

/// Skip leading whitespace other than carriage returns and line feeds,
/// returning the number of bytes skipped.
pub fn skip_space_non_line(s: &[u8]) -> (n: usize)
    ensures
        n == spec_skip_space_non_line(s@),
        n <= s@.len(),
{
    let mut i: usize = 0;
    loop
        invariant
            i <= s@.len(),
            cp_skip_while(s@, 0, space_non_line_pred()) == cp_skip_while(
                s@, i as int, space_non_line_pred()),
        decreases s@.len() - i,
    {
        if i >= s.len() {
            return i;
        }
        let (cp, len) = decode_cp(s, i);
        let keep = space_cp(cp) && cp != 0x0D && cp != 0x0A;
        proof {
            assert(space_non_line_pred()(cp) == (is_space_cp(cp) && cp != 0x0D && cp != 0x0A));
        }
        if !keep {
            return i;
        }
        i += len;
    }
}

/// Selector for a whitespace-skipping policy.
#[derive(Clone, Copy, Debug, PartialEq, Eq, Structural)]
pub enum SpacePolicy {
    /// Whitespace must match exactly; none is skipped.
    Exact,
    /// Whitespace in the pattern must be answered by whitespace in the input,
    /// of any kind or amount; none is skipped.
    Fuzzy,
    /// Whitespace other than line breaks is ignored.
    NonLine,
    /// All whitespace is ignored.
    Ignore,
}

/// Selector for a word-slicing policy.
#[derive(Clone, Copy, Debug, PartialEq, Eq, Structural)]
pub enum WordPolicy {
    /// A word is a maximal run of non-whitespace code points.
    NonSpace,
    /// A word is a maximal run of word code points, or one other code point.
    Wordish,
}

/// Selector for a string-comparison policy.
#[derive(Clone, Copy, Debug, PartialEq, Eq, Structural)]
pub enum ComparePolicy {
    /// Byte-for-byte equality.
    Exact,
    /// Equality of full Unicode lowercase foldings.
    IgnoreCase,
    /// Equality after ASCII-only lowercasing.
    IgnoreAsciiCase,
    /// Equality of canonical decompositions.
    Normalized,
    /// Equality of lowercase foldings of canonical decompositions.
    IgnoreCaseNormalized,
}

/// How the leading whitespace of an input/pattern pair matches: the bytes to
/// drop from each on success, or the input offset of the disagreement.
pub open spec fn spec_match_spaces(p: SpacePolicy, a: Seq<u8>, b: Seq<u8>) -> Result<
    (int, int),
    int,
> {
    match p {
        SpacePolicy::Exact => exact_spaces_rec(a, b, 0, 0),
        SpacePolicy::Fuzzy => {
            let a_off = spec_skip_space(a);
            let b_off = spec_skip_space(b);
            if a_off == 0 && b_off == 0 {
                Ok((0int, 0int))
            } else if a_off != 0 && b_off != 0 {
                Ok((a_off, b_off))
            } else {
                Err(0int)
            }
        },
        SpacePolicy::NonLine => Ok((spec_skip_space_non_line(a), spec_skip_space_non_line(b))),
        SpacePolicy::Ignore => Ok((spec_skip_space(a), spec_skip_space(b))),
    }
}

/// The bytes a policy skips before a scan.
pub open spec fn spec_policy_skip_space(p: SpacePolicy, s: Seq<u8>) -> int {
    match p {
        SpacePolicy::Exact => 0,
        SpacePolicy::Fuzzy => 0,
        SpacePolicy::NonLine => spec_skip_space_non_line(s),
        SpacePolicy::Ignore => spec_skip_space(s),
    }
}

/// The pre-scan whitespace skip stays within the input.
pub proof fn lemma_policy_skip_space_bounds(p: SpacePolicy, s: Seq<u8>)
    ensures
        0 <= spec_policy_skip_space(p, s) <= s.len(),
{
    lemma_cp_skip_while_bounds(s, 0, space_pred());
    lemma_cp_skip_while_bounds(s, 0, space_non_line_pred());
}

/// Walk `a` and `b` in lockstep while both continue with the same whitespace
/// code point; stop at the first non-whitespace input code point, or when
/// either side ends.
pub open spec fn exact_spaces_rec(a: Seq<u8>, b: Seq<u8>, i: int, j: int) -> Result<
    (int, int),
    int,
>
    recommends
        0 <= i <= a.len(),
        0 <= j <= b.len(),
    decreases a.len() - i,
{
    if i < a.len() && j < b.len() && i + cp_len_at(a, i) <= a.len() {
        let ca = cp_at(a, i);
        let cb = cp_at(b, j);
        if !is_space_cp(ca) {
            Ok((i, j))
        } else if ca != cb {
            Err(i)
        } else {
            exact_spaces_rec(a, b, i + cp_len_at(a, i), j + cp_len_at(b, j))
        }
    } else {
        Ok((i, j))
    }
}

/// `exact_spaces_rec` stays within both slices.
pub proof fn lemma_exact_spaces_rec_bounds(a: Seq<u8>, b: Seq<u8>, i: int, j: int)
    requires
        0 <= i <= a.len(),
        0 <= j <= b.len(),
    ensures
        exact_spaces_rec(a, b, i, j) matches Ok((x, y)) ==> i <= x <= a.len() && j <= y
            <= b.len(),
        exact_spaces_rec(a, b, i, j) matches Err(x) ==> i <= x < a.len(),
    decreases a.len() - i,
{
    if i < a.len() && j < b.len() && i + cp_len_at(a, i) <= a.len() {
        let ca = cp_at(a, i);
        let cb = cp_at(b, j);
        if is_space_cp(ca) && ca == cb {
            crate::text::lemma_cp_len_at_bounds(b, j);
            lemma_exact_spaces_rec_bounds(a, b, i + cp_len_at(a, i), j + cp_len_at(b, j));
        }
    }
}

/// Matches whitespace exactly, and skips none.
pub struct ExactSpace;

impl ExactSpace {
    /// Walk the leading whitespace of `a` and `b` in lockstep.  The result is
    /// how many bytes of each belong to the shared whitespace prefix, or the
    /// offset into `a` at which the two disagree.
    pub fn match_spaces(a: &[u8], b: &[u8]) -> (r: Result<(usize, usize), usize>)
        ensures
            r matches Ok((x, y)) ==> Ok::<(int, int), int>((x as int, y as int))
                == spec_match_spaces(SpacePolicy::Exact, a@, b@),
            r matches Err(x) ==> Err::<(int, int), int>(x as int) == spec_match_spaces(
                SpacePolicy::Exact, a@, b@),
    {
        let mut i: usize = 0;
        let mut j: usize = 0;
        loop
            invariant
                i <= a@.len(),
                j <= b@.len(),
                exact_spaces_rec(a@, b@, 0, 0) == exact_spaces_rec(a@, b@, i as int, j as int),
            decreases a@.len() - i,
        {
            if !(i < a.len() && j < b.len()) {
                return Ok((i, j));
            }
            let (ca, la) = decode_cp(a, i);
            let (cb, lb) = decode_cp(b, j);
            if !space_cp(ca) {
                return Ok((i, j));
            } else if ca != cb {
                return Err(i);
            }
            proof {
                crate::text::lemma_cp_len_at_bounds(b@, j as int);
            }
            i += la;
            j += lb;
            proof {
                if j > b@.len() {
                    assert(false);
                }
            }
        }
    }

    /// This policy skips no whitespace before a scan.
    pub fn skip_space(_s: &[u8]) -> (n: usize)
        ensures
            n == 0,
    {
        0
    }
}

/// Requires whitespace in the pattern to be answered by whitespace in the
/// input, without regard to its kind or amount.
pub struct FuzzySpace;

impl FuzzySpace {
    /// Both sides must start with whitespace, or neither may.
    pub fn match_spaces(inp: &[u8], pat: &[u8]) -> (r: Result<(usize, usize), usize>)
        ensures
            r matches Ok((x, y)) ==> Ok::<(int, int), int>((x as int, y as int))
                == spec_match_spaces(SpacePolicy::Fuzzy, inp@, pat@),
            r matches Err(x) ==> Err::<(int, int), int>(x as int) == spec_match_spaces(
                SpacePolicy::Fuzzy, inp@, pat@),
    {
        let a_off = skip_space(inp);
        let b_off = skip_space(pat);
        if a_off == 0 && b_off == 0 {
            Ok((0, 0))
        } else if a_off != 0 && b_off != 0 {
            Ok((a_off, b_off))
        } else {
            Err(0)
        }
    }

    /// This policy skips no whitespace before a scan.
    pub fn skip_space(_s: &[u8]) -> (n: usize)
        ensures
            n == 0,
    {
        0
    }
}

/// Ignores all whitespace other than line breaks.
pub struct IgnoreNonLine;

impl IgnoreNonLine {
    /// Drop the leading non-line whitespace of both sides.
    pub fn match_spaces(a: &[u8], b: &[u8]) -> (r: Result<(usize, usize), usize>)
        ensures
            r matches Ok((x, y)) ==> Ok::<(int, int), int>((x as int, y as int))
                == spec_match_spaces(SpacePolicy::NonLine, a@, b@),
            r is Ok,
    {
        Ok((skip_space_non_line(a), skip_space_non_line(b)))
    }

    /// Skip leading whitespace other than line breaks.
    pub fn skip_space(s: &[u8]) -> (n: usize)
        ensures
            n == spec_skip_space_non_line(s@),
            n <= s@.len(),
    {
        skip_space_non_line(s)
    }
}

/// Ignores all whitespace entirely.
pub struct IgnoreSpace;

impl IgnoreSpace {
    /// Drop the leading whitespace of both sides.
    pub fn match_spaces(a: &[u8], b: &[u8]) -> (r: Result<(usize, usize), usize>)
        ensures
            r matches Ok((x, y)) ==> Ok::<(int, int), int>((x as int, y as int))
                == spec_match_spaces(SpacePolicy::Ignore, a@, b@),
            r is Ok,
    {
        Ok((skip_space(a), skip_space(b)))
    }

    /// Skip all leading whitespace.
    pub fn skip_space(s: &[u8]) -> (n: usize)
        ensures
            n == spec_skip_space(s@),
            n <= s@.len(),
    {
        skip_space(s)
    }
}

/// Run `match_spaces` for the given policy selector.
pub fn match_spaces_of(p: SpacePolicy, a: &[u8], b: &[u8]) -> (r: Result<(usize, usize), usize>)
    ensures
        r matches Ok((x, y)) ==> Ok::<(int, int), int>((x as int, y as int)) == spec_match_spaces(
            p, a@, b@),
        r matches Err(x) ==> Err::<(int, int), int>(x as int) == spec_match_spaces(p, a@, b@),
        r matches Ok((x, y)) ==> x <= a@.len() && y <= b@.len(),
        r matches Err(x) ==> x <= a@.len(),
{
    proof {
        lemma_exact_spaces_rec_bounds(a@, b@, 0, 0);
        lemma_cp_skip_while_bounds(a@, 0, space_pred());
        lemma_cp_skip_while_bounds(b@, 0, space_pred());
        lemma_cp_skip_while_bounds(a@, 0, space_non_line_pred());
        lemma_cp_skip_while_bounds(b@, 0, space_non_line_pred());
    }
    match p {
        SpacePolicy::Exact => ExactSpace::match_spaces(a, b),
        SpacePolicy::Fuzzy => FuzzySpace::match_spaces(a, b),
        SpacePolicy::NonLine => IgnoreNonLine::match_spaces(a, b),
        SpacePolicy::Ignore => IgnoreSpace::match_spaces(a, b),
    }
}

/// Run the pre-scan whitespace skip for the given policy selector.
pub fn policy_skip_space(p: SpacePolicy, s: &[u8]) -> (n: usize)
    ensures
        n == spec_policy_skip_space(p, s@),
        n <= s@.len(),
{
    match p {
        SpacePolicy::Exact => ExactSpace::skip_space(s),
        SpacePolicy::Fuzzy => FuzzySpace::skip_space(s),
        SpacePolicy::NonLine => IgnoreNonLine::skip_space(s),
        SpacePolicy::Ignore => IgnoreSpace::skip_space(s),
    }
}

/// The length of the word at the start of `s` under the given policy, if a
/// word starts there.
pub open spec fn spec_slice_word(p: WordPolicy, s: Seq<u8>) -> Option<int> {
    match p {
        WordPolicy::NonSpace => {
            let n = cp_skip_while(s, 0, non_space_pred());
            if n == 0 {
                None
            } else {
                Some(n)
            }
        },
        WordPolicy::Wordish => {
            let n = cp_skip_while(s, 0, word_pred());
            if n > 0 {
                Some(n)
            } else if s.len() > 0 {
                Some(cp_len_at(s, 0))
            } else {
                None
            }
        },
    }
}

/// The length of the leading run of non-whitespace code points.
fn non_space_run(s: &[u8]) -> (n: usize)
    ensures
        n == cp_skip_while(s@, 0, non_space_pred()),
        n <= s@.len(),
{
    let mut i: usize = 0;
    loop
        invariant
            i <= s@.len(),
            cp_skip_while(s@, 0, non_space_pred()) == cp_skip_while(
                s@, i as int, non_space_pred()),
        decreases s@.len() - i,
    {
        if i >= s.len() {
            return i;
        }
        let (cp, len) = decode_cp(s, i);
        let is_sp = space_cp(cp);
        proof {
            assert(non_space_pred()(cp) == !is_space_cp(cp));
        }
        if is_sp {
            return i;
        }
        i += len;
    }
}

/// The length of the leading run of word code points.
fn word_run(s: &[u8]) -> (n: usize)
    ensures
        n == cp_skip_while(s@, 0, word_pred()),
        n <= s@.len(),
{
    let mut i: usize = 0;
    loop
        invariant
            i <= s@.len(),
            cp_skip_while(s@, 0, word_pred()) == cp_skip_while(s@, i as int, word_pred()),
        decreases s@.len() - i,
    {
        if i >= s.len() {
            return i;
        }
        let (cp, len) = decode_cp(s, i);
        let is_w = word_cp(cp);
        proof {
            assert(word_pred()(cp) == is_word_cp(cp));
        }
        if !is_w {
            return i;
        }
        i += len;
    }
}

/// Treats any contiguous run of non-whitespace code points as a word.
pub struct NonSpace;

impl NonSpace {
    /// The length of the leading non-whitespace run, if it is not empty.
    pub fn slice_word(s: &[u8]) -> (r: Option<usize>)
        ensures
            r matches Some(n) ==> Some(n as int) == spec_slice_word(WordPolicy::NonSpace, s@) && 0
                < n <= s@.len(),
            r is None ==> spec_slice_word(WordPolicy::NonSpace, s@) is None,
    {
        let i = non_space_run(s);
        if i == 0 {
            None
        } else {
            Some(i)
        }
    }
}

/// Treats a contiguous run of word code points, or any single other code
/// point, as a word.
pub struct Wordish;

impl Wordish {
    /// The length of the leading word run, or of the single leading code
    /// point when no word run starts here, if the input is not empty.
    pub fn slice_word(s: &[u8]) -> (r: Option<usize>)
        ensures
            r matches Some(n) ==> Some(n as int) == spec_slice_word(WordPolicy::Wordish, s@) && 0
                < n <= s@.len(),
            r is None ==> spec_slice_word(WordPolicy::Wordish, s@) is None,
    {
        let i = word_run(s);
        if i > 0 {
            Some(i)
        } else if s.len() > 0 {
            let (_, len) = decode_cp(s, 0);
            Some(len)
        } else {
            None
        }
    }
}

/// Run `slice_word` for the given policy selector.
pub fn slice_word_of(p: WordPolicy, s: &[u8]) -> (r: Option<usize>)
    ensures
        r matches Some(n) ==> Some(n as int) == spec_slice_word(p, s@) && 0 < n <= s@.len(),
        r is None ==> spec_slice_word(p, s@) is None,
{
    match p {
        WordPolicy::NonSpace => NonSpace::slice_word(s),
        WordPolicy::Wordish => Wordish::slice_word(s),
    }
}

/// The lowercase foldings of a character sequence, concatenated.
pub open spec fn lower_chars_fold(cs: Seq<char>) -> Seq<char>
    decreases cs.len(),
{
    if cs.len() == 0 {
        Seq::empty()
    } else {
        lower_chars_of(cs[0]) + lower_chars_fold(cs.skip(1))
    }
}

/// Whether two byte strings are equal under the given comparison policy.
pub open spec fn spec_compare(p: ComparePolicy, a: Seq<u8>, b: Seq<u8>) -> bool {
    match p {
        ComparePolicy::Exact => a == b,
        ComparePolicy::IgnoreCase => lower_fold(a) == lower_fold(b),
        ComparePolicy::IgnoreAsciiCase => ascii_lower(a) == ascii_lower(b),
        ComparePolicy::Normalized => nfd_fold(a) == nfd_fold(b),
        ComparePolicy::IgnoreCaseNormalized => lower_chars_fold(nfd_fold(a)) == lower_chars_fold(
            nfd_fold(b)),
    }
}

/// The bytes of `s` with ASCII capital letters replaced by their lowercase
/// forms.
pub open spec fn ascii_lower(s: Seq<u8>) -> Seq<u8> {
    s.map_values(|b: u8| ascii_lower_byte(b))
}

/// One byte, lowered if it is an ASCII capital letter.
pub open spec fn ascii_lower_byte(b: u8) -> u8 {
    if 0x41 <= b <= 0x5A {
        (b + 0x20) as u8
    } else {
        b
    }
}

/// Compare two byte strings for exact equality.
fn bytes_eq(a: &[u8], b: &[u8]) -> (r: bool)
    ensures
        r == (a@ == b@),
{
    if a.len() != b.len() {
        proof {
            assert(a@ != b@);
        }
        return false;
    }
    let mut i: usize = 0;
    while i < a.len()
        invariant
            i <= a@.len(),
            a@.len() == b@.len(),
            forall|k: int| 0 <= k < i ==> a@[k] == b@[k],
        decreases a@.len() - i,
    {
        if a[i] != b[i] {
            proof {
                assert(a@[i as int] != b@[i as int]);
            }
            return false;
        }
        i += 1;
    }
    proof {
        assert(a@ =~= b@);
    }
    true
}

/// Compare two character vectors for equality.
fn chars_eq(a: &Vec<char>, b: &Vec<char>) -> (r: bool)
    ensures
        r == (a@ == b@),
{
    if a.len() != b.len() {
        proof {
            assert(a@ != b@);
        }
        return false;
    }
    let mut i: usize = 0;
    while i < a.len()
        invariant
            i <= a@.len(),
            a@.len() == b@.len(),
            forall|k: int| 0 <= k < i ==> a@[k] == b@[k],
        decreases a@.len() - i,
    {
        if a[i] != b[i] {
            proof {
                assert(a@[i as int] != b@[i as int]);
            }
            return false;
        }
        i += 1;
    }
    proof {
        assert(a@ =~= b@);
    }
    true
}

/// Byte-for-byte string comparison, the default.
pub struct ExactCompare;

impl ExactCompare {
    /// True when the two strings hold the same bytes.
    pub fn compare(a: &[u8], b: &[u8]) -> (r: bool)
        ensures
            r == spec_compare(ComparePolicy::Exact, a@, b@),
    {
        bytes_eq(a, b)
    }
}

/// Case-insensitive comparison by full Unicode lowercase folding.
pub struct IgnoreCase;

impl IgnoreCase {
    /// True when the lowercase foldings of the two strings are equal.
    pub fn compare(a: &[u8], b: &[u8]) -> (r: bool)
        ensures
            r == spec_compare(ComparePolicy::IgnoreCase, a@, b@),
    {
        let fa = fold_lower(a);
        let fb = fold_lower(b);
        chars_eq(&fa, &fb)
    }
}

/// ASCII-only case-insensitive comparison.
pub struct IgnoreAsciiCase;

impl IgnoreAsciiCase {
    /// True when the two strings are equal after ASCII lowercasing.
    pub fn compare(a: &[u8], b: &[u8]) -> (r: bool)
        ensures
            r == spec_compare(ComparePolicy::IgnoreAsciiCase, a@, b@),
    {
        if a.len() != b.len() {
            proof {
                assert(ascii_lower(a@).len() == a@.len());
                assert(ascii_lower(b@).len() == b@.len());
            }
            return false;
        }
        let mut i: usize = 0;
        while i < a.len()
            invariant
                i <= a@.len(),
                a@.len() == b@.len(),
                forall|k: int| 0 <= k < i ==> ascii_lower_byte(a@[k]) == ascii_lower_byte(b@[k]),
            decreases a@.len() - i,
        {
            let la = if 0x41 <= a[i] && a[i] <= 0x5A {
                a[i] + 0x20
            } else {
                a[i]
            };
            let lb = if 0x41 <= b[i] && b[i] <= 0x5A {
                b[i] + 0x20
            } else {
                b[i]
            };
            if la != lb {
                proof {
                    assert(ascii_lower(a@)[i as int] != ascii_lower(b@)[i as int]);
                }
                return false;
            }
            i += 1;
        }
        proof {
            assert(ascii_lower(a@) =~= ascii_lower(b@));
        }
        true
    }
}

/// Compute the canonical decomposition of the code points of `s`.
fn fold_nfd(s: &[u8]) -> (r: Vec<char>)
    ensures
        r@ == nfd_fold(s@),
{
    let mut out: Vec<char> = Vec::new();
    let mut i: usize = 0;
    proof {
        assert(s@.skip(0) == s@);
        assert(Seq::<char>::empty() + nfd_fold(s@) == nfd_fold(s@));
    }
    while i < s.len()
        invariant
            i <= s@.len(),
            nfd_fold(s@) == out@ + nfd_fold(s@.skip(i as int)),
        decreases s@.len() - i,
    {
        let (cp, len) = decode_cp(s, i);
        let ghost rest = s@.skip(i as int);
        proof {
            assert(rest.skip(0) == rest);
            assert(cp_at(rest, 0) == cp);
            assert(cp_len_at(rest, 0) == len);
            assert(rest.skip(len as int) == s@.skip(i as int + len));
        }
        match char::from_u32(cp) {
            Some(c) => {
                let parts = crate::text::char_decompose_canonical(c);
                let ghost out0 = out@;
                let mut j: usize = 0;
                while j < parts.len()
                    invariant
                        j <= parts@.len(),
                        out@ == out0 + parts@.subrange(0, j as int),
                    decreases parts@.len() - j,
                {
                    out.push(parts[j]);
                    j += 1;
                }
                proof {
                    assert(parts@.subrange(0, parts@.len() as int) == parts@);
                    assert(out@ == out0 + crate::text::nfd_fold_one(cp));
                }
            },
            None => {},
        }
        i += len;
    }
    proof {
        assert(s@.skip(s@.len() as int).len() == 0);
        assert(out@ + nfd_fold(s@.skip(s@.len() as int)) == out@);
    }
    out
}

/// Lowercase every character of `cs`, concatenating the foldings.
fn lower_chars_vec(cs: &Vec<char>) -> (r: Vec<char>)
    ensures
        r@ == lower_chars_fold(cs@),
{
    let mut out: Vec<char> = Vec::new();
    let mut i: usize = 0;
    proof {
        assert(cs@.skip(0) == cs@);
        assert(Seq::<char>::empty() + lower_chars_fold(cs@) == lower_chars_fold(cs@));
    }
    while i < cs.len()
        invariant
            i <= cs@.len(),
            lower_chars_fold(cs@) == out@ + lower_chars_fold(cs@.skip(i as int)),
        decreases cs@.len() - i,
    {
        let lowered = crate::text::char_to_lowercase(cs[i]);
        let ghost out0 = out@;
        let mut j: usize = 0;
        while j < lowered.len()
            invariant
                j <= lowered@.len(),
                out@ == out0 + lowered@.subrange(0, j as int),
            decreases lowered@.len() - j,
        {
            out.push(lowered[j]);
            j += 1;
        }
        proof {
            let ghost rest = cs@.skip(i as int);
            assert(rest[0] == cs@[i as int]);
            assert(rest.skip(1) == cs@.skip(i as int + 1));
            assert(lowered@.subrange(0, lowered@.len() as int) == lowered@);
        }
        i += 1;
    }
    proof {
        assert(cs@.skip(cs@.len() as int).len() == 0);
        assert(out@ + lower_chars_fold(cs@.skip(cs@.len() as int)) == out@);
    }
    out
}

/// Comparison by canonical decomposition.
///
/// Each character is replaced by its full canonical decomposition and the
/// results are compared; canonical *reordering* of combining marks is not
/// applied, so two texts whose combining marks differ only in order
/// compare unequal.
pub struct Normalized;

impl Normalized {
    /// True when the canonical decompositions of the two strings are equal.
    pub fn compare(a: &[u8], b: &[u8]) -> (r: bool)
        ensures
            r == spec_compare(ComparePolicy::Normalized, a@, b@),
    {
        let fa = fold_nfd(a);
        let fb = fold_nfd(b);
        chars_eq(&fa, &fb)
    }
}

/// Case-insensitive comparison by canonical decomposition followed by
/// lowercase folding.
///
/// As with `Normalized`, canonical reordering of combining marks is not
/// applied.
pub struct IgnoreCaseNormalized;

impl IgnoreCaseNormalized {
    /// True when the lowered canonical decompositions of the two strings are
    /// equal.
    pub fn compare(a: &[u8], b: &[u8]) -> (r: bool)
        ensures
            r == spec_compare(ComparePolicy::IgnoreCaseNormalized, a@, b@),
    {
        let na = fold_nfd(a);
        let nb = fold_nfd(b);
        let fa = lower_chars_vec(&na);
        let fb = lower_chars_vec(&nb);
        chars_eq(&fa, &fb)
    }
}

/// Run `compare` for the given policy selector.
pub fn compare_of(p: ComparePolicy, a: &[u8], b: &[u8]) -> (r: bool)
    ensures
        r == spec_compare(p, a@, b@),
{
    match p {
        ComparePolicy::Exact => ExactCompare::compare(a, b),
        ComparePolicy::IgnoreCase => IgnoreCase::compare(a, b),
        ComparePolicy::IgnoreAsciiCase => IgnoreAsciiCase::compare(a, b),
        ComparePolicy::Normalized => Normalized::compare(a, b),
        ComparePolicy::IgnoreCaseNormalized => IgnoreCaseNormalized::compare(a, b),
    }
}


/// The outcome of matching a literal pattern against input text.
pub enum LitMatch {
    /// The literal matched; this many bytes of input belong to it.
    Done(int),
    /// The literal did not match; the disagreement was noticed at this input
    /// offset.
    Mis(int),
    /// The literal holds no word where one is required, noticed at this
    /// input offset.  This is a caller error, not a scan failure.
    BadLit(int),
}

/// Match the word/space stream of `lit` (from `j`) against the input `s`
/// (from `i`): alternate matching leading whitespace under the space policy
/// with comparing one word from each side under the comparison policy.  The
/// pattern must be exhausted; the input need not be.
pub open spec fn lit_match_rec(
    cmp: ComparePolicy,
    sp: SpacePolicy,
    wp: WordPolicy,
    s: Seq<u8>,
    i: int,
    lit: Seq<u8>,
    j: int,
) -> LitMatch
    recommends
        0 <= i <= s.len(),
        0 <= j <= lit.len(),
    decreases lit.len() - j,
{
    if j >= lit.len() {
        LitMatch::Done(i)
    } else {
        match spec_match_spaces(sp, s.skip(i), lit.skip(j)) {
            Err(off) => LitMatch::Mis(i + off),
            Ok((a, b)) => if !(0 <= a && i + a <= s.len() && 0 <= b && j + b <= lit.len()) {
                LitMatch::BadLit(i)
            } else {
                let i2 = i + a;
                let j2 = j + b;
                if j2 >= lit.len() {
                    LitMatch::Done(i2)
                } else {
                    match spec_slice_word(wp, lit.skip(j2)) {
                        None => LitMatch::BadLit(i2),
                        Some(nlit) => if !(0 < nlit && j2 + nlit <= lit.len()) {
                            LitMatch::BadLit(i2)
                        } else {
                            match spec_slice_word(wp, s.skip(i2)) {
                                None => LitMatch::Mis(i2),
                                Some(ninp) => if !(0 < ninp && i2 + ninp <= s.len()) {
                                    LitMatch::BadLit(i2)
                                } else {
                                    if spec_compare(
                                        cmp,
                                        s.subrange(i2, i2 + ninp),
                                        lit.subrange(j2, j2 + nlit),
                                    ) {
                                        lit_match_rec(cmp, sp, wp, s, i2 + ninp, lit, j2 + nlit)
                                    } else {
                                        LitMatch::Mis(i2)
                                    }
                                },
                            }
                        },
                    }
                }
            },
        }
    }
}

/// The whole literal match: skip the input's leading whitespace under the
/// space policy, then run the word/space stream of `lit` against what
/// follows.
pub open spec fn spec_try_match_literal(
    cmp: ComparePolicy,
    sp: SpacePolicy,
    wp: WordPolicy,
    s: Seq<u8>,
    lit: Seq<u8>,
) -> LitMatch {
    lit_match_rec(cmp, sp, wp, s, spec_policy_skip_space(sp, s), lit, 0)
}

/// The kind a wordless literal is rejected with: a configuration error,
/// distinct from every scan failure.
pub open spec fn wordless_literal_kind() -> ScanErrorKind {
    ScanErrorKind::Other(crate::error::MsgErr(
        "literal pattern begins with a non-space, non-word",
    ))
}

/// A literal is admissible for matching when its word/space stream never
/// fails to produce a word: a literal of pure whitespace, for example, is
/// not.
pub open spec fn lit_admissible(
    cmp: ComparePolicy,
    sp: SpacePolicy,
    wp: WordPolicy,
    s: Seq<u8>,
    lit: Seq<u8>,
) -> bool {
    !(spec_try_match_literal(cmp, sp, wp, s, lit) is BadLit)
}

/// `lit_match_rec` stays within the input.
pub proof fn lemma_lit_match_rec_bounds(
    cmp: ComparePolicy,
    sp: SpacePolicy,
    wp: WordPolicy,
    s: Seq<u8>,
    i: int,
    lit: Seq<u8>,
    j: int,
)
    requires
        0 <= i <= s.len(),
        0 <= j <= lit.len(),
    ensures
        lit_match_rec(cmp, sp, wp, s, i, lit, j) matches LitMatch::Done(n) ==> i <= n <= s.len(),
        lit_match_rec(cmp, sp, wp, s, i, lit, j) matches LitMatch::Mis(x) ==> i <= x <= s.len(),
        lit_match_rec(cmp, sp, wp, s, i, lit, j) matches LitMatch::BadLit(x) ==> i <= x
            <= s.len(),
    decreases lit.len() - j,
{
    if j >= lit.len() {
    } else {
        match spec_match_spaces(sp, s.skip(i), lit.skip(j)) {
            Err(off) => {
                if sp is Exact {
                    lemma_exact_spaces_rec_bounds(s.skip(i), lit.skip(j), 0, 0);
                }
            },
            Ok((a, b)) => {
                if 0 <= a && i + a <= s.len() && 0 <= b && j + b <= lit.len() {
                    let i2 = i + a;
                    let j2 = j + b;
                    if j2 < lit.len() {
                        match spec_slice_word(wp, lit.skip(j2)) {
                            None => {},
                            Some(nlit) => {
                                if 0 < nlit && j2 + nlit <= lit.len() {
                                    match spec_slice_word(wp, s.skip(i2)) {
                                        None => {},
                                        Some(ninp) => {
                                            if 0 < ninp && i2 + ninp <= s.len() {
                                                lemma_lit_match_rec_bounds(
                                                    cmp, sp, wp, s, i2 + ninp, lit, j2 + nlit);
                                            }
                                        },
                                    }
                                }
                            },
                        }
                    }
                }
            },
        }
    }
}

/// A cursor over the remaining input: the slice still to be scanned, the
/// number of bytes already consumed before it, and the three policies that
/// govern matching.  Advancing returns a new cursor; a cursor value never
/// changes.
#[derive(Clone, Copy, Debug)]
pub struct StrCursor<'a> {
    slice: &'a [u8],
    offset: usize,
    cmp: ComparePolicy,
    space: SpacePolicy,
    word: WordPolicy,
}

impl<'a> StrCursor<'a> {
    /// The bytes still to be scanned.
    pub closed spec fn remaining(self) -> Seq<u8> {
        self.slice@
    }

    /// The bytes already consumed before `remaining()`.
    pub closed spec fn spec_offset(self) -> usize {
        self.offset
    }

    /// The comparison policy this cursor matches literals with.
    pub closed spec fn cmp_policy(self) -> ComparePolicy {
        self.cmp
    }

    /// The whitespace policy this cursor skips and matches spaces with.
    pub closed spec fn space_policy(self) -> SpacePolicy {
        self.space
    }

    /// The word policy this cursor slices words with.
    pub closed spec fn word_policy(self) -> WordPolicy {
        self.word
    }

    /// The cursor is well formed: its offset plus what remains fits in a
    /// byte count.
    pub closed spec fn wf(self) -> bool {
        self.offset + self.slice@.len() <= usize::MAX
    }

    /// Two cursors agree on everything but position.
    pub open spec fn same_policies(self, other: Self) -> bool {
        self.cmp_policy() == other.cmp_policy() && self.space_policy() == other.space_policy()
            && self.word_policy() == other.word_policy()
    }

    /// A new cursor over `slice` with the default policies: exact
    /// comparison, ignoring whitespace, word-ish word slicing.
    pub fn new(slice: &'a [u8]) -> (r: Self)
        ensures
            r.remaining() == slice@,
            r.spec_offset() == 0,
            r.cmp_policy() == ComparePolicy::Exact,
            r.space_policy() == SpacePolicy::Ignore,
            r.word_policy() == WordPolicy::Wordish,
            r.wf(),
    {
        Self::with_policies(slice, ComparePolicy::Exact, SpacePolicy::Ignore, WordPolicy::Wordish)
    }

    /// A new cursor over `slice` with the given policies.
    pub fn with_policies(
        slice: &'a [u8],
        cmp: ComparePolicy,
        space: SpacePolicy,
        word: WordPolicy,
    ) -> (r: Self)
        ensures
            r.remaining() == slice@,
            r.spec_offset() == 0,
            r.cmp_policy() == cmp,
            r.space_policy() == space,
            r.word_policy() == word,
            r.wf(),
    {
        let len = slice.len();
        proof {
            assert(len == slice@.len());
        }
        StrCursor { slice, offset: 0, cmp, space, word }
    }

    /// The number of bytes of input this cursor has consumed since its
    /// creation.
    pub fn offset(&self) -> (r: usize)
        ensures
            r == self.spec_offset(),
    {
        self.offset
    }

    /// The remaining input.
    pub fn as_bytes(self) -> (r: &'a [u8])
        ensures
            r@ == self.remaining(),
    {
        self.slice
    }

    /// The cursor moved forward by `bytes`.
    pub fn advance_by(self, bytes: usize) -> (r: Self)
        requires
            self.wf(),
            bytes <= self.remaining().len(),
        ensures
            r.remaining() == self.remaining().skip(bytes as int),
            r.spec_offset() == self.spec_offset() + bytes,
            r.same_policies(self),
            r.wf(),
    {
        StrCursor {
            slice: &self.slice[bytes..self.slice.len()],
            offset: self.offset + bytes,
            cmp: self.cmp,
            space: self.space,
            word: self.word,
        }
    }

    /// Succeeds exactly when, after the policy's leading-whitespace skip,
    /// no input remains.  On failure the error is `ExpectedEnd` at the
    /// post-skip offset, and the cursor comes back unchanged.
    pub fn try_end(self) -> (r: Result<(), (ScanError, Self)>)
        requires
            self.wf(),
        ensures
            r is Ok <==> spec_policy_skip_space(self.space_policy(), self.remaining())
                == self.remaining().len(),
            r matches Err((e, c)) ==> {
                &&& c == self
                &&& e.kind is ExpectedEnd
                &&& e.at.spec_offset() == self.spec_offset() + spec_policy_skip_space(
                    self.space_policy(), self.remaining())
            },
    {
        let skip = policy_skip_space(self.space, self.slice);
        if skip == self.slice.len() {
            Ok(())
        } else {
            Err((ScanError::expected_end(self.offset + skip), self))
        }
    }
}

impl<'a> StrCursor<'a> {
    /// Match the literal `lit` against the input under this cursor's
    /// policies.  On success the cursor advances past the matched extent; on
    /// failure the error is `LiteralMismatch` at the offset of the first
    /// disagreement, and the cursor comes back unchanged.
    ///
    /// A literal whose word/space stream holds no word where one is required
    /// is a caller error, reported as a configuration error of kind `Other`,
    /// distinct from every scan failure.
    #[verifier::rlimit(60)]
    pub(crate) fn match_literal(self, lit: &[u8]) -> (r: Result<Self, (ScanError, Self)>)
        requires
            self.wf(),
        ensures
            spec_try_match_literal(
                self.cmp_policy(), self.space_policy(), self.word_policy(), self.remaining(),
                lit@) matches LitMatch::BadLit(x) ==> {
                &&& r matches Err((e, c))
                &&& c == self
                &&& e.kind == wordless_literal_kind()
                &&& e.at.spec_offset() == self.spec_offset() + x
            },
            spec_try_match_literal(
                self.cmp_policy(), self.space_policy(), self.word_policy(), self.remaining(),
                lit@) matches LitMatch::Done(n) ==> {
                &&& r matches Ok(c)
                &&& 0 <= n <= self.remaining().len()
                &&& c.remaining() == self.remaining().skip(n)
                &&& c.spec_offset() == self.spec_offset() + n
                &&& c.same_policies(self)
                &&& c.wf()
            },
            spec_try_match_literal(
                self.cmp_policy(), self.space_policy(), self.word_policy(), self.remaining(),
                lit@) matches LitMatch::Mis(x) ==> {
                &&& r matches Err((e, c))
                &&& c == self
                &&& e.kind is LiteralMismatch
                &&& e.at.spec_offset() == self.spec_offset() + x
            },
    {
        let ghost cmp = self.cmp;
        let ghost sp = self.space;
        let ghost wp = self.word;
        let ghost s_seq = self.slice@;
        let ghost lit_seq = lit@;
        let s = self.slice;
        let n = s.len();
        let ln = lit.len();
        let mut i: usize = policy_skip_space(self.space, s);
        let mut j: usize = 0;
        proof {
            lemma_lit_match_rec_bounds(cmp, sp, wp, s_seq, i as int, lit_seq, 0);
        }
        loop
            invariant
                i <= s_seq.len(),
                j <= lit_seq.len(),
                n == s_seq.len(),
                ln == lit_seq.len(),
                s@ == s_seq,
                lit@ == lit_seq,
                self.wf(),
                self.cmp_policy() == cmp,
                self.space_policy() == sp,
                self.word_policy() == wp,
                self.remaining() == s_seq,
                spec_try_match_literal(cmp, sp, wp, s_seq, lit_seq) == lit_match_rec(
                    cmp, sp, wp, s_seq, i as int, lit_seq, j as int),
            decreases lit_seq.len() - j,
        {
            if j >= ln {
                return Ok(self.advance_by(i));
            }
            proof {
                assert(s_seq.skip(i as int) == s@.subrange(i as int, n as int));
                assert(lit_seq.skip(j as int) == lit@.subrange(j as int, ln as int));
            }
            let srest = &s[i..n];
            let lrest = &lit[j..ln];
            match match_spaces_of(self.space, srest, lrest) {
                Err(off) => {
                    return Err((
                        ScanError::literal_mismatch(self.offset + i + off),
                        self,
                    ));
                },
                Ok((a, b)) => {
                    let i2 = i + a;
                    let j2 = j + b;
                    if j2 >= ln {
                        return Ok(self.advance_by(i2));
                    }
                    proof {
                        assert(s_seq.skip(i2 as int) == s@.subrange(i2 as int, n as int));
                        assert(lit_seq.skip(j2 as int) == lit@.subrange(j2 as int, ln as int));
                    }
                    let srest2 = &s[i2..n];
                    let lrest2 = &lit[j2..ln];
                    let nlit = match slice_word_of(self.word, lrest2) {
                        Some(x) => x,
                        None => {
                            return Err((
                                ScanError::other(
                                    self.offset + i2,
                                    crate::error::MsgErr(
                                        "literal pattern begins with a non-space, non-word",
                                    ),
                                ),
                                self,
                            ));
                        },
                    };
                    let ninp = match slice_word_of(self.word, srest2) {
                        Some(x) => x,
                        None => {
                            return Err((
                                ScanError::literal_mismatch(self.offset + i2),
                                self,
                            ));
                        },
                    };
                    let sword = &s[i2..i2 + ninp];
                    let lword = &lit[j2..j2 + nlit];
                    if compare_of(self.cmp, sword, lword) {
                        i = i2 + ninp;
                        j = j2 + nlit;
                    } else {
                        return Err((
                            ScanError::literal_mismatch(self.offset + i2),
                            self,
                        ));
                    }
                },
            }
        }
    }
}

impl<'a> StrCursor<'a> {
    /// Match the literal `lit` against the input under this cursor's
    /// policies.  On success the cursor advances past the matched extent; on
    /// failure the error is `LiteralMismatch` at the offset of the first
    /// disagreement, and the cursor comes back unchanged.
    ///
    /// A literal whose word/space stream holds no word where one is required
    /// has no comparable tokens: that is a caller programming error, never a
    /// scan failure, and such literals are excluded by precondition.
    pub fn try_match_literal(self, lit: &[u8]) -> (r: Result<Self, (ScanError, Self)>)
        requires
            self.wf(),
            lit_admissible(
                self.cmp_policy(), self.space_policy(), self.word_policy(), self.remaining(),
                lit@),
        ensures
            spec_try_match_literal(
                self.cmp_policy(), self.space_policy(), self.word_policy(), self.remaining(),
                lit@) matches LitMatch::Done(n) ==> {
                &&& r matches Ok(c)
                &&& 0 <= n <= self.remaining().len()
                &&& c.remaining() == self.remaining().skip(n)
                &&& c.spec_offset() == self.spec_offset() + n
                &&& c.same_policies(self)
                &&& c.wf()
            },
            spec_try_match_literal(
                self.cmp_policy(), self.space_policy(), self.word_policy(), self.remaining(),
                lit@) matches LitMatch::Mis(x) ==> {
                &&& r matches Err((e, c))
                &&& c == self
                &&& e.kind is LiteralMismatch
                &&& e.at.spec_offset() == self.spec_offset() + x
            },
    {
        self.match_literal(lit)
    }

    /// Strip leading whitespace per the whitespace policy, then run the
    /// scanner `S` on what remains.  On success the cursor advances past the
    /// skipped whitespace and the scanned bytes; on failure the cursor comes
    /// back unchanged and the error's offset is at or after the post-skip
    /// position.
    pub fn try_scan<S: ScanFromStr>(self) -> (r: Result<(S::Output, Self), (ScanError, Self)>)
        requires
            self.wf(),
        ensures
            r matches Ok((v, c)) ==> {
                &&& c.same_policies(self)
                &&& c.wf()
                &&& self.spec_offset() + spec_policy_skip_space(
                    self.space_policy(), self.remaining()) <= c.spec_offset()
                &&& c.spec_offset() - self.spec_offset() <= self.remaining().len()
                &&& c.remaining() == self.remaining().skip(
                    c.spec_offset() - self.spec_offset())
            },
            r matches Err((e, c)) ==> {
                &&& c == self
                &&& e.at.spec_offset() >= self.spec_offset() + spec_policy_skip_space(
                    self.space_policy(), self.remaining())
            },
            S::modeled() ==> ({
                let skip = spec_policy_skip_space(self.space_policy(), self.remaining());
                match S::scan_model(self.remaining().skip(skip)) {
                    Ok((mv, mn)) => r matches Ok((v, c)) && S::value_model(v) == mv
                        && c.spec_offset() == self.spec_offset() + skip + mn,
                    Err((at, kind)) => at >= 0 && (r matches Err((e, c)) && c == self && e.kind
                        == kind && e.at.spec_offset() == crate::error::sat_offset(
                    self.spec_offset() + skip + at)),
                }
            }),
    {
        let skip = policy_skip_space(self.space, self.slice);
        let tmp = self.advance_by(skip);
        match S::scan_from(tmp.slice) {
            Ok((out, n)) => Ok((out, tmp.advance_by(n))),
            Err(err) => Err((err.add_offset(tmp.offset), self)),
        }
    }

    /// Run the scanner `S` on the remaining input without stripping leading
    /// whitespace.
    pub fn try_scan_raw<S: ScanFromStr>(self) -> (r: Result<(S::Output, Self), (ScanError, Self)>)
        requires
            self.wf(),
        ensures
            r matches Ok((v, c)) ==> {
                &&& c.same_policies(self)
                &&& c.wf()
                &&& self.spec_offset() <= c.spec_offset()
                &&& c.spec_offset() - self.spec_offset() <= self.remaining().len()
                &&& c.remaining() == self.remaining().skip(
                    c.spec_offset() - self.spec_offset())
            },
            r matches Err((e, c)) ==> {
                &&& c == self
                &&& e.at.spec_offset() >= self.spec_offset()
            },
            S::modeled() ==> match S::scan_model(self.remaining()) {
                Ok((mv, mn)) => r matches Ok((v, c)) && S::value_model(v) == mv
                    && c.spec_offset() == self.spec_offset() + mn,
                Err((at, kind)) => at >= 0 && (r matches Err((e, c)) && c == self && e.kind
                    == kind && e.at.spec_offset() == crate::error::sat_offset(
                self.spec_offset() + at)),
            },
    {
        match S::scan_from(self.slice) {
            Ok((out, n)) => Ok((out, self.advance_by(n))),
            Err(err) => Err((err.add_offset(self.offset), self)),
        }
    }

    /// Run the runtime scanner `scan` on the remaining input, stripping
    /// leading whitespace first when the scanner asks for that.
    pub fn try_scan_with<S: ScanStr>(self, scan: &mut S) -> (r: Result<
        (S::Output, Self),
        (ScanError, Self),
    >)
        requires
            self.wf(),
        ensures
            r matches Ok((v, c)) ==> {
                &&& c.same_policies(self)
                &&& c.wf()
                &&& self.spec_offset() <= c.spec_offset()
                &&& c.spec_offset() - self.spec_offset() <= self.remaining().len()
                &&& c.remaining() == self.remaining().skip(
                    c.spec_offset() - self.spec_offset())
            },
            r matches Err((e, c)) ==> {
                &&& c == self
                &&& e.at.spec_offset() >= self.spec_offset()
            },
            old(scan).modeled() ==> ({
                let skip = if old(scan).spec_wants_strip() {
                    spec_policy_skip_space(self.space_policy(), self.remaining())
                } else {
                    0int
                };
                match old(scan).scan_model(self.remaining().skip(skip)) {
                    Ok((mv, mn)) => r matches Ok((v, c)) && S::value_model(v) == mv
                        && c.spec_offset() == self.spec_offset() + skip + mn,
                    Err((at, kind)) => at >= 0 && (r matches Err((e, c)) && c == self && e.kind
                        == kind && e.at.spec_offset() == crate::error::sat_offset(
                    self.spec_offset() + skip + at)),
                }
            }),
    {
        let skip = if scan.wants_leading_junk_stripped() {
            policy_skip_space(self.space, self.slice)
        } else {
            0
        };
        let tmp = self.advance_by(skip);
        match scan.scan(tmp.slice) {
            Ok((out, n)) => Ok((out, tmp.advance_by(n))),
            Err(err) => Err((err.add_offset(tmp.offset), self)),
        }
    }
}



/// The interface for skipping and matching whitespace, as each whitespace
/// policy type implements it.
pub trait SkipSpace: Sized {
    /// The policy selector this type stands for.
    spec fn spec_policy() -> SpacePolicy;

    /// Whether the leading whitespace of `a` and `b` matches, and how many
    /// bytes of each belong to it; on disagreement, the offset into `a`.
    fn match_spaces(a: &[u8], b: &[u8]) -> (r: Result<(usize, usize), usize>)
        ensures
            r matches Ok((x, y)) ==> Ok::<(int, int), int>((x as int, y as int))
                == spec_match_spaces(Self::spec_policy(), a@, b@),
            r matches Err(x) ==> Err::<(int, int), int>(x as int) == spec_match_spaces(
                Self::spec_policy(), a@, b@),
    ;

    /// The number of bytes of leading whitespace to skip before a scan.
    fn skip_space(a: &[u8]) -> (n: usize)
        ensures
            n == spec_policy_skip_space(Self::spec_policy(), a@),
            n <= a@.len(),
    ;
}

impl SkipSpace for ExactSpace {
    open spec fn spec_policy() -> SpacePolicy {
        SpacePolicy::Exact
    }

    fn match_spaces(a: &[u8], b: &[u8]) -> (r: Result<(usize, usize), usize>) {
        ExactSpace::match_spaces(a, b)
    }

    fn skip_space(a: &[u8]) -> (n: usize) {
        ExactSpace::skip_space(a)
    }
}

impl SkipSpace for FuzzySpace {
    open spec fn spec_policy() -> SpacePolicy {
        SpacePolicy::Fuzzy
    }

    fn match_spaces(a: &[u8], b: &[u8]) -> (r: Result<(usize, usize), usize>) {
        FuzzySpace::match_spaces(a, b)
    }

    fn skip_space(a: &[u8]) -> (n: usize) {
        FuzzySpace::skip_space(a)
    }
}

impl SkipSpace for IgnoreNonLine {
    open spec fn spec_policy() -> SpacePolicy {
        SpacePolicy::NonLine
    }

    fn match_spaces(a: &[u8], b: &[u8]) -> (r: Result<(usize, usize), usize>) {
        IgnoreNonLine::match_spaces(a, b)
    }

    fn skip_space(a: &[u8]) -> (n: usize) {
        IgnoreNonLine::skip_space(a)
    }
}

impl SkipSpace for IgnoreSpace {
    open spec fn spec_policy() -> SpacePolicy {
        SpacePolicy::Ignore
    }

    fn match_spaces(a: &[u8], b: &[u8]) -> (r: Result<(usize, usize), usize>) {
        IgnoreSpace::match_spaces(a, b)
    }

    fn skip_space(a: &[u8]) -> (n: usize) {
        IgnoreSpace::skip_space(a)
    }
}

/// The interface for slicing words out of text, as each word policy type
/// implements it.
pub trait SliceWord: Sized {
    /// The policy selector this type stands for.
    spec fn spec_policy() -> WordPolicy;

    /// The length of the word at the start of `s`, if a word starts there.
    fn slice_word(s: &[u8]) -> (r: Option<usize>)
        ensures
            r matches Some(n) ==> Some(n as int) == spec_slice_word(Self::spec_policy(), s@)
                && 0 < n <= s@.len(),
            r is None ==> spec_slice_word(Self::spec_policy(), s@) is None,
    ;
}

impl SliceWord for NonSpace {
    open spec fn spec_policy() -> WordPolicy {
        WordPolicy::NonSpace
    }

    fn slice_word(s: &[u8]) -> (r: Option<usize>) {
        NonSpace::slice_word(s)
    }
}

impl SliceWord for Wordish {
    open spec fn spec_policy() -> WordPolicy {
        WordPolicy::Wordish
    }

    fn slice_word(s: &[u8]) -> (r: Option<usize>) {
        Wordish::slice_word(s)
    }
}

/// The interface for comparing two word tokens for equality, as each
/// comparison policy type implements it.
pub trait StrCompare: Sized {
    /// The policy selector this type stands for.
    spec fn spec_policy() -> ComparePolicy;

    /// Whether the two strings are equal under this policy.
    fn compare(a: &[u8], b: &[u8]) -> (r: bool)
        ensures
            r == spec_compare(Self::spec_policy(), a@, b@),
    ;
}

impl StrCompare for ExactCompare {
    open spec fn spec_policy() -> ComparePolicy {
        ComparePolicy::Exact
    }

    fn compare(a: &[u8], b: &[u8]) -> (r: bool) {
        ExactCompare::compare(a, b)
    }
}

impl StrCompare for IgnoreCase {
    open spec fn spec_policy() -> ComparePolicy {
        ComparePolicy::IgnoreCase
    }

    fn compare(a: &[u8], b: &[u8]) -> (r: bool) {
        IgnoreCase::compare(a, b)
    }
}

impl StrCompare for IgnoreAsciiCase {
    open spec fn spec_policy() -> ComparePolicy {
        ComparePolicy::IgnoreAsciiCase
    }

    fn compare(a: &[u8], b: &[u8]) -> (r: bool) {
        IgnoreAsciiCase::compare(a, b)
    }
}

impl StrCompare for Normalized {
    open spec fn spec_policy() -> ComparePolicy {
        ComparePolicy::Normalized
    }

    fn compare(a: &[u8], b: &[u8]) -> (r: bool) {
        Normalized::compare(a, b)
    }
}

impl StrCompare for IgnoreCaseNormalized {
    open spec fn spec_policy() -> ComparePolicy {
        ComparePolicy::IgnoreCaseNormalized
    }

    fn compare(a: &[u8], b: &[u8]) -> (r: bool) {
        IgnoreCaseNormalized::compare(a, b)
    }
}


} // verus!
