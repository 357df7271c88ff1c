//! A `scanf`-style structured-text scanner.
//!
//! Given an input string and an ordered list of rules, the engine tries each
//! rule in turn.  A rule is a sequence of terms: literal text matches, typed
//! value captures, and bounded repetitions.  The first rule whose terms all
//! match yields the scan's result; when every rule fails, the error that got
//! furthest into the input is reported.

use vstd::prelude::*;

pub mod error;
pub mod input;
pub mod internal;
pub mod rules;
pub mod scanner;
pub mod text;
pub mod util;

pub use error::{ScanError, ScanErrorKind};

verus! {

/// Remove a single trailing line terminator from `s`.
pub fn strip_line_term(s: &[u8]) -> (r: &[u8])
    ensures
        r@ == strip_line_term_spec(s@),
{
    let n = s.len();
    if n >= 2 && s[n - 2] == 13u8 && s[n - 1] == 10u8 {
        &s[0..n - 2]
    } else if n >= 1 && (s[n - 1] == 10u8 || s[n - 1] == 13u8) {
        &s[0..n - 1]
    } else {
        &s[0..n]
    }
}

/// The input with one trailing `"\r\n"`, `"\n"` or `"\r"` removed.
pub open spec fn strip_line_term_spec(s: Seq<u8>) -> Seq<u8> {
    let n = s.len() as int;
    if n >= 2 && s[n - 2] == 13u8 && s[n - 1] == 10u8 {
        s.subrange(0, n - 2)
    } else if n >= 1 && (s[n - 1] == 10u8 || s[n - 1] == 13u8) {
        s.subrange(0, n - 1)
    } else {
        s
    }
}

} // verus!
