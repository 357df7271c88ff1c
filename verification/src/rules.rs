//! The rule, alternation and repetition engine.
//!
//! A rule is a sequence of terms: literal matches, typed value captures, a
//! tail capture, and bounded repetitions.  A scan tries each rule in turn
//! from the start of the input; the first rule whose terms all match, with
//! only whitespace left after them, wins.  When every rule fails, the error
//! that got furthest into the input is reported.
//!
//! The whole evaluation is specified by one family of functions over byte
//! sequences; the executable engine returns exactly what they denote, which
//! makes scanning deterministic by construction.

use vstd::prelude::*;

use crate::error::{MsgErr, ScanError, ScanErrorKind};
use crate::input::{
    lemma_policy_skip_space_bounds, spec_policy_skip_space, spec_try_match_literal, ComparePolicy,
    LitMatch, SpacePolicy, StrCursor, WordPolicy,
};
use crate::scanner::lang::{spec_scan_bool, spec_scan_signed};
use crate::scanner::misc::{
    spec_match_hor_space, spec_match_ident, spec_match_line, spec_match_newline,
    spec_match_non_space, spec_match_number, spec_match_space, spec_match_word,
    spec_match_wordish,
};
use crate::scanner::ScanFromStr;

verus! {

/// The three policies a scan runs under.
#[derive(Clone, Copy, Debug)]
pub struct Policies {
    /// How two word tokens are compared.
    pub cmp: ComparePolicy,
    /// How whitespace is skipped and matched.
    pub space: SpacePolicy,
    /// How words are sliced from the input.
    pub word: WordPolicy,
}

impl Policies {
    /// The default policies: exact comparison, ignoring whitespace, word-ish
    /// word slicing.
    pub fn new() -> (r: Self)
        ensures
            r.cmp == ComparePolicy::Exact,
            r.space == SpacePolicy::Ignore,
            r.word == WordPolicy::Wordish,
    {
        Policies { cmp: ComparePolicy::Exact, space: SpacePolicy::Ignore, word: WordPolicy::Wordish }
    }
}

/// A value captured by a scan.
#[derive(Clone, Debug)]
pub enum Value {
    /// An integer capture.
    Int(i64),
    /// A boolean capture.
    Bool(bool),
    /// A textual capture.
    Text(Vec<u8>),
}

/// The mathematical shape of a captured value.
pub enum SpecValue {
    /// An integer capture.
    Int(int),
    /// A boolean capture.
    Bool(bool),
    /// A textual capture.
    Text(Seq<u8>),
}

/// The mathematical shape of one captured value.
pub open spec fn value_view(v: Value) -> SpecValue {
    match v {
        Value::Int(i) => SpecValue::Int(i as int),
        Value::Bool(b) => SpecValue::Bool(b),
        Value::Text(t) => SpecValue::Text(t@),
    }
}

/// The mathematical shape of a capture list.
pub open spec fn vals_view(vs: Seq<Value>) -> Seq<SpecValue> {
    vs.map_values(|v: Value| value_view(v))
}

/// The scanner a capture term runs.
#[derive(Clone, Copy, Debug)]
pub enum ScanKind {
    /// A signed integer, scanned into `Value::Int`.
    Int,
    /// `true` or `false`, scanned into `Value::Bool`.
    Bool,
    /// A word: a maximal run of word characters.
    Word,
    /// A word, a number, or one other non-space code point.
    Wordish,
    /// A maximal run of non-whitespace code points.
    NonSpace,
    /// A maximal run of decimal digits.
    Number,
    /// An identifier.
    Ident,
    /// Everything up to the end of the line.
    Line,
    /// All remaining input.
    Everything,
    /// A non-empty run of whitespace; leading whitespace is not stripped.
    Space,
    /// A non-empty run of horizontal whitespace; leading whitespace is not
    /// stripped.
    HorSpace,
    /// A single newline; leading whitespace is not stripped.
    Newline,
}

/// Whether a capture kind wants leading whitespace stripped before it runs.
pub open spec fn scan_kind_strips(k: ScanKind) -> bool {
    match k {
        ScanKind::Space => false,
        ScanKind::HorSpace => false,
        ScanKind::Newline => false,
        _ => true,
    }
}

/// What a capture kind scans from the start of `s`: the captured value and
/// the bytes consumed, or the reason it failed, which is always noticed at
/// the start of its input.
pub open spec fn scan_kind_spec(k: ScanKind, s: Seq<u8>) -> Result<
    (SpecValue, int),
    ScanErrorKind,
> {
    match k {
        ScanKind::Int => match spec_scan_signed(s, i64::MIN as int, i64::MAX as int) {
            Ok((v, n)) => Ok((SpecValue::Int(v), n)),
            Err(kind) => Err(kind),
        },
        ScanKind::Bool => match spec_scan_bool(s) {
            Ok((v, n)) => Ok((SpecValue::Bool(v), n)),
            Err(kind) => Err(kind),
        },
        ScanKind::Word => text_capture(s, spec_match_word(s)),
        ScanKind::Wordish => text_capture(s, spec_match_wordish(s)),
        ScanKind::NonSpace => text_capture(s, spec_match_non_space(s)),
        ScanKind::Number => text_capture(s, spec_match_number(s)),
        ScanKind::Ident => text_capture(s, spec_match_ident(s)),
        ScanKind::Line => Ok(
            (SpecValue::Text(s.subrange(0, spec_match_line(s).0)), spec_match_line(s).1),
        ),
        ScanKind::Everything => Ok((SpecValue::Text(s), s.len() as int)),
        ScanKind::Space => text_capture(s, spec_match_space(s)),
        ScanKind::HorSpace => text_capture(s, spec_match_hor_space(s)),
        ScanKind::Newline => text_capture(s, spec_match_newline(s)),
    }
}

/// A textual capture from a matcher's extent: the matched prefix, or a
/// syntax failure when nothing matched.
pub open spec fn text_capture(s: Seq<u8>, extent: Option<int>) -> Result<
    (SpecValue, int),
    ScanErrorKind,
> {
    match extent {
        Some(n) => Ok((SpecValue::Text(s.subrange(0, n)), n)),
        None => Err(ScanErrorKind::SyntaxNoMessage),
    }
}

/// One term of a rule.
#[derive(Debug)]
pub enum Term {
    /// Match this literal text against the input.
    Literal(Vec<u8>),
    /// Scan a value of the given kind and capture it.
    Capture(ScanKind),
    /// Capture all remaining input; meaningful only as the final term.
    Tail,
    /// Scan a sub-pattern repeatedly.
    Repeat(RepeatTerm),
}

/// A quantified repetition: an inner pattern, an optional separator pattern
/// (empty means none), and an inclusive repeat bound.
#[derive(Debug)]
pub struct RepeatTerm {
    /// The sub-pattern scanned repeatedly.
    pub pat: Vec<Term>,
    /// The separator scanned between repeats; an empty sequence means the
    /// repeats are unseparated.
    pub sep: Vec<Term>,
    /// The least number of repeats required.
    pub min: usize,
    /// The greatest number of repeats allowed, if bounded.
    pub max: Option<usize>,
}

/// A rule: a sequence of terms, tried as one alternative.  After its terms,
/// only whitespace (under the space policy) may remain.
#[derive(Debug)]
pub struct Rule {
    /// The terms, evaluated left to right.
    pub terms: Vec<Term>,
}

/// A repetition bound is well formed when its minimum does not exceed its
/// maximum.  A bound with `min > max` is a configuration error, rejected
/// when the scan is set up, never a scan failure.
pub open spec fn term_wf(t: Term) -> bool
    decreases t,
{
    match t {
        Term::Repeat(rt) => {
            &&& (rt.max matches Some(m) ==> rt.min <= m)
            &&& terms_wf(rt.pat@)
            &&& terms_wf(rt.sep@)
        },
        _ => true,
    }
}

/// Every repetition bound in the term list is well formed.
pub open spec fn terms_wf(ts: Seq<Term>) -> bool
    decreases ts,
{
    if ts.len() == 0 {
        true
    } else {
        term_wf(ts[0]) && terms_wf(ts.subrange(1, ts.len() as int))
    }
}

/// Well-formedness of a term list passes to each of its terms.
pub proof fn lemma_terms_wf_index(ts: Seq<Term>, i: int)
    requires
        terms_wf(ts),
        0 <= i < ts.len(),
    ensures
        term_wf(ts[i]),
    decreases i,
{
    if i > 0 {
        lemma_terms_wf_index(ts.subrange(1, ts.len() as int), i - 1);
        assert(ts.subrange(1, ts.len() as int)[i - 1] == ts[i]);
    }
}

/// Every rule's terms are well formed.
pub open spec fn rules_wf(rs: Seq<Rule>) -> bool {
    forall|i: int| 0 <= i < rs.len() ==> terms_wf(#[trigger] rs[i].terms@)
}

/// The outcome of evaluating a term sequence from a byte offset.
pub enum EvalOut {
    /// All terms matched; the offset after them, and the captured values.
    Done(int, Seq<SpecValue>),
    /// A term failed, at this offset and for this reason.
    Failed(int, ScanErrorKind),
    /// A configuration error was met, at this offset and for this reason:
    /// a literal with no comparable word, or a repeat that consumes no
    /// input yet cannot reach its minimum.
    Aborted(int, ScanErrorKind),
}

/// The given captures, prepended to an outcome's captures.
pub open spec fn with_prefix(vs: Seq<SpecValue>, o: EvalOut) -> EvalOut {
    match o {
        EvalOut::Done(end, vals) => EvalOut::Done(end, vs + vals),
        EvalOut::Failed(at, kind) => EvalOut::Failed(at, kind),
        EvalOut::Aborted(at, kind) => EvalOut::Aborted(at, kind),
    }
}

/// The outcome of a repetition's scanning loop.
pub enum RepOut {
    /// The loop stopped: the offset after the last full repeat, how many
    /// repeats matched, the values they captured, the error that ended the
    /// loop if one did, and whether a separator was left dangling.
    Stopped {
        /// Offset after the last successful repeat.
        end: int,
        /// Number of repeats that matched.
        count: int,
        /// Captures from the matched repeats and separators, in order.
        vals: Seq<SpecValue>,
        /// The failure that stopped the loop, if it was stopped by one.
        err: Option<(int, ScanErrorKind)>,
        /// True when a separator matched but the repeat after it failed.
        dangling: bool,
    },
    /// A configuration error was met inside the repetition, at this offset
    /// and for this reason.
    RAborted(int, ScanErrorKind),
}

/// The given captures, prepended to a repetition outcome's captures.
pub open spec fn rep_prefix(vs: Seq<SpecValue>, o: RepOut) -> RepOut {
    match o {
        RepOut::Stopped { end, count, vals, err, dangling } => RepOut::Stopped {
            end,
            count,
            vals: vs + vals,
            err,
            dangling,
        },
        RepOut::RAborted(at, kind) => RepOut::RAborted(at, kind),
    }
}

/// The repetition budget still open: how many more repeats a bounded
/// repetition admits.  Used only to show the evaluation well founded.
pub open spec fn rep_budget(t: Term, count: int) -> int {
    match t {
        Term::Repeat(rt) => match rt.max {
            Some(m) => if count <= m {
                m - count
            } else {
                0
            },
            None => 0,
        },
        _ => 0,
    }
}

/// Evaluate a term sequence against `s` from offset `off`: thread the offset
/// through each term, collecting captures, until a term fails.
pub open spec fn eval_terms(p: Policies, s: Seq<u8>, off: int, terms: Seq<Term>) -> EvalOut
    recommends
        0 <= off <= s.len(),
    decreases terms, s.len() - off, 0int,
{
    if terms.len() == 0 {
        EvalOut::Done(off, Seq::empty())
    } else {
        let rest = terms.subrange(1, terms.len() as int);
        match terms[0] {
            Term::Literal(lit) => match spec_try_match_literal(
                p.cmp,
                p.space,
                p.word,
                s.skip(off),
                lit@,
            ) {
                LitMatch::Done(n) => if 0 <= n && off + n <= s.len() {
                    eval_terms(p, s, off + n, rest)
                } else {
                    EvalOut::Aborted(off, ScanErrorKind::SyntaxNoMessage)
                },
                LitMatch::Mis(x) => EvalOut::Failed(off + x, ScanErrorKind::LiteralMismatch),
                LitMatch::BadLit(x) => EvalOut::Aborted(
                    off + x,
                    crate::input::wordless_literal_kind(),
                ),
            },
            Term::Capture(k) => {
                let skip = if scan_kind_strips(k) {
                    spec_policy_skip_space(p.space, s.skip(off))
                } else {
                    0
                };
                if !(0 <= skip && off + skip <= s.len()) {
                    EvalOut::Aborted(off, ScanErrorKind::SyntaxNoMessage)
                } else {
                    match scan_kind_spec(k, s.skip(off + skip)) {
                        Ok((v, n)) => if 0 <= n && off + skip + n <= s.len() {
                            with_prefix(seq![v], eval_terms(p, s, off + skip + n, rest))
                        } else {
                            EvalOut::Aborted(off, ScanErrorKind::SyntaxNoMessage)
                        },
                        Err(kind) => EvalOut::Failed(off + skip, kind),
                    }
                }
            },
            Term::Tail => with_prefix(
                seq![SpecValue::Text(s.skip(off))],
                eval_terms(p, s, s.len() as int, rest),
            ),
            Term::Repeat(rt) => match eval_repeat(p, s, off, terms[0], 0) {
                RepOut::RAborted(at, kind) => EvalOut::Aborted(at, kind),
                RepOut::Stopped { end, count, vals, err, dangling } => {
                    if count < rt.min || dangling {
                        match err {
                            Some((at, kind)) => EvalOut::Failed(at, kind),
                            None => EvalOut::Aborted(
                                end,
                                ScanErrorKind::Other(MsgErr(
                                    "a repeat that consumes no input cannot reach its minimum",
                                )),
                            ),
                        }
                    } else if 0 <= end && end <= s.len() {
                        with_prefix(vals, eval_terms(p, s, end, rest))
                    } else {
                        EvalOut::Aborted(off, ScanErrorKind::SyntaxNoMessage)
                    }
                },
            },
        }
    }
}

/// Evaluate a repetition term from offset `off`, `count` repeats having
/// already matched: stop when the bound is reached; otherwise scan the
/// separator (between repeats) and the inner pattern, and continue while
/// both match.
///
/// A repeat that matches without consuming input would repeat forever when
/// no bound is set; the evaluation records one such repeat and stops.
pub open spec fn eval_repeat(p: Policies, s: Seq<u8>, off: int, t: Term, count: int) -> RepOut
    recommends
        0 <= off <= s.len(),
        t is Repeat,
        0 <= count,
    decreases t, s.len() - off, rep_budget(t, count),
{
    match t {
        Term::Repeat(rt) => {
            if rt.max matches Some(m) && count >= m {
                RepOut::Stopped { end: off, count, vals: Seq::empty(), err: None, dangling: false }
            } else {
                let with_sep = count > 0 && rt.sep@.len() > 0;
                let sep_out = if with_sep {
                    eval_terms(p, s, off, rt.sep@)
                } else {
                    EvalOut::Done(off, Seq::empty())
                };
                match sep_out {
                    EvalOut::Aborted(at, kind) => RepOut::RAborted(at, kind),
                    EvalOut::Failed(at, kind) => RepOut::Stopped {
                        end: off,
                        count,
                        vals: Seq::empty(),
                        err: Some((at, kind)),
                        dangling: false,
                    },
                    EvalOut::Done(off_sep, vals_sep) => {
                        if !(off <= off_sep <= s.len()) {
                            RepOut::RAborted(off, ScanErrorKind::SyntaxNoMessage)
                        } else {
                            match eval_terms(p, s, off_sep, rt.pat@) {
                                EvalOut::Aborted(at, kind) => RepOut::RAborted(at, kind),
                                EvalOut::Failed(at, kind) => RepOut::Stopped {
                                    end: off,
                                    count,
                                    vals: Seq::empty(),
                                    err: Some((at, kind)),
                                    dangling: with_sep,
                                },
                                EvalOut::Done(off_pat, vals_pat) => {
                                    if !(off_sep <= off_pat <= s.len()) {
                                        RepOut::RAborted(off, ScanErrorKind::SyntaxNoMessage)
                                    } else if off_pat == off && rt.max is None {
                                        RepOut::Stopped {
                                            end: off,
                                            count: count + 1,
                                            vals: vals_sep + vals_pat,
                                            err: None,
                                            dangling: false,
                                        }
                                    } else {
                                        rep_prefix(
                                            vals_sep + vals_pat,
                                            eval_repeat(p, s, off_pat, t, count + 1),
                                        )
                                    }
                                },
                            }
                        }
                    },
                }
            }
        },
        _ => RepOut::RAborted(
            off,
            ScanErrorKind::Other(MsgErr("a repetition term was expected")),
        ),
    }
}

/// The outcome of evaluating one rule against the whole input.
pub enum RuleOut {
    /// The rule matched: its captures, and the bytes its terms consumed.
    RDone(Seq<SpecValue>, int),
    /// The rule failed, at this offset and for this reason.
    RFailed(int, ScanErrorKind),
    /// A configuration error was met, at this offset and for this reason.
    RAborted(int, ScanErrorKind),
}

/// Evaluate one rule from the start of `s`: its terms in order, then a check
/// that nothing but whitespace remains.
pub open spec fn eval_rule(p: Policies, s: Seq<u8>, rule: Rule) -> RuleOut {
    match eval_terms(p, s, 0, rule.terms@) {
        EvalOut::Aborted(at, kind) => RuleOut::RAborted(at, kind),
        EvalOut::Failed(at, kind) => RuleOut::RFailed(at, kind),
        EvalOut::Done(end, vals) => {
            if !(0 <= end <= s.len()) {
                RuleOut::RAborted(0, ScanErrorKind::SyntaxNoMessage)
            } else {
                let skip = spec_policy_skip_space(p.space, s.skip(end));
                if end + skip == s.len() {
                    RuleOut::RDone(vals, end)
                } else {
                    RuleOut::RFailed(end + skip, ScanErrorKind::ExpectedEnd)
                }
            }
        },
    }
}

/// The outcome of trying the rules at indexes `i..` in order.
pub enum AltOut {
    /// A rule matched: its index, its captures, and the bytes its terms
    /// consumed.
    Matched(int, Seq<SpecValue>, int),
    /// Every rule failed; this failure, of the furthest-along ones, was the
    /// earliest tried.
    AltFailed(int, ScanErrorKind),
    /// There were no rules to try.
    Exhausted,
    /// A configuration error was met, at this offset and for this reason.
    AltAborted(int, ScanErrorKind),
}

/// Try the rules at indexes `i..` in order from the start of `s`: the first
/// match wins, and if all fail, the error that got furthest into the input
/// is kept, the earliest tried winning ties.
pub open spec fn alt_from(p: Policies, s: Seq<u8>, rules: Seq<Rule>, i: int) -> AltOut
    recommends
        0 <= i,
    decreases rules.len() - i,
{
    if i >= rules.len() {
        AltOut::Exhausted
    } else {
        match eval_rule(p, s, rules[i]) {
            RuleOut::RAborted(at, kind) => AltOut::AltAborted(at, kind),
            RuleOut::RDone(vals, end) => AltOut::Matched(i, vals, end),
            RuleOut::RFailed(at, kind) => match alt_from(p, s, rules, i + 1) {
                AltOut::Matched(j, vals, end) => AltOut::Matched(j, vals, end),
                AltOut::Exhausted => AltOut::AltFailed(at, kind),
                AltOut::AltAborted(at2, kind2) => AltOut::AltAborted(at2, kind2),
                AltOut::AltFailed(at2, kind2) => if at >= at2 {
                    AltOut::AltFailed(at, kind)
                } else {
                    AltOut::AltFailed(at2, kind2)
                },
            },
        }
    }
}

/// The outcome of scanning `s` against an ordered rule list.
pub open spec fn eval_rules(p: Policies, s: Seq<u8>, rules: Seq<Rule>) -> AltOut {
    alt_from(p, s, rules, 0)
}


/// A successful capture consumes at most what it was given, and a failed
/// one is noticed at the start of its input.
pub proof fn lemma_scan_kind_spec_bounds(k: ScanKind, s: Seq<u8>)
    ensures
        scan_kind_spec(k, s) matches Ok((v, n)) ==> 0 <= n <= s.len(),
{
    crate::input::lemma_cp_skip_while_bounds(s, 0, crate::input::space_pred());
    crate::input::lemma_cp_skip_while_bounds(s, 0, crate::input::non_space_pred());
    crate::input::lemma_cp_skip_while_bounds(s, 0, crate::input::word_pred());
    crate::input::lemma_cp_skip_while_bounds(s, 0, crate::scanner::misc::hor_space_pred());
    crate::input::lemma_cp_skip_while_bounds(s, 0, crate::scanner::misc::digit_pred());
    crate::scanner::misc::lemma_line_break_at_bounds(s, 0);
    if s.len() > 0 {
        crate::text::lemma_cp_len_at_bounds(s, 0);
        crate::input::lemma_cp_skip_while_bounds(
            s,
            crate::text::cp_len_at(s, 0),
            crate::scanner::misc::ident_continue_pred(),
        );
    }
    match k {
        ScanKind::Int => {
            crate::scanner::lang::lemma_radix_run_end_bounds(s, 0, 10);
            if s.len() > 0 {
                crate::scanner::lang::lemma_radix_run_end_bounds(s, 1, 10);
            }
        },
        _ => {},
    }
}

/// Evaluating a term sequence stays within the input: a match ends at or
/// after where it started, and a failure is noticed inside the input.
pub proof fn lemma_eval_terms_bounds(p: Policies, s: Seq<u8>, off: int, terms: Seq<Term>)
    requires
        0 <= off <= s.len(),
    ensures
        eval_terms(p, s, off, terms) matches EvalOut::Done(end, vals) ==> off <= end <= s.len(),
        eval_terms(p, s, off, terms) matches EvalOut::Failed(at, kind) ==> 0 <= at <= s.len(),
    decreases terms, s.len() - off, 0int,
{
    if terms.len() == 0 {
    } else {
        let rest = terms.subrange(1, terms.len() as int);
        match terms[0] {
            Term::Literal(lit) => {
                let sub = s.skip(off);
                lemma_policy_skip_space_bounds(p.space, sub);
                crate::input::lemma_lit_match_rec_bounds(
                    p.cmp,
                    p.space,
                    p.word,
                    sub,
                    spec_policy_skip_space(p.space, sub),
                    lit@,
                    0,
                );
                match spec_try_match_literal(p.cmp, p.space, p.word, sub, lit@) {
                    LitMatch::Done(n) => {
                        if 0 <= n && off + n <= s.len() {
                            lemma_eval_terms_bounds(p, s, off + n, rest);
                        }
                    },
                    LitMatch::Mis(x) => {},
                    LitMatch::BadLit(x) => {},
                }
            },
            Term::Capture(k) => {
                lemma_policy_skip_space_bounds(p.space, s.skip(off));
                let skip = if scan_kind_strips(k) {
                    spec_policy_skip_space(p.space, s.skip(off))
                } else {
                    0
                };
                if 0 <= skip && off + skip <= s.len() {
                    match scan_kind_spec(k, s.skip(off + skip)) {
                        Ok((v, n)) => {
                            if 0 <= n && off + skip + n <= s.len() {
                                lemma_eval_terms_bounds(p, s, off + skip + n, rest);
                            }
                        },
                        Err(kind) => {},
                    }
                }
            },
            Term::Tail => {
                lemma_eval_terms_bounds(p, s, s.len() as int, rest);
            },
            Term::Repeat(rt) => {
                lemma_eval_repeat_bounds(p, s, off, terms[0], 0);
                match eval_repeat(p, s, off, terms[0], 0) {
                    RepOut::RAborted(at, kind) => {},
                    RepOut::Stopped { end, count, vals, err, dangling } => {
                        if count < rt.min || dangling {
                        } else if 0 <= end && end <= s.len() {
                            lemma_eval_terms_bounds(p, s, end, rest);
                        }
                    },
                }
            },
        }
    }
}

/// A repetition's scanning loop stays within the input, never steps
/// backwards, and only counts repeats up.
pub proof fn lemma_eval_repeat_bounds(p: Policies, s: Seq<u8>, off: int, t: Term, count: int)
    requires
        0 <= off <= s.len(),
        0 <= count,
    ensures
        eval_repeat(p, s, off, t, count) matches RepOut::Stopped { end, count: c2, vals, err, dangling } ==> {
            &&& off <= end <= s.len()
            &&& count <= c2
            &&& (err matches Some((at, kind)) ==> 0 <= at <= s.len())
            &&& (dangling ==> err is Some)
        },
    decreases t, s.len() - off, rep_budget(t, count),
{
    match t {
        Term::Repeat(rt) => {
            if rt.max matches Some(m) && count >= m {
            } else {
                let with_sep = count > 0 && rt.sep@.len() > 0;
                let sep_out = if with_sep {
                    eval_terms(p, s, off, rt.sep@)
                } else {
                    EvalOut::Done(off, Seq::empty())
                };
                if with_sep {
                    lemma_eval_terms_bounds(p, s, off, rt.sep@);
                }
                match sep_out {
                    EvalOut::Aborted(at0, kind0) => {},
                    EvalOut::Failed(at, kind) => {},
                    EvalOut::Done(off_sep, vals_sep) => {
                        if off <= off_sep <= s.len() {
                            lemma_eval_terms_bounds(p, s, off_sep, rt.pat@);
                            match eval_terms(p, s, off_sep, rt.pat@) {
                                EvalOut::Aborted(at0, kind0) => {},
                                EvalOut::Failed(at, kind) => {},
                                EvalOut::Done(off_pat, vals_pat) => {
                                    if off_sep <= off_pat <= s.len() {
                                        if off_pat == off && rt.max is None {
                                        } else {
                                            lemma_eval_repeat_bounds(p, s, off_pat, t, count + 1);
                                        }
                                    }
                                },
                            }
                        }
                    },
                }
            }
        },
        _ => {},
    }
}

/// Every failure an evaluation reports lies within the input, so rule
/// outcomes report offsets inside the input too.
pub proof fn lemma_eval_rule_bounds(p: Policies, s: Seq<u8>, rule: Rule)
    ensures
        eval_rule(p, s, rule) matches RuleOut::RDone(vals, end) ==> 0 <= end <= s.len(),
        eval_rule(p, s, rule) matches RuleOut::RFailed(at, kind) ==> 0 <= at <= s.len(),
{
    lemma_eval_terms_bounds(p, s, 0, rule.terms@);
    match eval_terms(p, s, 0, rule.terms@) {
        EvalOut::Done(end, vals) => {
            if 0 <= end <= s.len() {
                lemma_policy_skip_space_bounds(p.space, s.skip(end));
            }
        },
        _ => {},
    }
}

/// Every failure the alternation reports lies within the input.
pub proof fn lemma_alt_from_bounds(p: Policies, s: Seq<u8>, rules: Seq<Rule>, i: int)
    requires
        0 <= i,
    ensures
        alt_from(p, s, rules, i) matches AltOut::Matched(j, vals, end) ==> i <= j < rules.len()
            && 0 <= end <= s.len(),
        alt_from(p, s, rules, i) matches AltOut::AltFailed(at, kind) ==> 0 <= at <= s.len(),
    decreases rules.len() - i,
{
    if i < rules.len() {
        lemma_eval_rule_bounds(p, s, rules[i]);
        lemma_alt_from_bounds(p, s, rules, i + 1);
    }
}



/// The shape of a concatenation is the concatenation of the shapes.
pub proof fn lemma_vals_view_concat(a: Seq<Value>, b: Seq<Value>)
    ensures
        vals_view(a + b) == vals_view(a) + vals_view(b),
{
    assert(vals_view(a + b) =~= vals_view(a) + vals_view(b));
}

/// Prefixing captures twice is prefixing their concatenation once.
pub proof fn lemma_with_prefix_assoc(a: Seq<SpecValue>, b: Seq<SpecValue>, o: EvalOut)
    ensures
        with_prefix(a, with_prefix(b, o)) == with_prefix(a + b, o),
{
    match o {
        EvalOut::Done(end, vals) => {
            assert(a + (b + vals) =~= (a + b) + vals);
        },
        _ => {},
    }
}

/// Prefixing repetition captures twice is prefixing their concatenation
/// once.
pub proof fn lemma_rep_prefix_assoc(a: Seq<SpecValue>, b: Seq<SpecValue>, o: RepOut)
    ensures
        rep_prefix(a, rep_prefix(b, o)) == rep_prefix(a + b, o),
{
    match o {
        RepOut::Stopped { end, count, vals, err, dangling } => {
            assert(a + (b + vals) =~= (a + b) + vals);
        },
        _ => {},
    }
}

/// The required minimum of a repetition term.
pub open spec fn term_min(t: Term) -> int {
    match t {
        Term::Repeat(rt) => rt.min as int,
        _ => 0,
    }
}

/// Splitting a capture list at a preserved prefix splits its shape.
pub proof fn lemma_split_view(vs: Seq<Value>, prefix: Seq<Value>)
    requires
        vs.len() >= prefix.len(),
        vs.subrange(0, prefix.len() as int) == prefix,
    ensures
        vals_view(vs) == vals_view(prefix) + vals_view(vs.skip(prefix.len() as int)),
{
    let tail = vs.skip(prefix.len() as int);
    assert(vs =~= prefix + tail);
    lemma_vals_view_concat(prefix, tail);
    assert(vals_view(vs) == vals_view(prefix + tail));
}

/// How an evaluation step failed: an ordinary scan failure, or a
/// configuration error (a literal with no comparable word, or a repetition
/// that can never reach its minimum).  A configuration error always carries
/// the kind `Other`, which no scan failure uses, so the two stay apart even
/// after the error value is surfaced; its offset and message are pinned by
/// the evaluation specification like every other outcome.
pub enum EvalFailure {
    /// A term did not match the input.
    Scan(ScanError),
    /// The rule itself is malformed.
    Config(ScanError),
}

/// Whether a capture kind wants leading whitespace stripped before it runs.
pub fn scan_kind_wants_strip(k: ScanKind) -> (r: bool)
    ensures
        r == scan_kind_strips(k),
{
    match k {
        ScanKind::Space => false,
        ScanKind::HorSpace => false,
        ScanKind::Newline => false,
        _ => true,
    }
}

/// Run the scanner a capture kind names on `s`.
pub fn scan_kind_run(k: ScanKind, s: &[u8]) -> (r: Result<(Value, usize), ScanError>)
    ensures
        scan_kind_spec(k, s@) matches Ok((v, n)) ==> ({
            &&& r matches Ok((w, m))
            &&& value_view(w) == v
            &&& m as int == n
            &&& m <= s@.len()
        }),
        scan_kind_spec(k, s@) matches Err(kind) ==> ({
            &&& r matches Err(e)
            &&& e.kind == kind
            &&& e.at.spec_offset() == 0
        }),
{
    proof {
        lemma_scan_kind_spec_bounds(k, s@);
    }
    match k {
        ScanKind::Int => match crate::scanner::lang::scan_signed_range(s, i64::MIN, i64::MAX) {
            Ok((v, n)) => Ok((Value::Int(v), n)),
            Err(e) => Err(e),
        },
        ScanKind::Bool => match <bool as ScanFromStr>::scan_from(s) {
            Ok((v, n)) => Ok((Value::Bool(v), n)),
            Err(e) => Err(e),
        },
        ScanKind::Word => match <crate::scanner::misc::Word as ScanFromStr>::scan_from(s) {
            Ok((v, n)) => Ok((Value::Text(v), n)),
            Err(e) => Err(e),
        },
        ScanKind::Wordish => match <crate::scanner::misc::Wordish as ScanFromStr>::scan_from(s) {
            Ok((v, n)) => Ok((Value::Text(v), n)),
            Err(e) => Err(e),
        },
        ScanKind::NonSpace => match <crate::scanner::misc::NonSpace as ScanFromStr>::scan_from(s) {
            Ok((v, n)) => Ok((Value::Text(v), n)),
            Err(e) => Err(e),
        },
        ScanKind::Number => match <crate::scanner::misc::Number as ScanFromStr>::scan_from(s) {
            Ok((v, n)) => Ok((Value::Text(v), n)),
            Err(e) => Err(e),
        },
        ScanKind::Ident => match <crate::scanner::misc::Ident as ScanFromStr>::scan_from(s) {
            Ok((v, n)) => Ok((Value::Text(v), n)),
            Err(e) => Err(e),
        },
        ScanKind::Line => match <crate::scanner::misc::Line as ScanFromStr>::scan_from(s) {
            Ok((v, n)) => Ok((Value::Text(v), n)),
            Err(e) => Err(e),
        },
        ScanKind::Everything => match <crate::scanner::misc::Everything as ScanFromStr>::scan_from(
            s,
        ) {
            Ok((v, n)) => Ok((Value::Text(v), n)),
            Err(e) => Err(e),
        },
        ScanKind::Space => match <crate::scanner::misc::Space as ScanFromStr>::scan_from(s) {
            Ok((v, n)) => Ok((Value::Text(v), n)),
            Err(e) => Err(e),
        },
        ScanKind::HorSpace => match <crate::scanner::misc::HorSpace as ScanFromStr>::scan_from(s) {
            Ok((v, n)) => Ok((Value::Text(v), n)),
            Err(e) => Err(e),
        },
        ScanKind::Newline => match <crate::scanner::misc::Newline as ScanFromStr>::scan_from(s) {
            Ok((v, n)) => Ok((Value::Text(v), n)),
            Err(e) => Err(e),
        },
    }
}

/// Equal sequences with a shared prefix have equal suffixes.
pub proof fn lemma_seq_cancel_prefix<A>(p: Seq<A>, a: Seq<A>, b: Seq<A>)
    requires
        p + a == p + b,
    ensures
        a == b,
{
    assert((p + a).len() == (p + b).len());
    assert((p + a).len() == p.len() + a.len()) by {
        vstd::seq::axiom_seq_add_len(p, a);
    }
    assert((p + b).len() == p.len() + b.len()) by {
        vstd::seq::axiom_seq_add_len(p, b);
    }
    assert(a.len() == b.len());
    assert forall|j: int| 0 <= j < a.len() implies a[j] == b[j] by {
        assert((p + a)[p.len() + j] == a[j]);
        assert((p + b)[p.len() + j] == b[j]);
    }
    assert(a =~= b);
}

/// Evaluate a term sequence against `s` from offset `off`, appending every
/// captured value to `vals`.  The result is exactly what the specification
/// `eval_terms` denotes; when a term fails, the content of `vals` carries no
/// promise.
#[verifier::rlimit(100)]
pub fn eval_terms_run(
    p: Policies,
    s: &[u8],
    off: usize,
    terms: &Vec<Term>,
    vals: &mut Vec<Value>,
) -> (r: Result<usize, EvalFailure>)
    requires
        off <= s@.len(),
        terms_wf(terms@),
    ensures
        eval_terms(p, s@, off as int, terms@) matches EvalOut::Done(end, vs) ==> ({
            &&& r matches Ok(e2)
            &&& e2 as int == end
            &&& e2 <= s@.len()
            &&& final(vals)@.len() >= old(vals)@.len()
            &&& final(vals)@.subrange(0, old(vals)@.len() as int) == old(vals)@
            &&& vals_view(final(vals)@) == vals_view(old(vals)@) + vs
        }),
        eval_terms(p, s@, off as int, terms@) matches EvalOut::Failed(at, kind) ==> ({
            &&& r matches Err(f)
            &&& f matches EvalFailure::Scan(e)
            &&& e.at.spec_offset() as int == at
            &&& e.kind == kind
        }),
        eval_terms(p, s@, off as int, terms@) matches EvalOut::Aborted(at, kind) ==> ({
            &&& r matches Err(f)
            &&& f matches EvalFailure::Config(e)
            &&& e.at.spec_offset() as int == at
            &&& e.kind == kind
        }),
    decreases terms@, s@.len() - off, 0int,
{
    let ghost vals0 = vals@;
    let ghost whole = eval_terms(p, s@, off as int, terms@);
    let mut cur: usize = off;
    let mut i: usize = 0;
    let n = terms.len();
    proof {
        assert(terms@.subrange(0, terms@.len() as int) =~= terms@);
        assert(vals@.skip(vals0.len() as int) =~= Seq::<Value>::empty());
        assert(vals_view(Seq::<Value>::empty()) =~= Seq::<SpecValue>::empty());
        assert(vals@.subrange(0, vals0.len() as int) =~= vals0);
        match whole {
            EvalOut::Done(end, vs) => {
                assert(Seq::<SpecValue>::empty() + vs =~= vs);
            },
            _ => {},
        }
    }
    loop
        invariant
            i <= terms@.len(),
            n == terms@.len(),
            off <= cur <= s@.len(),
            vals0 == old(vals)@,
            terms_wf(terms@),
            vals@.len() >= vals0.len(),
            vals@.subrange(0, vals0.len() as int) == vals0,
            whole == eval_terms(p, s@, off as int, terms@),
            whole == with_prefix(
                vals_view(vals@.skip(vals0.len() as int)),
                eval_terms(p, s@, cur as int, terms@.subrange(i as int, terms@.len() as int)),
            ),
        decreases terms@.len() - i,
    {
        let ghost acc = vals_view(vals@.skip(vals0.len() as int));
        let ghost sub = terms@.subrange(i as int, terms@.len() as int);
        let ghost rest = terms@.subrange(i + 1, terms@.len() as int);
        proof {
            if i < terms@.len() {
                assert(sub.subrange(1, sub.len() as int) =~= rest);
                assert(sub[0] == terms@[i as int]);
            }
        }
        if i >= n {
            proof {
                assert(sub.len() == 0);
                assert(acc + Seq::<SpecValue>::empty() =~= acc);
                lemma_split_view(vals@, vals0);
            }
            return Ok(cur);
        }
        let t = &terms[i];
        match t {
            Term::Literal(lit) => {
                proof {
                    lemma_policy_skip_space_bounds(p.space, s@.skip(cur as int));
                    crate::input::lemma_lit_match_rec_bounds(
                        p.cmp,
                        p.space,
                        p.word,
                        s@.skip(cur as int),
                        spec_policy_skip_space(p.space, s@.skip(cur as int)),
                        lit@,
                        0,
                    );
                    assert(s@.subrange(cur as int, s@.len() as int) =~= s@.skip(cur as int));
                }
                let cursor = StrCursor::with_policies(&s[cur..s.len()], p.cmp, p.space, p.word);
                match cursor.match_literal(lit.as_slice()) {
                    Ok(c) => {
                        let consumed = c.offset();
                        cur = cur + consumed;
                    },
                    Err((e, _)) => {
                        let is_config = match e.kind {
                            ScanErrorKind::Other(_) => true,
                            _ => false,
                        };
                        if is_config {
                            return Err(EvalFailure::Config(e.add_offset(cur)));
                        }
                        return Err(EvalFailure::Scan(e.add_offset(cur)));
                    },
                }
            },
            Term::Capture(k) => {
                proof {
                    lemma_policy_skip_space_bounds(p.space, s@.skip(cur as int));
                    assert(s@.subrange(cur as int, s@.len() as int) =~= s@.skip(cur as int));
                    lemma_scan_kind_spec_bounds(*k, s@.skip(cur as int));
                }
                let skip = if scan_kind_wants_strip(*k) {
                    crate::input::policy_skip_space(p.space, &s[cur..s.len()])
                } else {
                    0
                };
                let start = cur + skip;
                proof {
                    assert(s@.subrange(start as int, s@.len() as int) =~= s@.skip(start as int));
                    lemma_scan_kind_spec_bounds(*k, s@.skip(start as int));
                }
                match scan_kind_run(*k, &s[start..s.len()]) {
                    Ok((v, m)) => {
                        let ghost v_spec = value_view(v);
                        let ghost vals_pre = vals@;
                        vals.push(v);
                        proof {
                            assert(vals@.subrange(0, vals0.len() as int) =~= vals_pre.subrange(
                                0, vals0.len() as int));
                            assert(vals@.skip(vals0.len() as int) =~= vals_pre.skip(
                                vals0.len() as int).push(v));
                            assert(vals_view(vals@.skip(vals0.len() as int)) =~= acc.push(v_spec));
                            assert(acc + seq![v_spec] =~= acc.push(v_spec));
                            lemma_with_prefix_assoc(
                                acc,
                                seq![v_spec],
                                eval_terms(p, s@, start + m, rest),
                            );
                        }
                        cur = start + m;
                    },
                    Err(e) => {
                        return Err(EvalFailure::Scan(e.add_offset(start)));
                    },
                }
            },
            Term::Tail => {
                proof {
                    assert(s@.subrange(cur as int, s@.len() as int) =~= s@.skip(cur as int));
                }
                let tail = vstd::slice::slice_to_vec(&s[cur..s.len()]);
                let ghost v_spec = SpecValue::Text(s@.skip(cur as int));
                let ghost vals_pre = vals@;
                vals.push(Value::Text(tail));
                proof {
                    assert(vals@.subrange(0, vals0.len() as int) =~= vals_pre.subrange(
                        0, vals0.len() as int));
                    assert(vals@.skip(vals0.len() as int) =~= vals_pre.skip(
                        vals0.len() as int).push(vals@.last()));
                    assert(vals_view(vals@.skip(vals0.len() as int)) =~= acc.push(v_spec));
                    assert(acc + seq![v_spec] =~= acc.push(v_spec));
                    lemma_with_prefix_assoc(
                        acc,
                        seq![v_spec],
                        eval_terms(p, s@, s@.len() as int, rest),
                    );
                }
                cur = s.len();
            },
            Term::Repeat(rt) => {
                proof {
                    lemma_terms_wf_index(terms@, i as int);
                    lemma_eval_repeat_bounds(p, s@, cur as int, terms@[i as int], 0);
                }
                let ghost vals_pre = vals@;
                match eval_repeat_run(p, s, cur, t, vals) {
                    Ok(end) => {
                        proof {
                            match eval_repeat(p, s@, cur as int, terms@[i as int], 0) {
                                RepOut::Stopped { end: e_s, count, vals: vs, err, dangling } => {
                                    assert(vals@.subrange(0, vals0.len() as int)
                                        =~= vals_pre.subrange(0, vals0.len() as int));
                                    lemma_split_view(vals@, vals_pre);
                                    assert(vals_view(vals_pre) + vals_view(vals@.skip(
                                        vals_pre.len() as int)) == vals_view(vals_pre) + vs);
                                    lemma_seq_cancel_prefix(
                                        vals_view(vals_pre),
                                        vals_view(vals@.skip(vals_pre.len() as int)),
                                        vs,
                                    );
                                    assert(vals@.skip(vals0.len() as int) =~= vals_pre.skip(
                                        vals0.len() as int) + vals@.skip(vals_pre.len() as int));
                                    lemma_vals_view_concat(
                                        vals_pre.skip(vals0.len() as int),
                                        vals@.skip(vals_pre.len() as int),
                                    );
                                    lemma_with_prefix_assoc(
                                        acc,
                                        vs,
                                        eval_terms(p, s@, end as int, rest),
                                    );
                                },
                                RepOut::RAborted(at0, kind0) => {
                                    assert(false);
                                },
                            }
                        }
                        cur = end;
                    },
                    Err(f) => {
                        return Err(f);
                    },
                }
            },
        }
        i = i + 1;
    }
}

/// Evaluate a repetition term from offset `off`, appending the captures of
/// the matched repeats to `vals`.  The result is the repetition's
/// contribution under the specification: the offset after the last full
/// repeat on success, and the recorded error when too few repeats matched
/// or a separator was left dangling.
#[verifier::rlimit(100)]
pub fn eval_repeat_run(
    p: Policies,
    s: &[u8],
    off: usize,
    t: &Term,
    vals: &mut Vec<Value>,
) -> (r: Result<usize, EvalFailure>)
    requires
        off <= s@.len(),
        (*t) is Repeat,
        term_wf(*t),
    ensures
        eval_repeat(p, s@, off as int, *t, 0) matches RepOut::RAborted(at, kind) ==> ({
            &&& r matches Err(f)
            &&& f matches EvalFailure::Config(e)
            &&& e.at.spec_offset() as int == at
            &&& e.kind == kind
        }),
        eval_repeat(p, s@, off as int, *t, 0) matches RepOut::Stopped {
            end,
            count,
            vals: vs,
            err,
            dangling,
        } ==> ({
            &&& ((count < term_min(*t) || dangling) ==> ({
                &&& (err matches Some((at, kind)) ==> ({
                    &&& r matches Err(f)
                    &&& f matches EvalFailure::Scan(e)
                    &&& e.at.spec_offset() as int == at
                    &&& e.kind == kind
                }))
                &&& (err is None ==> ({
                    &&& r matches Err(f)
                    &&& f matches EvalFailure::Config(e)
                    &&& e.at.spec_offset() as int == end
                    &&& e.kind == ScanErrorKind::Other(MsgErr(
                        "a repeat that consumes no input cannot reach its minimum",
                    ))
                }))
            }))
            &&& (!(count < term_min(*t) || dangling) ==> ({
                &&& r matches Ok(e2)
                &&& e2 as int == end
                &&& e2 <= s@.len()
                &&& final(vals)@.len() >= old(vals)@.len()
                &&& final(vals)@.subrange(0, old(vals)@.len() as int) == old(vals)@
                &&& vals_view(final(vals)@) == vals_view(old(vals)@) + vs
            }))
        }),
    decreases *t, s@.len() - off, 1int,
{
    let rt = match t {
        Term::Repeat(rt) => rt,
        _ => {
            return Err(EvalFailure::Config(ScanError::other(
                off,
                MsgErr("a repetition term was expected"),
            )));
        },
    };
    let ghost vals0 = vals@;
    let ghost whole = eval_repeat(p, s@, off as int, *t, 0);
    let mut cur: usize = off;
    let mut count: usize = 0;
    proof {
        assert(vals@.skip(vals0.len() as int) =~= Seq::<Value>::empty());
        assert(vals_view(Seq::<Value>::empty()) =~= Seq::<SpecValue>::empty());
        assert(vals@.subrange(0, vals0.len() as int) =~= vals0);
        match whole {
            RepOut::Stopped { end, count: c2, vals: vs, err, dangling } => {
                assert(Seq::<SpecValue>::empty() + vs =~= vs);
            },
            _ => {},
        }
    }
    loop
        invariant
            off <= cur <= s@.len(),
            (*t) is Repeat,
            (*t) == Term::Repeat(*rt),
            term_wf(*t),
            whole == eval_repeat(p, s@, off as int, *t, 0),
            vals0 == old(vals)@,
            vals@.len() >= vals0.len(),
            vals@.subrange(0, vals0.len() as int) == vals0,
            rt.max matches Some(m) ==> count <= m,
            rt.max is None ==> count <= cur - off,
            whole == rep_prefix(
                vals_view(vals@.skip(vals0.len() as int)),
                eval_repeat(p, s@, cur as int, *t, count as int),
            ),
        decreases s@.len() - cur, rep_budget(*t, count as int),
    {
        let ghost acc = vals_view(vals@.skip(vals0.len() as int));
        let ghost here = eval_repeat(p, s@, cur as int, *t, count as int);
        proof {
            lemma_eval_repeat_bounds(p, s@, cur as int, *t, count as int);
        }
        let reached_max = match rt.max {
            Some(m) => count >= m,
            None => false,
        };
        if reached_max {
            proof {
                assert(acc + Seq::<SpecValue>::empty() =~= acc);
                lemma_split_view(vals@, vals0);
            }
            return Ok(cur);
        }
        let with_sep = count > 0 && rt.sep.len() > 0;
        let mut tmp: Vec<Value> = Vec::new();
        let ghost sep_spec = if with_sep {
            eval_terms(p, s@, cur as int, rt.sep@)
        } else {
            EvalOut::Done(cur as int, Seq::<SpecValue>::empty())
        };
        proof {
            lemma_eval_terms_bounds(p, s@, cur as int, rt.sep@);
        }
        let sep_end: usize = if with_sep {
            match eval_terms_run(p, s, cur, &rt.sep, &mut tmp) {
                Ok(e1) => e1,
                Err(f) => {
                    match f {
                        EvalFailure::Config(e) => {
                            return Err(EvalFailure::Config(e));
                        },
                        EvalFailure::Scan(e) => {
                            proof {
                                assert(acc + Seq::<SpecValue>::empty() =~= acc);
                                lemma_split_view(vals@, vals0);
                            }
                            if count < rt.min {
                                return Err(EvalFailure::Scan(e));
                            }
                            return Ok(cur);
                        },
                    }
                },
            }
        } else {
            cur
        };
        proof {
            lemma_eval_terms_bounds(p, s@, sep_end as int, rt.pat@);
        }
        let ghost tmp_after_sep = tmp@;
        match eval_terms_run(p, s, sep_end, &rt.pat, &mut tmp) {
            Err(f) => {
                match f {
                    EvalFailure::Config(e) => {
                        return Err(EvalFailure::Config(e));
                    },
                    EvalFailure::Scan(e) => {
                        proof {
                            assert(acc + Seq::<SpecValue>::empty() =~= acc);
                            lemma_split_view(vals@, vals0);
                        }
                        if count < rt.min || with_sep {
                            return Err(EvalFailure::Scan(e));
                        }
                        return Ok(cur);
                    },
                }
            },
            Ok(pat_end) => {
                let ghost tmp_view = vals_view(tmp@);
                let ghost vals_pre = vals@;
                proof {
                    assert(tmp@.skip(0) =~= tmp@);
                    lemma_split_view(tmp@, tmp_after_sep);
                    assert(vals_view(Seq::<Value>::empty()) =~= Seq::<SpecValue>::empty());
                    match sep_spec {
                        EvalOut::Done(o2, vals_sep) => {
                            assert(Seq::<SpecValue>::empty() + vals_sep =~= vals_sep);
                            match eval_terms(p, s@, sep_end as int, rt.pat@) {
                                EvalOut::Done(o3, vals_pat) => {
                                    assert(tmp_view == vals_sep + vals_pat);
                                },
                                _ => {},
                            }
                        },
                        _ => {},
                    }
                }
                let mut moved = tmp;
                let ghost tmp_snap = moved@;
                vals.append(&mut moved);
                proof {
                    assert(vals@ == vals_pre + tmp_snap);
                    assert(vals@.subrange(0, vals0.len() as int) =~= vals_pre.subrange(
                        0, vals0.len() as int));
                    assert(vals@.skip(vals_pre.len() as int) =~= tmp_snap);
                    assert(vals@.skip(vals0.len() as int) =~= vals_pre.skip(vals0.len() as int)
                        + tmp_snap);
                    lemma_vals_view_concat(vals_pre.skip(vals0.len() as int), tmp_snap);
                    assert(vals_view(vals@.skip(vals0.len() as int)) == acc + tmp_view);
                }
                if pat_end == cur && rt.max.is_none() {
                    proof {
                        lemma_split_view(vals@, vals0);
                    }
                    if rt.min >= 1 && count < rt.min - 1 {
                        return Err(EvalFailure::Config(ScanError::other(
                            cur,
                            MsgErr("a repeat that consumes no input cannot reach its minimum"),
                        )));
                    }
                    return Ok(cur);
                }
                proof {
                    lemma_rep_prefix_assoc(
                        acc,
                        tmp_view,
                        eval_repeat(p, s@, pat_end as int, *t, count as int + 1),
                    );
                }
                cur = pat_end;
                count = count + 1;
            },
        }
    }
}


/// The result of a successful scan: which rule matched, the values its
/// captures produced, and how many bytes its terms consumed.
#[derive(Debug)]
pub struct ScanOutcome {
    /// The index of the rule that matched.
    pub rule: usize,
    /// The captured values, in capture order.
    pub values: Vec<Value>,
    /// The bytes consumed by the rule's terms; only whitespace followed.
    pub consumed: usize,
}

/// Evaluate one rule against the whole input: its terms in order, then a
/// check that nothing but whitespace remains.
pub fn eval_rule_run(p: Policies, s: &[u8], rule: &Rule) -> (r: Result<
    (Vec<Value>, usize),
    EvalFailure,
>)
    requires
        terms_wf(rule.terms@),
    ensures
        eval_rule(p, s@, *rule) matches RuleOut::RDone(vs, end) ==> ({
            &&& r matches Ok((values, e2))
            &&& vals_view(values@) == vs
            &&& e2 as int == end
            &&& e2 <= s@.len()
        }),
        eval_rule(p, s@, *rule) matches RuleOut::RFailed(at, kind) ==> ({
            &&& r matches Err(f)
            &&& f matches EvalFailure::Scan(e)
            &&& e.at.spec_offset() as int == at
            &&& e.kind == kind
        }),
        eval_rule(p, s@, *rule) matches RuleOut::RAborted(at, kind) ==> ({
            &&& r matches Err(f)
            &&& f matches EvalFailure::Config(e)
            &&& e.at.spec_offset() as int == at
            &&& e.kind == kind
        }),
{
    proof {
        lemma_eval_terms_bounds(p, s@, 0, rule.terms@);
    }
    let mut vals: Vec<Value> = Vec::new();
    match eval_terms_run(p, s, 0, &rule.terms, &mut vals) {
        Err(f) => Err(f),
        Ok(end) => {
            proof {
                assert(s@.subrange(end as int, s@.len() as int) =~= s@.skip(end as int));
                lemma_policy_skip_space_bounds(p.space, s@.skip(end as int));
                match eval_terms(p, s@, 0, rule.terms@) {
                    EvalOut::Done(e_s, vs) => {
                        assert(vals_view(Seq::<Value>::empty()) =~= Seq::<SpecValue>::empty());
                        assert(Seq::<SpecValue>::empty() + vs =~= vs);
                    },
                    _ => {},
                }
            }
            let skip = crate::input::policy_skip_space(p.space, &s[end..s.len()]);
            if end + skip == s.len() {
                Ok((vals, end))
            } else {
                Err(EvalFailure::Scan(ScanError::expected_end(end + skip)))
            }
        },
    }
}

/// An earlier failure folded into the outcome of the remaining rules: a
/// match stands, and of two failures the one further along wins, the
/// earlier tried winning ties.
pub open spec fn combine_alt(at: int, kind: ScanErrorKind, o: AltOut) -> AltOut {
    match o {
        AltOut::Matched(j, vals, end) => AltOut::Matched(j, vals, end),
        AltOut::AltAborted(at, kind) => AltOut::AltAborted(at, kind),
        AltOut::Exhausted => AltOut::AltFailed(at, kind),
        AltOut::AltFailed(at2, kind2) => if at >= at2 {
            AltOut::AltFailed(at, kind)
        } else {
            AltOut::AltFailed(at2, kind2)
        },
    }
}

/// Scan `input` against an ordered rule list under the given policies.  The
/// first rule whose terms all match, with only whitespace after them, wins;
/// when every rule fails, the reported error is the one that got furthest
/// into the input, the earliest tried winning ties.  The result is exactly
/// what the specification `eval_rules` denotes.
///
/// A malformed rule — a literal with no comparable word — is a caller
/// programming error, not a scan failure: it is reported with the kind
/// `Other`, which no scan failure carries.
pub fn scan(input: &[u8], p: Policies, rules: &Vec<Rule>) -> (r: Result<ScanOutcome, ScanError>)
    requires
        rules@.len() > 0,
        rules_wf(rules@),
    ensures
        eval_rules(p, input@, rules@) matches AltOut::Matched(i, vs, end) ==> ({
            &&& r matches Ok(o)
            &&& o.rule as int == i
            &&& vals_view(o.values@) == vs
            &&& o.consumed as int == end
            &&& o.consumed <= input@.len()
        }),
        eval_rules(p, input@, rules@) matches AltOut::AltFailed(at, kind) ==> ({
            &&& r matches Err(e)
            &&& e.at.spec_offset() as int == at
            &&& e.kind == kind
        }),
        eval_rules(p, input@, rules@) matches AltOut::AltAborted(at, kind) ==> ({
            &&& r matches Err(e)
            &&& e.at.spec_offset() as int == at
            &&& e.kind == kind
        }),
{
    let ghost whole = eval_rules(p, input@, rules@);
    let mut best: Option<ScanError> = None;
    let mut i: usize = 0;
    let n = rules.len();
    loop
        invariant
            i <= rules@.len(),
            n == rules@.len(),
            n > 0,
            rules_wf(rules@),
            whole == eval_rules(p, input@, rules@),
            i == 0 ==> best is None && whole == alt_from(p, input@, rules@, 0),
            i > 0 ==> (best matches Some(b) && whole == combine_alt(
                b.at.spec_offset() as int,
                b.kind,
                alt_from(p, input@, rules@, i as int),
            )),
        decreases rules@.len() - i,
    {
        if i >= n {
            let b = match best {
                Some(b) => b,
                None => {
                    proof {
                        assert(false);
                    }
                    ScanError::expected_end(0)
                },
            };
            proof {
                assert(alt_from(p, input@, rules@, i as int) is Exhausted);
            }
            return Err(b);
        }
        proof {
            assert(rules_wf(rules@));
            assert(terms_wf(rules@[i as int].terms@));
            lemma_eval_rule_bounds(p, input@, rules@[i as int]);
        }
        match eval_rule_run(p, input, &rules[i]) {
            Ok((values, consumed)) => {
                proof {
                    assert(alt_from(p, input@, rules@, i as int) matches AltOut::Matched(
                        j, vs, end) && j == i as int);
                }
                return Ok(ScanOutcome { rule: i, values, consumed });
            },
            Err(f) => {
                match f {
                    EvalFailure::Config(e) => {
                        proof {
                            assert(alt_from(p, input@, rules@, i as int) is AltAborted);
                        }
                        return Err(e);
                    },
                    EvalFailure::Scan(e) => {
                        let new_best = match best {
                            None => e,
                            Some(b) => b.furthest_along(e),
                        };
                        proof {
                            match alt_from(p, input@, rules@, i + 1) {
                                AltOut::AltFailed(a2, k2) => {},
                                _ => {},
                            }
                        }
                        best = Some(new_best);
                    },
                }
            },
        }
        i = i + 1;
    }
}

/// Scanning the same input against the same rule set twice yields identical
/// results: the outcome of a scan is a function of the policies, the input
/// and the rules alone.
pub proof fn lemma_scan_deterministic(
    p: Policies,
    s: Seq<u8>,
    rules: Seq<Rule>,
    o1: AltOut,
    o2: AltOut,
)
    requires
        o1 == eval_rules(p, s, rules),
        o2 == eval_rules(p, s, rules),
    ensures
        o1 == o2,
{
}

/// When the first rule matches, its result is the scan's result, whatever
/// the later rules would have done: rules are tried in order and the first
/// match wins.
pub proof fn lemma_first_match_wins(
    p: Policies,
    s: Seq<u8>,
    rules: Seq<Rule>,
    vs: Seq<SpecValue>,
    end: int,
)
    requires
        rules.len() > 0,
        eval_rule(p, s, rules[0]) == RuleOut::RDone(vs, end),
    ensures
        eval_rules(p, s, rules) == AltOut::Matched(0, vs, end),
{
}

/// When both of two rules fail, the reported error's offset is the greater
/// of their two offsets, whichever order the rules are tried in.
pub proof fn lemma_furthest_error(
    p: Policies,
    s: Seq<u8>,
    ra: Rule,
    rb: Rule,
    a1: int,
    k1: ScanErrorKind,
    a2: int,
    k2: ScanErrorKind,
)
    requires
        eval_rule(p, s, ra) == RuleOut::RFailed(a1, k1),
        eval_rule(p, s, rb) == RuleOut::RFailed(a2, k2),
    ensures
        eval_rules(p, s, seq![ra, rb]) is AltFailed,
        eval_rules(p, s, seq![rb, ra]) is AltFailed,
        eval_rules(p, s, seq![ra, rb]) matches AltOut::AltFailed(at, kind) ==> at == (
        if a1 >= a2 {
            a1
        } else {
            a2
        }),
        eval_rules(p, s, seq![rb, ra]) matches AltOut::AltFailed(at, kind) ==> at == (
        if a1 >= a2 {
            a1
        } else {
            a2
        }),
{
    let r1 = seq![ra, rb];
    let r2 = seq![rb, ra];
    assert(r1.len() == 2 && r2.len() == 2);
    assert(r1[0] == ra && r1[1] == rb);
    assert(r2[0] == rb && r2[1] == ra);
    assert(alt_from(p, s, r1, 2) is Exhausted);
    assert(alt_from(p, s, r2, 2) is Exhausted);
    assert(alt_from(p, s, r1, 1) == AltOut::AltFailed(a2, k2));
    assert(alt_from(p, s, r2, 1) == AltOut::AltFailed(a1, k1));
    assert(eval_rules(p, s, r1) == alt_from(p, s, r1, 0));
    assert(eval_rules(p, s, r2) == alt_from(p, s, r2, 0));
    if a1 > a2 {
        assert(alt_from(p, s, r1, 0) == AltOut::AltFailed(a1, k1));
        assert(alt_from(p, s, r2, 0) == AltOut::AltFailed(a1, k1));
    } else if a1 < a2 {
        assert(alt_from(p, s, r1, 0) == AltOut::AltFailed(a2, k2));
        assert(alt_from(p, s, r2, 0) == AltOut::AltFailed(a2, k2));
    } else {
        assert(alt_from(p, s, r1, 0) == AltOut::AltFailed(a1, k1));
        assert(alt_from(p, s, r2, 0) == AltOut::AltFailed(a2, k2));
    }
}

/// A successful scan consumes no more bytes than it was given: the matched
/// rule's end offset lies within the input.
pub proof fn lemma_scan_prefix(p: Policies, s: Seq<u8>, rules: Seq<Rule>)
    ensures
        eval_rules(p, s, rules) matches AltOut::Matched(i, vs, end) ==> 0 <= end <= s.len(),
{
    lemma_alt_from_bounds(p, s, rules, 0);
}


} // verus!
