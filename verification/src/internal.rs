//! Dispatch helpers that run a scanner through a cursor, honouring the
//! scanner's wish about leading whitespace.

use vstd::prelude::*;

use crate::error::ScanError;
use crate::input::{lemma_policy_skip_space_bounds, spec_policy_skip_space, StrCursor};
use crate::scanner::{ScanFromStr, ScanSelfFromStr, ScanStr};

verus! {

/// Dispatch to a runtime scanner, stripping leading whitespace when the
/// scanner asks for that.  On failure the cursor comes back unchanged; for
/// modeled scanners the outcome is the scanner's own, after the
/// strip-conditional skip.
pub fn try_scan_runtime<'a, S: ScanStr>(cur: StrCursor<'a>, scan: &mut S) -> (r: Result<
    (S::Output, StrCursor<'a>),
    (ScanError, StrCursor<'a>),
>)
    requires
        cur.wf(),
    ensures
        r matches Ok((v, c)) ==> {
            &&& c.same_policies(cur)
            &&& c.wf()
            &&& cur.spec_offset() <= c.spec_offset()
            &&& c.spec_offset() - cur.spec_offset() <= cur.remaining().len()
            &&& c.remaining() == cur.remaining().skip(c.spec_offset() - cur.spec_offset())
        },
        r matches Err((e, c)) ==> c == cur && e.at.spec_offset() >= cur.spec_offset(),
        old(scan).modeled() ==> ({
            let skip = if old(scan).spec_wants_strip() {
                spec_policy_skip_space(cur.space_policy(), cur.remaining())
            } else {
                0int
            };
            match old(scan).scan_model(cur.remaining().skip(skip)) {
                Ok((mv, mn)) => r matches Ok((v, c)) && S::value_model(v) == mv
                    && c.spec_offset() == cur.spec_offset() + skip + mn,
                Err((at, kind)) => at >= 0 && (r matches Err((e, c)) && c == cur && e.kind
                    == kind && e.at.spec_offset() == crate::error::sat_offset(
                cur.spec_offset() + skip + at)),
            }
        }),
{
    proof {
        assert(cur.remaining().skip(0) == cur.remaining());
    }
    cur.try_scan_with(scan)
}

/// Dispatch to a static abstract scanner, stripping leading whitespace when
/// the scanner asks for that.  On failure the cursor comes back unchanged;
/// for modeled scanners the outcome is the scanner's own, after the
/// strip-conditional skip.
pub fn try_scan_static<'a, S: ScanFromStr>(cur: StrCursor<'a>) -> (r: Result<
    (S::Output, StrCursor<'a>),
    (ScanError, StrCursor<'a>),
>)
    requires
        cur.wf(),
    ensures
        r matches Ok((v, c)) ==> {
            &&& c.same_policies(cur)
            &&& c.wf()
            &&& cur.spec_offset() + (if S::spec_wants_strip() {
                spec_policy_skip_space(cur.space_policy(), cur.remaining())
            } else {
                0int
            }) <= c.spec_offset()
            &&& c.spec_offset() - cur.spec_offset() <= cur.remaining().len()
            &&& c.remaining() == cur.remaining().skip(c.spec_offset() - cur.spec_offset())
        },
        r matches Err((e, c)) ==> c == cur && e.at.spec_offset() >= cur.spec_offset(),
        S::modeled() ==> ({
            let skip = if S::spec_wants_strip() {
                spec_policy_skip_space(cur.space_policy(), cur.remaining())
            } else {
                0int
            };
            match S::scan_model(cur.remaining().skip(skip)) {
                Ok((mv, mn)) => r matches Ok((v, c)) && S::value_model(v) == mv
                    && c.spec_offset() == cur.spec_offset() + skip + mn,
                Err((at, kind)) => at >= 0 && (r matches Err((e, c)) && c == cur && e.kind
                    == kind && e.at.spec_offset() == crate::error::sat_offset(
                cur.spec_offset() + skip + at)),
            }
        }),
{
    proof {
        lemma_policy_skip_space_bounds(cur.space_policy(), cur.remaining());
        assert(cur.remaining().skip(0) == cur.remaining());
    }
    if S::wants_leading_junk_stripped() {
        cur.try_scan::<S>()
    } else {
        cur.try_scan_raw::<S>()
    }
}

/// Dispatch to a static self scanner, stripping leading whitespace when the
/// scanner asks for that.  On failure the cursor comes back unchanged; for
/// modeled scanners the outcome is the scanner's own, after the
/// strip-conditional skip.
pub fn try_scan_static_self<'a, S: ScanSelfFromStr>(cur: StrCursor<'a>) -> (r: Result<
    (S, StrCursor<'a>),
    (ScanError, StrCursor<'a>),
>)
    requires
        cur.wf(),
    ensures
        r matches Ok((v, c)) ==> {
            &&& c.same_policies(cur)
            &&& c.wf()
            &&& cur.spec_offset() <= c.spec_offset()
            &&& c.spec_offset() - cur.spec_offset() <= cur.remaining().len()
            &&& c.remaining() == cur.remaining().skip(c.spec_offset() - cur.spec_offset())
        },
        r matches Err((e, c)) ==> c == cur && e.at.spec_offset() >= cur.spec_offset(),
        S::modeled() ==> ({
            let skip = if S::spec_wants_strip() {
                spec_policy_skip_space(cur.space_policy(), cur.remaining())
            } else {
                0int
            };
            match S::scan_model(cur.remaining().skip(skip)) {
                Ok((mv, mn)) => r matches Ok((v, c)) && S::value_model(v) == mv
                    && c.spec_offset() == cur.spec_offset() + skip + mn,
                Err((at, kind)) => at >= 0 && (r matches Err((e, c)) && c == cur && e.kind
                    == kind && e.at.spec_offset() == crate::error::sat_offset(
                cur.spec_offset() + skip + at)),
            }
        }),
{
    proof {
        lemma_policy_skip_space_bounds(cur.space_policy(), cur.remaining());
        assert(cur.remaining().skip(0) == cur.remaining());
    }
    try_scan_static::<S>(cur)
}

} // verus!
