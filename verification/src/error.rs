//! Error values produced while scanning.

use vstd::prelude::*;

verus! {

/// An offset sum clamped to the largest representable offset, as
/// `ScanError::add_offset` computes it.
pub open spec fn sat_offset(at: int) -> int {
    if at <= usize::MAX {
        at
    } else {
        usize::MAX as int
    }
}

/// A short static message carried by an `Other` error.
#[derive(Clone, Copy, Debug)]
pub struct MsgErr(pub &'static str);

/// The kind of failure that occurred during scanning.
#[derive(Clone, Copy, Debug)]
pub enum ScanErrorKind {
    /// A literal pattern term did not match the input.
    LiteralMismatch,
    /// A value scanner rejected the input, with a description of what it expected.
    Syntax(&'static str),
    /// A value scanner rejected the input without a description.
    SyntaxNoMessage,
    /// Input remained where the rule required the end of input.
    ExpectedEnd,
    /// A floating point value was out of range or malformed.
    Float,
    /// An integer value was out of range.
    Int,
    /// Reading the input failed.
    Io,
    /// Some other failure, carrying its own message.
    Other(MsgErr),
}

/// The byte offset, from the start of the original input, at which an error occurred.
#[derive(Clone, Copy, Debug)]
pub struct ScanErrorAt {
    bytes: usize,
}

impl ScanErrorAt {
    /// The offset from the start of input at which the error occurred, in bytes.
    pub fn offset(&self) -> (r: usize)
        ensures
            r == self.spec_offset(),
    {
        self.bytes
    }

    /// The recorded offset, for use in contracts.
    pub closed spec fn spec_offset(self) -> usize {
        self.bytes
    }
}

/// An error produced during scanning: a failure kind together with the byte
/// offset at which the failure was noticed.
#[derive(Clone, Copy, Debug)]
pub struct ScanError {
    /// Where the error occurred, relative to the start of the original input.
    pub at: ScanErrorAt,
    /// What went wrong.
    pub kind: ScanErrorKind,
}

impl ScanError {
    /// Construct a new error at the given offset.
    pub fn new(at: usize, kind: ScanErrorKind) -> (r: Self)
        ensures
            r.at.spec_offset() == at,
            r.kind == kind,
    {
        ScanError { at: ScanErrorAt { bytes: at }, kind }
    }

    /// Shorthand for an `ExpectedEnd` error.
    pub fn expected_end(at: usize) -> (r: Self)
        ensures
            r.at.spec_offset() == at,
            r.kind == ScanErrorKind::ExpectedEnd,
    {
        Self::new(at, ScanErrorKind::ExpectedEnd)
    }

    /// Shorthand for an `Io` error, which is always recorded at offset zero.
    pub fn io() -> (r: Self)
        ensures
            r.at.spec_offset() == 0,
            r.kind == ScanErrorKind::Io,
    {
        Self::new(0, ScanErrorKind::Io)
    }

    /// Shorthand for a `LiteralMismatch` error.
    pub fn literal_mismatch(at: usize) -> (r: Self)
        ensures
            r.at.spec_offset() == at,
            r.kind == ScanErrorKind::LiteralMismatch,
    {
        Self::new(at, ScanErrorKind::LiteralMismatch)
    }

    /// Shorthand for a `Syntax` error.
    pub fn syntax(at: usize, desc: &'static str) -> (r: Self)
        ensures
            r.at.spec_offset() == at,
            r.kind == ScanErrorKind::Syntax(desc),
    {
        Self::new(at, ScanErrorKind::Syntax(desc))
    }

    /// Shorthand for an `Other` error.
    pub fn other(at: usize, err: MsgErr) -> (r: Self)
        ensures
            r.at.spec_offset() == at,
            r.kind == ScanErrorKind::spec_from_other(err),
    {
        Self::new(at, ScanErrorKind::from_other(err))
    }

    /// Of two errors, the one which occurred the furthest into the input;
    /// `self` wins ties.
    pub fn furthest_along(self, other: Self) -> (r: Self)
        ensures
            r == self.spec_furthest_along(other),
    {
        if self.at.offset() >= other.at.offset() {
            self
        } else {
            other
        }
    }

    /// The error whose recorded offset is greater, with ties going to `self`.
    pub open spec fn spec_furthest_along(self, other: Self) -> Self {
        if self.at.spec_offset() >= other.at.spec_offset() {
            self
        } else {
            other
        }
    }

    /// The error moved forward by `bytes`: offsets inside a subslice become
    /// offsets in the enclosing input.  Saturates at the largest offset.
    pub fn add_offset(self, bytes: usize) -> (r: Self)
        ensures
            r.kind == self.kind,
            self.at.spec_offset() + bytes <= usize::MAX ==> r.at.spec_offset() == self.at.spec_offset() + bytes,
            self.at.spec_offset() + bytes > usize::MAX ==> r.at.spec_offset() == usize::MAX,
    {
        let total = if self.at.offset() <= usize::MAX - bytes {
            self.at.offset() + bytes
        } else {
            usize::MAX
        };
        ScanError { at: ScanErrorAt { bytes: total }, kind: self.kind }
    }

    /// A human-readable description of the error kind.
    pub fn description(&self) -> &'static str {
        match self.kind {
            ScanErrorKind::LiteralMismatch => "did not match literal",
            ScanErrorKind::Syntax(desc) => desc,
            ScanErrorKind::SyntaxNoMessage => "unknown syntax error",
            ScanErrorKind::ExpectedEnd => "expected end of input",
            ScanErrorKind::Float => "float parsing failed",
            ScanErrorKind::Int => "integer parsing failed",
            ScanErrorKind::Io => "I/O error",
            ScanErrorKind::Other(msg) => msg.0,
        }
    }
}

impl ScanErrorKind {
    /// Construct an `Other` error kind from a message value.
    pub fn from_other(err: MsgErr) -> (r: Self)
        ensures
            r == ScanErrorKind::Other(err),
    {
        ScanErrorKind::Other(err)
    }

    /// `from_other` as a spec-level constructor.
    pub open spec fn spec_from_other(err: MsgErr) -> Self {
        ScanErrorKind::Other(err)
    }
}

} // verus!
