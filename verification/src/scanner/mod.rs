//! The scanner protocol, and the scanners that implement it.
//!
//! A scanner consumes a prefix of the text it is handed and produces a typed
//! value together with the number of bytes consumed.  The one obligation every
//! scanner carries is the prefix property: it never consumes more bytes than
//! it was given.

use vstd::prelude::*;

use crate::error::{ScanError, ScanErrorKind};

pub mod lang;
pub mod misc;
pub mod net;
pub mod runtime;
pub mod time;

pub use self::misc::{
    Binary, Everything, Hex, HorSpace, Ident, Inferred, KeyValuePair, Line, Newline, NonSpace,
    Number, Octal, QuotedString, Space, Word, Wordish,
};
pub use self::runtime::{
    exact_width, exact_width_a, max_width, max_width_a, min_width, min_width_a, re, re_a, re_str,
    scan_a, until_pat, until_pat_a, until_pat_str,
};
pub use self::time::Iso8601Duration;

verus! {

/// A type that can be scanned from text.
///
/// The implementing type chooses what it scans into: a self scanner sets
/// `Output = Self`, while an abstract scanner produces some other type.
///
/// A scanner whose outcome is a function of the input alone defines
/// `scan_model` to say exactly what it returns — over `ModelValue`, the
/// mathematical shape of its output, given by `value_model` — and sets
/// `modeled` true; `scan_from` is then held to the model.  A scanner over
/// type-generic elements (a container of `T`) builds its model out of the
/// element type's, and is `modeled` exactly when every element type is.
pub trait ScanFromStr: Sized {
    /// The type a successful scan produces.
    type Output;

    /// The mathematical shape of a scanned value, as `scan_model` speaks
    /// of it.
    type ModelValue;

    /// The mathematical shape of one scanned value.
    spec fn value_model(v: Self::Output) -> Self::ModelValue;

    /// Whether `scan_model` pins this scanner's outcome.
    spec fn modeled() -> bool;

    /// How a scan of `s` turns out, for modeled scanners: the shape of the
    /// scanned value and the bytes consumed, or the offset and kind of the
    /// failure.
    spec fn scan_model(s: Seq<u8>) -> Result<(Self::ModelValue, int), (int, ScanErrorKind)>;

    /// Whether this scanner wants leading whitespace stripped before it runs.
    spec fn spec_wants_strip() -> bool;

    /// Scan a value from the start of `s`.  On success the result carries the
    /// value and the number of bytes consumed, never more than were given;
    /// for modeled scanners the result is exactly what the model denotes.
    fn scan_from(s: &[u8]) -> (r: Result<(Self::Output, usize), ScanError>)
        ensures
            r matches Ok((v, n)) ==> n <= s@.len(),
            Self::modeled() ==> match Self::scan_model(s@) {
                Ok((mv, mn)) => r matches Ok((v, n)) && Self::value_model(v) == mv && n as int
                    == mn,
                Err((at, kind)) => r matches Err(e) && e.at.spec_offset() as int == at && e.kind
                    == kind,
            },
    ;

    /// Whether this scanner wants leading whitespace stripped before it runs.
    fn wants_leading_junk_stripped() -> (r: bool)
        ensures
            r == Self::spec_wants_strip(),
    ;
}

/// A scanner that produces a value of its own type.
pub trait ScanSelfFromStr: ScanFromStr<Output = Self> {
    /// Scan a value of this type from the start of `s`.
    fn scan_self_from(s: &[u8]) -> (r: Result<(Self, usize), ScanError>)
        ensures
            r matches Ok((v, n)) ==> n <= s@.len(),
            Self::modeled() ==> match Self::scan_model(s@) {
                Ok((mv, mn)) => r matches Ok((v, n)) && Self::value_model(v) == mv && n as int
                    == mn,
                Err((at, kind)) => r matches Err(e) && e.at.spec_offset() as int == at && e.kind
                    == kind,
            },
    {
        Self::scan_from(s)
    }
}

impl<T: ScanFromStr<Output = T>> ScanSelfFromStr for T {

}

/// A type that can be scanned from its binary representation, in addition
/// to its default one.
pub trait ScanFromBinary: ScanFromStr<Output = Self> {
    /// How a binary scan of `s` turns out.
    spec fn binary_model(s: Seq<u8>) -> Result<(Self::ModelValue, int), (int, ScanErrorKind)>;

    /// Scan a value of this type from leading binary digits; the result is
    /// exactly what the model denotes.
    fn scan_from_binary(s: &[u8]) -> (r: Result<(Self, usize), ScanError>)
        ensures
            r matches Ok((v, n)) ==> n <= s@.len(),
            match Self::binary_model(s@) {
                Ok((mv, mn)) => r matches Ok((v, n)) && Self::value_model(v) == mv && n as int
                    == mn,
                Err((at, kind)) => r matches Err(e) && e.at.spec_offset() as int == at && e.kind
                    == kind,
            },
    ;
}

/// A type that can be scanned from its octal representation, in addition
/// to its default one.
pub trait ScanFromOctal: ScanFromStr<Output = Self> {
    /// How an octal scan of `s` turns out.
    spec fn octal_model(s: Seq<u8>) -> Result<(Self::ModelValue, int), (int, ScanErrorKind)>;

    /// Scan a value of this type from leading octal digits; the result is
    /// exactly what the model denotes.
    fn scan_from_octal(s: &[u8]) -> (r: Result<(Self, usize), ScanError>)
        ensures
            r matches Ok((v, n)) ==> n <= s@.len(),
            match Self::octal_model(s@) {
                Ok((mv, mn)) => r matches Ok((v, n)) && Self::value_model(v) == mv && n as int
                    == mn,
                Err((at, kind)) => r matches Err(e) && e.at.spec_offset() as int == at && e.kind
                    == kind,
            },
    ;
}

/// A type that can be scanned from its hexadecimal representation, in
/// addition to its default one.
pub trait ScanFromHex: ScanFromStr<Output = Self> {
    /// How a hexadecimal scan of `s` turns out.
    spec fn hex_model(s: Seq<u8>) -> Result<(Self::ModelValue, int), (int, ScanErrorKind)>;

    /// Scan a value of this type from leading hexadecimal digits; the result
    /// is exactly what the model denotes.
    fn scan_from_hex(s: &[u8]) -> (r: Result<(Self, usize), ScanError>)
        ensures
            r matches Ok((v, n)) ==> n <= s@.len(),
            match Self::hex_model(s@) {
                Ok((mv, mn)) => r matches Ok((v, n)) && Self::value_model(v) == mv && n as int
                    == mn,
                Err((at, kind)) => r matches Err(e) && e.at.spec_offset() as int == at && e.kind
                    == kind,
            },
    ;
}

/// A runtime scanner: a value, constructed before use, that consumes a text
/// prefix and produces a typed result.
///
/// As with the static protocol, a runtime scanner whose outcome is a
/// function of its own value and the input defines `scan_model`; scanners
/// wrapping an unmodeled inner scanner pass `modeled` through as false.
pub trait ScanStr: Sized {
    /// The type a successful scan produces.
    type Output;

    /// The mathematical shape of a scanned value, as `scan_model` speaks
    /// of it.
    type ModelValue;

    /// The mathematical shape of one scanned value.
    spec fn value_model(v: Self::Output) -> Self::ModelValue;

    /// Whether `scan_model` pins this scanner's outcome.
    spec fn modeled(&self) -> bool;

    /// How a scan of `s` turns out, for modeled scanners.
    spec fn scan_model(&self, s: Seq<u8>) -> Result<
        (Self::ModelValue, int),
        (int, ScanErrorKind),
    >;

    /// Whether this scanner wants leading whitespace stripped before it runs.
    spec fn spec_wants_strip(&self) -> bool;

    /// Scan a value from the start of `s`.  On success the result carries the
    /// value and the number of bytes consumed, never more than were given;
    /// for modeled scanners the result is exactly what the model denotes.
    fn scan(&mut self, s: &[u8]) -> (r: Result<(Self::Output, usize), ScanError>)
        ensures
            r matches Ok((v, n)) ==> n <= s@.len(),
            old(self).modeled() ==> match old(self).scan_model(s@) {
                Ok((mv, mn)) => r matches Ok((v, n)) && Self::value_model(v) == mv && n as int
                    == mn,
                Err((at, kind)) => r matches Err(e) && e.at.spec_offset() as int == at && e.kind
                    == kind,
            },
    ;

    /// Whether this scanner wants leading whitespace stripped before it runs.
    fn wants_leading_junk_stripped(&self) -> (r: bool)
        ensures
            r == self.spec_wants_strip(),
    ;
}

} // verus!
