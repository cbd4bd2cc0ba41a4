//! Client-side computations for the classic BNCS logon sequence: the
//! revision-check formula interpreter, product-key decoding and key-info
//! encoding, executable fingerprint formatting, and the composed logon check.
//!
//! Every function here is a pure computation over caller-supplied values;
//! reading files and talking to a server are left to the embedding
//! application.
use vstd::prelude::*;

pub mod auth;
pub mod exeinfo;
pub mod keydecode;
pub mod mpq;
pub mod revision;
pub mod sha1;
pub mod xsha1;

verus! {

/// Faults that the authentication computations report.
#[derive(Clone, Copy, Debug, PartialEq, Eq, Structural)]
pub enum AuthError {
    /// No candidate game executable is present.
    ExecutableNotFound,
    /// A support library needed by the three-file revision check is absent.
    SupportFileMissing,
    /// The server-supplied revision formula is malformed.
    FormulaParseError,
    /// The archive version number selects no known hashing constant.
    UnsupportedArchiveVersion,
    /// A product key does not have the expected fixed length.
    InvalidKeyFormat,
}

/// Numeric version identifier of this engine,
/// `major * 10_000 + minor * 100 + patch`.
pub fn version() -> (r: u64)
    ensures
        r == 10300,
{
    10300
}

} // verus!
