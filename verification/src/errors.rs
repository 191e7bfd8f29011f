//! The errors that the operations of this crate report.

use vstd::prelude::*;

verus! {

/// Why an operation was refused.
#[derive(Clone, Debug, PartialEq, Eq)]
pub enum EgError {
    /// A parameter is not what it must be: a guardian index out of range, a
    /// number of commitments other than the threshold, a value that is not a
    /// residue modulo `p` or not in the subgroup of order `q`, a coefficient
    /// outside `[0, q)`.
    InvalidParameter,
    /// The guardian public keys do not stand for each guardian exactly once.
    /// Either `duplicates` names a guardian that is represented more than
    /// once, or `missing` lists, in ascending order, every guardian that is
    /// not represented.
    CoverageError { duplicates: Vec<u32>, missing: Vec<u32> },
    /// The dealer or recipient of an encrypted share is not the guardian
    /// whose key was supplied with it.
    IndexMismatch { dealer: u32 },
    /// The authentication code of the encrypted share of `dealer` does not
    /// verify.
    MacMismatch { dealer: u32 },
    /// A number of the encrypted share of `dealer` cannot be written in the
    /// number of bytes that the protocol gives it.
    SerializationError { dealer: u32 },
    /// The joint election public key is not a residue modulo `p`.
    ValidationError,
}

impl EgError {
    /// This is the coverage error with these two lists.
    pub open spec fn is_coverage_error(&self, duplicates: Seq<u32>, missing: Seq<u32>) -> bool {
        self matches EgError::CoverageError { duplicates: d, missing: m } && d@ == duplicates
            && m@ == missing
    }
}

} // verus!
