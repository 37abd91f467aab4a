//! Error taxonomy shared by the ledger client, the ownership resolver and the
//! proof codec.

use vstd::prelude::*;

verus! {

/// Errors raised while decoding a proof string.
#[derive(Debug, Clone, PartialEq, Eq, Structural)]
pub enum ProofErr {
    /// The string does not have the expected number of fields.
    ProofInvalidEncoding,
    /// The version field is present but names an unsupported version.
    ProofWrongVersion,
}

/// Errors raised by ledger queries.
#[derive(Debug, Clone, PartialEq, Eq, Structural)]
pub enum StellarErr {
    /// The ledger rejected the account id as malformed.
    InvalidPublicKey,
    /// The ledger does not know the account.
    AccountNotFound,
    /// Any other failure of a ledger query.
    Unknown,
}

/// Top-level error type of the library.
#[derive(Debug, Clone)]
pub enum Error {
    StellarErr(StellarErr),
    Other(String),
    ProofErr(ProofErr),
    Unknown,
}

impl PartialEq for Error {
    fn eq(&self, other: &Error) -> (r: bool) {
        match (self, other) {
            (Error::StellarErr(a), Error::StellarErr(b)) => *a == *b,
            (Error::Other(a), Error::Other(b)) => *a == *b,
            (Error::ProofErr(a), Error::ProofErr(b)) => *a == *b,
            (Error::Unknown, Error::Unknown) => true,
            _ => false,
        }
    }
}

impl vstd::std_specs::cmp::PartialEqSpecImpl for Error {
    open spec fn obeys_eq_spec() -> bool {
        true
    }

    open spec fn eq_spec(&self, other: &Error) -> bool {
        match (self, other) {
            (Error::StellarErr(a), Error::StellarErr(b)) => a == b,
            (Error::Other(a), Error::Other(b)) => a@ == b@,
            (Error::ProofErr(a), Error::ProofErr(b)) => a == b,
            (Error::Unknown, Error::Unknown) => true,
            _ => false,
        }
    }
}

} // verus!
