//! Responses of the browser-wallet signing oracle, as plain values.  The
//! surrounding application deserializes the oracle's JSON answers into these
//! types before handing them to callers of the library.

use vstd::prelude::*;

verus! {

/// A failed oracle request: a numeric code and a human-readable message.
#[derive(Debug, PartialEq)]
pub struct AlbedoError {
    pub code: i64,
    pub message: String,
}

/// A successful login: the wallet's public key together with the signed
/// login token.
#[derive(Debug, PartialEq)]
pub struct AlbedoPublicKey {
    pub pubkey: String,
    pub signed_message: String,
    pub signature: String,
    pub intent: String,
}

impl Clone for AlbedoError {
    fn clone(&self) -> (res: Self)
        ensures
            res == *self,
    {
        AlbedoError { code: self.code, message: self.message.clone() }
    }
}

impl Clone for AlbedoPublicKey {
    fn clone(&self) -> (res: Self)
        ensures
            res == *self,
    {
        AlbedoPublicKey {
            pubkey: self.pubkey.clone(),
            signed_message: self.signed_message.clone(),
            signature: self.signature.clone(),
            intent: self.intent.clone(),
        }
    }
}

} // verus!
