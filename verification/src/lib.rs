//! Verified core of a quest-badge checker for a public ledger.
//!
//! The crate covers three pieces: resolving which badges of a catalog an
//! account owns from its payment and balance history, a versioned bit-packing
//! codec between a set of owned badges and a compact proof string, and a
//! signed-envelope format that carries a proof string together with a
//! detached signature and public key.

pub mod albedo_response;
pub mod badge_check;
pub mod envelope;
pub mod error;
pub mod numeral;
pub mod pagination;
pub mod proof_encoding;
pub mod quest_code;
pub mod stellar_data;
pub mod text;
