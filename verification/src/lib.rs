//! An in-memory account ledger with proof-of-work sealed blocks.
//!
//! Signed value transfers are grouped into blocks, each block is sealed by a
//! brute-force nonce search over a SHA-256 digest of its contents, and the
//! transfers of successfully settled transactions are applied to a flat
//! address-to-balance ledger.

pub mod account;
pub mod block;
pub mod blockchain;
pub mod crypto;
pub mod numstr;
pub mod transaction;
