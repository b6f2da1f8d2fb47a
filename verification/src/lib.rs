//! A credentialed calculation-history ledger.
//!
//! An account submits simple arithmetic requests; every successful
//! calculation is appended, as a line of text, to that account's
//! append-only history.  The history can later be read back, newest
//! first and in pages, by presenting a viewing key: a secret credential
//! stored per account as a one-way digest, rotated only by
//! overwriting, and checked with a constant-time comparison.  All state lives in a flat, byte-keyed
//! key-value store under disjoint namespaces.

use vstd::prelude::*;

pub mod addr;
pub mod calculations_utils;
pub mod codec;
pub mod contract;
pub mod digest;
pub mod msg;
pub mod namespace;
pub mod state;
pub mod store;
pub mod viewing_key;

verus! {

/// The context of one call into the library: who sent it and when.
pub struct CallContext {
    /// The sender's human-readable account identifier.
    pub sender: String,
    /// The height of the block the call arrived in.
    pub block_height: u64,
    /// The timestamp of the block the call arrived in.
    pub block_time: u64,
}

/// The error taxonomy of the library.
#[derive(Clone, Copy, PartialEq, Eq, Debug)]
pub enum Error {
    /// The claimed viewing key fails verification, or none is registered.
    Unauthorized,
    /// No record is stored under the requested key.
    NotFound,
    /// Stored bytes fail to decode.
    Corrupt,
    /// A human-readable account identifier could not be canonicalized.
    InvalidAddress,
}

} // verus!
