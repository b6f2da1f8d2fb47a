//! The outside cryptographic primitives the credential derivation
//! leans on.  Their results are named, not restated: `sha256_of` and
//! `base64_of` stand for whatever the outside functions return, which
//! depends on their input bytes alone.

use vstd::prelude::*;

verus! {

/// What `secret_toolkit::crypto::sha_256` returns for the given bytes.
pub uninterp spec fn sha256_of(data: Seq<u8>) -> Seq<u8>;

/// What `base64::encode` returns for the given bytes.
pub uninterp spec fn base64_of(data: Seq<u8>) -> Seq<char>;

/// Relies on `secret_toolkit::crypto::sha_256`: a SHA-256 digest, a
/// 32-byte value that is a function of the input bytes alone.
#[verifier::external_body]
pub(crate) fn sha_256(data: &[u8]) -> (r: Vec<u8>)
    ensures
        r@ == sha256_of(data@),
        r@.len() == 32,
{
    secret_toolkit::crypto::sha_256(data).to_vec()
}

/// Relies on `base64::encode`: standard-alphabet base64 with padding,
/// a function of the input bytes alone.
#[verifier::external_body]
pub(crate) fn base64_encode(data: &[u8]) -> (r: String)
    ensures
        r@ == base64_of(data@),
{
    base64::encode(data)
}

} // verus!
