//! Address canonicalization.
//!
//! The host turns a human-readable account identifier into a
//! fixed-width binary one.  The mapping modelled here is the usual
//! test-bed one: the identifier's UTF-8 bytes, right-padded with zero
//! bytes to the fixed width.  Identifiers that are empty, too long, or
//! contain a zero byte are rejected, which makes the mapping injective
//! (see `lemma_canonicalize_injective`).

use vstd::prelude::*;
use vstd::utf8::encode_utf8;
use crate::Error;
use crate::namespace::{ACCOUNT_ID_LEN, is_account_id};
use crate::store::append_bytes;

verus! {

/// Whether a human-readable identifier can be canonicalized.
pub open spec fn valid_human_addr(human: Seq<char>) -> bool {
    let b = encode_utf8(human);
    &&& 1 <= b.len() <= ACCOUNT_ID_LEN
    &&& forall|i: int| 0 <= i < b.len() ==> b[i] != 0u8
}

/// The canonical identifier of a valid human-readable one.
pub open spec fn spec_canonicalize(human: Seq<char>) -> Seq<u8> {
    let b = encode_utf8(human);
    b + Seq::new((ACCOUNT_ID_LEN - b.len()) as nat, |i: int| 0u8)
}

/// Canonicalizes a human-readable account identifier, rejecting
/// malformed ones with `InvalidAddress`.
pub fn canonicalize(human: &str) -> (r: Result<Vec<u8>, Error>)
    ensures
        match r {
            Ok(c) => valid_human_addr(human@) && c@ == spec_canonicalize(human@)
                && is_account_id(c@),
            Err(e) => e == Error::InvalidAddress && !valid_human_addr(human@),
        },
{
    let bytes = human.as_bytes();
    if bytes.len() < 1 || bytes.len() > ACCOUNT_ID_LEN {
        return Err(Error::InvalidAddress);
    }
    let n = bytes.len();
    for i in 0..n
        invariant
            n == bytes@.len(),
            bytes@ == encode_utf8(human@),
            forall|j: int| 0 <= j < i ==> bytes@[j] != 0u8,
    {
        if bytes[i] == 0 {
            return Err(Error::InvalidAddress);
        }
    }
    let mut c: Vec<u8> = Vec::new();
    append_bytes(&mut c, bytes);
    while c.len() < ACCOUNT_ID_LEN
        invariant
            encode_utf8(human@).len() <= c@.len() <= ACCOUNT_ID_LEN,
            c@ == spec_canonicalize(human@).subrange(0, c@.len() as int),
        decreases ACCOUNT_ID_LEN - c@.len(),
    {
        c.push(0);
        proof {
            assert(c@ =~= spec_canonicalize(human@).subrange(0, c@.len() as int));
        }
    }
    proof {
        assert(c@ =~= spec_canonicalize(human@));
    }
    Ok(c)
}

/// Canonicalization is injective: distinct valid identifiers get
/// distinct canonical identifiers.
pub proof fn lemma_canonicalize_injective(h1: Seq<char>, h2: Seq<char>)
    requires
        valid_human_addr(h1),
        valid_human_addr(h2),
        spec_canonicalize(h1) == spec_canonicalize(h2),
    ensures
        h1 == h2,
{
    let b1 = encode_utf8(h1);
    let b2 = encode_utf8(h2);
    assert(b1.len() == b2.len()) by {
        if b1.len() < b2.len() {
            assert(spec_canonicalize(h1)[b1.len() as int] == 0u8);
            assert(spec_canonicalize(h2)[b1.len() as int] == b2[b1.len() as int]);
        }
        if b2.len() < b1.len() {
            assert(spec_canonicalize(h2)[b2.len() as int] == 0u8);
            assert(spec_canonicalize(h1)[b2.len() as int] == b1[b2.len() as int]);
        }
    }
    assert(b1 =~= b2) by {
        assert forall|i: int| 0 <= i < b1.len() implies b1[i] == b2[i] by {
            assert(spec_canonicalize(h1)[i] == b1[i]);
            assert(spec_canonicalize(h2)[i] == b2[i]);
        }
    }
    vstd::utf8::encode_utf8_decode_utf8(h1);
    vstd::utf8::encode_utf8_decode_utf8(h2);
}

} // verus!
