//! The serialization codec.
//!
//! One fixed, deterministic binary layout for every persisted record: a
//! four-byte little-endian length followed by the payload bytes.
//! Decoding checks the length field against the stored size; a mismatch
//! is corruption and is surfaced, never masked as missing data.

use vstd::prelude::*;
use vstd::bytes::{
    spec_u32_to_le_bytes, spec_u32_from_le_bytes, lemma_auto_spec_u32_to_from_le_bytes,
    u32_to_le_bytes, u32_from_le_bytes,
};
use vstd::slice::{slice_subrange, slice_to_vec};
use crate::Error;
use crate::store::append_bytes;

verus! {

/// The encoding of a payload: its length, then its bytes.
pub open spec fn encode_value(payload: Seq<u8>) -> Seq<u8> {
    spec_u32_to_le_bytes(payload.len() as u32) + payload
}

/// Whether stored bytes are a well-formed encoding.
pub open spec fn value_decodes(v: Seq<u8>) -> bool {
    v.len() >= 4 && spec_u32_from_le_bytes(v.subrange(0, 4)) == v.len() - 4
}

/// The payload of a well-formed encoding.
pub open spec fn decode_value(v: Seq<u8>) -> Seq<u8> {
    v.subrange(4, v.len() as int)
}

/// Decoding inverts encoding: the codec is lossless.
pub proof fn lemma_codec_round_trip(payload: Seq<u8>)
    requires
        payload.len() <= u32::MAX,
    ensures
        value_decodes(encode_value(payload)),
        decode_value(encode_value(payload)) == payload,
{
    lemma_auto_spec_u32_to_from_le_bytes();
    let v = encode_value(payload);
    assert(v.subrange(0, 4) =~= spec_u32_to_le_bytes(payload.len() as u32));
    assert(decode_value(v) =~= payload);
}

/// Encodes a payload for storage.
pub fn encode_value_exec(payload: &[u8]) -> (r: Vec<u8>)
    requires
        payload@.len() <= u32::MAX,
    ensures
        r@ == encode_value(payload@),
{
    let mut r = u32_to_le_bytes(payload.len() as u32);
    append_bytes(&mut r, payload);
    r
}

/// Decodes stored bytes, reporting corruption on any malformed input.
pub fn decode_value_exec(v: &[u8]) -> (r: Result<Vec<u8>, Error>)
    ensures
        match r {
            Ok(p) => value_decodes(v@) && p@ == decode_value(v@),
            Err(e) => e == Error::Corrupt && !value_decodes(v@),
        },
{
    if v.len() < 4 {
        return Err(Error::Corrupt);
    }
    let header = slice_subrange(v, 0, 4);
    let n = u32_from_le_bytes(header);
    if (n as usize) != v.len() - 4 {
        return Err(Error::Corrupt);
    }
    let payload = slice_to_vec(slice_subrange(v, 4, v.len()));
    Ok(payload)
}

} // verus!
