//! Viewing keys: the per-account credentials.
//!
//! A generated key is derived from the process-wide secret seed, the
//! caller's entropy and the call context through SHA-256.  What is
//! persisted under the credential namespace is never the key itself
//! but its one-way 32-byte digest, for generated and caller-chosen
//! keys alike.  Checking a claimed key hashes it and compares the two
//! 32-byte digests without short-circuiting, and callers compare
//! against a zero-filled buffer of the same 32 bytes when no
//! credential is stored, so the absent and the mismatch case perform
//! equivalent-cost work.

use vstd::prelude::*;
use vstd::bytes::{spec_u64_to_le_bytes, u64_to_le_bytes};
use vstd::slice::slice_to_vec;
use vstd::string::StringExecFns;
use vstd::utf8::encode_utf8;
use crate::CallContext;
use crate::digest::{sha256_of, base64_of, sha_256, base64_encode};
use crate::namespace::{cred_key, make_cred_key};
use crate::store::{KvStore, append_bytes};

verus! {

/// The byte length of every stored credential (a SHA-256 digest), and
/// of the zero-filled buffer compared against when none is stored.
pub const VIEWING_KEY_SIZE: usize = 32;

/// A viewing key: an opaque secret token bound to one account.
#[derive(Clone, Debug)]
pub struct ViewingKey(pub String);

/// The credential stored for an account, if any.
pub open spec fn stored_credential(m: Map<Seq<u8>, Seq<u8>>, account: Seq<u8>) -> Option<Seq<u8>> {
    if m.dom().contains(cred_key(account)) {
        Some(m[cred_key(account)])
    } else {
        None
    }
}

/// Whether a claimed key (as its UTF-8 bytes) matches the stored
/// credential: the stored value is the claimed key's digest.
pub open spec fn credential_matches(
    m: Map<Seq<u8>, Seq<u8>>,
    account: Seq<u8>,
    claimed: Seq<u8>,
) -> bool {
    stored_credential(m, account) == Some(sha256_of(claimed))
}

/// The bytes a generated key is derived from: the secret seed, the
/// block height and time, the sender and the caller's entropy.
pub open spec fn key_material(
    seed: Seq<u8>,
    height: u64,
    time: u64,
    sender: Seq<char>,
    entropy: Seq<u8>,
) -> Seq<u8> {
    seed + spec_u64_to_le_bytes(height) + spec_u64_to_le_bytes(time) + encode_utf8(sender)
        + entropy
}

/// The text of a generated key: a fixed prefix, then the base64 form
/// of the SHA-256 digest of the key material.
pub open spec fn derived_key_chars(
    seed: Seq<u8>,
    height: u64,
    time: u64,
    sender: Seq<char>,
    entropy: Seq<u8>,
) -> Seq<char> {
    "api_key_"@ + base64_of(sha256_of(key_material(seed, height, time, sender, entropy)))
}

/// A zero-filled buffer of a credential's expected length, compared
/// against when no credential is stored.
pub fn zero_key_buffer() -> (r: Vec<u8>)
    ensures
        r@.len() == VIEWING_KEY_SIZE,
        forall|i: int| 0 <= i < r@.len() ==> r@[i] == 0u8,
{
    let mut r: Vec<u8> = Vec::new();
    let mut i: usize = 0;
    while i < VIEWING_KEY_SIZE
        invariant
            i <= VIEWING_KEY_SIZE,
            r@.len() == i,
            forall|j: int| 0 <= j < r@.len() ==> r@[j] == 0u8,
        decreases VIEWING_KEY_SIZE - i,
    {
        r.push(0);
        i = i + 1;
    }
    r
}

/// Compares two byte strings in constant time: the scan always covers
/// `min(a.len(), b.len())` bytes, with no early exit on a mismatch.
pub fn ct_eq(a: &[u8], b: &[u8]) -> (r: bool)
    ensures
        r == (a@ == b@),
{
    let alen = a.len();
    let blen = b.len();
    let mut diff: u8 = if alen == blen {
        0
    } else {
        1
    };
    let n = if alen < blen {
        alen
    } else {
        blen
    };
    proof {
        if a@ == b@ {
            assert(a@.len() == b@.len());
        }
    }
    for i in 0..n
        invariant
            n <= a@.len(),
            n <= b@.len(),
            (diff == 0) <==> (a@.len() == b@.len() && forall|j: int| 0 <= j < i ==> a@[j] == b@[j]),
    {
        let x = a[i];
        let y = b[i];
        let d = x ^ y;
        let merged = diff | d;
        proof {
            assert((x ^ y) == 0 <==> x == y) by (bit_vector);
            let dd = diff;
            let d2 = d;
            assert((dd | d2) == 0 <==> (dd == 0 && d2 == 0)) by (bit_vector);
        }
        diff = merged;
    }
    proof {
        if diff == 0 {
            assert(n == a@.len());
            assert(a@ =~= b@);
        }
        if a@ == b@ {
            assert(a@.len() == b@.len());
            assert(forall|j: int| 0 <= j < n ==> a@[j] == b@[j]);
        }
    }
    diff == 0
}

impl ViewingKey {
    /// Derives a fresh key from the secret seed, the call context and
    /// the caller-supplied entropy.
    pub fn new(env: &CallContext, seed: &[u8], entropy: &[u8]) -> (r: ViewingKey)
        ensures
            r.0@ == derived_key_chars(seed@, env.block_height, env.block_time, env.sender@, entropy@),
    {
        let mut material: Vec<u8> = Vec::new();
        append_bytes(&mut material, seed);
        let mut height_bytes = u64_to_le_bytes(env.block_height);
        material.append(&mut height_bytes);
        let mut time_bytes = u64_to_le_bytes(env.block_time);
        material.append(&mut time_bytes);
        append_bytes(&mut material, env.sender.as_str().as_bytes());
        append_bytes(&mut material, entropy);
        proof {
            assert(material@ =~= key_material(
                seed@, env.block_height, env.block_time, env.sender@, entropy@,
            ));
        }
        let digest = sha_256(material.as_slice());
        let encoded = base64_encode(digest.as_slice());
        let mut text = String::from_str("api_key_");
        text.append(encoded.as_str());
        ViewingKey(text)
    }

    /// The one-way digest of this key: what is persisted and compared,
    /// never the key itself.
    pub fn to_hashed(&self) -> (r: Vec<u8>)
        ensures
            r@ == sha256_of(encode_utf8(self.0@)),
            r@.len() == VIEWING_KEY_SIZE,
    {
        sha_256(self.0.as_str().as_bytes())
    }

    /// Hashes this key and compares the digest against a stored
    /// credential in constant time: both are 32 bytes, so the cost is
    /// one digest and one full 32-byte scan whatever the outcome.
    pub fn check_viewing_key(&self, stored: &[u8]) -> (r: bool)
        ensures
            r == (sha256_of(encode_utf8(self.0@)) == stored@),
    {
        let hashed = self.to_hashed();
        ct_eq(hashed.as_slice(), stored)
    }

    /// Persists this key's digest as `owner`'s credential, overwriting
    /// any previous one.
    pub fn write_viewing_key(store: &mut KvStore, owner: &[u8], key: &ViewingKey)
        ensures
            final(store)@ == old(store)@.insert(
                cred_key(owner@),
                sha256_of(encode_utf8(key.0@)),
            ),
    {
        let k = make_cred_key(owner);
        let v = key.to_hashed();
        store.set(k.as_slice(), v);
    }

    /// Reads back the credential stored for `owner`, if any.
    pub fn read_viewing_key(store: &KvStore, owner: &[u8]) -> (r: Option<Vec<u8>>)
        ensures
            match r {
                Some(v) => stored_credential(store@, owner@) == Some(v@),
                None => stored_credential(store@, owner@) is None,
            },
    {
        let k = make_cred_key(owner);
        match store.get(k.as_slice()) {
            Some(v) => Some(slice_to_vec(v.as_slice())),
            None => None,
        }
    }
}

/// A stored credential verifies, and only it: any other claimed value
/// whose digest differs fails against it.  (That every other value has
/// a different digest is SHA-256's collision resistance, which no
/// proof here assumes.)
pub proof fn lemma_fresh_credential_verifies(
    m: Map<Seq<u8>, Seq<u8>>,
    account: Seq<u8>,
    k: Seq<u8>,
    other: Seq<u8>,
)
    requires
        stored_credential(m, account) == Some(sha256_of(k)),
        sha256_of(other) != sha256_of(k),
    ensures
        credential_matches(m, account, k),
        !credential_matches(m, account, other),
{
}

/// With no credential stored for an account, no claimed value matches.
pub proof fn lemma_no_credential_never_matches(
    m: Map<Seq<u8>, Seq<u8>>,
    account: Seq<u8>,
    claimed: Seq<u8>,
)
    requires
        stored_credential(m, account) is None,
    ensures
        !credential_matches(m, account, claimed),
{
}

/// Overwriting rotates the credential: once a key with a different
/// digest is stored, the earlier key no longer matches.
pub proof fn lemma_overwrite_invalidates(
    m: Map<Seq<u8>, Seq<u8>>,
    account: Seq<u8>,
    k1: Seq<u8>,
    k2: Seq<u8>,
)
    requires
        sha256_of(k1) != sha256_of(k2),
    ensures
        !credential_matches(m.insert(cred_key(account), sha256_of(k2)), account, k1),
        credential_matches(m.insert(cred_key(account), sha256_of(k2)), account, k2),
{
}

} // verus!
