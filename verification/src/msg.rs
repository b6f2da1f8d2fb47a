//! The typed requests and responses the library serves, and the
//! authentication of read requests.

use vstd::prelude::*;
use vstd::utf8::encode_utf8;
use crate::Error;
use crate::addr::{valid_human_addr, spec_canonicalize, canonicalize};
use crate::store::KvStore;
use crate::viewing_key::{ViewingKey, credential_matches, zero_key_buffer};

verus! {

/// The initialization request: the entropy the secret seed is built
/// from.
#[derive(Clone, Debug, PartialEq)]
pub struct InitMsg {
    /// User supplied entropy string for the pseudorandom seed.
    pub prng_seed: String,
}

/// Whether a mutating request was applied.
#[derive(Clone, Copy, Debug, PartialEq, Eq)]
pub enum ResponseStatus {
    Success,
    Failure,
}

/// A mutating request.
#[derive(Debug, PartialEq)]
pub enum HandleMsg {
    Add((u128, u128)),
    Sub((u128, u128)),
    Mul((u128, u128)),
    Div((u128, u128)),
    Sqrt(u128),
    /// Creates a new viewing key from caller-supplied entropy.
    CreateViewingKey { entropy: String, padding: Option<String> },
    /// Installs a caller-chosen string as the viewing key.
    SetViewingKey { key: String, padding: Option<String> },
}

/// The response to a mutating request.
#[derive(Clone, Debug)]
#[allow(inconsistent_fields)]
pub enum HandleAnswer {
    CalculationResult { n: Option<u128>, status: String },
    /// Returns the freshly created key, exactly once.
    CreateViewingKey { key: ViewingKey },
    SetViewingKey { status: ResponseStatus },
}

/// A read request.
#[derive(Clone, Debug, PartialEq)]
pub enum QueryMsg {
    /// Returns one page of the account's calculations history.
    GetHistory {
        address: String,
        key: String,
        /// How many pages of `page_size` entries to skip.
        page: Option<u32>,
        /// The number of entries to take once the page is reached.
        page_size: u32,
    },
}

/// The response to a read request.
#[derive(Clone, Debug, PartialEq)]
pub enum QueryAnswer {
    GetHistory(GetHistory),
}

/// One page of history, newest entry first, and whether any history
/// exists at all.
#[derive(Clone, Debug, PartialEq)]
pub struct GetHistory {
    pub status: String,
    pub history: Vec<String>,
}

impl QueryMsg {
    /// Authenticates the read request: the claimed key's one-way
    /// digest must match the stored credential of the named account.
    /// When no credential is stored, the claimed key is still hashed
    /// and compared in full against a zero-filled buffer of the same
    /// 32 bytes, and the result discarded, so this case costs the same
    /// as a wrong key.
    pub fn authenticate(&self, store: &KvStore) -> (r: Result<String, Error>)
        ensures
            match self {
                QueryMsg::GetHistory { address, key, .. } => match r {
                    Ok(a) => valid_human_addr(address@) && credential_matches(
                        store@,
                        spec_canonicalize(address@),
                        encode_utf8(key@),
                    ) && a@ == address@,
                    Err(e) => match e {
                        Error::InvalidAddress => !valid_human_addr(address@),
                        Error::Unauthorized => valid_human_addr(address@)
                            && !credential_matches(
                            store@,
                            spec_canonicalize(address@),
                            encode_utf8(key@),
                        ),
                        _ => false,
                    },
                },
            },
    {
        let (address, key) = match self {
            QueryMsg::GetHistory { address, key, .. } => (
                address.clone(),
                ViewingKey(key.clone()),
            ),
        };
        let canonical = match canonicalize(address.as_str()) {
            Ok(c) => c,
            Err(e) => {
                return Err(e);
            },
        };
        match ViewingKey::read_viewing_key(store, canonical.as_slice()) {
            None => {
                // Checking a key takes noticeable time.  Match that
                // cost even when none is set, so that response latency
                // does not reveal whether the account exists.
                let zeros = zero_key_buffer();
                let _ = key.check_viewing_key(zeros.as_slice());
                Err(Error::Unauthorized)
            },
            Some(expected) => {
                if key.check_viewing_key(expected.as_slice()) {
                    Ok(address)
                } else {
                    Err(Error::Unauthorized)
                }
            },
        }
    }
}

} // verus!
