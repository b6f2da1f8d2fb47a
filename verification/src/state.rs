//! Persistent state: the configuration record and the per-account
//! append-only calculation history.
//!
//! The history of an account is an arena over the flat store: an entry
//! counter under one sub-key and each entry under its index.  Appending
//! writes the new entry first and bumps the counter last, so a reader
//! never observes a half-applied append.  Pages are read from the tail,
//! newest first, at a cost proportional to the page, not the log.

use vstd::prelude::*;
use vstd::bytes::{spec_u32_to_le_bytes, spec_u32_from_le_bytes, lemma_auto_spec_u32_to_from_le_bytes, u32_to_le_bytes, u32_from_le_bytes};
use vstd::string::StringExecFns;
use vstd::utf8::{valid_utf8, decode_utf8, encode_utf8};
use crate::Error;
use crate::codec::{encode_value, value_decodes, decode_value, lemma_codec_round_trip, encode_value_exec, decode_value_exec};
use crate::namespace::{
    spec_config_key, cred_key, hist_count_key, hist_entry_key, is_account_id,
    make_hist_count_key, make_hist_entry_key, lemma_key_roles_disjoint, lemma_cred_key_injective,
    lemma_hist_count_key_injective, lemma_hist_entry_key_injective,
};
use crate::store::KvStore;
use crate::viewing_key::stored_credential;

verus! {

/// The configuration record: the process-wide secret seed.
#[derive(Clone, Debug, PartialEq)]
pub struct State {
    pub prng_seed: Vec<u8>,
}

/// One stored history entry, as raw bytes.
#[derive(Clone, Debug, PartialEq)]
pub struct CalculationsHistory {
    /// The UTF-8 bytes of one recorded calculation line.
    pub history: Vec<u8>,
}

// ---------------------------------------------------------------------
// The logical model of the store's contents.
// ---------------------------------------------------------------------

/// Whether a configuration record is stored.
pub open spec fn config_present(m: Map<Seq<u8>, Seq<u8>>) -> bool {
    m.dom().contains(spec_config_key())
}

/// Whether the stored configuration record decodes.
pub open spec fn config_decodes(m: Map<Seq<u8>, Seq<u8>>) -> bool {
    value_decodes(m[spec_config_key()])
}

/// The stored secret seed.
pub open spec fn config_seed(m: Map<Seq<u8>, Seq<u8>>) -> Seq<u8> {
    decode_value(m[spec_config_key()])
}

/// Whether the account ever appended: its entry counter exists.
pub open spec fn hist_present(m: Map<Seq<u8>, Seq<u8>>, account: Seq<u8>) -> bool {
    m.dom().contains(hist_count_key(account))
}

/// How many entries the account's history holds.
pub open spec fn hist_len(m: Map<Seq<u8>, Seq<u8>>, account: Seq<u8>) -> nat {
    if hist_present(m, account) {
        spec_u32_from_le_bytes(m[hist_count_key(account)]) as nat
    } else {
        0
    }
}

/// The payload bytes of the account's `i`-th entry.
pub open spec fn hist_entry_bytes(m: Map<Seq<u8>, Seq<u8>>, account: Seq<u8>, i: int) -> Seq<u8> {
    if m.dom().contains(hist_entry_key(account, i as u32)) {
        decode_value(m[hist_entry_key(account, i as u32)])
    } else {
        Seq::empty()
    }
}

/// The account's history: its entries' payloads, oldest first.
pub open spec fn history(m: Map<Seq<u8>, Seq<u8>>, account: Seq<u8>) -> Seq<Seq<u8>> {
    Seq::new(hist_len(m, account), |i: int| hist_entry_bytes(m, account, i))
}

/// Well-formedness of one stored entry: present, decodable, and a
/// valid UTF-8 payload.
pub open spec fn hist_entry_wf(m: Map<Seq<u8>, Seq<u8>>, account: Seq<u8>, i: int) -> bool {
    let k = hist_entry_key(account, i as u32);
    &&& m.dom().contains(k)
    &&& value_decodes(m[k])
    &&& valid_utf8(decode_value(m[k]))
}

/// Well-formedness of one account's history.
pub open spec fn hist_wf(m: Map<Seq<u8>, Seq<u8>>, account: Seq<u8>) -> bool {
    &&& hist_present(m, account) ==> m[hist_count_key(account)].len() == 4
    &&& forall|i: int| 0 <= i < hist_len(m, account) ==> #[trigger] hist_entry_wf(m, account, i)
}

/// Well-formedness of the whole store: every account's history is
/// well-formed.  Established at creation and preserved by every write.
pub open spec fn store_wf(m: Map<Seq<u8>, Seq<u8>>) -> bool {
    forall|account: Seq<u8>| is_account_id(account) ==> #[trigger] hist_wf(m, account)
}

/// The observable history state of one account, for frame conditions.
pub open spec fn hist_state(m: Map<Seq<u8>, Seq<u8>>, account: Seq<u8>) -> (bool, Seq<Seq<u8>>) {
    (hist_present(m, account), history(m, account))
}

/// No account's history changed between the two store states.
pub open spec fn hists_unchanged(m1: Map<Seq<u8>, Seq<u8>>, m2: Map<Seq<u8>, Seq<u8>>) -> bool {
    forall|a: Seq<u8>| is_account_id(a) ==> #[trigger] hist_state(m2, a) == hist_state(m1, a)
}

/// No account's history changed, except possibly `account`'s.
pub open spec fn hists_unchanged_except(
    m1: Map<Seq<u8>, Seq<u8>>,
    m2: Map<Seq<u8>, Seq<u8>>,
    account: Seq<u8>,
) -> bool {
    forall|a: Seq<u8>|
        is_account_id(a) && a != account ==> #[trigger] hist_state(m2, a) == hist_state(m1, a)
}

/// No account's credential changed between the two store states.
pub open spec fn creds_unchanged(m1: Map<Seq<u8>, Seq<u8>>, m2: Map<Seq<u8>, Seq<u8>>) -> bool {
    forall|a: Seq<u8>|
        is_account_id(a) ==> #[trigger] stored_credential(m2, a) == stored_credential(m1, a)
}

/// No account's credential changed, except possibly `account`'s.
pub open spec fn creds_unchanged_except(
    m1: Map<Seq<u8>, Seq<u8>>,
    m2: Map<Seq<u8>, Seq<u8>>,
    account: Seq<u8>,
) -> bool {
    forall|a: Seq<u8>|
        is_account_id(a) && a != account ==> #[trigger] stored_credential(m2, a)
            == stored_credential(m1, a)
}

/// The configuration record did not change.
pub open spec fn config_unchanged(m1: Map<Seq<u8>, Seq<u8>>, m2: Map<Seq<u8>, Seq<u8>>) -> bool {
    &&& config_present(m2) == config_present(m1)
    &&& config_present(m1) ==> m2[spec_config_key()] == m1[spec_config_key()]
}

// ---------------------------------------------------------------------
// Frame lemmas: which writes leave which parts of the model alone.
// ---------------------------------------------------------------------

/// If none of an account's history keys changed, its history model and
/// well-formedness carry over.
proof fn lemma_hist_model_unchanged(
    m1: Map<Seq<u8>, Seq<u8>>,
    m2: Map<Seq<u8>, Seq<u8>>,
    account: Seq<u8>,
)
    requires
        is_account_id(account),
        m2.dom().contains(hist_count_key(account)) == m1.dom().contains(hist_count_key(account)),
        m1.dom().contains(hist_count_key(account)) ==> m2[hist_count_key(account)]
            == m1[hist_count_key(account)],
        forall|i: u32| m2.dom().contains(#[trigger] hist_entry_key(account, i))
            == m1.dom().contains(hist_entry_key(account, i)),
        forall|i: u32| m1.dom().contains(#[trigger] hist_entry_key(account, i))
            ==> m2[hist_entry_key(account, i)] == m1[hist_entry_key(account, i)],
    ensures
        hist_state(m2, account) == hist_state(m1, account),
        hist_wf(m1, account) ==> hist_wf(m2, account),
{
    assert(hist_present(m2, account) == hist_present(m1, account));
    assert(hist_len(m2, account) == hist_len(m1, account));
    assert forall|i: int| 0 <= i < hist_len(m1, account) implies
        hist_entry_bytes(m2, account, i) == hist_entry_bytes(m1, account, i)
            && (hist_entry_wf(m1, account, i) ==> hist_entry_wf(m2, account, i)) by {
        let iu = i as u32;
        assert(m2.dom().contains(hist_entry_key(account, iu))
            == m1.dom().contains(hist_entry_key(account, iu)));
        if m1.dom().contains(hist_entry_key(account, iu)) {
            assert(m2[hist_entry_key(account, iu)] == m1[hist_entry_key(account, iu)]);
        }
    }
    assert(history(m2, account) =~= history(m1, account));
}

/// A key outside every history namespace leaves every history alone.
proof fn lemma_non_hist_insert(m: Map<Seq<u8>, Seq<u8>>, k: Seq<u8>, v: Seq<u8>)
    requires
        forall|a: Seq<u8>| is_account_id(a) ==> k != #[trigger] hist_count_key(a),
        forall|a: Seq<u8>, i: u32| is_account_id(a) ==> k != #[trigger] hist_entry_key(a, i),
    ensures
        hists_unchanged(m, m.insert(k, v)),
        store_wf(m) ==> store_wf(m.insert(k, v)),
{
    let m2 = m.insert(k, v);
    assert forall|a: Seq<u8>| is_account_id(a) implies #[trigger] hist_state(m2, a)
        == hist_state(m, a) && (hist_wf(m, a) ==> hist_wf(m2, a)) by {
        assert(k != hist_count_key(a));
        assert(forall|i: u32| k != #[trigger] hist_entry_key(a, i));
        lemma_hist_model_unchanged(m, m2, a);
    }
    if store_wf(m) {
        assert forall|a: Seq<u8>| is_account_id(a) implies #[trigger] hist_wf(m2, a) by {
            assert(k != hist_count_key(a));
            assert(forall|i: u32| k != #[trigger] hist_entry_key(a, i));
            lemma_hist_model_unchanged(m, m2, a);
            assert(hist_wf(m, a));
        }
    }
}

/// Writing an account's credential preserves well-formedness and
/// touches nothing but that credential.
pub proof fn lemma_cred_write_preserves(m: Map<Seq<u8>, Seq<u8>>, account: Seq<u8>, v: Seq<u8>)
    requires
        store_wf(m),
        is_account_id(account),
    ensures
        store_wf(m.insert(cred_key(account), v)),
        hists_unchanged(m, m.insert(cred_key(account), v)),
        config_unchanged(m, m.insert(cred_key(account), v)),
        stored_credential(m.insert(cred_key(account), v), account) == Some(v),
        creds_unchanged_except(m, m.insert(cred_key(account), v), account),
{
    let k = cred_key(account);
    let m2 = m.insert(k, v);
    assert forall|a: Seq<u8>| is_account_id(a) implies k != #[trigger] hist_count_key(a) by {
        lemma_key_roles_disjoint(account, a, 0);
    }
    assert forall|a: Seq<u8>, i: u32| is_account_id(a) implies k != #[trigger] hist_entry_key(
        a,
        i,
    ) by {
        lemma_key_roles_disjoint(account, a, i);
    }
    lemma_non_hist_insert(m, k, v);
    assert(config_unchanged(m, m2)) by {
        lemma_key_roles_disjoint(account, account, 0);
    }
    assert forall|a: Seq<u8>| is_account_id(a) && a != account implies
        #[trigger] stored_credential(m2, a) == stored_credential(m, a) by {
        if cred_key(a) == cred_key(account) {
            lemma_cred_key_injective(a, account);
        }
    }
}

/// Writing the configuration record preserves well-formedness and
/// touches neither histories nor credentials.
pub proof fn lemma_config_write_preserves(m: Map<Seq<u8>, Seq<u8>>, v: Seq<u8>)
    requires
        store_wf(m),
    ensures
        store_wf(m.insert(spec_config_key(), v)),
        hists_unchanged(m, m.insert(spec_config_key(), v)),
        creds_unchanged(m, m.insert(spec_config_key(), v)),
        config_present(m.insert(spec_config_key(), v)),
        m.insert(spec_config_key(), v)[spec_config_key()] == v,
{
    let k = spec_config_key();
    let m2 = m.insert(k, v);
    assert forall|a: Seq<u8>| is_account_id(a) implies k != #[trigger] hist_count_key(a) by {
        lemma_key_roles_disjoint(a, a, 0);
    }
    assert forall|a: Seq<u8>, i: u32| is_account_id(a) implies k != #[trigger] hist_entry_key(
        a,
        i,
    ) by {
        lemma_key_roles_disjoint(a, a, i);
    }
    lemma_non_hist_insert(m, k, v);
    assert forall|a: Seq<u8>| is_account_id(a) implies #[trigger] stored_credential(m2, a)
        == stored_credential(m, a) by {
        lemma_key_roles_disjoint(a, a, 0);
    }
}

/// After an append for `account`, any other account's history keys are
/// untouched, so its history model and well-formedness carry over.
proof fn lemma_other_account_untouched(
    m: Map<Seq<u8>, Seq<u8>>,
    m2: Map<Seq<u8>, Seq<u8>>,
    account: Seq<u8>,
    a: Seq<u8>,
    n: u32,
    record: Seq<u8>,
)
    requires
        store_wf(m),
        is_account_id(account),
        is_account_id(a),
        a != account,
        m2 == m.insert(hist_entry_key(account, n), encode_value(record)).insert(
            hist_count_key(account),
            spec_u32_to_le_bytes((n + 1) as u32),
        ),
    ensures
        hist_state(m2, a) == hist_state(m, a),
        hist_wf(m2, a),
{
    let ek = hist_entry_key(account, n);
    let ck = hist_count_key(account);
    assert(hist_wf(m, a));
    if hist_count_key(a) == ck {
        lemma_hist_count_key_injective(a, account);
    }
    lemma_key_roles_disjoint(a, account, n);
    assert(hist_count_key(a) != ek);
    assert forall|i: u32| #[trigger] hist_entry_key(a, i) != ek
        && hist_entry_key(a, i) != ck by {
        if hist_entry_key(a, i) == ek {
            lemma_hist_entry_key_injective(a, account, i, n);
        }
        lemma_key_roles_disjoint(account, a, i);
    }
    lemma_hist_model_unchanged(m, m2, a);
}

/// Appending one record: the model of the two writes (the entry, then
/// the bumped counter).  The account's history grows by the record;
/// everything else stands.
pub proof fn lemma_append_model(
    m: Map<Seq<u8>, Seq<u8>>,
    m2: Map<Seq<u8>, Seq<u8>>,
    account: Seq<u8>,
    record: Seq<u8>,
)
    requires
        store_wf(m),
        is_account_id(account),
        hist_len(m, account) < u32::MAX,
        record.len() <= u32::MAX,
        valid_utf8(record),
        m2 == m.insert(
            hist_entry_key(account, hist_len(m, account) as u32),
            encode_value(record),
        ).insert(hist_count_key(account), spec_u32_to_le_bytes((hist_len(m, account) + 1) as u32)),
    ensures
        store_wf(m2),
        hist_present(m2, account),
        hist_len(m2, account) == hist_len(m, account) + 1,
        history(m2, account) == history(m, account).push(record),
        hists_unchanged_except(m, m2, account),
        creds_unchanged(m, m2),
        config_unchanged(m, m2),
{
    lemma_auto_spec_u32_to_from_le_bytes();
    lemma_codec_round_trip(record);
    let n = hist_len(m, account);
    let ek = hist_entry_key(account, n as u32);
    let ck = hist_count_key(account);
    assert(hist_wf(m, account));
    lemma_key_roles_disjoint(account, account, n as u32);

    // The appending account.
    assert(hist_present(m2, account));
    assert(m2[ck] == spec_u32_to_le_bytes((n + 1) as u32));
    assert(hist_len(m2, account) == n + 1);
    assert forall|i: int| 0 <= i < n + 1 implies #[trigger] hist_entry_wf(m2, account, i) by {
        let iu = i as u32;
        lemma_key_roles_disjoint(account, account, iu);
        if i < n {
            if hist_entry_key(account, iu) == ek {
                lemma_hist_entry_key_injective(account, account, iu, n as u32);
            }
            assert(m2[hist_entry_key(account, iu)] == m[hist_entry_key(account, iu)]);
            assert(hist_entry_wf(m, account, i));
        } else {
            assert(m2[ek] == encode_value(record));
        }
    }
    assert(hist_wf(m2, account));
    assert forall|i: int| 0 <= i < n + 1 implies #[trigger] history(m2, account)[i]
        == history(m, account).push(record)[i] by {
        let iu = i as u32;
        lemma_key_roles_disjoint(account, account, iu);
        if i < n {
            if hist_entry_key(account, iu) == ek {
                lemma_hist_entry_key_injective(account, account, iu, n as u32);
            }
            assert(m2[hist_entry_key(account, iu)] == m[hist_entry_key(account, iu)]);
        } else {
            assert(m2[ek] == encode_value(record));
            assert(hist_entry_bytes(m2, account, i) == record);
        }
    }
    assert(history(m2, account) =~= history(m, account).push(record));

    // Every other account.
    assert forall|a: Seq<u8>| is_account_id(a) && a != account implies
        #[trigger] hist_state(m2, a) == hist_state(m, a) by {
        lemma_other_account_untouched(m, m2, account, a, n as u32, record);
    }
    assert forall|a: Seq<u8>| is_account_id(a) implies #[trigger] hist_wf(m2, a) by {
        if a != account {
            lemma_other_account_untouched(m, m2, account, a, n as u32, record);
        }
    }
    assert(store_wf(m2));

    // Credentials and configuration.
    assert forall|a: Seq<u8>| is_account_id(a) implies #[trigger] stored_credential(m2, a)
        == stored_credential(m, a) by {
        lemma_key_roles_disjoint(a, account, n as u32);
    }
    assert(config_unchanged(m, m2)) by {
        lemma_key_roles_disjoint(account, account, n as u32);
    }
}

// ---------------------------------------------------------------------
// Pagination.
// ---------------------------------------------------------------------

/// The requested page of a history, newest first: skip
/// `page * page_size` entries from the tail, then take up to
/// `page_size`.
pub open spec fn page_window(h: Seq<Seq<u8>>, page: nat, page_size: nat) -> Seq<Seq<u8>> {
    let skip = page * page_size;
    if skip >= h.len() {
        Seq::empty()
    } else if page_size <= h.len() - skip {
        Seq::new(page_size, |i: int| h[h.len() - 1 - skip - i])
    } else {
        Seq::new((h.len() - skip) as nat, |i: int| h[h.len() - 1 - skip - i])
    }
}

/// Whether log index `j` falls inside the page that `page` and
/// `page_size` select from the account's history.
pub open spec fn in_page(
    m: Map<Seq<u8>, Seq<u8>>,
    account: Seq<u8>,
    page: nat,
    page_size: nat,
    j: int,
) -> bool {
    let n = hist_len(m, account) as int;
    let skip = (page * page_size) as int;
    let w = page_window(history(m, account), page, page_size).len() as int;
    n - skip - w <= j < n - skip
}

/// Whether the requested page can be read back from the store: the
/// entry counter is a four-byte value, and every entry the page
/// selects is present, decodable, and valid UTF-8.  A violation is
/// corruption, and the reader surfaces it.
pub open spec fn page_readable(
    m: Map<Seq<u8>, Seq<u8>>,
    account: Seq<u8>,
    page: nat,
    page_size: nat,
) -> bool {
    &&& hist_present(m, account) ==> m[hist_count_key(account)].len() == 4
    &&& forall|j: int|
        in_page(m, account, page, page_size, j) ==> #[trigger] hist_entry_wf(m, account, j)
}

/// In a well-formed store, every page of every account is readable.
pub proof fn lemma_store_wf_page_readable(
    m: Map<Seq<u8>, Seq<u8>>,
    account: Seq<u8>,
    page: nat,
    page_size: nat,
)
    requires
        store_wf(m),
        is_account_id(account),
    ensures
        page_readable(m, account, page, page_size),
{
    assert(hist_wf(m, account));
    assert forall|j: int| in_page(m, account, page, page_size, j) implies #[trigger]
        hist_entry_wf(m, account, j) by {
        assert(0 <= j < hist_len(m, account));
    }
}

// ---------------------------------------------------------------------
// Executable store operations.
// ---------------------------------------------------------------------

/// Relies on `String::from_utf8`: accepts exactly the valid UTF-8 byte
/// strings, and the bytes of the returned string are the input bytes.
#[verifier::external_body]
pub(crate) fn string_from_utf8(v: Vec<u8>) -> (r: Result<String, Error>)
    ensures
        valid_utf8(v@) ==> r is Ok,
        r is Ok ==> v@ == encode_utf8(r->Ok_0@),
        r is Err ==> r->Err_0 == Error::Corrupt,
{
    match String::from_utf8(v) {
        Ok(s) => Ok(s),
        Err(_) => Err(Error::Corrupt),
    }
}

impl CalculationsHistory {
    /// Turns the stored bytes back into the recorded line of text.
    pub fn into_humanized(self) -> (r: Result<String, Error>)
        ensures
            valid_utf8(self.history@) ==> r is Ok,
            match r {
                Ok(s) => self.history@ == encode_utf8(s@) && s@ == decode_utf8(self.history@),
                Err(e) => e == Error::Corrupt && !valid_utf8(self.history@),
            },
    {
        let ghost bytes = self.history@;
        let r = string_from_utf8(self.history);
        proof {
            if r is Ok {
                vstd::utf8::encode_utf8_decode_utf8(r->Ok_0@);
            }
        }
        r
    }
}

/// Persists the configuration record under `key` as one codec value.
pub fn save(storage: &mut KvStore, key: &[u8], value: &State) -> (r: Result<(), Error>)
    requires
        value.prng_seed@.len() <= u32::MAX,
    ensures
        r is Ok,
        final(storage)@ == old(storage)@.insert(key@, encode_value(value.prng_seed@)),
{
    let encoded = encode_value_exec(value.prng_seed.as_slice());
    storage.set(key, encoded);
    Ok(())
}

/// Loads the configuration record stored under `key`, failing with
/// `NotFound` when absent and `Corrupt` when undecodable.
pub fn load(storage: &KvStore, key: &[u8]) -> (r: Result<State, Error>)
    ensures
        match r {
            Ok(st) => storage@.dom().contains(key@) && value_decodes(storage@[key@])
                && st.prng_seed@ == decode_value(storage@[key@]),
            Err(e) => match e {
                Error::NotFound => !storage@.dom().contains(key@),
                Error::Corrupt => storage@.dom().contains(key@) && !value_decodes(storage@[key@]),
                _ => false,
            },
        },
{
    match storage.get(key) {
        None => Err(Error::NotFound),
        Some(v) => match decode_value_exec(v.as_slice()) {
            Ok(seed) => Ok(State { prng_seed: seed }),
            Err(e) => Err(e),
        },
    }
}

/// Loads the record stored under `key` if there is one, failing only
/// on corruption.
pub fn may_load(storage: &KvStore, key: &[u8]) -> (r: Result<Option<State>, Error>)
    ensures
        match r {
            Ok(opt) => match opt {
                Some(st) => storage@.dom().contains(key@) && value_decodes(storage@[key@])
                    && st.prng_seed@ == decode_value(storage@[key@]),
                None => !storage@.dom().contains(key@),
            },
            Err(e) => e == Error::Corrupt && storage@.dom().contains(key@) && !value_decodes(
                storage@[key@],
            ),
        },
{
    match storage.get(key) {
        None => Ok(None),
        Some(v) => match decode_value_exec(v.as_slice()) {
            Ok(seed) => Ok(Some(State { prng_seed: seed })),
            Err(e) => Err(e),
        },
    }
}

/// Appends one calculation line to the account's history.  The entry
/// is written before the counter, so no reader sees a half append.
pub fn save_calculation(storage: &mut KvStore, key: &[u8], value: &str) -> (r: Result<(), Error>)
    requires
        store_wf(old(storage)@),
        is_account_id(key@),
        hist_len(old(storage)@, key@) < u32::MAX,
        encode_utf8(value@).len() <= u32::MAX,
    ensures
        r is Ok,
        store_wf(final(storage)@),
        hist_present(final(storage)@, key@),
        history(final(storage)@, key@) == history(old(storage)@, key@).push(encode_utf8(value@)),
        hists_unchanged_except(old(storage)@, final(storage)@, key@),
        creds_unchanged(old(storage)@, final(storage)@),
        config_unchanged(old(storage)@, final(storage)@),
    {
    proof {
        vstd::utf8::encode_utf8_valid_utf8(value@);
        assert(hist_wf(old(storage)@, key@));
    }
    let count_key = make_hist_count_key(key);
    let n: u32 = match storage.get(count_key.as_slice()) {
        Some(v) => u32_from_le_bytes(v.as_slice()),
        None => 0,
    };
    proof {
        assert(n as nat == hist_len(old(storage)@, key@));
    }
    let entry_key = make_hist_entry_key(key, n);
    let record_bytes = value.as_bytes();
    let encoded = encode_value_exec(record_bytes);
    storage.set(entry_key.as_slice(), encoded);
    let count_bytes = u32_to_le_bytes(n + 1);
    storage.set(count_key.as_slice(), count_bytes);
    proof {
        lemma_append_model(old(storage)@, (*storage)@, key@, encode_utf8(value@));
    }
    Ok(())
}

/// Reads one page of the account's history, newest entry first.
/// `page * page_size` entries are skipped from the tail; a window past
/// the end degrades to an empty page, never an error.  The status says
/// whether any history exists at all.  Stored bytes that fail to
/// decode are surfaced as `Corrupt`, never masked as missing data.
pub fn get_transfers(
    storage: &KvStore,
    for_address: &[u8],
    page: u32,
    page_size: u32,
) -> (r: Result<(Vec<String>, String), Error>)
    requires
        is_account_id(for_address@),
    ensures
        match r {
            Ok(t) => {
                let h = history(storage@, for_address@);
                let w = page_window(h, page as nat, page_size as nat);
                &&& page_readable(storage@, for_address@, page as nat, page_size as nat)
                &&& t.0@.len() == w.len()
                &&& forall|i: int| 0 <= i < w.len() ==> encode_utf8(#[trigger] t.0@[i]@) == w[i]
                &&& forall|i: int| 0 <= i < w.len() ==> #[trigger] t.0@[i]@ == decode_utf8(w[i])
                &&& t.1@ == if hist_present(storage@, for_address@) {
                    "Calculations history present"@
                } else {
                    "No calculations history"@
                }
            },
            Err(e) => e == Error::Corrupt && !page_readable(
                storage@,
                for_address@,
                page as nat,
                page_size as nat,
            ),
        },
{
    let count_key = make_hist_count_key(for_address);
    let n: u32 = match storage.get(count_key.as_slice()) {
        Some(v) => {
            if v.len() != 4 {
                proof {
                    assert(!page_readable(storage@, for_address@, page as nat, page_size as nat));
                }
                return Err(Error::Corrupt);
            }
            u32_from_le_bytes(v.as_slice())
        },
        None => {
            let empty: Vec<String> = Vec::new();
            proof {
                assert(history(storage@, for_address@) =~= Seq::<Seq<u8>>::empty());
                assert(page_readable(storage@, for_address@, page as nat, page_size as nat));
            }
            return Ok((empty, String::from_str("No calculations history")));
        },
    };
    let ghost h = history(storage@, for_address@);
    let ghost w = page_window(h, page as nat, page_size as nat);
    proof {
        assert(n as nat == hist_len(storage@, for_address@));
    }
    let total: u64 = n as u64;
    proof {
        let p64 = page as u64;
        let s64 = page_size as u64;
        assert(p64 * s64 <= 0xffff_ffff * 0xffff_ffffu64) by (nonlinear_arith)
            requires
                p64 <= 0xffff_ffffu64,
                s64 <= 0xffff_ffffu64,
        ;
    }
    let skip: u64 = (page as u64) * (page_size as u64);
    let mut out: Vec<String> = Vec::new();
    if skip >= total {
        proof {
            assert(w =~= Seq::<Seq<u8>>::empty());
            assert(page_readable(storage@, for_address@, page as nat, page_size as nat));
        }
        return Ok((out, String::from_str("Calculations history present")));
    }
    let remaining: u64 = total - skip;
    let cnt: u64 = if (page_size as u64) <= remaining {
        page_size as u64
    } else {
        remaining
    };
    proof {
        assert(w.len() == cnt);
        assert(forall|i: int| 0 <= i < cnt ==> w[i] == h[total - 1 - skip - i]);
    }
    let mut j: u64 = 0;
    while j < cnt
        invariant
            is_account_id(for_address@),
            h == history(storage@, for_address@),
            w == page_window(h, page as nat, page_size as nat),
            hist_present(storage@, for_address@),
            storage@[hist_count_key(for_address@)].len() == 4,
            total == hist_len(storage@, for_address@),
            skip == (page as nat) * (page_size as nat),
            skip < total,
            cnt == w.len(),
            cnt <= total - skip,
            j <= cnt,
            out@.len() == j,
            forall|i: int| 0 <= i < j ==> encode_utf8(#[trigger] out@[i]@) == w[i],
            forall|i: int| 0 <= i < j ==> #[trigger] out@[i]@ == decode_utf8(w[i]),
            forall|t: int|
                total - skip - j <= t < total - skip ==> #[trigger] hist_entry_wf(
                    storage@,
                    for_address@,
                    t,
                ),
        decreases cnt - j,
    {
        let idx_u64: u64 = total - 1 - skip - j;
        let idx: u32 = idx_u64 as u32;
        proof {
            assert(in_page(storage@, for_address@, page as nat, page_size as nat, idx as int));
        }
        let entry_key = make_hist_entry_key(for_address, idx);
        let stored = match storage.get(entry_key.as_slice()) {
            Some(v) => v,
            None => {
                proof {
                    assert(!hist_entry_wf(storage@, for_address@, idx as int));
                }
                return Err(Error::Corrupt);
            },
        };
        let payload = match decode_value_exec(stored.as_slice()) {
            Ok(p) => p,
            Err(e) => {
                proof {
                    assert(!hist_entry_wf(storage@, for_address@, idx as int));
                }
                return Err(e);
            },
        };
        proof {
            assert(payload@ == hist_entry_bytes(storage@, for_address@, idx as int));
            assert(payload@ == w[j as int]);
        }
        let line = match string_from_utf8(payload) {
            Ok(s) => s,
            Err(e) => {
                proof {
                    assert(!hist_entry_wf(storage@, for_address@, idx as int));
                }
                return Err(e);
            },
        };
        proof {
            vstd::utf8::encode_utf8_valid_utf8(line@);
            vstd::utf8::encode_utf8_decode_utf8(line@);
            assert(hist_entry_wf(storage@, for_address@, idx as int));
        }
        out.push(line);
        j = j + 1;
    }
    proof {
        assert forall|t: int|
            in_page(storage@, for_address@, page as nat, page_size as nat, t) implies #[trigger]
            hist_entry_wf(storage@, for_address@, t) by {
            assert(total - skip - cnt <= t < total - skip);
        }
        assert(page_readable(storage@, for_address@, page as nat, page_size as nat));
    }
    Ok((out, String::from_str("Calculations history present")))
}

/// A UTF-8 encoding takes at most four bytes per character.
pub proof fn lemma_encode_utf8_len(s: Seq<char>)
    ensures
        encode_utf8(s).len() <= 4 * s.len(),
    decreases s.len(),
{
    if s.len() > 0 {
        lemma_encode_utf8_len(s.drop_first());
    }
}

// ---------------------------------------------------------------------
// Pagination laws.
// ---------------------------------------------------------------------

/// Append-then-page round trip: after appending three records, the
/// first page of size three is exactly those records, newest first.
pub proof fn lemma_append_then_first_page(
    h: Seq<Seq<u8>>,
    r1: Seq<u8>,
    r2: Seq<u8>,
    r3: Seq<u8>,
)
    ensures
        page_window(h.push(r1).push(r2).push(r3), 0, 3) == seq![r3, r2, r1],
{
    let h3 = h.push(r1).push(r2).push(r3);
    assert(page_window(h3, 0, 3) =~= seq![r3, r2, r1]);
}

/// Append-then-page round trip, through the text layer too: three
/// recorded lines come back from the first page of size three exactly,
/// newest first.
pub proof fn lemma_record_round_trip(
    h: Seq<Seq<u8>>,
    r1: Seq<char>,
    r2: Seq<char>,
    r3: Seq<char>,
)
    ensures
        ({
            let w = page_window(
                h.push(encode_utf8(r1)).push(encode_utf8(r2)).push(encode_utf8(r3)),
                0,
                3,
            );
            &&& w.len() == 3
            &&& decode_utf8(w[0]) == r3
            &&& decode_utf8(w[1]) == r2
            &&& decode_utf8(w[2]) == r1
        }),
{
    lemma_append_then_first_page(h, encode_utf8(r1), encode_utf8(r2), encode_utf8(r3));
    vstd::utf8::encode_utf8_decode_utf8(r1);
    vstd::utf8::encode_utf8_decode_utf8(r2);
    vstd::utf8::encode_utf8_decode_utf8(r3);
}

/// Pagination skip: with five records, the second page of size two
/// holds the third- and second-most-recent records, in that order.
pub proof fn lemma_page_skip(r1: Seq<u8>, r2: Seq<u8>, r3: Seq<u8>, r4: Seq<u8>, r5: Seq<u8>)
    ensures
        page_window(seq![r1, r2, r3, r4, r5], 1, 2) == seq![r3, r2],
{
    assert(page_window(seq![r1, r2, r3, r4, r5], 1, 2) =~= seq![r3, r2]);
}

/// Paging an empty history gives an empty page, whatever the window.
pub proof fn lemma_page_empty_history(page: nat, page_size: nat)
    ensures
        page_window(Seq::<Seq<u8>>::empty(), page, page_size) == Seq::<Seq<u8>>::empty(),
{
}

/// A window that skips past the end degrades to an empty page.
pub proof fn lemma_page_past_end(h: Seq<Seq<u8>>, page: nat, page_size: nat)
    requires
        page * page_size >= h.len(),
    ensures
        page_window(h, page, page_size) == Seq::<Seq<u8>>::empty(),
{
}

/// The general pagination shape: the window's length is what remains
/// after the skip, capped by the page size, and its `i`-th element is
/// the `(skip + i)`-th record from the tail.
pub proof fn lemma_page_window_shape(h: Seq<Seq<u8>>, page: nat, page_size: nat)
    requires
        page * page_size < h.len(),
    ensures
        page_window(h, page, page_size).len() == if page_size <= h.len() - page * page_size {
            page_size as int
        } else {
            h.len() - page * page_size
        },
        forall|i: int| 0 <= i < page_window(h, page, page_size).len()
            ==> #[trigger] page_window(h, page, page_size)[i]
                == h[h.len() - 1 - page * page_size - i],
{
}

} // verus!
