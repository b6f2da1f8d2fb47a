//! Storage namespacing.
//!
//! Every persisted key is `prefix ++ account-id [++ sub-key]`.  The
//! credential namespace and the calculation-history namespace use
//! distinct constant prefixes, account identifiers have one fixed
//! width, and the two sub-keys of the history namespace (the entry
//! counter and the numbered entries) have different lengths, so no two
//! keys of different roles can collide.  The lemmas at the bottom prove
//! exactly that.

use vstd::prelude::*;
use vstd::bytes::{spec_u32_to_le_bytes, spec_u32_from_le_bytes, lemma_auto_spec_u32_to_from_le_bytes, u32_to_le_bytes};
use crate::store::append_bytes;

verus! {

/// The fixed width, in bytes, of a canonical account identifier.
pub const ACCOUNT_ID_LEN: usize = 20;

/// The prefix of the credential namespace: the bytes of `"viewing_key"`.
pub open spec fn viewing_key_prefix() -> Seq<u8> {
    seq![118u8, 105u8, 101u8, 119u8, 105u8, 110u8, 103u8, 95u8, 107u8, 101u8, 121u8]
}

/// The prefix of the history namespace: the bytes of `"calculations"`.
pub open spec fn calc_prefix() -> Seq<u8> {
    seq![99u8, 97u8, 108u8, 99u8, 117u8, 108u8, 97u8, 116u8, 105u8, 111u8, 110u8, 115u8]
}

/// The key the configuration record is stored under: the bytes of `"config"`.
pub open spec fn spec_config_key() -> Seq<u8> {
    seq![99u8, 111u8, 110u8, 102u8, 105u8, 103u8]
}

/// The sub-key of an account's entry counter: the bytes of `"len"`.
pub open spec fn len_tag() -> Seq<u8> {
    seq![108u8, 101u8, 110u8]
}

/// The key an account's credential is stored under.
pub open spec fn cred_key(account: Seq<u8>) -> Seq<u8> {
    viewing_key_prefix() + account
}

/// The key an account's history-entry counter is stored under.
pub open spec fn hist_count_key(account: Seq<u8>) -> Seq<u8> {
    calc_prefix() + account + len_tag()
}

/// The key the `i`-th history entry of an account is stored under.
pub open spec fn hist_entry_key(account: Seq<u8>, i: u32) -> Seq<u8> {
    calc_prefix() + account + spec_u32_to_le_bytes(i)
}

pub fn config_key() -> (r: Vec<u8>)
    ensures
        r@ == spec_config_key(),
{
    let mut r: Vec<u8> = Vec::new();
    r.push(99);
    r.push(111);
    r.push(110);
    r.push(102);
    r.push(105);
    r.push(103);
    proof {
        assert(r@ =~= spec_config_key());
    }
    r
}

fn viewing_key_prefix_vec() -> (r: Vec<u8>)
    ensures
        r@ == viewing_key_prefix(),
{
    let mut r: Vec<u8> = Vec::new();
    r.push(118);
    r.push(105);
    r.push(101);
    r.push(119);
    r.push(105);
    r.push(110);
    r.push(103);
    r.push(95);
    r.push(107);
    r.push(101);
    r.push(121);
    proof {
        assert(r@ =~= viewing_key_prefix());
    }
    r
}

fn calc_prefix_vec() -> (r: Vec<u8>)
    ensures
        r@ == calc_prefix(),
{
    let mut r: Vec<u8> = Vec::new();
    r.push(99);
    r.push(97);
    r.push(108);
    r.push(99);
    r.push(117);
    r.push(108);
    r.push(97);
    r.push(116);
    r.push(105);
    r.push(111);
    r.push(110);
    r.push(115);
    proof {
        assert(r@ =~= calc_prefix());
    }
    r
}

pub fn make_cred_key(account: &[u8]) -> (r: Vec<u8>)
    ensures
        r@ == cred_key(account@),
{
    let mut r = viewing_key_prefix_vec();
    append_bytes(&mut r, account);
    r
}

pub fn make_hist_count_key(account: &[u8]) -> (r: Vec<u8>)
    ensures
        r@ == hist_count_key(account@),
{
    let mut r = calc_prefix_vec();
    append_bytes(&mut r, account);
    r.push(108);
    r.push(101);
    r.push(110);
    proof {
        assert(r@ =~= hist_count_key(account@));
    }
    r
}

pub fn make_hist_entry_key(account: &[u8], i: u32) -> (r: Vec<u8>)
    ensures
        r@ == hist_entry_key(account@, i),
{
    let mut r = calc_prefix_vec();
    append_bytes(&mut r, account);
    let mut tail = u32_to_le_bytes(i);
    r.append(&mut tail);
    proof {
        assert(r@ =~= hist_entry_key(account@, i));
    }
    r
}

/// A valid account identifier: exactly `ACCOUNT_ID_LEN` bytes.
pub open spec fn is_account_id(account: Seq<u8>) -> bool {
    account.len() == ACCOUNT_ID_LEN
}

/// Keys of different roles never collide, whatever the accounts.
pub proof fn lemma_key_roles_disjoint(a: Seq<u8>, b: Seq<u8>, i: u32)
    requires
        is_account_id(a),
        is_account_id(b),
    ensures
        cred_key(a) != hist_count_key(b),
        cred_key(a) != hist_entry_key(b, i),
        cred_key(a) != spec_config_key(),
        hist_count_key(a) != hist_entry_key(b, i),
        hist_count_key(a) != spec_config_key(),
        hist_entry_key(a, i) != spec_config_key(),
{
    lemma_auto_spec_u32_to_from_le_bytes();
    assert(cred_key(a).len() == 31);
    assert(hist_count_key(b).len() == 35);
    assert(hist_entry_key(b, i).len() == 36);
    assert(spec_config_key().len() == 6);
    assert(hist_count_key(a).len() == 35);
    assert(hist_entry_key(a, i).len() == 36);
}

/// Two distinct accounts have distinct credential keys.
pub proof fn lemma_cred_key_injective(a: Seq<u8>, b: Seq<u8>)
    requires
        is_account_id(a),
        is_account_id(b),
        cred_key(a) == cred_key(b),
    ensures
        a == b,
{
    assert forall|j: int| 0 <= j < a.len() implies a[j] == b[j] by {
        assert(cred_key(a)[11 + j] == a[j]);
        assert(cred_key(b)[11 + j] == b[j]);
    }
    assert(a =~= b);
}

/// Two distinct accounts have distinct history-counter keys.
pub proof fn lemma_hist_count_key_injective(a: Seq<u8>, b: Seq<u8>)
    requires
        is_account_id(a),
        is_account_id(b),
        hist_count_key(a) == hist_count_key(b),
    ensures
        a == b,
{
    assert forall|j: int| 0 <= j < a.len() implies a[j] == b[j] by {
        assert(hist_count_key(a)[12 + j] == a[j]);
        assert(hist_count_key(b)[12 + j] == b[j]);
    }
    assert(a =~= b);
}

/// Distinct (account, index) pairs have distinct entry keys.
pub proof fn lemma_hist_entry_key_injective(a: Seq<u8>, b: Seq<u8>, i: u32, j: u32)
    requires
        is_account_id(a),
        is_account_id(b),
        hist_entry_key(a, i) == hist_entry_key(b, j),
    ensures
        a == b,
        i == j,
{
    lemma_auto_spec_u32_to_from_le_bytes();
    assert forall|k: int| 0 <= k < a.len() implies a[k] == b[k] by {
        assert(hist_entry_key(a, i)[12 + k] == a[k]);
        assert(hist_entry_key(b, j)[12 + k] == b[k]);
    }
    assert(a =~= b);
    assert forall|k: int| 0 <= k < 4 implies
        spec_u32_to_le_bytes(i)[k] == spec_u32_to_le_bytes(j)[k] by {
        assert(hist_entry_key(a, i)[32 + k] == spec_u32_to_le_bytes(i)[k]);
        assert(hist_entry_key(b, j)[32 + k] == spec_u32_to_le_bytes(j)[k]);
    }
    assert(spec_u32_to_le_bytes(i) =~= spec_u32_to_le_bytes(j));
    assert(spec_u32_from_le_bytes(spec_u32_to_le_bytes(i)) == i);
    assert(spec_u32_from_le_bytes(spec_u32_to_le_bytes(j)) == j);
}

} // verus!
