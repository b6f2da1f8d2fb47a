//! The request handlers: initialization, mutating requests and
//! credentialed read requests, glued over the store model.

use vstd::prelude::*;
use vstd::string::StringExecFns;
use vstd::utf8::{decode_utf8, encode_utf8};
use crate::{CallContext, Error};
use crate::addr::{valid_human_addr, spec_canonicalize, canonicalize};
use crate::calculations_utils::{
    Operation, calc_string, get_calculation_string, lemma_calc_string_len, lemma_symbol_len,
};
use crate::codec::encode_value;
use crate::digest::{sha256_of, base64_of, sha_256, base64_encode};
use crate::msg::{
    GetHistory, HandleAnswer, HandleMsg, InitMsg, QueryAnswer, QueryMsg, ResponseStatus,
};
use crate::namespace::{spec_config_key, cred_key, config_key};
use crate::state::{
    State, config_present, config_decodes, config_seed, hist_present, hist_len, history,
    store_wf, hists_unchanged, hists_unchanged_except, creds_unchanged, creds_unchanged_except,
    config_unchanged, page_window, page_readable, save, load, save_calculation, get_transfers,
    lemma_cred_write_preserves, lemma_config_write_preserves, lemma_encode_utf8_len,
};
use crate::store::KvStore;
use crate::viewing_key::{ViewingKey, credential_matches, derived_key_chars};
use crate::codec::lemma_codec_round_trip;

verus! {

/// The secret seed stored at initialization: the digest of the base64
/// form of the caller-supplied entropy.
pub open spec fn init_seed(prng_seed: Seq<char>) -> Seq<u8> {
    sha256_of(encode_utf8(base64_of(encode_utf8(prng_seed))))
}

/// Initializes the system: derives the process-wide secret seed from
/// the supplied entropy and persists it, once, as the configuration.
pub fn init(deps: &mut KvStore, _env: &CallContext, msg: InitMsg) -> (r: Result<(), Error>)
    requires
        store_wf(old(deps)@),
    ensures
        r is Ok,
        store_wf(final(deps)@),
        final(deps)@ == old(deps)@.insert(
            spec_config_key(),
            encode_value(init_seed(msg.prng_seed@)),
        ),
        config_present(final(deps)@),
        config_decodes(final(deps)@),
        config_seed(final(deps)@) == init_seed(msg.prng_seed@),
        hists_unchanged(old(deps)@, final(deps)@),
        creds_unchanged(old(deps)@, final(deps)@),
{
    let encoded = base64_encode(msg.prng_seed.as_str().as_bytes());
    let digest = sha_256(encoded.as_str().as_bytes());
    proof {
        lemma_config_write_preserves(old(deps)@, encode_value(init_seed(msg.prng_seed@)));
        lemma_codec_round_trip(init_seed(msg.prng_seed@));
    }
    let config = State { prng_seed: digest };
    let ck = config_key();
    save(deps, ck.as_slice(), &config)
}

/// What creating a viewing key does: on success the returned key is
/// the derivation from the stored seed and the call context, and its
/// one-way digest is persisted under the sender's credential key.
pub open spec fn create_key_post(
    m1: Map<Seq<u8>, Seq<u8>>,
    m2: Map<Seq<u8>, Seq<u8>>,
    env: CallContext,
    entropy: Seq<char>,
    r: Result<HandleAnswer, Error>,
) -> bool {
    match r {
        Ok(ans) => {
            &&& config_present(m1) && config_decodes(m1)
            &&& valid_human_addr(env.sender@)
            &&& match ans {
                HandleAnswer::CreateViewingKey { key } => {
                    &&& key.0@ == derived_key_chars(
                        config_seed(m1),
                        env.block_height,
                        env.block_time,
                        env.sender@,
                        encode_utf8(entropy),
                    )
                    &&& m2 == m1.insert(
                        cred_key(spec_canonicalize(env.sender@)),
                        sha256_of(encode_utf8(key.0@)),
                    )
                },
                _ => false,
            }
        },
        Err(e) => m2 == m1 && match e {
            Error::NotFound => !config_present(m1),
            Error::Corrupt => config_present(m1) && !config_decodes(m1),
            Error::InvalidAddress => config_present(m1) && config_decodes(m1)
                && !valid_human_addr(env.sender@),
            _ => false,
        },
    }
}

/// Derives a fresh viewing key for the sender, persists it (replacing
/// any previous credential), and returns it to the caller, once.
pub fn create_viewing_key(deps: &mut KvStore, env: &CallContext, entropy: String) -> (r: Result<
    HandleAnswer,
    Error,
>)
    requires
        store_wf(old(deps)@),
    ensures
        store_wf(final(deps)@),
        create_key_post(old(deps)@, final(deps)@, *env, entropy@, r),
        r is Ok ==> hists_unchanged(old(deps)@, final(deps)@) && config_unchanged(
            old(deps)@,
            final(deps)@,
        ) && creds_unchanged_except(old(deps)@, final(deps)@, spec_canonicalize(env.sender@)),
{
    let ck = config_key();
    let config = match load(deps, ck.as_slice()) {
        Ok(c) => c,
        Err(e) => {
            return Err(e);
        },
    };
    let prng_seed = config.prng_seed;
    let key = ViewingKey::new(env, prng_seed.as_slice(), entropy.as_str().as_bytes());
    let message_sender = match canonicalize(env.sender.as_str()) {
        Ok(c) => c,
        Err(e) => {
            return Err(e);
        },
    };
    proof {
        lemma_cred_write_preserves(
            old(deps)@,
            spec_canonicalize(env.sender@),
            sha256_of(encode_utf8(key.0@)),
        );
    }
    ViewingKey::write_viewing_key(deps, message_sender.as_slice(), &key);
    Ok(HandleAnswer::CreateViewingKey { key })
}

/// What installing a caller-chosen key does: its one-way digest is
/// stored under the sender's credential key.
pub open spec fn set_key_post(
    m1: Map<Seq<u8>, Seq<u8>>,
    m2: Map<Seq<u8>, Seq<u8>>,
    env: CallContext,
    key: Seq<char>,
    r: Result<HandleAnswer, Error>,
) -> bool {
    match r {
        Ok(ans) => {
            &&& valid_human_addr(env.sender@)
            &&& match ans {
                HandleAnswer::SetViewingKey { status } => status == ResponseStatus::Success,
                _ => false,
            }
            &&& m2 == m1.insert(
                cred_key(spec_canonicalize(env.sender@)),
                sha256_of(encode_utf8(key)),
            )
        },
        Err(e) => m2 == m1 && e == Error::InvalidAddress && !valid_human_addr(env.sender@),
    }
}

/// Installs a caller-chosen string as the sender's credential,
/// stored as its digest, replacing any previous one.
pub fn try_set_key(deps: &mut KvStore, env: &CallContext, key: String) -> (r: Result<
    HandleAnswer,
    Error,
>)
    requires
        store_wf(old(deps)@),
    ensures
        store_wf(final(deps)@),
        set_key_post(old(deps)@, final(deps)@, *env, key@, r),
        r is Ok ==> hists_unchanged(old(deps)@, final(deps)@) && config_unchanged(
            old(deps)@,
            final(deps)@,
        ) && creds_unchanged_except(old(deps)@, final(deps)@, spec_canonicalize(env.sender@)),
{
    let vk = ViewingKey(key);
    let message_sender = match canonicalize(env.sender.as_str()) {
        Ok(c) => c,
        Err(e) => {
            return Err(e);
        },
    };
    proof {
        lemma_cred_write_preserves(
            old(deps)@,
            spec_canonicalize(env.sender@),
            sha256_of(encode_utf8(vk.0@)),
        );
    }
    ViewingKey::write_viewing_key(deps, message_sender.as_slice(), &vk);
    Ok(HandleAnswer::SetViewingKey { status: ResponseStatus::Success })
}

/// Appends one recorded line to the sender's history and notes the
/// success in `insertion_status`.
fn insert_result(
    calculation_string: String,
    deps: &mut KvStore,
    env: &CallContext,
    insertion_status: &mut String,
) -> (r: Result<(), Error>)
    requires
        store_wf(old(deps)@),
        encode_utf8(calculation_string@).len() <= u32::MAX,
        valid_human_addr(env.sender@) ==> hist_len(
            old(deps)@,
            spec_canonicalize(env.sender@),
        ) < u32::MAX,
    ensures
        store_wf(final(deps)@),
        match r {
            Ok(_) => {
                &&& valid_human_addr(env.sender@)
                &&& history(final(deps)@, spec_canonicalize(env.sender@)) == history(
                    old(deps)@,
                    spec_canonicalize(env.sender@),
                ).push(encode_utf8(calculation_string@))
                &&& hist_present(final(deps)@, spec_canonicalize(env.sender@))
                &&& hists_unchanged_except(
                    old(deps)@,
                    final(deps)@,
                    spec_canonicalize(env.sender@),
                )
                &&& creds_unchanged(old(deps)@, final(deps)@)
                &&& config_unchanged(old(deps)@, final(deps)@)
                &&& final(insertion_status)@ == old(insertion_status)@
                    + "Calculation performed and recorded!"@
            },
            Err(e) => {
                &&& e == Error::InvalidAddress
                &&& !valid_human_addr(env.sender@)
                &&& final(deps)@ == old(deps)@
                &&& final(insertion_status)@ == old(insertion_status)@
            },
        },
{
    let sender_canonical_address = match canonicalize(env.sender.as_str()) {
        Ok(c) => c,
        Err(e) => {
            return Err(e);
        },
    };
    match save_calculation(deps, sender_canonical_address.as_slice(), calculation_string.as_str())
    {
        Ok(_) => {},
        Err(e) => {
            return Err(e);
        },
    };
    insertion_status.append("Calculation performed and recorded!");
    Ok(())
}

/// What one arithmetic request does: inside the operation's domain the
/// result is recorded in the sender's history and returned; outside it
/// the store stands and the answer reports the rejection.
pub open spec fn calculate_post(
    m1: Map<Seq<u8>, Seq<u8>>,
    m2: Map<Seq<u8>, Seq<u8>>,
    env: CallContext,
    n1: u128,
    n2: u128,
    op: Operation,
    r: Result<HandleAnswer, Error>,
) -> bool {
    match r {
        Ok(ans) => match ans {
            HandleAnswer::CalculationResult { n, status } => match n {
                Some(v) => {
                    &&& op.computes(n1, n2, Ok(v))
                    &&& valid_human_addr(env.sender@)
                    &&& status@ == "Calculation performed and recorded!"@
                    &&& history(m2, spec_canonicalize(env.sender@)) == history(
                        m1,
                        spec_canonicalize(env.sender@),
                    ).push(encode_utf8(calc_string(n1, n2, op.spec_symbol(), v)))
                    &&& hist_present(m2, spec_canonicalize(env.sender@))
                    &&& hists_unchanged_except(m1, m2, spec_canonicalize(env.sender@))
                    &&& creds_unchanged(m1, m2)
                    &&& config_unchanged(m1, m2)
                },
                None => {
                    &&& !op.domain_ok(n1, n2)
                    &&& status@ == op.fail_error().spec_message()
                    &&& m2 == m1
                },
            },
            _ => false,
        },
        Err(e) => {
            &&& e == Error::InvalidAddress
            &&& op.domain_ok(n1, n2)
            &&& !valid_human_addr(env.sender@)
            &&& m2 == m1
        },
    }
}

/// Validates and computes one operation; on success the recorded line
/// is appended to the sender's history.
fn calculate(deps: &mut KvStore, env: CallContext, n1: u128, n2: u128, op: Operation) -> (r:
    Result<HandleAnswer, Error>)
    requires
        store_wf(old(deps)@),
        valid_human_addr(env.sender@) ==> hist_len(
            old(deps)@,
            spec_canonicalize(env.sender@),
        ) < u32::MAX,
    ensures
        store_wf(final(deps)@),
        calculate_post(old(deps)@, final(deps)@, env, n1, n2, op, r),
{
    let mut result: Option<u128> = None;
    let mut status = String::new();
    match op.compute(n1, n2) {
        Ok(res) => {
            result = Some(res);
            let calculation_string = get_calculation_string(n1, n2, op.symbol(), res);
            proof {
                lemma_symbol_len(op);
                lemma_calc_string_len(n1, n2, op.spec_symbol(), res);
                lemma_encode_utf8_len(calculation_string@);
            }
            match insert_result(calculation_string, deps, &env, &mut status) {
                Ok(_) => {},
                Err(e) => {
                    return Err(e);
                },
            };
            proof {
                assert(status@ =~= "Calculation performed and recorded!"@);
            }
        },
        Err(err) => {
            status = err.message();
        },
    };
    Ok(HandleAnswer::CalculationResult { n: result, status })
}

fn add(deps: &mut KvStore, env: CallContext, n1: u128, n2: u128) -> (r: Result<
    HandleAnswer,
    Error,
>)
    requires
        store_wf(old(deps)@),
        valid_human_addr(env.sender@) ==> hist_len(
            old(deps)@,
            spec_canonicalize(env.sender@),
        ) < u32::MAX,
    ensures
        store_wf(final(deps)@),
        calculate_post(old(deps)@, final(deps)@, env, n1, n2, Operation::Add, r),
{
    calculate(deps, env, n1, n2, Operation::Add)
}

fn sub(deps: &mut KvStore, env: CallContext, n1: u128, n2: u128) -> (r: Result<
    HandleAnswer,
    Error,
>)
    requires
        store_wf(old(deps)@),
        valid_human_addr(env.sender@) ==> hist_len(
            old(deps)@,
            spec_canonicalize(env.sender@),
        ) < u32::MAX,
    ensures
        store_wf(final(deps)@),
        calculate_post(old(deps)@, final(deps)@, env, n1, n2, Operation::Sub, r),
{
    calculate(deps, env, n1, n2, Operation::Sub)
}

fn mul(deps: &mut KvStore, env: CallContext, n1: u128, n2: u128) -> (r: Result<
    HandleAnswer,
    Error,
>)
    requires
        store_wf(old(deps)@),
        valid_human_addr(env.sender@) ==> hist_len(
            old(deps)@,
            spec_canonicalize(env.sender@),
        ) < u32::MAX,
    ensures
        store_wf(final(deps)@),
        calculate_post(old(deps)@, final(deps)@, env, n1, n2, Operation::Mul, r),
{
    calculate(deps, env, n1, n2, Operation::Mul)
}

fn div(deps: &mut KvStore, env: CallContext, n1: u128, n2: u128) -> (r: Result<
    HandleAnswer,
    Error,
>)
    requires
        store_wf(old(deps)@),
        valid_human_addr(env.sender@) ==> hist_len(
            old(deps)@,
            spec_canonicalize(env.sender@),
        ) < u32::MAX,
    ensures
        store_wf(final(deps)@),
        calculate_post(old(deps)@, final(deps)@, env, n1, n2, Operation::Div, r),
{
    calculate(deps, env, n1, n2, Operation::Div)
}

fn sqrt(deps: &mut KvStore, env: CallContext, n: u128) -> (r: Result<HandleAnswer, Error>)
    requires
        store_wf(old(deps)@),
        valid_human_addr(env.sender@) ==> hist_len(
            old(deps)@,
            spec_canonicalize(env.sender@),
        ) < u32::MAX,
    ensures
        store_wf(final(deps)@),
        calculate_post(old(deps)@, final(deps)@, env, n, 0, Operation::Sqrt, r),
{
    calculate(deps, env, n, 0, Operation::Sqrt)
}

/// What a mutating request may assume of the store: the sender's log
/// has room for one more entry.
pub open spec fn handle_msg_requires(
    m: Map<Seq<u8>, Seq<u8>>,
    env: CallContext,
    msg: HandleMsg,
) -> bool {
    match msg {
        HandleMsg::CreateViewingKey { .. } => true,
        HandleMsg::SetViewingKey { .. } => true,
        _ => valid_human_addr(env.sender@) ==> hist_len(
            m,
            spec_canonicalize(env.sender@),
        ) < u32::MAX,
    }
}

/// Dispatches one mutating request.
pub fn handle(deps: &mut KvStore, env: CallContext, msg: HandleMsg) -> (r: Result<
    HandleAnswer,
    Error,
>)
    requires
        store_wf(old(deps)@),
        handle_msg_requires(old(deps)@, env, msg),
    ensures
        store_wf(final(deps)@),
        match msg {
            HandleMsg::Add((n1, n2)) => calculate_post(
                old(deps)@,
                final(deps)@,
                env,
                n1,
                n2,
                Operation::Add,
                r,
            ),
            HandleMsg::Sub((n1, n2)) => calculate_post(
                old(deps)@,
                final(deps)@,
                env,
                n1,
                n2,
                Operation::Sub,
                r,
            ),
            HandleMsg::Mul((n1, n2)) => calculate_post(
                old(deps)@,
                final(deps)@,
                env,
                n1,
                n2,
                Operation::Mul,
                r,
            ),
            HandleMsg::Div((n1, n2)) => calculate_post(
                old(deps)@,
                final(deps)@,
                env,
                n1,
                n2,
                Operation::Div,
                r,
            ),
            HandleMsg::Sqrt(n) => calculate_post(
                old(deps)@,
                final(deps)@,
                env,
                n,
                0,
                Operation::Sqrt,
                r,
            ),
            HandleMsg::CreateViewingKey { entropy, .. } => create_key_post(
                old(deps)@,
                final(deps)@,
                env,
                entropy@,
                r,
            ),
            HandleMsg::SetViewingKey { key, .. } => set_key_post(
                old(deps)@,
                final(deps)@,
                env,
                key@,
                r,
            ),
        },
{
    match msg {
        HandleMsg::Add((n1, n2)) => crate::contract::add(deps, env, n1, n2),
        HandleMsg::Sub((n1, n2)) => crate::contract::sub(deps, env, n1, n2),
        HandleMsg::Mul((n1, n2)) => crate::contract::mul(deps, env, n1, n2),
        HandleMsg::Div((n1, n2)) => crate::contract::div(deps, env, n1, n2),
        HandleMsg::Sqrt(n) => sqrt(deps, env, n),
        HandleMsg::CreateViewingKey { entropy, .. } => create_viewing_key(deps, &env, entropy),
        HandleMsg::SetViewingKey { key, .. } => try_set_key(deps, &env, key),
    }
}

/// What a read request returns: `Unauthorized` without a matching
/// credential, otherwise the requested page, newest entry first.
pub open spec fn query_post(
    m: Map<Seq<u8>, Seq<u8>>,
    msg: QueryMsg,
    r: Result<QueryAnswer, Error>,
) -> bool {
    match msg {
        QueryMsg::GetHistory { address, key, page, page_size } => {
            let canon = spec_canonicalize(address@);
            let page_index = match page {
                Some(p) => p,
                None => 0u32,
            };
            match r {
                Ok(ans) => match ans {
                    QueryAnswer::GetHistory(gh) => {
                        let h = history(m, canon);
                        let w = page_window(h, page_index as nat, page_size as nat);
                        &&& valid_human_addr(address@)
                        &&& credential_matches(m, canon, encode_utf8(key@))
                        &&& page_readable(m, canon, page_index as nat, page_size as nat)
                        &&& gh.history@.len() == w.len()
                        &&& forall|i: int|
                            0 <= i < w.len() ==> encode_utf8(#[trigger] gh.history@[i]@) == w[i]
                        &&& forall|i: int|
                            0 <= i < w.len() ==> #[trigger] gh.history@[i]@ == decode_utf8(w[i])
                        &&& gh.status@ == if hist_present(m, canon) {
                            "Calculations history present"@
                        } else {
                            "No calculations history"@
                        }
                    },
                },
                Err(e) => match e {
                    Error::InvalidAddress => !valid_human_addr(address@),
                    Error::Unauthorized => valid_human_addr(address@) && !credential_matches(
                        m,
                        canon,
                        encode_utf8(key@),
                    ),
                    Error::Corrupt => valid_human_addr(address@) && credential_matches(
                        m,
                        canon,
                        encode_utf8(key@),
                    ) && !page_readable(m, canon, page_index as nat, page_size as nat),
                    _ => false,
                },
            }
        },
    }
}

/// Serves one read request.
pub fn query(deps: &KvStore, msg: QueryMsg) -> (r: Result<QueryAnswer, Error>)
    ensures
        query_post(deps@, msg, r),
{
    match msg {
        QueryMsg::GetHistory { .. } => viewing_keys_queries(deps, msg),
    }
}

/// Authenticates a read request, then serves it.
pub fn viewing_keys_queries(deps: &KvStore, msg: QueryMsg) -> (r: Result<QueryAnswer, Error>)
    ensures
        query_post(deps@, msg, r),
{
    match msg.authenticate(deps) {
        Ok(_) => {},
        Err(e) => {
            return Err(e);
        },
    };
    match msg {
        QueryMsg::GetHistory { address, page, page_size, .. } => {
            let page_index = match page {
                Some(p) => p,
                None => 0u32,
            };
            match may_get_history(deps, address.as_str(), page_index, page_size) {
                Ok(gh) => Ok(QueryAnswer::GetHistory(gh)),
                Err(e) => Err(e),
            }
        },
    }
}

/// Reads one page of an account's history, without authentication:
/// callers authenticate first.  Corruption in the requested page is
/// surfaced, never masked as missing data.
pub fn may_get_history(deps: &KvStore, account: &str, page: u32, page_size: u32) -> (r: Result<
    GetHistory,
    Error,
>)
    ensures
        match r {
            Ok(gh) => {
                let canon = spec_canonicalize(account@);
                let h = history(deps@, canon);
                let w = page_window(h, page as nat, page_size as nat);
                &&& valid_human_addr(account@)
                &&& page_readable(deps@, canon, page as nat, page_size as nat)
                &&& gh.history@.len() == w.len()
                &&& forall|i: int|
                    0 <= i < w.len() ==> encode_utf8(#[trigger] gh.history@[i]@) == w[i]
                &&& forall|i: int|
                    0 <= i < w.len() ==> #[trigger] gh.history@[i]@ == decode_utf8(w[i])
                &&& gh.status@ == if hist_present(deps@, canon) {
                    "Calculations history present"@
                } else {
                    "No calculations history"@
                }
            },
            Err(e) => match e {
                Error::InvalidAddress => !valid_human_addr(account@),
                Error::Corrupt => valid_human_addr(account@) && !page_readable(
                    deps@,
                    spec_canonicalize(account@),
                    page as nat,
                    page_size as nat,
                ),
                _ => false,
            },
        },
{
    let address = match canonicalize(account) {
        Ok(c) => c,
        Err(e) => {
            return Err(e);
        },
    };
    match get_transfers(deps, address.as_slice(), page, page_size) {
        Ok((history_page, status)) => Ok(GetHistory { status, history: history_page }),
        Err(e) => Err(e),
    }
}

/// Generate-then-verify: after a viewing key is created for the
/// sender, its bytes match the stored credential; any claimed value
/// whose digest differs fails.  (That a different value has a
/// different digest is SHA-256's collision resistance, which no proof
/// here assumes.)
pub proof fn lemma_generate_then_verify(
    m1: Map<Seq<u8>, Seq<u8>>,
    m2: Map<Seq<u8>, Seq<u8>>,
    env: CallContext,
    entropy: Seq<char>,
    key: ViewingKey,
    other: Seq<u8>,
)
    requires
        create_key_post(m1, m2, env, entropy, Ok(HandleAnswer::CreateViewingKey { key })),
        sha256_of(other) != sha256_of(encode_utf8(key.0@)),
    ensures
        credential_matches(m2, spec_canonicalize(env.sender@), encode_utf8(key.0@)),
        !credential_matches(m2, spec_canonicalize(env.sender@), other),
{
}

/// Overwrite semantics: once a second key is created for the sender, a
/// first key whose digest differs no longer matches.
pub proof fn lemma_second_generate_invalidates(
    m1: Map<Seq<u8>, Seq<u8>>,
    m2: Map<Seq<u8>, Seq<u8>>,
    env: CallContext,
    entropy: Seq<char>,
    first: Seq<u8>,
    key: ViewingKey,
)
    requires
        create_key_post(m1, m2, env, entropy, Ok(HandleAnswer::CreateViewingKey { key })),
        sha256_of(first) != sha256_of(encode_utf8(key.0@)),
    ensures
        !credential_matches(m2, spec_canonicalize(env.sender@), first),
{
}

} // verus!
