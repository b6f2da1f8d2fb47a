use secret_calculator::contract::{handle, init, query};
use secret_calculator::msg::{HandleAnswer, HandleMsg, InitMsg, QueryAnswer, QueryMsg, ResponseStatus};
use secret_calculator::addr::canonicalize;
use secret_calculator::namespace::{config_key, make_hist_count_key, make_hist_entry_key};
use secret_calculator::state::{may_load, save, CalculationsHistory, State};
use secret_calculator::store::KvStore;
use secret_calculator::viewing_key::ViewingKey;
use secret_calculator::{CallContext, Error};
use sha2::{Digest, Sha256};

fn mock_env(sender: &str) -> CallContext {
    CallContext {
        sender: sender.to_string(),
        block_height: 12_345,
        block_time: 1_571_797_419,
    }
}

fn fresh_initialized() -> KvStore {
    let mut deps = KvStore::new();
    let msg = InitMsg {
        prng_seed: String::from("waehfjklasd"),
    };
    init(&mut deps, &mock_env("instantiator"), msg).unwrap();
    deps
}

fn make_key(deps: &mut KvStore, sender: &str, entropy: &str) -> ViewingKey {
    let msg = HandleMsg::CreateViewingKey {
        entropy: entropy.to_string(),
        padding: None,
    };
    match handle(deps, mock_env(sender), msg).unwrap() {
        HandleAnswer::CreateViewingKey { key } => key,
        _ => panic!("unexpected answer"),
    }
}

fn get_page(
    deps: &KvStore,
    address: &str,
    key: &str,
    page: Option<u32>,
    page_size: u32,
) -> Result<(Vec<String>, String), Error> {
    let answer = query(
        deps,
        QueryMsg::GetHistory {
            address: address.to_string(),
            key: key.to_string(),
            page,
            page_size,
        },
    )?;
    let QueryAnswer::GetHistory(gh) = answer;
    Ok((gh.history, gh.status))
}

fn record(deps: &mut KvStore, sender: &str, n1: u128, n2: u128) {
    let answer = handle(deps, mock_env(sender), HandleMsg::Add((n1, n2))).unwrap();
    match answer {
        HandleAnswer::CalculationResult { n, .. } => assert!(n.is_some()),
        _ => panic!("unexpected answer"),
    }
}

fn sha(data: &[u8]) -> Vec<u8> {
    let mut hasher = Sha256::new();
    hasher.update(data);
    hasher.finalize().to_vec()
}

#[test]
fn generate_then_verify_succeeds_and_other_key_fails() {
    let mut deps = fresh_initialized();
    let key = make_key(&mut deps, "bob", "some entropy");

    let (_, status) = get_page(&deps, "bob", &key.0, None, 1).unwrap();
    assert_eq!("No calculations history", status);

    // Another byte sequence of the same length must fail.
    let mut other = key.0.clone();
    let last = other.pop().unwrap();
    other.push(if last == 'A' { 'B' } else { 'A' });
    assert_eq!(other.len(), key.0.len());
    assert_eq!(
        get_page(&deps, "bob", &other, None, 1).unwrap_err(),
        Error::Unauthorized
    );
}

#[test]
fn verify_without_credential_fails() {
    let deps = fresh_initialized();
    assert_eq!(
        get_page(&deps, "nobody", "whatever", None, 1).unwrap_err(),
        Error::Unauthorized
    );
    assert_eq!(
        get_page(&deps, "nobody", "", None, 1).unwrap_err(),
        Error::Unauthorized
    );
}

#[test]
fn append_then_page_round_trip() {
    let mut deps = fresh_initialized();
    let key = make_key(&mut deps, "bob", "e");
    record(&mut deps, "bob", 1, 1);
    record(&mut deps, "bob", 2, 2);
    record(&mut deps, "bob", 3, 3);

    let (history, status) = get_page(&deps, "bob", &key.0, Some(0), 3).unwrap();
    assert_eq!(
        history,
        vec![
            "3 + 3 = 6".to_string(),
            "2 + 2 = 4".to_string(),
            "1 + 1 = 2".to_string()
        ]
    );
    assert_eq!("Calculations history present", status);
}

#[test]
fn pagination_skip() {
    let mut deps = fresh_initialized();
    let key = make_key(&mut deps, "bob", "e");
    for i in 1..=5u128 {
        record(&mut deps, "bob", i, i);
    }

    // Skip one page of two: the third- and second-most-recent records.
    let (history, status) = get_page(&deps, "bob", &key.0, Some(1), 2).unwrap();
    assert_eq!(
        history,
        vec!["3 + 3 = 6".to_string(), "2 + 2 = 4".to_string()]
    );
    assert_eq!("Calculations history present", status);
}

#[test]
fn empty_account_query_is_not_an_error() {
    let mut deps = fresh_initialized();
    let key = make_key(&mut deps, "bob", "e");

    let (history, status) = get_page(&deps, "bob", &key.0, None, 10).unwrap();
    assert!(history.is_empty());
    assert_eq!("No calculations history", status);
}

#[test]
fn second_generate_invalidates_first_key() {
    let mut deps = fresh_initialized();
    let first = make_key(&mut deps, "bob", "first entropy");
    let second = make_key(&mut deps, "bob", "second entropy");
    assert_ne!(first.0, second.0);

    assert_eq!(
        get_page(&deps, "bob", &first.0, None, 1).unwrap_err(),
        Error::Unauthorized
    );
    let (_, status) = get_page(&deps, "bob", &second.0, None, 1).unwrap();
    assert_eq!("No calculations history", status);
}

#[test]
fn scenario_append_generate_query() {
    let mut deps = fresh_initialized();
    record(&mut deps, "bob", 3, 5);
    let key = make_key(&mut deps, "bob", "scenario entropy");

    let (history, status) = get_page(&deps, "bob", &key.0, None, 10).unwrap();
    assert_eq!(history, vec!["3 + 5 = 8".to_string()]);
    assert_eq!("Calculations history present", status);

    assert_eq!(
        get_page(&deps, "bob", "not the key", None, 10).unwrap_err(),
        Error::Unauthorized
    );
}

#[test]
fn page_size_zero_yields_empty_page() {
    let mut deps = fresh_initialized();
    let key = make_key(&mut deps, "bob", "e");
    record(&mut deps, "bob", 1, 2);

    let (history, status) = get_page(&deps, "bob", &key.0, None, 0).unwrap();
    assert!(history.is_empty());
    assert_eq!("Calculations history present", status);
}

#[test]
fn page_past_end_yields_empty_page_with_present_status() {
    let mut deps = fresh_initialized();
    let key = make_key(&mut deps, "bob", "e");
    record(&mut deps, "bob", 1, 2);
    record(&mut deps, "bob", 3, 4);

    let (history, status) = get_page(&deps, "bob", &key.0, Some(5), 2).unwrap();
    assert!(history.is_empty());
    assert_eq!("Calculations history present", status);
}

#[test]
fn set_viewing_key_installs_the_chosen_key() {
    let mut deps = fresh_initialized();
    let msg = HandleMsg::SetViewingKey {
        key: "my home-made key".to_string(),
        padding: None,
    };
    match handle(&mut deps, mock_env("bob"), msg).unwrap() {
        HandleAnswer::SetViewingKey { status } => assert_eq!(status, ResponseStatus::Success),
        _ => panic!("unexpected answer"),
    }

    let (_, status) = get_page(&deps, "bob", "my home-made key", None, 1).unwrap();
    assert_eq!("No calculations history", status);
    assert_eq!(
        get_page(&deps, "bob", "my home-made kez", None, 1).unwrap_err(),
        Error::Unauthorized
    );
}

#[test]
fn create_key_without_init_reports_not_found() {
    let mut deps = KvStore::new();
    let msg = HandleMsg::CreateViewingKey {
        entropy: "e".to_string(),
        padding: None,
    };
    assert_eq!(
        handle(&mut deps, mock_env("bob"), msg).unwrap_err(),
        Error::NotFound
    );
}

#[test]
fn corrupt_config_reports_corrupt() {
    let mut deps = KvStore::new();
    let ck = config_key();
    deps.set(ck.as_slice(), vec![1, 2, 3]);
    let msg = HandleMsg::CreateViewingKey {
        entropy: "e".to_string(),
        padding: None,
    };
    assert_eq!(
        handle(&mut deps, mock_env("bob"), msg).unwrap_err(),
        Error::Corrupt
    );
}

#[test]
fn malformed_addresses_are_rejected() {
    let mut deps = fresh_initialized();

    // An empty sender cannot be canonicalized.
    let r = handle(&mut deps, mock_env(""), HandleMsg::Add((1, 2)));
    assert_eq!(r.unwrap_err(), Error::InvalidAddress);

    // Nor one beyond the canonical width.
    let long = "a-very-long-account-identifier";
    let r = handle(&mut deps, mock_env(long), HandleMsg::Add((1, 2)));
    assert_eq!(r.unwrap_err(), Error::InvalidAddress);

    // A read for a malformed address is rejected the same way.
    assert_eq!(
        get_page(&deps, "", "k", None, 1).unwrap_err(),
        Error::InvalidAddress
    );
}

#[test]
fn rejected_calculations_report_and_record_nothing() {
    let mut deps = fresh_initialized();
    let key = make_key(&mut deps, "bob", "e");

    let cases: Vec<(HandleMsg, &str)> = vec![
        (
            HandleMsg::Add((u128::MAX, 1)),
            "Invalid input: The input numbers are too large",
        ),
        (
            HandleMsg::Sub((1, 2)),
            "Invalid input: The second argument is larger than the first, cannot calculate negative results",
        ),
        (
            HandleMsg::Mul((u128::MAX, 2)),
            "Invalid input: The multiplication is too large. Cannot calculate results larger than",
        ),
        (
            HandleMsg::Div((1, 0)),
            "Invalid input: Cannot devide by zero!",
        ),
    ];
    for (msg, expected) in cases {
        match handle(&mut deps, mock_env("bob"), msg).unwrap() {
            HandleAnswer::CalculationResult { n, status } => {
                assert!(n.is_none());
                assert_eq!(expected, status);
            },
            _ => panic!("unexpected answer"),
        }
    }

    // Nothing was recorded by the rejected requests.
    let (history, status) = get_page(&deps, "bob", &key.0, None, 10).unwrap();
    assert!(history.is_empty());
    assert_eq!("No calculations history", status);
}

#[test]
fn sqrt_edges() {
    let mut deps = fresh_initialized();
    for (n, expected) in [(0u128, 0u128), (1, 1), (70, 8), (u128::MAX, u64::MAX as u128)] {
        match handle(&mut deps, mock_env("bob"), HandleMsg::Sqrt(n)).unwrap() {
            HandleAnswer::CalculationResult { n: result, .. } => {
                assert_eq!(Some(expected), result);
            },
            _ => panic!("unexpected answer"),
        }
    }
}

#[test]
fn generated_key_matches_direct_derivation() {
    let mut deps = fresh_initialized();
    let key = make_key(&mut deps, "bob", "wefhjyr");

    // Recompute the derivation with the outside crates directly.
    let seed = sha(base64::encode("waehfjklasd").as_bytes());
    let mut material = seed.clone();
    material.extend_from_slice(&12_345u64.to_le_bytes());
    material.extend_from_slice(&1_571_797_419u64.to_le_bytes());
    material.extend_from_slice("bob".as_bytes());
    material.extend_from_slice("wefhjyr".as_bytes());
    let expected = format!("api_key_{}", base64::encode(sha(&material)));

    assert_eq!(expected, key.0);
}

#[test]
fn into_humanized_round_trips_and_rejects_bad_bytes() {
    let good = CalculationsHistory {
        history: "3 + 5 = 8".as_bytes().to_vec(),
    };
    assert_eq!("3 + 5 = 8".to_string(), good.into_humanized().unwrap());

    let bad = CalculationsHistory {
        history: vec![0xff, 0xfe],
    };
    assert_eq!(bad.into_humanized().unwrap_err(), Error::Corrupt);
}

#[test]
fn config_save_and_load_round_trip() {
    let mut deps = KvStore::new();
    let ck = config_key();
    assert!(may_load(&deps, ck.as_slice()).unwrap().is_none());

    let state = State {
        prng_seed: vec![1, 2, 3, 4],
    };
    save(&mut deps, ck.as_slice(), &state).unwrap();
    let loaded = may_load(&deps, ck.as_slice()).unwrap().unwrap();
    assert_eq!(state, loaded);
}

#[test]
fn histories_of_accounts_are_disjoint() {
    let mut deps = fresh_initialized();
    let bob_key = make_key(&mut deps, "bob", "e1");
    let alice_key = make_key(&mut deps, "alice", "e2");
    record(&mut deps, "bob", 1, 1);
    record(&mut deps, "alice", 40, 2);

    let (bob_history, _) = get_page(&deps, "bob", &bob_key.0, None, 10).unwrap();
    assert_eq!(bob_history, vec!["1 + 1 = 2".to_string()]);

    let (alice_history, _) = get_page(&deps, "alice", &alice_key.0, None, 10).unwrap();
    assert_eq!(alice_history, vec!["40 + 2 = 42".to_string()]);

    // Bob's key does not open Alice's history.
    assert_eq!(
        get_page(&deps, "alice", &bob_key.0, None, 10).unwrap_err(),
        Error::Unauthorized
    );
}

#[test]
fn stored_credential_is_a_one_way_digest() {
    let mut deps = fresh_initialized();
    let key = make_key(&mut deps, "bob", "e");

    let canon = canonicalize("bob").unwrap();
    let saved = ViewingKey::read_viewing_key(&deps, canon.as_slice()).unwrap();
    assert_eq!(saved.len(), 32);
    assert_eq!(saved, sha(key.0.as_bytes()));
    assert_ne!(saved, key.0.as_bytes().to_vec());
}

#[test]
fn corrupt_history_entry_reports_corrupt() {
    let mut deps = fresh_initialized();
    let key = make_key(&mut deps, "bob", "e");
    record(&mut deps, "bob", 1, 2);

    // Clobber the stored entry with bytes that do not decode.
    let canon = canonicalize("bob").unwrap();
    let entry_key = make_hist_entry_key(canon.as_slice(), 0);
    deps.set(entry_key.as_slice(), vec![9, 9]);

    assert_eq!(
        get_page(&deps, "bob", &key.0, None, 1).unwrap_err(),
        Error::Corrupt
    );
}

#[test]
fn corrupt_history_counter_reports_corrupt() {
    let mut deps = fresh_initialized();
    let key = make_key(&mut deps, "bob", "e");

    // A counter that is not a four-byte value is corruption.
    let canon = canonicalize("bob").unwrap();
    let count_key = make_hist_count_key(canon.as_slice());
    deps.set(count_key.as_slice(), vec![1, 2, 3]);

    assert_eq!(
        get_page(&deps, "bob", &key.0, None, 1).unwrap_err(),
        Error::Corrupt
    );
}

#[test]
fn missing_history_entry_reports_corrupt() {
    let mut deps = fresh_initialized();
    let key = make_key(&mut deps, "bob", "e");

    // A counter that promises an entry the store does not hold.
    let canon = canonicalize("bob").unwrap();
    let count_key = make_hist_count_key(canon.as_slice());
    deps.set(count_key.as_slice(), 1u32.to_le_bytes().to_vec());

    assert_eq!(
        get_page(&deps, "bob", &key.0, None, 1).unwrap_err(),
        Error::Corrupt
    );
}
