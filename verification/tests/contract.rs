use secret_calculator::addr::canonicalize;
use secret_calculator::contract::{handle, init, query};
use secret_calculator::msg::{HandleAnswer, HandleMsg, InitMsg, QueryAnswer, QueryMsg};
use secret_calculator::store::KvStore;
use secret_calculator::viewing_key::ViewingKey;
use secret_calculator::{CallContext, Error};

fn mock_env(sender: &str) -> CallContext {
    CallContext {
        sender: sender.to_string(),
        block_height: 12_345,
        block_time: 1_571_797_419,
    }
}

fn init_helper() -> (Result<(), Error>, KvStore) {
    let mut deps = KvStore::new();
    let env = mock_env("instantiator");

    let init_msg = InitMsg {
        prng_seed: String::from("waehfjklasd"),
    };

    let r = init(&mut deps, &env, init_msg);
    (r, deps)
}

fn create_viewing_key(deps: &mut KvStore) -> ViewingKey {
    let msg = HandleMsg::CreateViewingKey {
        entropy: String::from("wefhjyr"),
        padding: None,
    };
    let handle_result = handle(deps, mock_env("bob"), msg);
    assert!(
        handle_result.is_ok(),
        "handle() failed: {:?}",
        handle_result.err().unwrap()
    );

    // Get the viewing key of the reply to HandleMsg::CreateViewingKey
    let key = match handle_result.unwrap() {
        HandleAnswer::CreateViewingKey { key } => key,
        _ => panic!("NOPE"),
    };
    key
}

fn query_history_wrong_vk(deps: KvStore) {
    let wrong_vk_query_response = query(
        &deps,
        QueryMsg::GetHistory {
            address: "bob".to_string(),
            key: "wrong_vk".to_string(),
            page: None,
            page_size: 1,
        },
    );
    let error = match wrong_vk_query_response {
        Ok(_response) => "This line should not be reached!".to_string(),
        Err(_err) => "Wrong viewing key for this address or viewing key not set".to_string(),
    };
    assert_eq!(
        error,
        "Wrong viewing key for this address or viewing key not set".to_string()
    );
}

fn query_transactions_history(deps: &mut KvStore) -> Result<Vec<String>, Error> {
    let vk = create_viewing_key(deps);
    let query_response = query(
        &*deps,
        QueryMsg::GetHistory {
            address: "bob".to_string(),
            key: vk.0,
            page: None,
            page_size: 1,
        },
    )
    .unwrap();
    let QueryAnswer::GetHistory(hui) = query_response;
    Ok(hui.history)
}

#[test]
fn test_init_sanity() {
    let (init_result, _deps) = init_helper();
    assert!(
        init_result.is_ok(),
        "Init failed: {:?}",
        init_result.err().unwrap()
    );
}

#[test]
fn test_create_viewing_key() {
    // Initialize the contract
    let (init_result, mut deps) = init_helper();
    assert!(
        init_result.is_ok(),
        "Init failed: {:?}",
        init_result.err().unwrap()
    );

    // Compute the viewing key
    let key = create_viewing_key(&mut deps);

    // Get the viewing key from the storage
    let bob_canonical = canonicalize("bob").unwrap();
    let saved_vk = ViewingKey::read_viewing_key(&deps, bob_canonical.as_slice()).unwrap();

    // Verify that the key in the storage is the same as the returned key
    assert!(key.check_viewing_key(saved_vk.as_slice()));
}

#[test]
fn test_add() -> Result<(), Error> {
    // Initialize the contract
    let (init_result, mut deps) = init_helper();
    assert!(
        init_result.is_ok(),
        "Init failed: {:?}",
        init_result.err().unwrap()
    );

    // Perform an Add operation
    let env = mock_env("bob");
    let n1: u128 = 3;
    let n2: u128 = 5;
    let msg = HandleMsg::Add((n1, n2));
    let _res = handle(&mut deps, env, msg).unwrap();

    // Query the user's transactions history using their viewing key
    let history = query_transactions_history(&mut deps)?;

    // Verify the transactions history
    for i in history {
        assert_eq!("3 + 5 = 8".to_string(), i);
    }

    // Now try to hack into bob's account using the wrong key - and fail
    query_history_wrong_vk(deps);
    Ok(())
}

#[test]
fn test_sub() -> Result<(), Error> {
    // Initialize the contract
    let (init_result, mut deps) = init_helper();
    assert!(
        init_result.is_ok(),
        "Init failed: {:?}",
        init_result.err().unwrap()
    );

    // Perform a Sub operation
    let env = mock_env("bob");
    let n1: u128 = 20;
    let n2: u128 = 5;
    let msg = HandleMsg::Sub((n1, n2));
    let _res = handle(&mut deps, env, msg).unwrap();

    // Query the user's transactions history using their viewing key
    let history = query_transactions_history(&mut deps)?;

    // Verify the transactions history
    for i in history {
        assert_eq!("20 - 5 = 15".to_string(), i);
    }

    // Now try to hack into bob's account using the wrong key - and fail
    query_history_wrong_vk(deps);
    Ok(())
}

#[test]
fn test_mul() -> Result<(), Error> {
    // Initialize the contract
    let (init_result, mut deps) = init_helper();
    assert!(
        init_result.is_ok(),
        "Init failed: {:?}",
        init_result.err().unwrap()
    );

    // Perform a Mul operation
    let env = mock_env("bob");
    let n1: u128 = 20;
    let n2: u128 = 5;
    let msg = HandleMsg::Mul((n1, n2));
    let _res = handle(&mut deps, env, msg).unwrap();

    // Query the user's transactions history using their viewing key
    let history = query_transactions_history(&mut deps)?;

    // Verify the transactions history
    for i in history {
        assert_eq!("20 * 5 = 100".to_string(), i);
    }

    // Now try to hack into bob's account using the wrong key - and fail
    query_history_wrong_vk(deps);
    Ok(())
}

#[test]
fn test_div() -> Result<(), Error> {
    // Initialize the contract
    let (init_result, mut deps) = init_helper();
    assert!(
        init_result.is_ok(),
        "Init failed: {:?}",
        init_result.err().unwrap()
    );

    // Perform a Div operation
    let env = mock_env("bob");
    let n1: u128 = 20;
    let n2: u128 = 5;
    let msg = HandleMsg::Div((n1, n2));
    let _res = handle(&mut deps, env, msg).unwrap();

    // Query the user's transactions history using their viewing key
    let history = query_transactions_history(&mut deps)?;

    // Verify the transactions history
    for i in history {
        assert_eq!("20 / 5 = 4".to_string(), i);
    }

    // Now try to hack into bob's account using the wrong key - and fail
    query_history_wrong_vk(deps);
    Ok(())
}

#[test]
fn test_sqrt() -> Result<(), Error> {
    // Initialize the contract
    let (init_result, mut deps) = init_helper();
    assert!(
        init_result.is_ok(),
        "Init failed: {:?}",
        init_result.err().unwrap()
    );

    // Perform a Sqrt operation
    let env = mock_env("bob");
    let n: u128 = 121;
    let msg = HandleMsg::Sqrt(n);
    let _res = handle(&mut deps, env, msg).unwrap();

    // Query the user's transactions history using their viewing key
    let history = query_transactions_history(&mut deps)?;

    // Verify the transactions history
    for i in history {
        assert_eq!("√121 = 11".to_string(), i);
    }

    // Now try to hack into bob's account using the wrong key - and fail
    query_history_wrong_vk(deps);
    Ok(())
}
