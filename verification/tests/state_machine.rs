use transfer_bridge::contract::{
    execute, execute_complete_transfer, execute_initiate_transfer, execute_toggle_bridge,
    instantiate, query, query_config, query_list_transfers, query_transfer,
};
use transfer_bridge::error::ContractError;
use transfer_bridge::msg::{
    Env, ExecuteMsg, InstantiateMsg, MessageInfo, QueryAnswer, QueryMsg, Response,
};
use transfer_bridge::state::{LedgerStore, Transfer, TransferStatus};

fn env() -> Env {
    Env { height: 12345, time_seconds: 1_700_000_000 }
}

fn info(sender: &str) -> MessageInfo {
    MessageInfo { sender: sender.to_string() }
}

fn setup(enabled: bool) -> LedgerStore {
    let mut store = LedgerStore::new();
    instantiate(&mut store, &env(), &info("creator"), InstantiateMsg { enabled }).unwrap();
    store
}

fn attr_value(resp: &Response, key: &str) -> String {
    resp.attributes
        .iter()
        .find(|a| a.key == key)
        .map(|a| a.value.clone())
        .expect("attribute present")
}

#[test]
fn instantiate_then_get_config() {
    let store = setup(true);
    let cfg = query_config(&store).unwrap();
    assert_eq!(cfg.owner, "creator");
    assert!(cfg.enabled);
}

#[test]
fn instantiate_attributes() {
    let mut store = LedgerStore::new();
    let resp = instantiate(&mut store, &env(), &info("creator"), InstantiateMsg {
        enabled: false,
    })
    .unwrap();
    assert_eq!(attr_value(&resp, "method"), "instantiate");
    assert_eq!(attr_value(&resp, "owner"), "creator");
    assert_eq!(attr_value(&resp, "enabled"), "false");
    let cfg = query_config(&store).unwrap();
    assert!(!cfg.enabled);
}

#[test]
fn get_config_before_instantiate_is_not_found() {
    let store = LedgerStore::new();
    assert_eq!(query_config(&store).unwrap_err(), ContractError::NotFound);
}

#[test]
fn initiate_while_disabled_fails_and_changes_nothing() {
    let mut store = setup(false);
    let r = execute_initiate_transfer(&mut store, &env(), &info("alice"), "bob".to_string(), 100);
    assert_eq!(r.unwrap_err(), ContractError::BridgeDisabled);
    let listed = query_list_transfers(&store, None, None).unwrap();
    assert!(listed.transfers.is_empty());
}

#[test]
fn initiate_zero_amount_fails_and_changes_nothing() {
    let mut store = setup(true);
    let r = execute_initiate_transfer(&mut store, &env(), &info("alice"), "bob".to_string(), 0);
    assert_eq!(r.unwrap_err(), ContractError::InvalidAmount);
    let listed = query_list_transfers(&store, None, None).unwrap();
    assert!(listed.transfers.is_empty());
}

#[test]
fn initiate_then_get_transfer() {
    let mut store = setup(true);
    let resp = execute_initiate_transfer(&mut store, &env(), &info("alice"), "bob".to_string(), 100)
        .unwrap();
    assert_eq!(attr_value(&resp, "action"), "initiate_transfer");
    assert_eq!(attr_value(&resp, "from"), "alice");
    assert_eq!(attr_value(&resp, "to"), "bob");
    assert_eq!(attr_value(&resp, "amount"), "100");
    let id = attr_value(&resp, "transfer_id");
    assert_eq!(id, "transfer_0");
    let t = query_transfer(&store, id.clone()).unwrap();
    assert_eq!(t.id, id);
    assert_eq!(t.from, "alice");
    assert_eq!(t.to, "bob");
    assert_eq!(t.amount, 100);
    assert_eq!(t.status, "Pending");
    assert_eq!(t.timestamp, 1_700_000_000);
}

#[test]
fn identifiers_are_collision_free() {
    let mut store = setup(true);
    let a = execute_initiate_transfer(&mut store, &env(), &info("alice"), "bob".to_string(), 1)
        .unwrap();
    let b = execute_initiate_transfer(&mut store, &env(), &info("alice"), "bob".to_string(), 2)
        .unwrap();
    let id_a = attr_value(&a, "transfer_id");
    let id_b = attr_value(&b, "transfer_id");
    assert_ne!(id_a, id_b);
    assert_eq!(id_a, "transfer_0");
    assert_eq!(id_b, "transfer_1");
    assert_eq!(query_transfer(&store, id_a).unwrap().amount, 1);
    assert_eq!(query_transfer(&store, id_b).unwrap().amount, 2);
}

#[test]
fn store_rejects_overwrites() {
    let mut store = LedgerStore::new();
    let record = Transfer {
        from: "alice".to_string(),
        to: "bob".to_string(),
        amount: 5,
        status: TransferStatus::Pending,
        timestamp: 7,
    };
    let id = "transfer_0".to_string();
    assert!(store.save_transfer(&id, record).is_ok());
    let second = Transfer {
        from: "mallory".to_string(),
        to: "eve".to_string(),
        amount: 9,
        status: TransferStatus::Pending,
        timestamp: 8,
    };
    assert_eq!(store.save_transfer(&id, second).unwrap_err(), ContractError::TransferExists);
    let t = store.load_transfer(&id).unwrap();
    assert_eq!(t.from, "alice");
    assert_eq!(t.amount, 5);
}

#[test]
fn complete_by_non_owner_is_unauthorized() {
    let mut store = setup(true);
    execute_initiate_transfer(&mut store, &env(), &info("alice"), "bob".to_string(), 100).unwrap();
    let r = execute_complete_transfer(&mut store, &env(), &info("alice"), "transfer_0".to_string());
    assert_eq!(r.unwrap_err(), ContractError::Unauthorized);
    let t = query_transfer(&store, "transfer_0".to_string()).unwrap();
    assert_eq!(t.status, "Pending");
}

#[test]
fn complete_by_owner_then_get_shows_completed() {
    let mut store = setup(true);
    execute_initiate_transfer(&mut store, &env(), &info("alice"), "bob".to_string(), 100).unwrap();
    let resp =
        execute_complete_transfer(&mut store, &env(), &info("creator"), "transfer_0".to_string())
            .unwrap();
    assert_eq!(attr_value(&resp, "action"), "complete_transfer");
    assert_eq!(attr_value(&resp, "transfer_id"), "transfer_0");
    let t = query_transfer(&store, "transfer_0".to_string()).unwrap();
    assert_eq!(t.status, "Completed");
    assert_eq!(t.from, "alice");
    assert_eq!(t.to, "bob");
    assert_eq!(t.amount, 100);
}

#[test]
fn complete_nonexistent_is_not_found() {
    let mut store = setup(true);
    let r = execute_complete_transfer(&mut store, &env(), &info("creator"), "missing".to_string());
    assert_eq!(r.unwrap_err(), ContractError::NotFound);
}

#[test]
fn complete_twice_is_idempotent() {
    let mut store = setup(true);
    execute_initiate_transfer(&mut store, &env(), &info("alice"), "bob".to_string(), 100).unwrap();
    execute_complete_transfer(&mut store, &env(), &info("creator"), "transfer_0".to_string())
        .unwrap();
    execute_complete_transfer(&mut store, &env(), &info("creator"), "transfer_0".to_string())
        .unwrap();
    let t = query_transfer(&store, "transfer_0".to_string()).unwrap();
    assert_eq!(t.status, "Completed");
}

#[test]
fn toggle_by_non_owner_is_unauthorized() {
    let mut store = setup(true);
    let r = execute_toggle_bridge(&mut store, &info("alice"), false);
    assert_eq!(r.unwrap_err(), ContractError::Unauthorized);
    assert!(query_config(&store).unwrap().enabled);
}

#[test]
fn toggle_flips_and_is_idempotent() {
    let mut store = setup(true);
    let resp = execute_toggle_bridge(&mut store, &info("creator"), false).unwrap();
    assert_eq!(attr_value(&resp, "action"), "toggle_bridge");
    assert_eq!(attr_value(&resp, "enabled"), "false");
    assert!(!query_config(&store).unwrap().enabled);
    execute_toggle_bridge(&mut store, &info("creator"), false).unwrap();
    assert!(!query_config(&store).unwrap().enabled);
    execute_toggle_bridge(&mut store, &info("creator"), true).unwrap();
    assert!(query_config(&store).unwrap().enabled);
}

#[test]
fn toggle_gates_initiation() {
    let mut store = setup(true);
    execute_toggle_bridge(&mut store, &info("creator"), false).unwrap();
    let r = execute_initiate_transfer(&mut store, &env(), &info("alice"), "bob".to_string(), 1);
    assert_eq!(r.unwrap_err(), ContractError::BridgeDisabled);
    execute_toggle_bridge(&mut store, &info("creator"), true).unwrap();
    execute_initiate_transfer(&mut store, &env(), &info("alice"), "bob".to_string(), 1).unwrap();
}

#[test]
fn get_transfer_nonexistent_is_not_found() {
    let store = setup(true);
    let r = query_transfer(&store, "transfer_0".to_string());
    assert_eq!(r.unwrap_err(), ContractError::NotFound);
}

#[test]
fn amount_round_trips_at_maximum() {
    let mut store = setup(true);
    let resp =
        execute_initiate_transfer(&mut store, &env(), &info("alice"), "bob".to_string(), u128::MAX)
            .unwrap();
    assert_eq!(attr_value(&resp, "amount"), "340282366920938463463374607431768211455");
    let t = query_transfer(&store, "transfer_0".to_string()).unwrap();
    assert_eq!(t.amount, u128::MAX);
}

#[test]
fn execute_dispatches_all_variants() {
    let mut store = setup(true);
    let r = execute(&mut store, &env(), &info("alice"), ExecuteMsg::InitiateTransfer {
        to: "bob".to_string(),
        amount: 42,
    })
    .unwrap();
    let id = attr_value(&r, "transfer_id");
    execute(&mut store, &env(), &info("creator"), ExecuteMsg::CompleteTransfer {
        transfer_id: id.clone(),
    })
    .unwrap();
    execute(&mut store, &env(), &info("creator"), ExecuteMsg::ToggleBridge { enabled: false })
        .unwrap();
    assert_eq!(query_transfer(&store, id).unwrap().status, "Completed");
    assert!(!query_config(&store).unwrap().enabled);
}

#[test]
fn query_dispatches_all_variants() {
    let mut store = setup(true);
    execute_initiate_transfer(&mut store, &env(), &info("alice"), "bob".to_string(), 3).unwrap();
    match query(&store, QueryMsg::GetConfig {}).unwrap() {
        QueryAnswer::Config(c) => assert_eq!(c.owner, "creator"),
        other => panic!("unexpected answer: {:?}", other),
    }
    match query(&store, QueryMsg::GetTransfer { transfer_id: "transfer_0".to_string() }).unwrap() {
        QueryAnswer::Transfer(t) => assert_eq!(t.amount, 3),
        other => panic!("unexpected answer: {:?}", other),
    }
    match query(&store, QueryMsg::ListTransfers { start_after: None, limit: None }).unwrap() {
        QueryAnswer::Transfers(ts) => assert_eq!(ts.transfers.len(), 1),
        other => panic!("unexpected answer: {:?}", other),
    }
    let missing = query(&store, QueryMsg::GetTransfer { transfer_id: "nope".to_string() });
    assert_eq!(missing.unwrap_err(), ContractError::NotFound);
}
