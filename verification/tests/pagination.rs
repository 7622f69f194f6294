use transfer_bridge::contract::{execute_initiate_transfer, instantiate, query_list_transfers};
use transfer_bridge::msg::{Env, InstantiateMsg, MessageInfo, TransferInfo};
use transfer_bridge::state::LedgerStore;

fn env() -> Env {
    Env { height: 7, time_seconds: 1_000 }
}

fn info(sender: &str) -> MessageInfo {
    MessageInfo { sender: sender.to_string() }
}

/// A store holding `n` transfers with identifiers `transfer_0 .. transfer_<n-1>`.
fn store_with(n: usize) -> LedgerStore {
    let mut store = LedgerStore::new();
    instantiate(&mut store, &env(), &info("creator"), InstantiateMsg { enabled: true }).unwrap();
    for k in 0..n {
        execute_initiate_transfer(
            &mut store,
            &env(),
            &info("alice"),
            format!("dest_{}", k),
            (k + 1) as u128,
        )
        .unwrap();
    }
    store
}

fn ids(page: &[TransferInfo]) -> Vec<String> {
    page.iter().map(|t| t.id.clone()).collect()
}

#[test]
fn list_on_empty_store_is_empty() {
    let store = store_with(0);
    let listed = query_list_transfers(&store, None, None).unwrap();
    assert!(listed.transfers.is_empty());
}

#[test]
fn listing_is_ascending_by_identifier() {
    let store = store_with(12);
    let listed = query_list_transfers(&store, None, None).unwrap();
    assert_eq!(listed.transfers.len(), 12);
    let got = ids(&listed.transfers);
    let mut expected: Vec<String> = (0..12).map(|k| format!("transfer_{}", k)).collect();
    // identifiers are compared byte-wise, so "transfer_10" sorts before "transfer_2"
    expected.sort();
    assert_eq!(got, expected);
    assert_eq!(got[0], "transfer_0");
    assert_eq!(got[1], "transfer_1");
    assert_eq!(got[2], "transfer_10");
    assert_eq!(got[3], "transfer_11");
    assert_eq!(got[4], "transfer_2");
}

#[test]
fn default_limit_is_thirty() {
    let store = store_with(35);
    let listed = query_list_transfers(&store, None, None).unwrap();
    assert_eq!(listed.transfers.len(), 30);
}

#[test]
fn explicit_limit_caps_the_page() {
    let store = store_with(5);
    let listed = query_list_transfers(&store, None, Some(2)).unwrap();
    assert_eq!(listed.transfers.len(), 2);
    let listed = query_list_transfers(&store, None, Some(0)).unwrap();
    assert!(listed.transfers.is_empty());
    let listed = query_list_transfers(&store, None, Some(99)).unwrap();
    assert_eq!(listed.transfers.len(), 5);
}

#[test]
fn pages_chain_without_overlap_or_gap() {
    let n = 9;
    let k = 4;
    let store = store_with(n);
    let mut expected: Vec<String> = (0..n).map(|j| format!("transfer_{}", j)).collect();
    expected.sort();

    let mut collected: Vec<String> = Vec::new();
    let mut cursor: Option<String> = None;
    loop {
        let page = query_list_transfers(&store, cursor.clone(), Some(k)).unwrap();
        if page.transfers.is_empty() {
            break;
        }
        collected.extend(ids(&page.transfers));
        cursor = Some(page.transfers.last().unwrap().id.clone());
        if page.transfers.len() < k as usize {
            // a short page is the last one; the next call must return nothing
            let next = query_list_transfers(&store, cursor.clone(), Some(k)).unwrap();
            assert!(next.transfers.is_empty());
            break;
        }
    }
    assert_eq!(collected, expected);
}

#[test]
fn start_after_is_exclusive() {
    let store = store_with(3);
    let listed =
        query_list_transfers(&store, Some("transfer_0".to_string()), None).unwrap();
    assert_eq!(ids(&listed.transfers), vec!["transfer_1", "transfer_2"]);
}

#[test]
fn start_after_beyond_the_end_is_empty() {
    let store = store_with(3);
    let listed = query_list_transfers(&store, Some("transfer_9".to_string()), None).unwrap();
    assert!(listed.transfers.is_empty());
}

#[test]
fn start_after_between_keys_picks_the_next() {
    let store = store_with(3);
    // "transfer_1x" lies between "transfer_1" and "transfer_2" byte-wise
    let listed = query_list_transfers(&store, Some("transfer_1x".to_string()), None).unwrap();
    assert_eq!(ids(&listed.transfers), vec!["transfer_2"]);
}
