//! The transfer state machine: the initialization call, the three
//! state-transition operations and the three read operations.  Each is a
//! pure function of (store, caller identity, arguments); its contract
//! equates what it does with a spec-level transition function.

use vstd::prelude::*;

use crate::error::ContractError;
use crate::msg::{AttrsV, ConfigResponse, Env, ExecuteMsg, ExecuteMsgV, InstantiateMsg,
    MessageInfo, QueryAnswer, QueryAnswerV, QueryMsg, QueryMsgV, Response, TransferInfo,
    TransferInfoV, TransfersResponse, info_of, status_tag};
use crate::state::{Config, ConfigV, EntryV, LedgerStore, StoreV, Transfer, TransferStatus,
    TransferV, complete_at, cursor_view, entries_view, has_key, insert_sorted, page_of, value_of};
use crate::text::{bool_str, dec_str, spec_bool_str, u128_to_dec};

verus! {

/// The default page size of `ListTransfers` when no limit is given.
pub const DEFAULT_LIMIT: u32 = 30;

/// The identifier minted for the transfer whose sequence number is `n`.
pub open spec fn transfer_id_of(n: u64) -> Seq<char> {
    "transfer_"@ + dec_str(n as nat)
}

/// The attributes of a state-changing call's result, or its error.
pub open spec fn result_view(r: Result<Response, ContractError>) -> Result<
    AttrsV,
    ContractError,
> {
    match r {
        Ok(resp) => Ok(resp@),
        Err(e) => Err(e),
    }
}

/// Initialization: the caller becomes the owner and the supplied flag gates
/// future initiations; transfers and the identifier source are untouched.
pub open spec fn spec_instantiate(s: StoreV, sender: Seq<char>, enabled: bool) -> (StoreV, AttrsV) {
    (
        (StoreV { config: Some(ConfigV { owner: sender, enabled }), ..s }),
        seq![
            ("method"@, "instantiate"@),
            ("owner"@, sender),
            ("enabled"@, spec_bool_str(enabled)),
        ],
    )
}

/// Initiating a transfer: requires an enabled configuration and a nonzero
/// amount, mints a fresh identifier, and records a `Pending` transfer; any
/// error leaves the store unchanged.
pub open spec fn spec_initiate(
    s: StoreV,
    sender: Seq<char>,
    to: Seq<char>,
    amount: u128,
    time: u64,
) -> (StoreV, Result<AttrsV, ContractError>) {
    match s.config {
        None => (s, Err(ContractError::NotFound)),
        Some(c) => if !c.enabled {
            (s, Err(ContractError::BridgeDisabled))
        } else if amount == 0 {
            (s, Err(ContractError::InvalidAmount))
        } else {
            let id = transfer_id_of(s.next_seq);
            if has_key(s.transfers, id) {
                (s, Err(ContractError::TransferExists))
            } else {
                let t = TransferV {
                    from: sender,
                    to: to,
                    amount: amount,
                    status: TransferStatus::Pending,
                    timestamp: time,
                };
                (
                    (StoreV {
                        config: s.config,
                        next_seq: (s.next_seq + 1) as u64,
                        transfers: insert_sorted(s.transfers, id, t),
                    }),
                    Ok(
                        seq![
                            ("action"@, "initiate_transfer"@),
                            ("transfer_id"@, id),
                            ("from"@, sender),
                            ("to"@, to),
                            ("amount"@, dec_str(amount as nat)),
                        ],
                    ),
                )
            }
        },
    }
}

/// Completing a transfer: only the owner may do it, the record must exist,
/// and only its status changes; any error leaves the store unchanged.
pub open spec fn spec_complete(s: StoreV, sender: Seq<char>, id: Seq<char>) -> (
    StoreV,
    Result<AttrsV, ContractError>,
) {
    match s.config {
        None => (s, Err(ContractError::NotFound)),
        Some(c) => if sender != c.owner {
            (s, Err(ContractError::Unauthorized))
        } else if !has_key(s.transfers, id) {
            (s, Err(ContractError::NotFound))
        } else {
            (
                (StoreV { transfers: complete_at(s.transfers, id), ..s }),
                Ok(seq![("action"@, "complete_transfer"@), ("transfer_id"@, id)]),
            )
        },
    }
}

/// Toggling the bridge: only the owner may do it; the flag is overwritten
/// with the desired value, idempotently.
pub open spec fn spec_toggle(s: StoreV, sender: Seq<char>, enabled: bool) -> (
    StoreV,
    Result<AttrsV, ContractError>,
) {
    match s.config {
        None => (s, Err(ContractError::NotFound)),
        Some(c) => if sender != c.owner {
            (s, Err(ContractError::Unauthorized))
        } else {
            (
                (StoreV { config: Some(ConfigV { owner: c.owner, enabled }), ..s }),
                Ok(seq![("action"@, "toggle_bridge"@), ("enabled"@, spec_bool_str(enabled))]),
            )
        },
    }
}

/// One state-changing call, dispatched on the message tag.
pub open spec fn spec_execute(s: StoreV, sender: Seq<char>, time: u64, m: ExecuteMsgV) -> (
    StoreV,
    Result<AttrsV, ContractError>,
) {
    match m {
        ExecuteMsgV::InitiateTransfer { to, amount } => spec_initiate(s, sender, to, amount, time),
        ExecuteMsgV::CompleteTransfer { transfer_id } => spec_complete(s, sender, transfer_id),
        ExecuteMsgV::ToggleBridge { enabled } => spec_toggle(s, sender, enabled),
    }
}

/// Creates the configuration with the caller as owner and the supplied
/// enable flag.  The host calls this exactly once, before any other call.
pub fn instantiate(
    store: &mut LedgerStore,
    _env: &Env,
    info: &MessageInfo,
    msg: InstantiateMsg,
) -> (r: Result<Response, ContractError>)
    requires
        old(store).wf(),
    ensures
        final(store).wf(),
        final(store)@ == spec_instantiate(old(store)@, info.sender@, msg.enabled).0,
        result_view(r) == Ok::<AttrsV, ContractError>(
            spec_instantiate(old(store)@, info.sender@, msg.enabled).1,
        ),
{
    let config = Config { owner: info.sender.clone(), enabled: msg.enabled };
    store.save_config(config);
    let mut resp = Response::new();
    resp.add_attribute("method", String::from_str("instantiate"));
    resp.add_attribute("owner", info.sender.clone());
    resp.add_attribute("enabled", String::from_str(bool_str(msg.enabled)));
    proof {
        assert(resp@ =~= spec_instantiate(old(store)@, info.sender@, msg.enabled).1);
    }
    Ok(resp)
}

/// One state-changing call against the store.
pub fn execute(store: &mut LedgerStore, env: &Env, info: &MessageInfo, msg: ExecuteMsg) -> (r:
    Result<Response, ContractError>)
    requires
        old(store).wf(),
        old(store)@.next_seq < u64::MAX,
    ensures
        final(store).wf(),
        final(store)@ == spec_execute(old(store)@, info.sender@, env.time_seconds, msg@).0,
        result_view(r) == spec_execute(old(store)@, info.sender@, env.time_seconds, msg@).1,
{
    match msg {
        ExecuteMsg::InitiateTransfer { to, amount } => execute_initiate_transfer(
            store,
            env,
            info,
            to,
            amount,
        ),
        ExecuteMsg::CompleteTransfer { transfer_id } => execute_complete_transfer(
            store,
            env,
            info,
            transfer_id,
        ),
        ExecuteMsg::ToggleBridge { enabled } => execute_toggle_bridge(store, info, enabled),
    }
}

/// Initiates a transfer of `amount` to `to`, minting a fresh identifier.
pub fn execute_initiate_transfer(
    store: &mut LedgerStore,
    env: &Env,
    info: &MessageInfo,
    to: String,
    amount: u128,
) -> (r: Result<Response, ContractError>)
    requires
        old(store).wf(),
        old(store)@.next_seq < u64::MAX,
    ensures
        final(store).wf(),
        final(store)@ == spec_initiate(old(store)@, info.sender@, to@, amount, env.time_seconds).0,
        result_view(r) == spec_initiate(
            old(store)@,
            info.sender@,
            to@,
            amount,
            env.time_seconds,
        ).1,
{
    let config = match store.load_config() {
        Ok(c) => c,
        Err(e) => {
            return Err(e);
        },
    };
    if !config.enabled {
        return Err(ContractError::BridgeDisabled);
    }
    if amount == 0 {
        return Err(ContractError::InvalidAmount);
    }
    let seq_no = store.next_seq();
    let mut transfer_id = String::from_str("transfer_");
    let digits = u128_to_dec(seq_no as u128);
    transfer_id.append(digits.as_str());
    proof {
        assert((seq_no as u128) as nat == seq_no as nat);
        assert(transfer_id@ == transfer_id_of(seq_no));
    }
    let transfer = Transfer {
        from: info.sender.clone(),
        to: to.clone(),
        amount,
        status: TransferStatus::Pending,
        timestamp: env.time_seconds,
    };
    match store.save_transfer(&transfer_id, transfer) {
        Ok(()) => {},
        Err(e) => {
            return Err(e);
        },
    }
    store.bump_seq();
    let mut resp = Response::new();
    resp.add_attribute("action", String::from_str("initiate_transfer"));
    resp.add_attribute("transfer_id", transfer_id);
    resp.add_attribute("from", info.sender.clone());
    resp.add_attribute("to", to);
    resp.add_attribute("amount", u128_to_dec(amount));
    proof {
        assert(resp@ =~= spec_initiate(
            old(store)@,
            info.sender@,
            to@,
            amount,
            env.time_seconds,
        ).1.unwrap());
    }
    Ok(resp)
}

/// Marks an existing transfer as completed; only the owner may do this.
pub fn execute_complete_transfer(
    store: &mut LedgerStore,
    _env: &Env,
    info: &MessageInfo,
    transfer_id: String,
) -> (r: Result<Response, ContractError>)
    requires
        old(store).wf(),
    ensures
        final(store).wf(),
        final(store)@ == spec_complete(old(store)@, info.sender@, transfer_id@).0,
        result_view(r) == spec_complete(old(store)@, info.sender@, transfer_id@).1,
{
    let config = match store.load_config() {
        Ok(c) => c,
        Err(e) => {
            return Err(e);
        },
    };
    if !(info.sender == config.owner) {
        return Err(ContractError::Unauthorized);
    }
    match store.mark_completed(&transfer_id) {
        Ok(()) => {},
        Err(e) => {
            return Err(e);
        },
    }
    let mut resp = Response::new();
    resp.add_attribute("action", String::from_str("complete_transfer"));
    resp.add_attribute("transfer_id", transfer_id);
    proof {
        assert(resp@ =~= spec_complete(old(store)@, info.sender@, transfer_id@).1.unwrap());
    }
    Ok(resp)
}

/// Sets the enable flag to the desired value; only the owner may do this.
pub fn execute_toggle_bridge(store: &mut LedgerStore, info: &MessageInfo, enabled: bool) -> (r:
    Result<Response, ContractError>)
    requires
        old(store).wf(),
    ensures
        final(store).wf(),
        final(store)@ == spec_toggle(old(store)@, info.sender@, enabled).0,
        result_view(r) == spec_toggle(old(store)@, info.sender@, enabled).1,
{
    let config = match store.load_config() {
        Ok(c) => c,
        Err(e) => {
            return Err(e);
        },
    };
    if !(info.sender == config.owner) {
        return Err(ContractError::Unauthorized);
    }
    store.save_config(Config { owner: config.owner, enabled });
    let mut resp = Response::new();
    resp.add_attribute("action", String::from_str("toggle_bridge"));
    resp.add_attribute("enabled", String::from_str(bool_str(enabled)));
    proof {
        assert(resp@ =~= spec_toggle(old(store)@, info.sender@, enabled).1.unwrap());
    }
    Ok(resp)
}

/// The configuration, verbatim.
pub open spec fn spec_get_config(s: StoreV) -> Result<ConfigV, ContractError> {
    match s.config {
        None => Err(ContractError::NotFound),
        Some(c) => Ok(c),
    }
}

/// The full record stored under `id`, with its human-readable status tag.
pub open spec fn spec_get_transfer(s: StoreV, id: Seq<char>) -> Result<
    TransferInfoV,
    ContractError,
> {
    if has_key(s.transfers, id) {
        Ok(info_of(id, value_of(s.transfers, id)))
    } else {
        Err(ContractError::NotFound)
    }
}

/// Up to `limit` (default [`DEFAULT_LIMIT`]) records in ascending
/// identifier order, strictly after the cursor `start` if one is given.
pub open spec fn spec_list_transfers(
    s: StoreV,
    start: Option<Seq<char>>,
    limit: Option<u32>,
) -> Seq<TransferInfoV> {
    let k = match limit {
        None => DEFAULT_LIMIT as nat,
        Some(l) => l as nat,
    };
    page_of(s.transfers, start, k).map(|i: int, e: EntryV| info_of(e.0, e.1))
}

/// One read-only call, dispatched on the message tag.
pub open spec fn spec_query(s: StoreV, m: QueryMsgV) -> Result<QueryAnswerV, ContractError> {
    match m {
        QueryMsgV::GetConfig => match spec_get_config(s) {
            Ok(c) => Ok(QueryAnswerV::Config(c)),
            Err(e) => Err(e),
        },
        QueryMsgV::GetTransfer { transfer_id } => match spec_get_transfer(s, transfer_id) {
            Ok(t) => Ok(QueryAnswerV::Transfer(t)),
            Err(e) => Err(e),
        },
        QueryMsgV::ListTransfers { start_after, limit } => Ok(
            QueryAnswerV::Transfers(spec_list_transfers(s, start_after, limit)),
        ),
    }
}

/// The pagination cursor of a `ListTransfers` call, as an optional
/// character sequence.
pub open spec fn opt_str_view(o: Option<String>) -> Option<Seq<char>> {
    match o {
        None => None,
        Some(s) => Some(s@),
    }
}

/// Returns the configured owner and enable flag.
pub fn query_config(store: &LedgerStore) -> (r: Result<ConfigResponse, ContractError>)
    ensures
        match r {
            Ok(resp) => spec_get_config(store@) == Ok::<ConfigV, ContractError>(resp@),
            Err(e) => spec_get_config(store@) == Err::<ConfigV, ContractError>(e),
        },
{
    let config = match store.load_config() {
        Ok(c) => c,
        Err(e) => {
            return Err(e);
        },
    };
    Ok(ConfigResponse { owner: config.owner, enabled: config.enabled })
}

/// Returns the full record stored under `transfer_id`.
pub fn query_transfer(store: &LedgerStore, transfer_id: String) -> (r: Result<
    TransferInfo,
    ContractError,
>)
    requires
        store.wf(),
    ensures
        match r {
            Ok(info) => spec_get_transfer(store@, transfer_id@) == Ok::<
                TransferInfoV,
                ContractError,
            >(info@),
            Err(e) => spec_get_transfer(store@, transfer_id@) == Err::<
                TransferInfoV,
                ContractError,
            >(e),
        },
{
    let t = match store.load_transfer(&transfer_id) {
        Ok(t) => t,
        Err(e) => {
            return Err(e);
        },
    };
    let status = String::from_str(status_tag(t.status));
    Ok(
        TransferInfo {
            id: transfer_id,
            from: t.from,
            to: t.to,
            amount: t.amount,
            status,
            timestamp: t.timestamp,
        },
    )
}

/// Returns one ascending page of records, for cursor-style pagination.
pub fn query_list_transfers(
    store: &LedgerStore,
    start_after: Option<String>,
    limit: Option<u32>,
) -> (r: Result<TransfersResponse, ContractError>)
    requires
        store.wf(),
    ensures
        match r {
            Ok(resp) => resp@ == spec_list_transfers(store@, opt_str_view(start_after), limit),
            Err(e) => false,
        },
{
    let lim: usize = match limit {
        None => 30,
        Some(l) => l as usize,
    };
    let cursor = start_after.as_ref();
    let pairs = store.page(cursor, lim);
    proof {
        assert(cursor_view(cursor) == opt_str_view(start_after));
    }
    let mut infos: Vec<TransferInfo> = Vec::new();
    let n = pairs.len();
    let mut i: usize = 0;
    while i < n
        invariant
            i <= n,
            n == pairs@.len(),
            infos@.len() == i,
            forall|j: int| #![auto] 0 <= j < i ==> infos@[j]@ == info_of(
                entries_view(pairs@)[j].0,
                entries_view(pairs@)[j].1,
            ),
        decreases n - i,
    {
        let id = pairs[i].0.clone();
        let t = pairs[i].1.duplicate();
        let status = String::from_str(status_tag(t.status));
        infos.push(
            TransferInfo {
                id,
                from: t.from,
                to: t.to,
                amount: t.amount,
                status,
                timestamp: t.timestamp,
            },
        );
        i += 1;
    }
    let resp = TransfersResponse { transfers: infos };
    proof {
        assert(resp@ =~= spec_list_transfers(store@, opt_str_view(start_after), limit));
    }
    Ok(resp)
}

/// One read-only call against the store.
pub fn query(store: &LedgerStore, msg: QueryMsg) -> (r: Result<QueryAnswer, ContractError>)
    requires
        store.wf(),
    ensures
        match r {
            Ok(a) => spec_query(store@, msg@) == Ok::<QueryAnswerV, ContractError>(a@),
            Err(e) => spec_query(store@, msg@) == Err::<QueryAnswerV, ContractError>(e),
        },
{
    match msg {
        QueryMsg::GetConfig {  } => match query_config(store) {
            Ok(c) => Ok(QueryAnswer::Config(c)),
            Err(e) => Err(e),
        },
        QueryMsg::GetTransfer { transfer_id } => match query_transfer(store, transfer_id) {
            Ok(t) => Ok(QueryAnswer::Transfer(t)),
            Err(e) => Err(e),
        },
        QueryMsg::ListTransfers { start_after, limit } => match query_list_transfers(
            store,
            start_after,
            limit,
        ) {
            Ok(ts) => Ok(QueryAnswer::Transfers(ts)),
            Err(e) => Err(e),
        },
    }
}

} // verus!
