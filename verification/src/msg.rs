//! The call and response shapes of the state machine: the tagged unions the
//! host dispatches on, the structured answers, and the host-supplied call
//! context.

use vstd::prelude::*;

use crate::state::{ConfigV, TransferStatus};

verus! {

/// Initialization call: creates the configuration with the caller as owner.
#[derive(Debug, PartialEq)]
pub struct InstantiateMsg {
    pub enabled: bool,
}

/// The state-changing calls.
#[derive(Debug, PartialEq)]
pub enum ExecuteMsg {
    InitiateTransfer { to: String, amount: u128 },
    CompleteTransfer { transfer_id: String },
    ToggleBridge { enabled: bool },
}

/// Mathematical model of an [`ExecuteMsg`].
pub ghost enum ExecuteMsgV {
    InitiateTransfer { to: Seq<char>, amount: u128 },
    CompleteTransfer { transfer_id: Seq<char> },
    ToggleBridge { enabled: bool },
}

impl View for ExecuteMsg {
    type V = ExecuteMsgV;

    open spec fn view(&self) -> ExecuteMsgV {
        match self {
            ExecuteMsg::InitiateTransfer { to, amount } => ExecuteMsgV::InitiateTransfer {
                to: to@,
                amount: *amount,
            },
            ExecuteMsg::CompleteTransfer { transfer_id } => ExecuteMsgV::CompleteTransfer {
                transfer_id: transfer_id@,
            },
            ExecuteMsg::ToggleBridge { enabled } => ExecuteMsgV::ToggleBridge { enabled: *enabled },
        }
    }
}

/// The read-only calls.
#[derive(Debug, PartialEq)]
pub enum QueryMsg {
    GetConfig {},
    GetTransfer { transfer_id: String },
    ListTransfers { start_after: Option<String>, limit: Option<u32> },
}

/// Mathematical model of a [`QueryMsg`].
pub ghost enum QueryMsgV {
    GetConfig,
    GetTransfer { transfer_id: Seq<char> },
    ListTransfers { start_after: Option<Seq<char>>, limit: Option<u32> },
}

impl View for QueryMsg {
    type V = QueryMsgV;

    open spec fn view(&self) -> QueryMsgV {
        match self {
            QueryMsg::GetConfig {  } => QueryMsgV::GetConfig,
            QueryMsg::GetTransfer { transfer_id } => QueryMsgV::GetTransfer {
                transfer_id: transfer_id@,
            },
            QueryMsg::ListTransfers { start_after, limit } => QueryMsgV::ListTransfers {
                start_after: match start_after {
                    None => None,
                    Some(s) => Some(s@),
                },
                limit: *limit,
            },
        }
    }
}

/// Answer to `GetConfig`: the configuration, verbatim.
#[derive(Debug, PartialEq)]
pub struct ConfigResponse {
    pub owner: String,
    pub enabled: bool,
}

impl View for ConfigResponse {
    type V = ConfigV;

    open spec fn view(&self) -> ConfigV {
        ConfigV { owner: self.owner@, enabled: self.enabled }
    }
}

/// One transfer record as reported to callers, with a human-readable
/// status tag.
#[derive(Debug, PartialEq)]
pub struct TransferInfo {
    pub id: String,
    pub from: String,
    pub to: String,
    pub amount: u128,
    pub status: String,
    pub timestamp: u64,
}

/// Mathematical model of a [`TransferInfo`].
pub ghost struct TransferInfoV {
    pub id: Seq<char>,
    pub from: Seq<char>,
    pub to: Seq<char>,
    pub amount: u128,
    pub status: Seq<char>,
    pub timestamp: u64,
}

impl View for TransferInfo {
    type V = TransferInfoV;

    open spec fn view(&self) -> TransferInfoV {
        TransferInfoV {
            id: self.id@,
            from: self.from@,
            to: self.to@,
            amount: self.amount,
            status: self.status@,
            timestamp: self.timestamp,
        }
    }
}

/// The reported form of the record `t` stored under identifier `id`.
pub open spec fn info_of(id: Seq<char>, t: crate::state::TransferV) -> TransferInfoV {
    TransferInfoV {
        id: id,
        from: t.from,
        to: t.to,
        amount: t.amount,
        status: status_label(t.status),
        timestamp: t.timestamp,
    }
}

/// The human-readable tag of a transfer status.
pub open spec fn status_label(st: TransferStatus) -> Seq<char> {
    match st {
        TransferStatus::Pending => "Pending"@,
        TransferStatus::Completed => "Completed"@,
        TransferStatus::Failed => "Failed"@,
    }
}

/// Renders the status tag promised by [`status_label`].
pub fn status_tag(st: TransferStatus) -> (r: &'static str)
    ensures
        r@ == status_label(st),
{
    match st {
        TransferStatus::Pending => "Pending",
        TransferStatus::Completed => "Completed",
        TransferStatus::Failed => "Failed",
    }
}

/// Answer to `ListTransfers`: one ascending page of records.
#[derive(Debug, PartialEq)]
pub struct TransfersResponse {
    pub transfers: Vec<TransferInfo>,
}

impl View for TransfersResponse {
    type V = Seq<TransferInfoV>;

    open spec fn view(&self) -> Seq<TransferInfoV> {
        Seq::new(self.transfers@.len(), |i: int| self.transfers@[i]@)
    }
}

/// Answer to a read-only call.
#[derive(Debug, PartialEq)]
pub enum QueryAnswer {
    Config(ConfigResponse),
    Transfer(TransferInfo),
    Transfers(TransfersResponse),
}

/// Mathematical model of a [`QueryAnswer`].
pub ghost enum QueryAnswerV {
    Config(ConfigV),
    Transfer(TransferInfoV),
    Transfers(Seq<TransferInfoV>),
}

impl View for QueryAnswer {
    type V = QueryAnswerV;

    open spec fn view(&self) -> QueryAnswerV {
        match self {
            QueryAnswer::Config(c) => QueryAnswerV::Config(c@),
            QueryAnswer::Transfer(t) => QueryAnswerV::Transfer(t@),
            QueryAnswer::Transfers(ts) => QueryAnswerV::Transfers(ts@),
        }
    }
}

/// One observable attribute of a successful state-changing call.
#[derive(Debug, PartialEq)]
pub struct Attribute {
    pub key: String,
    pub value: String,
}

impl View for Attribute {
    type V = (Seq<char>, Seq<char>);

    open spec fn view(&self) -> (Seq<char>, Seq<char>) {
        (self.key@, self.value@)
    }
}

/// The attributes of a response, as key/value character sequences.
pub type AttrsV = Seq<(Seq<char>, Seq<char>)>;

/// Structured success result of a state-changing call: a list of
/// key/value attributes for the caller to observe.
#[derive(Debug, PartialEq)]
pub struct Response {
    pub attributes: Vec<Attribute>,
}

impl View for Response {
    type V = AttrsV;

    open spec fn view(&self) -> AttrsV {
        Seq::new(self.attributes@.len(), |i: int| self.attributes@[i]@)
    }
}

impl Response {
    /// An empty response.
    pub fn new() -> (r: Response)
        ensures
            r@ == Seq::<(Seq<char>, Seq<char>)>::empty(),
    {
        let r = Response { attributes: Vec::new() };
        proof {
            assert(r@ =~= Seq::<(Seq<char>, Seq<char>)>::empty());
        }
        r
    }

    /// Appends one key/value attribute.
    pub fn add_attribute(&mut self, key: &'static str, value: String)
        ensures
            final(self)@ == old(self)@.push((key@, value@)),
    {
        self.attributes.push(Attribute { key: String::from_str(key), value });
        proof {
            assert(self@ =~= old(self)@.push((key@, value@)));
        }
    }
}

/// Host-supplied block context of the current call.
#[derive(Debug, PartialEq)]
pub struct Env {
    /// The current block height.
    pub height: u64,
    /// The current block time, in seconds since epoch.
    pub time_seconds: u64,
}

/// Host-authenticated metadata of the current call.
#[derive(Debug, PartialEq)]
pub struct MessageInfo {
    /// The authenticated caller identity, trusted as-is.
    pub sender: String,
}

} // verus!
