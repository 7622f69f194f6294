//! Typed failures of the transfer state machine.

use vstd::prelude::*;

verus! {

/// Every error is terminal for the enclosing call: the host rolls back all
/// of the call's writes, and the verified operations additionally promise
/// that they leave the store value unchanged on any `Err`.
#[derive(Clone, Copy, Debug, PartialEq, Eq, Structural)]
pub enum ContractError {
    /// The caller is not the configured owner.
    Unauthorized,
    /// A transfer record with the same identifier already exists; the store
    /// refuses to overwrite it.
    TransferExists,
    /// New initiations are disabled by the configuration.
    BridgeDisabled,
    /// A transfer was initiated with a zero amount.
    InvalidAmount,
    /// The configuration, or the named transfer record, does not exist.
    NotFound,
}

impl ContractError {
    /// A human-readable message for each error tag.
    pub fn message(&self) -> (r: &'static str)
        ensures
            r@ == self.spec_message(),
    {
        match self {
            ContractError::Unauthorized => "Unauthorized",
            ContractError::TransferExists => "Transfer already exists",
            ContractError::BridgeDisabled => "Bridge is disabled",
            ContractError::InvalidAmount => "Invalid transfer amount",
            ContractError::NotFound => "Not found",
        }
    }

    /// The message promised by [`ContractError::message`].
    pub open spec fn spec_message(&self) -> Seq<char> {
        match self {
            ContractError::Unauthorized => "Unauthorized"@,
            ContractError::TransferExists => "Transfer already exists"@,
            ContractError::BridgeDisabled => "Bridge is disabled"@,
            ContractError::InvalidAmount => "Invalid transfer amount"@,
            ContractError::NotFound => "Not found"@,
        }
    }
}

} // verus!
