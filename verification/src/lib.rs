//! A deterministic ledger state machine for cross-party value transfers.
//!
//! A party initiates a transfer, the configured owner marks it completed,
//! and the owner can globally enable or disable new initiations.  All
//! persistent state lives in an explicit [`state::LedgerStore`] value that
//! the host hands to every operation; each operation is a pure function of
//! (store, caller identity, arguments) that either updates the store and
//! returns a structured response, or returns a typed error and leaves the
//! store untouched.

pub mod contract;
pub mod error;
pub mod laws;
pub mod msg;
pub mod order;
pub mod state;
pub mod text;

pub use error::ContractError;
