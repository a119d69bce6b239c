//! Ledger logic of a cryptocurrency service that hides transfer amounts and
//! account balances behind Pedersen commitments, while keeping the identities
//! of the transacting wallets public.
//!
//! The crate holds the rules of the service: commitments and range proofs,
//! the three kinds of transactions with their checks, the ledger state they
//! act on, the expiry of transfers that nobody accepted, and the checks a thin
//! client runs on a wallet proof. What needs a consensus engine, a Merkelized
//! store, signatures or an encrypted channel is handed in as plain values by
//! the host.

use std::ops::Range;
use vstd::prelude::*;

pub mod api;
pub mod collections;
pub mod crypto;
pub mod debug;
pub mod ledger;
pub mod secrets;
pub mod storage;
pub mod transactions;
pub mod utils;

pub use crate::api::Api;
pub use crate::debug::{DebugEvent, DebuggerOptions, DebuggerProbe};
pub use crate::secrets::{EncryptedData, SecretState, VerifiedTransfer};
pub use crate::storage::{Schema, Wallet};
pub use crate::transactions::Transactions;

verus! {

/// Service configuration.
#[derive(Debug, PartialEq, Eq, Hash)]
pub struct Config {
    /// Initial amount of tokens for a new account.
    pub initial_balance: u64,
    /// Acceptable bounds on the rollback delay of a transfer.
    pub rollback_delay_bounds: Range<u32>,
    /// Minimum acceptable transfer amount.
    pub min_transfer_amount: u64,
}

impl Clone for Config {
    fn clone(&self) -> (copy: Config)
        ensures
            copy == *self,
    {
        Config {
            initial_balance: self.initial_balance,
            rollback_delay_bounds: self.rollback_delay_bounds.start..self.rollback_delay_bounds.end,
            min_transfer_amount: self.min_transfer_amount,
        }
    }
}

/// Identifier under which the service is registered.
pub const SERVICE_ID: u16 = 2_000;

/// Initial amount of tokens for a new account.
pub const INITIAL_BALANCE: u64 = 1_000_000;

/// Least acceptable rollback delay, in blocks.
pub const MIN_ROLLBACK_DELAY: u32 = 5;

/// Least rollback delay that is no longer acceptable, in blocks.
pub const MAX_ROLLBACK_DELAY: u32 = 1_000;

/// Minimum acceptable transfer amount.
pub const MIN_TRANSFER_AMOUNT: u64 = 1;

/// Service configuration.
pub fn config() -> (config: Config)
    ensures
        config.initial_balance == INITIAL_BALANCE,
        config.rollback_delay_bounds.start == MIN_ROLLBACK_DELAY,
        config.rollback_delay_bounds.end == MAX_ROLLBACK_DELAY,
        config.min_transfer_amount == MIN_TRANSFER_AMOUNT,
{
    Config {
        initial_balance: INITIAL_BALANCE,
        rollback_delay_bounds: MIN_ROLLBACK_DELAY..MAX_ROLLBACK_DELAY,
        min_transfer_amount: MIN_TRANSFER_AMOUNT,
    }
}

/// Human-readable service name.
pub const SERVICE_NAME: &'static str = "private_currency";

} // verus!
