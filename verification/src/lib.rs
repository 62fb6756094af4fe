//! A small double-entry ledger engine for client payment accounts.
//!
//! The engine consumes a sequential stream of typed transactions —
//! deposits, withdrawals and the dispute lifecycle (dispute, resolve,
//! chargeback) — and maintains, per client, a balance split into
//! available and held funds plus an account status.  Every movement of
//! funds is a pairwise transfer between two balance legs, so the sum of
//! all legs (the clients' accounts plus one global liabilities leg) is
//! an invariant of the whole system.

use vstd::prelude::*;

mod amount;
mod account;
mod transaction;
mod ledger;
mod tabular;

pub use amount::{Amount, InvalidAmount};
pub use account::{Account, AccountStatus, Balance};
pub use transaction::{NormalTransaction, SettlementTransaction, Transaction, TryFromCsvTxError};
pub use ledger::{Client, DepositOutcome, Errors, Ledger, TransactionOutcomeKind};
pub use tabular::{
    dump_to_csv, Account as CsvAccount, Transaction as CsvTransaction,
    TransactionKind as CsvTransactionKind,
};

verus! {

/// Identifier of a client account.
pub type ClientId = u16;

/// Identifier of a transaction.
pub type TxId = u32;

} // verus!
