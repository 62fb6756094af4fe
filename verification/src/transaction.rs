//! Typed, validated transactions handed to the ledger.
//!
//! A decoded input row ([`crate::CsvTransaction`]) becomes a
//! [`Transaction`] through [`Transaction::try_from_csv`], which
//! enforces the boundary rule: deposits and withdrawals must carry a
//! strictly positive amount, settlement rows carry none.

use crate::amount::Amount;
use crate::tabular;
use vstd::prelude::*;

verus! {

/// A funds-moving transaction: a deposit or a withdrawal, with its
/// validated positive amount.
#[derive(Clone, Copy, Debug)]
pub enum NormalTransaction {
    Deposit { amount: Amount },
    Withdraw { amount: Amount },
}

/// A settlement event of the dispute lifecycle; settlement rows carry
/// no amount.
#[derive(Clone, Copy, Debug)]
pub enum SettlementTransaction {
    Dispute,
    Resolve,
    Chargeback,
}

/// One validated transaction, addressed to a client and identified by
/// a transaction id.
#[derive(Clone, Copy, Debug)]
#[allow(inconsistent_fields)]
pub enum Transaction {
    Normal { client_id: u16, tx_id: u32, kind: NormalTransaction },
    SettlementTransaction { client_id: u16, tx_id: u32, kind: SettlementTransaction },
}

/// Error for an input row whose amount is missing or not strictly
/// positive where one is required.
#[derive(Clone, Copy, Debug, PartialEq, Eq, Structural)]
pub struct TryFromCsvTxError;

/// Whether a decoded row passes boundary validation: deposits and
/// withdrawals need a present, strictly positive amount; settlement
/// rows always pass.
pub open spec fn row_is_valid(row: tabular::Transaction) -> bool {
    match row.kind {
        tabular::TransactionKind::Deposit | tabular::TransactionKind::Withdraw => match row.amount {
            Some(a) => a@ > 0,
            None => false,
        },
        _ => true,
    }
}

/// The transaction a valid row stands for.
pub open spec fn row_transaction(row: tabular::Transaction) -> Transaction
    recommends
        row_is_valid(row),
{
    match row.kind {
        tabular::TransactionKind::Deposit => Transaction::Normal {
            client_id: row.client_id,
            tx_id: row.tx_id,
            kind: NormalTransaction::Deposit { amount: row.amount->0 },
        },
        tabular::TransactionKind::Withdraw => Transaction::Normal {
            client_id: row.client_id,
            tx_id: row.tx_id,
            kind: NormalTransaction::Withdraw { amount: row.amount->0 },
        },
        tabular::TransactionKind::Dispute => Transaction::SettlementTransaction {
            client_id: row.client_id,
            tx_id: row.tx_id,
            kind: SettlementTransaction::Dispute,
        },
        tabular::TransactionKind::Resolve => Transaction::SettlementTransaction {
            client_id: row.client_id,
            tx_id: row.tx_id,
            kind: SettlementTransaction::Resolve,
        },
        tabular::TransactionKind::Chargeback => Transaction::SettlementTransaction {
            client_id: row.client_id,
            tx_id: row.tx_id,
            kind: SettlementTransaction::Chargeback,
        },
    }
}

impl Transaction {
    /// Validates a decoded row and turns it into a typed transaction.
    /// Deposits and withdrawals are accepted exactly when they carry a
    /// strictly positive amount; settlement rows are always accepted.
    pub fn try_from_csv(value: tabular::Transaction) -> (r: Result<Transaction, TryFromCsvTxError>)
        ensures
            match r {
                Ok(t) => row_is_valid(value) && t == row_transaction(value),
                Err(_) => !row_is_valid(value),
            },
    {
        match value.kind {
            tabular::TransactionKind::Deposit => match value.amount {
                Some(a) if a.is_positive() => Ok(
                    Transaction::Normal {
                        client_id: value.client_id,
                        tx_id: value.tx_id,
                        kind: NormalTransaction::Deposit { amount: a },
                    },
                ),
                _ => Err(TryFromCsvTxError),
            },
            tabular::TransactionKind::Withdraw => match value.amount {
                Some(a) if a.is_positive() => Ok(
                    Transaction::Normal {
                        client_id: value.client_id,
                        tx_id: value.tx_id,
                        kind: NormalTransaction::Withdraw { amount: a },
                    },
                ),
                _ => Err(TryFromCsvTxError),
            },
            tabular::TransactionKind::Dispute => Ok(
                Transaction::SettlementTransaction {
                    client_id: value.client_id,
                    tx_id: value.tx_id,
                    kind: SettlementTransaction::Dispute,
                },
            ),
            tabular::TransactionKind::Resolve => Ok(
                Transaction::SettlementTransaction {
                    client_id: value.client_id,
                    tx_id: value.tx_id,
                    kind: SettlementTransaction::Resolve,
                },
            ),
            tabular::TransactionKind::Chargeback => Ok(
                Transaction::SettlementTransaction {
                    client_id: value.client_id,
                    tx_id: value.tx_id,
                    kind: SettlementTransaction::Chargeback,
                },
            ),
        }
    }
}

} // verus!
