//! Plain record types for the tabular text boundary, and the canonical
//! text rendering of an account snapshot.
//!
//! The engine itself never performs input or output: the surrounding
//! program decodes rows into [`Transaction`] records and hands them to
//! the conversion in [`crate::transaction`], and reads the snapshot
//! back out through [`dump_to_csv`], which renders the rows as text.

use crate::account::{account_total, Account as CoreAccount, AccountStatus, AccountV};
use crate::amount::{amount_text, dec_digits, push_dec_digits, Amount};
use vstd::prelude::*;
use vstd::string::StringExecFns;

verus! {

/// The five row kinds of the tabular input.
#[derive(Clone, Copy, Debug, PartialEq, Eq, Structural)]
pub enum TransactionKind {
    Deposit,
    Withdraw,
    Dispute,
    Resolve,
    Chargeback,
}

/// One decoded input row: a kind, a client id, a transaction id, and
/// an optional amount.  Validation happens in the conversion to
/// [`crate::Transaction`], not here.
#[derive(Clone, Copy, Debug, PartialEq, Eq, Structural)]
pub struct Transaction {
    pub kind: TransactionKind,
    pub client_id: u16,
    pub tx_id: u32,
    pub amount: Option<Amount>,
}

/// One output row of the account snapshot.
#[derive(Clone, Copy, Debug, PartialEq, Eq, Structural)]
pub struct Account {
    pub client: u16,
    pub available: Amount,
    pub held: Amount,
    pub total: Amount,
    pub locked: bool,
}

impl Account {
    /// The output row for one ledger entry, or `None` when the totals
    /// leave the representable range.
    pub fn from_entry(client: u16, account: &CoreAccount) -> (r: Option<Account>)
        ensures
            match r {
                Some(row) => {
                    &&& fits_total(account@)
                    &&& row.client == client
                    &&& row.available@ == account@.available
                    &&& row.held@ == account@.held
                    &&& row.total@ == account_total(account@)
                    &&& row.locked == (account@.status is Frozen)
                },
                None => !fits_total(account@),
            },
    {
        match account.available.amount.checked_add(account.held.amount) {
            Some(total) => Some(
                Account {
                    client,
                    available: account.available.amount,
                    held: account.held.amount,
                    total,
                    locked: !matches!(account.status, AccountStatus::Active),
                },
            ),
            None => None,
        }
    }
}

/// Whether an account's total fits the fixed-point range.
pub open spec fn fits_total(a: AccountV) -> bool {
    crate::amount::fits_i64(account_total(a))
}

/// The header row of the snapshot output.
pub open spec fn csv_header() -> Seq<char> {
    "client,available,held,total,locked\n"@
}

/// The text of the `locked` column.
pub open spec fn bool_text(b: bool) -> Seq<char> {
    if b {
        "true"@
    } else {
        "false"@
    }
}

/// One output row: client id, available, held, total and locked flag,
/// comma-separated, with amounts in canonical decimal text.
pub open spec fn csv_line(client: u16, a: AccountV) -> Seq<char> {
    dec_digits(client as int) + ","@ + amount_text(a.available) + ","@ + amount_text(a.held) + ","@
        + amount_text(account_total(a)) + ","@ + bool_text(a.status is Frozen) + "\n"@
}

/// The rows for a sequence of entries, in order.
pub open spec fn csv_lines(rows: Seq<(u16, AccountV)>) -> Seq<char>
    decreases rows.len(),
{
    if rows.len() == 0 {
        Seq::empty()
    } else {
        csv_lines(rows.drop_last()) + csv_line(rows.last().0, rows.last().1)
    }
}

/// The whole snapshot text: the header followed by one row per entry.
pub open spec fn csv_text(rows: Seq<(u16, AccountV)>) -> Seq<char> {
    csv_header() + csv_lines(rows)
}

/// Renders an account snapshot as comma-separated text, one row per
/// entry in the given order, exactly as [`csv_text`] says.  Totals
/// must be representable; [`crate::ledger::wf`] guarantees that for
/// every snapshot a ledger reports.
#[verifier::loop_isolation(false)]
#[verifier::rlimit(60)]
pub fn dump_to_csv(entries: &Vec<(u16, CoreAccount)>) -> (r: String)
    requires
        forall|i: int| 0 <= i < entries@.len() ==> fits_total(entries@[i].1@),
    ensures
        r@ == csv_text(entries@.map_values(|p: (u16, CoreAccount)| (p.0, p.1@))),
{
    let ghost rows = entries@.map_values(|p: (u16, CoreAccount)| (p.0, p.1@));
    let mut s = String::new();
    s.append("client,available,held,total,locked\n");
    proof {
        assert(rows.take(0) =~= Seq::<(u16, AccountV)>::empty());
        assert(s@ =~= csv_text(rows.take(0)));
    }
    let mut i: usize = 0;
    while i < entries.len()
        invariant
            i <= entries@.len(),
            s@ == csv_text(rows.take(i as int)),
        decreases entries@.len() - i,
    {
        let client: u16 = entries[i].0;
        let account = entries[i].1;
        push_dec_digits(&mut s, client as u64);
        s.append(",");
        s.append(account.available.amount.to_text().as_str());
        s.append(",");
        s.append(account.held.amount.to_text().as_str());
        s.append(",");
        let total = account.total();
        s.append(total.to_text().as_str());
        s.append(",");
        if matches!(account.status, AccountStatus::Frozen) {
            s.append("true");
        } else {
            s.append("false");
        }
        s.append("\n");
        proof {
            assert(rows.take(i + 1).drop_last() =~= rows.take(i as int));
            assert(rows.take(i + 1).last() == rows[i as int]);
            assert(s@ =~= csv_text(rows.take(i + 1)));
        }
        i = i + 1;
    }
    proof {
        assert(rows.take(entries@.len() as int) =~= rows);
    }
    s
}

} // verus!
