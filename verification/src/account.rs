//! Balance legs and client accounts.
//!
//! A [`Balance`] is one signed ledger leg.  Its only mutation is the
//! pairwise [`Balance::transfer`], which debits one leg and credits
//! another by the same amount as one inseparable step; any set of legs
//! closed under `transfer` therefore has a constant sum.  An
//! [`Account`] is a client's available leg, held leg and status, and
//! every account operation is expressed as a leg transfer.

use crate::amount::{fits_i64, Amount};
use vstd::prelude::*;

verus! {

/// Status of an account: `Active` initially, `Frozen` permanently
/// after a chargeback.
#[derive(Clone, Copy, Debug, PartialEq, Eq, Structural)]
pub enum AccountStatus {
    Active,
    Frozen,
}

impl Default for AccountStatus {
    /// Accounts start out `Active`.
    fn default() -> (s: AccountStatus)
        ensures
            s == AccountStatus::Active,
    {
        AccountStatus::Active
    }
}

/// One signed ledger leg.
#[derive(Clone, Copy, Debug, PartialEq, Eq, Structural)]
pub struct Balance {
    pub amount: Amount,
}

impl View for Balance {
    type V = int;

    open spec fn view(&self) -> int {
        self.amount@
    }
}

impl Balance {
    /// A leg holding nothing.
    pub(crate) fn new() -> (b: Balance)
        ensures
            b@ == 0,
    {
        Balance { amount: Amount::zero() }
    }

    /// Debits `self` and credits `target` by `amount`, as one
    /// inseparable step.  This is the only mutation of a leg anywhere
    /// in the engine.
    pub(crate) fn transfer(&mut self, target: &mut Balance, amount: Amount)
        requires
            fits_i64(old(self)@ - amount@),
            fits_i64(old(target)@ + amount@),
        ensures
            final(self)@ == old(self)@ - amount@,
            final(target)@ == old(target)@ + amount@,
    {
        self.amount = self.amount.sub_exact(amount);
        target.amount = target.amount.add_exact(amount);
    }
}

impl Default for Balance {
    /// A leg holding nothing.
    fn default() -> (b: Balance)
        ensures
            b@ == 0,
    {
        Balance { amount: Amount::zero() }
    }
}

/// Mathematical view of an [`Account`]: the two leg values and the
/// status.
pub ghost struct AccountV {
    pub available: int,
    pub held: int,
    pub status: AccountStatus,
}

/// Net funds attributable to the account: available plus held.
pub open spec fn account_total(a: AccountV) -> int {
    a.available + a.held
}

/// A client account: an available leg, a held leg and a status.
#[derive(Clone, Copy, Debug)]
pub struct Account {
    pub available: Balance,
    pub held: Balance,
    pub status: AccountStatus,
}

impl View for Account {
    type V = AccountV;

    open spec fn view(&self) -> AccountV {
        AccountV { available: self.available@, held: self.held@, status: self.status }
    }
}

impl Account {
    /// A fresh account: both legs empty, status `Active`.
    pub(crate) fn new() -> (a: Account)
        ensures
            a@ == (AccountV { available: 0, held: 0, status: AccountStatus::Active }),
    {
        Account { available: Balance::new(), held: Balance::new(), status: AccountStatus::Active }
    }

    /// Net funds attributable to the client: available plus held.
    pub fn total(&self) -> (t: Amount)
        requires
            fits_i64(account_total(self@)),
        ensures
            t@ == account_total(self@),
    {
        self.available.amount.add_exact(self.held.amount)
    }

    /// Moves `amount` from the liabilities leg into the available leg.
    pub fn deposit(&mut self, source: &mut Balance, amount: Amount)
        requires
            fits_i64(old(source)@ - amount@),
            fits_i64(old(self)@.available + amount@),
        ensures
            final(self)@ == (AccountV {
                available: old(self)@.available + amount@,
                ..old(self)@
            }),
            final(source)@ == old(source)@ - amount@,
    {
        source.transfer(&mut self.available, amount)
    }

    /// Moves `amount` from the available leg to the liabilities leg,
    /// only when the available leg covers it; a request for more than
    /// is available leaves everything unchanged.
    pub fn withdraw(&mut self, target: &mut Balance, amount: Amount)
        requires
            fits_i64(old(target)@ + amount@),
            fits_i64(old(self)@.available - amount@),
        ensures
            old(self)@.available >= amount@ ==> final(self)@ == (AccountV {
                available: old(self)@.available - amount@,
                ..old(self)@
            }) && final(target)@ == old(target)@ + amount@,
            old(self)@.available < amount@ ==> final(self)@ == old(self)@ && final(target)@ == old(
                target,
            )@,
    {
        if self.available.amount.ge(&amount) {
            self.available.transfer(target, amount)
        }
    }

    /// Moves `amount` from the available leg into the held leg,
    /// unguarded: holding a disputed deposit may legally drive the
    /// available leg negative.
    pub fn hold(&mut self, amount: Amount)
        requires
            fits_i64(old(self)@.available - amount@),
            fits_i64(old(self)@.held + amount@),
        ensures
            final(self)@ == (AccountV {
                available: old(self)@.available - amount@,
                held: old(self)@.held + amount@,
                ..old(self)@
            }),
    {
        self.available.transfer(&mut self.held, amount)
    }

    /// Moves `amount` back from the held leg into the available leg.
    pub fn resolve(&mut self, amount: Amount)
        requires
            fits_i64(old(self)@.held - amount@),
            fits_i64(old(self)@.available + amount@),
        ensures
            final(self)@ == (AccountV {
                available: old(self)@.available + amount@,
                held: old(self)@.held - amount@,
                ..old(self)@
            }),
    {
        self.held.transfer(&mut self.available, amount)
    }

    /// Moves `amount` from the held leg to the liabilities leg and
    /// freezes the account, unconditionally.
    pub fn chargeback(&mut self, target: &mut Balance, amount: Amount)
        requires
            fits_i64(old(self)@.held - amount@),
            fits_i64(old(target)@ + amount@),
        ensures
            final(self)@ == (AccountV {
                held: old(self)@.held - amount@,
                status: AccountStatus::Frozen,
                ..old(self)@
            }),
            final(target)@ == old(target)@ + amount@,
    {
        self.held.transfer(target, amount);
        self.status = AccountStatus::Frozen;
    }
}

impl Default for Account {
    /// A fresh account: both legs empty, status `Active`.
    fn default() -> (a: Account)
        ensures
            a@ == (AccountV { available: 0, held: 0, status: AccountStatus::Active }),
    {
        Account { available: Balance::new(), held: Balance::new(), status: AccountStatus::Active }
    }
}

} // verus!
