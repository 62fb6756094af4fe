//! The ledger engine: client entries, the dispute state machine, and
//! the single entry point for transaction application.
//!
//! The whole behaviour of the engine is captured by the specification
//! function [`apply_transaction`], a pure transition over the
//! mathematical view [`LedgerV`]; [`Ledger::handle_transaction`]
//! promises to realise exactly that transition.  A transfer whose legs
//! would leave the 64-bit fixed-point range is absorbed as a silent
//! no-op, and the transaction is not recorded.
//!
//! The global invariant [`wf`] — the liabilities leg plus the sum of
//! all account totals is zero, and every total is representable — is
//! established by [`Ledger::new`] and preserved by every transition
//! ([`lemma_conservation`]).

use crate::account::{account_total, Account, AccountStatus, AccountV, Balance};
use crate::amount::{fits_i64, Amount};
use crate::transaction::{NormalTransaction, SettlementTransaction, Transaction};
use std::collections::BTreeMap;
use vstd::prelude::*;

verus! {

broadcast use vstd::std_specs::btree::group_btree_axioms, vstd::laws_cmp::group_laws_cmp;

/// State of one deposit in the dispute lifecycle.
#[derive(Clone, Copy, Debug, PartialEq, Eq, Structural)]
pub enum TransactionOutcomeKind {
    Applied,
    Disputed,
    Resolved,
    Chargeback,
}

/// Mathematical view of a [`DepositOutcome`].
pub ghost struct DepositV {
    pub kind: TransactionOutcomeKind,
    pub amount: int,
}

/// Per-deposit record: the lifecycle state and the original amount.
/// The identity is immutable once created; only the state advances.
#[derive(Clone, Copy, Debug)]
pub struct DepositOutcome {
    kind: TransactionOutcomeKind,
    amount: Amount,
}

impl View for DepositOutcome {
    type V = DepositV;

    closed spec fn view(&self) -> DepositV {
        DepositV { kind: self.kind, amount: self.amount@ }
    }
}

impl DepositOutcome {
    /// A freshly applied deposit of the given amount.
    fn applied(amount: Amount) -> (d: DepositOutcome)
        ensures
            d@ == (DepositV { kind: TransactionOutcomeKind::Applied, amount: amount@ }),
    {
        DepositOutcome { kind: TransactionOutcomeKind::Applied, amount }
    }
}

/// Failure kinds reported at the ledger boundary.
#[derive(Clone, Copy, Debug, PartialEq, Eq, Structural)]
pub enum Errors {
    AccountDoesNotExist,
    DisputedNonExistant,
    AccountFrozen,
}

/// Mathematical view of a [`Client`] entry.
pub ghost struct ClientV {
    pub account: AccountV,
    pub deposits: Map<u32, DepositV>,
    pub withdrawals: Map<u32, int>,
}

/// One client's entry: the account, the deposit outcomes keyed by
/// transaction id, and the withdrawal amounts kept only to detect
/// duplicate transaction ids.
pub struct Client {
    account: Account,
    deposits: BTreeMap<u32, DepositOutcome>,
    withdrawals: BTreeMap<u32, Amount>,
}

/// View of a deposit map, value by value.
pub open spec fn deposits_view(m: Map<u32, DepositOutcome>) -> Map<u32, DepositV> {
    Map::new(|k: u32| m.contains_key(k), |k: u32| m[k]@)
}

/// View of a withdrawal map, value by value.
pub open spec fn withdrawals_view(m: Map<u32, Amount>) -> Map<u32, int> {
    Map::new(|k: u32| m.contains_key(k), |k: u32| m[k]@)
}

impl View for Client {
    type V = ClientV;

    closed spec fn view(&self) -> ClientV {
        ClientV {
            account: self.account@,
            deposits: deposits_view(self.deposits@),
            withdrawals: withdrawals_view(self.withdrawals@),
        }
    }
}

/// The entry a client starts from: an empty active account and no
/// recorded transactions.
pub open spec fn client0() -> ClientV {
    ClientV {
        account: AccountV { available: 0, held: 0, status: AccountStatus::Active },
        deposits: Map::empty(),
        withdrawals: Map::empty(),
    }
}

/// The legs a deposit moves all stay representable.
pub open spec fn deposit_fits(c: ClientV, liab: int, amt: int) -> bool {
    &&& fits_i64(c.account.available + amt)
    &&& fits_i64(liab - amt)
    &&& fits_i64(account_total(c.account) + amt)
}

/// Effect of a deposit on one client entry and the liabilities leg.
/// A frozen account absorbs it; a repeated transaction id is a no-op;
/// otherwise the deposit is recorded and, when the legs fit, applied.
pub open spec fn dep_client(c: ClientV, liab: int, tx: u32, amt: int) -> (ClientV, int) {
    if c.account.status is Frozen {
        (c, liab)
    } else if c.deposits.contains_key(tx) {
        (c, liab)
    } else if deposit_fits(c, liab, amt) {
        (
            ClientV {
                account: AccountV { available: c.account.available + amt, ..c.account },
                deposits: c.deposits.insert(
                    tx,
                    DepositV { kind: TransactionOutcomeKind::Applied, amount: amt },
                ),
                ..c
            },
            liab - amt,
        )
    } else {
        (c, liab)
    }
}

/// The legs a withdrawal moves all stay representable.
pub open spec fn withdraw_fits(c: ClientV, liab: int, amt: int) -> bool {
    &&& fits_i64(c.account.available - amt)
    &&& fits_i64(liab + amt)
    &&& fits_i64(account_total(c.account) - amt)
}

/// Effect of a withdrawal on one client entry and the liabilities leg.
/// A frozen account absorbs it; a repeated transaction id is a no-op;
/// otherwise the transaction id is recorded, and the funds move only
/// when the available leg covers the amount and the legs fit.
pub open spec fn wd_client(c: ClientV, liab: int, tx: u32, amt: int) -> (ClientV, int) {
    if c.account.status is Frozen {
        (c, liab)
    } else if c.withdrawals.contains_key(tx) {
        (c, liab)
    } else if c.account.available >= amt && withdraw_fits(c, liab, amt) {
        (
            ClientV {
                account: AccountV { available: c.account.available - amt, ..c.account },
                withdrawals: c.withdrawals.insert(tx, amt),
                ..c
            },
            liab + amt,
        )
    } else {
        (ClientV { withdrawals: c.withdrawals.insert(tx, amt), ..c }, liab)
    }
}

/// The legs a hold moves both stay representable.
pub open spec fn hold_fits(c: ClientV, amt: int) -> bool {
    &&& fits_i64(c.account.available - amt)
    &&& fits_i64(c.account.held + amt)
}

/// Effect of a dispute: an `Applied` deposit owned by this client
/// becomes `Disputed` and its amount moves from available to held;
/// every other case is a no-op.
pub open spec fn dispute_client(c: ClientV, tx: u32) -> ClientV {
    if c.deposits.contains_key(tx) && c.deposits[tx].kind is Applied && hold_fits(
        c,
        c.deposits[tx].amount,
    ) {
        let amt = c.deposits[tx].amount;
        ClientV {
            account: AccountV {
                available: c.account.available - amt,
                held: c.account.held + amt,
                ..c.account
            },
            deposits: c.deposits.insert(
                tx,
                DepositV { kind: TransactionOutcomeKind::Disputed, amount: amt },
            ),
            ..c
        }
    } else {
        c
    }
}

/// The legs a resolve moves both stay representable.
pub open spec fn resolve_fits(c: ClientV, amt: int) -> bool {
    &&& fits_i64(c.account.held - amt)
    &&& fits_i64(c.account.available + amt)
}

/// Effect of a resolve: a `Disputed` deposit becomes `Resolved` and
/// its amount moves back from held to available; every other case is a
/// no-op.
pub open spec fn resolve_client(c: ClientV, tx: u32) -> ClientV {
    if c.deposits.contains_key(tx) && c.deposits[tx].kind is Disputed && resolve_fits(
        c,
        c.deposits[tx].amount,
    ) {
        let amt = c.deposits[tx].amount;
        ClientV {
            account: AccountV {
                available: c.account.available + amt,
                held: c.account.held - amt,
                ..c.account
            },
            deposits: c.deposits.insert(
                tx,
                DepositV { kind: TransactionOutcomeKind::Resolved, amount: amt },
            ),
            ..c
        }
    } else {
        c
    }
}

/// The legs a chargeback moves all stay representable.
pub open spec fn chargeback_fits(c: ClientV, liab: int, amt: int) -> bool {
    &&& fits_i64(c.account.held - amt)
    &&& fits_i64(liab + amt)
    &&& fits_i64(account_total(c.account) - amt)
}

/// Effect of a chargeback: a `Disputed` deposit reaches its terminal
/// `Chargeback` state, its amount leaves the held leg for liabilities,
/// and the account freezes; every other case is a no-op.
pub open spec fn chargeback_client(c: ClientV, liab: int, tx: u32) -> (ClientV, int) {
    if c.deposits.contains_key(tx) && c.deposits[tx].kind is Disputed && chargeback_fits(
        c,
        liab,
        c.deposits[tx].amount,
    ) {
        let amt = c.deposits[tx].amount;
        (
            ClientV {
                account: AccountV {
                    held: c.account.held - amt,
                    status: AccountStatus::Frozen,
                    ..c.account
                },
                deposits: c.deposits.insert(
                    tx,
                    DepositV { kind: TransactionOutcomeKind::Chargeback, amount: amt },
                ),
                ..c
            },
            liab + amt,
        )
    } else {
        (c, liab)
    }
}

/// Mathematical view of the whole [`Ledger`].
pub ghost struct LedgerV {
    pub liabilities: int,
    pub clients: Map<u16, ClientV>,
}

/// View of the client map, value by value.
pub open spec fn clients_view(m: Map<u16, Client>) -> Map<u16, ClientV> {
    Map::new(|k: u16| m.contains_key(k), |k: u16| m[k]@)
}

/// Effect of a deposit or withdrawal on the ledger.  The client entry
/// is created lazily on the first deposit or withdrawal naming a new
/// client id.
pub open spec fn apply_normal(l: LedgerV, client_id: u16, tx_id: u32, kind: NormalTransaction) -> LedgerV {
    let c = if l.clients.contains_key(client_id) {
        l.clients[client_id]
    } else {
        client0()
    };
    let r = match kind {
        NormalTransaction::Deposit { amount } => dep_client(c, l.liabilities, tx_id, amount@),
        NormalTransaction::Withdraw { amount } => wd_client(c, l.liabilities, tx_id, amount@),
    };
    LedgerV { liabilities: r.1, clients: l.clients.insert(client_id, r.0) }
}

/// Effect of a settlement event on the ledger, with its reported
/// outcome.  An unknown client id is a no-op reported as success;
/// `AccountFrozen` is reported exactly when this chargeback is the one
/// that freezes a previously active account.
pub open spec fn apply_settlement(
    l: LedgerV,
    client_id: u16,
    tx_id: u32,
    kind: SettlementTransaction,
) -> (LedgerV, Result<(), Errors>) {
    if !l.clients.contains_key(client_id) {
        (l, Ok(()))
    } else {
        let c = l.clients[client_id];
        match kind {
            SettlementTransaction::Dispute => (
                LedgerV { clients: l.clients.insert(client_id, dispute_client(c, tx_id)), ..l },
                Ok(()),
            ),
            SettlementTransaction::Resolve => (
                LedgerV { clients: l.clients.insert(client_id, resolve_client(c, tx_id)), ..l },
                Ok(()),
            ),
            SettlementTransaction::Chargeback => {
                let r = chargeback_client(c, l.liabilities, tx_id);
                (
                    LedgerV { liabilities: r.1, clients: l.clients.insert(client_id, r.0) },
                    if c.account.status is Active && r.0.account.status is Frozen {
                        Err(Errors::AccountFrozen)
                    } else {
                        Ok(())
                    },
                )
            },
        }
    }
}

/// Effect of one transaction on the ledger, with its reported outcome.
/// This single transition function is the complete behaviour of
/// [`Ledger::handle_transaction`].
pub open spec fn apply_transaction(l: LedgerV, t: Transaction) -> (LedgerV, Result<(), Errors>) {
    match t {
        Transaction::Normal { client_id, tx_id, kind } => (
            apply_normal(l, client_id, tx_id, kind),
            Ok(()),
        ),
        Transaction::SettlementTransaction { client_id, tx_id, kind } => apply_settlement(
            l,
            client_id,
            tx_id,
            kind,
        ),
    }
}

/// True when `v` fits the 64-bit leg representation.
fn in_i64_range(v: i128) -> (r: bool)
    ensures
        r == fits_i64(v as int),
{
    v >= (i64::MIN as i128) && v <= (i64::MAX as i128)
}

impl Client {
    /// A fresh client entry.
    fn new() -> (c: Client)
        ensures
            c@ == client0(),
    {
        let c = Client {
            account: Account::new(),
            deposits: BTreeMap::new(),
            withdrawals: BTreeMap::new(),
        };
        proof {
            assert(deposits_view(c.deposits@) =~= Map::<u32, DepositV>::empty());
            assert(withdrawals_view(c.withdrawals@) =~= Map::<u32, int>::empty());
        }
        c
    }

    /// Reports `AccountFrozen` when the account is frozen.
    fn wrap_error(&self) -> (r: Result<(), Errors>)
        ensures
            r == if self@.account.status is Frozen {
                Err::<(), Errors>(Errors::AccountFrozen)
            } else {
                Ok::<(), Errors>(())
            },
    {
        match self.account.status {
            AccountStatus::Frozen => Err(Errors::AccountFrozen),
            AccountStatus::Active => Ok(()),
        }
    }

    /// Applies a deposit to this entry, exactly as [`dep_client`] says.
    fn apply_deposit(&mut self, liabilities: &mut Balance, tx_id: u32, amount: Amount)
        ensures
            ({
                let r = dep_client(old(self)@, old(liabilities)@, tx_id, amount@);
                final(self)@ == r.0 && final(liabilities)@ == r.1
            }),
    {
        if matches!(self.account.status, AccountStatus::Frozen) {
            return;
        }
        if self.deposits.contains_key(&tx_id) {
            return;
        }
        let avail: i128 = self.account.available.amount.raw() as i128;
        let held: i128 = self.account.held.amount.raw() as i128;
        let liab: i128 = liabilities.amount.raw() as i128;
        let amt: i128 = amount.raw() as i128;
        if in_i64_range(avail + amt) && in_i64_range(liab - amt) && in_i64_range(
            avail + held + amt,
        ) {
            self.account.deposit(liabilities, amount);
            self.deposits.insert(tx_id, DepositOutcome::applied(amount));
            proof {
                let r = dep_client(old(self)@, old(liabilities)@, tx_id, amount@);
                assert(self@.deposits =~= r.0.deposits);
                assert(self@.withdrawals =~= r.0.withdrawals);
            }
        }
    }

    /// Applies a withdrawal to this entry, exactly as [`wd_client`]
    /// says.
    fn apply_withdraw(&mut self, liabilities: &mut Balance, tx_id: u32, amount: Amount)
        ensures
            ({
                let r = wd_client(old(self)@, old(liabilities)@, tx_id, amount@);
                final(self)@ == r.0 && final(liabilities)@ == r.1
            }),
    {
        if matches!(self.account.status, AccountStatus::Frozen) {
            return;
        }
        if self.withdrawals.contains_key(&tx_id) {
            return;
        }
        let avail: i128 = self.account.available.amount.raw() as i128;
        let held: i128 = self.account.held.amount.raw() as i128;
        let liab: i128 = liabilities.amount.raw() as i128;
        let amt: i128 = amount.raw() as i128;
        if self.account.available.amount.ge(&amount) && in_i64_range(avail - amt) && in_i64_range(
            liab + amt,
        ) && in_i64_range(avail + held - amt) {
            self.account.withdraw(liabilities, amount);
        }
        self.withdrawals.insert(tx_id, amount);
        proof {
            let r = wd_client(old(self)@, old(liabilities)@, tx_id, amount@);
            assert(self@.deposits =~= r.0.deposits);
            assert(self@.withdrawals =~= r.0.withdrawals);
        }
    }

    /// Handles a dispute event, exactly as [`dispute_client`] says.
    fn handle_dispute(&mut self, tx_id: u32) -> (r: Result<(), Errors>)
        ensures
            final(self)@ == dispute_client(old(self)@, tx_id),
            r == Ok::<(), Errors>(()),
    {
        match self.deposits.remove(&tx_id) {
            Some(dep) => {
                if matches!(dep.kind, TransactionOutcomeKind::Applied) {
                    let avail: i128 = self.account.available.amount.raw() as i128;
                    let held: i128 = self.account.held.amount.raw() as i128;
                    let amt: i128 = dep.amount.raw() as i128;
                    if in_i64_range(avail - amt) && in_i64_range(held + amt) {
                        self.account.hold(dep.amount);
                        self.deposits.insert(
                            tx_id,
                            DepositOutcome {
                                kind: TransactionOutcomeKind::Disputed,
                                amount: dep.amount,
                            },
                        );
                    } else {
                        self.deposits.insert(tx_id, dep);
                    }
                } else {
                    self.deposits.insert(tx_id, dep);
                }
            },
            None => {},
        }
        proof {
            assert(self@.deposits =~= dispute_client(old(self)@, tx_id).deposits);
            assert(self@.withdrawals =~= dispute_client(old(self)@, tx_id).withdrawals);
        }
        Ok(())
    }

    /// Handles a resolve event, exactly as [`resolve_client`] says.
    fn handle_resolve(&mut self, tx_id: u32) -> (r: Result<(), Errors>)
        ensures
            final(self)@ == resolve_client(old(self)@, tx_id),
            r == Ok::<(), Errors>(()),
    {
        match self.deposits.remove(&tx_id) {
            Some(dep) => {
                if matches!(dep.kind, TransactionOutcomeKind::Disputed) {
                    let avail: i128 = self.account.available.amount.raw() as i128;
                    let held: i128 = self.account.held.amount.raw() as i128;
                    let amt: i128 = dep.amount.raw() as i128;
                    if in_i64_range(held - amt) && in_i64_range(avail + amt) {
                        self.account.resolve(dep.amount);
                        self.deposits.insert(
                            tx_id,
                            DepositOutcome {
                                kind: TransactionOutcomeKind::Resolved,
                                amount: dep.amount,
                            },
                        );
                    } else {
                        self.deposits.insert(tx_id, dep);
                    }
                } else {
                    self.deposits.insert(tx_id, dep);
                }
            },
            None => {},
        }
        proof {
            assert(self@.deposits =~= resolve_client(old(self)@, tx_id).deposits);
            assert(self@.withdrawals =~= resolve_client(old(self)@, tx_id).withdrawals);
        }
        Ok(())
    }

    /// Handles a chargeback event, exactly as [`chargeback_client`]
    /// says, reporting `AccountFrozen` exactly when this call freezes
    /// a previously active account.
    fn handle_chargeback(&mut self, liabilities: &mut Balance, tx_id: u32) -> (r: Result<
        (),
        Errors,
    >)
        ensures
            ({
                let cr = chargeback_client(old(self)@, old(liabilities)@, tx_id);
                &&& final(self)@ == cr.0
                &&& final(liabilities)@ == cr.1
                &&& r == if old(self)@.account.status is Active && cr.0.account.status is Frozen {
                    Err::<(), Errors>(Errors::AccountFrozen)
                } else {
                    Ok::<(), Errors>(())
                }
            }),
    {
        let was_active = matches!(self.account.status, AccountStatus::Active);
        match self.deposits.remove(&tx_id) {
            Some(dep) => {
                if matches!(dep.kind, TransactionOutcomeKind::Disputed) {
                    let avail: i128 = self.account.available.amount.raw() as i128;
                    let held: i128 = self.account.held.amount.raw() as i128;
                    let liab: i128 = liabilities.amount.raw() as i128;
                    let amt: i128 = dep.amount.raw() as i128;
                    if in_i64_range(held - amt) && in_i64_range(liab + amt) && in_i64_range(
                        avail + held - amt,
                    ) {
                        self.account.chargeback(liabilities, dep.amount);
                        self.deposits.insert(
                            tx_id,
                            DepositOutcome {
                                kind: TransactionOutcomeKind::Chargeback,
                                amount: dep.amount,
                            },
                        );
                    } else {
                        self.deposits.insert(tx_id, dep);
                    }
                } else {
                    self.deposits.insert(tx_id, dep);
                }
            },
            None => {},
        }
        proof {
            assert(self@.deposits =~= chargeback_client(old(self)@, old(liabilities)@, tx_id).0.deposits);
            assert(self@.withdrawals =~= chargeback_client(
                old(self)@,
                old(liabilities)@,
                tx_id,
            ).0.withdrawals);
        }
        if was_active {
            self.wrap_error()
        } else {
            Ok(())
        }
    }
}

/// The ledger: every client entry plus the single liabilities leg.
pub struct Ledger {
    liabilities: Balance,
    accounts: BTreeMap<u16, Client>,
}

impl View for Ledger {
    type V = LedgerV;

    closed spec fn view(&self) -> LedgerV {
        LedgerV { liabilities: self.liabilities@, clients: clients_view(self.accounts@) }
    }
}

impl Ledger {
    /// An empty ledger: no clients, an empty liabilities leg.
    pub fn new() -> (l: Ledger)
        ensures
            l@ == (LedgerV { liabilities: 0, clients: Map::empty() }),
            wf(l@),
    {
        let l = Ledger { liabilities: Balance::new(), accounts: BTreeMap::new() };
        proof {
            assert(clients_view(l.accounts@) =~= Map::<u16, ClientV>::empty());
            lemma_sum_totals_empty(0x10000);
        }
        l
    }

    /// Applies a deposit or withdrawal, exactly as [`apply_normal`]
    /// says.
    fn handle_normal_transaction(&mut self, client_id: u16, tx_id: u32, tx: &NormalTransaction)
        ensures
            final(self)@ == apply_normal(old(self)@, client_id, tx_id, *tx),
    {
        let mut client = match self.accounts.remove(&client_id) {
            Some(c) => c,
            None => Client::new(),
        };
        match tx {
            NormalTransaction::Deposit { amount } => {
                client.apply_deposit(&mut self.liabilities, tx_id, *amount)
            },
            NormalTransaction::Withdraw { amount } => {
                client.apply_withdraw(&mut self.liabilities, tx_id, *amount)
            },
        }
        self.accounts.insert(client_id, client);
        proof {
            assert(self@.clients =~= apply_normal(old(self)@, client_id, tx_id, *tx).clients);
        }
    }

    /// Routes a settlement event, exactly as [`apply_settlement`] says.
    fn handle_settlement_transaction(
        &mut self,
        client_id: u16,
        tx_id: u32,
        tx: &SettlementTransaction,
    ) -> (r: Result<(), Errors>)
        ensures
            ({
                let sr = apply_settlement(old(self)@, client_id, tx_id, *tx);
                final(self)@ == sr.0 && r == sr.1
            }),
    {
        match self.accounts.remove(&client_id) {
            Some(mut client) => {
                let r = match tx {
                    SettlementTransaction::Dispute => client.handle_dispute(tx_id),
                    SettlementTransaction::Resolve => client.handle_resolve(tx_id),
                    SettlementTransaction::Chargeback => {
                        client.handle_chargeback(&mut self.liabilities, tx_id)
                    },
                };
                self.accounts.insert(client_id, client);
                proof {
                    assert(self@.clients =~= apply_settlement(
                        old(self)@,
                        client_id,
                        tx_id,
                        *tx,
                    ).0.clients);
                }
                r
            },
            None => {
                proof {
                    assert(self@.clients =~= old(self)@.clients);
                }
                Ok(())
            },
        }
    }

    /// Applies one transaction to the ledger.  The complete effect and
    /// the reported outcome are exactly those of
    /// [`apply_transaction`].
    pub fn handle_transaction(&mut self, tx: &Transaction) -> (r: Result<(), Errors>)
        ensures
            ({
                let tr = apply_transaction(old(self)@, *tx);
                final(self)@ == tr.0 && r == tr.1
            }),
    {
        match tx {
            Transaction::Normal { client_id, tx_id, kind } => {
                self.handle_normal_transaction(*client_id, *tx_id, kind);
                Ok(())
            },
            Transaction::SettlementTransaction { client_id, tx_id, kind } => self
                .handle_settlement_transaction(*client_id, *tx_id, kind),
        }
    }

    /// The value of the liabilities leg.
    pub fn liabilities(&self) -> (a: Amount)
        ensures
            a@ == self@.liabilities,
    {
        self.liabilities.amount
    }

    /// The account of one client, if the ledger knows the client.
    pub fn get_account(&self, client_id: &u16) -> (r: Option<&Account>)
        ensures
            match r {
                Some(a) => self@.clients.contains_key(*client_id) && a@ == self@.clients[*client_id].account,
                None => !self@.clients.contains_key(*client_id),
            },
    {
        match self.accounts.get(client_id) {
            Some(c) => Some(&c.account),
            None => None,
        }
    }

    /// All known clients and their accounts, ascending by client id.
    pub fn entries(&self) -> (r: Vec<(u16, Account)>)
        ensures
            r@.map_values(|p: (u16, Account)| (p.0, p.1@)) == ledger_entries(self@),
    {
        let mut out: Vec<(u16, Account)> = Vec::new();
        let mut k: u32 = 0;
        while k < 0x10000
            invariant
                k <= 0x10000,
                out@.map_values(|p: (u16, Account)| (p.0, p.1@)) =~= entries_below(
                    self@.clients,
                    k as int,
                ),
            decreases 0x10000 - k,
        {
            let key: u16 = k as u16;
            match self.accounts.get(&key) {
                Some(c) => {
                    out.push((key, c.account));
                },
                None => {},
            }
            k = k + 1;
            proof {
                assert(out@.map_values(|p: (u16, Account)| (p.0, p.1@)) =~= entries_below(
                    self@.clients,
                    k as int,
                ));
            }
        }
        out
    }
}

impl Default for Ledger {
    /// An empty ledger.
    fn default() -> (l: Ledger)
        ensures
            l@ == (LedgerV { liabilities: 0, clients: Map::empty() }),
            wf(l@),
    {
        Ledger::new()
    }
}

/// The entries for all client ids below `n`, ascending.
pub open spec fn entries_below(m: Map<u16, ClientV>, n: int) -> Seq<(u16, AccountV)>
    decreases n,
{
    if n <= 0 {
        Seq::empty()
    } else if m.contains_key((n - 1) as u16) {
        entries_below(m, n - 1).push(((n - 1) as u16, m[(n - 1) as u16].account))
    } else {
        entries_below(m, n - 1)
    }
}

/// The reported snapshot of a ledger: every client entry, ascending by
/// client id.
pub open spec fn ledger_entries(l: LedgerV) -> Seq<(u16, AccountV)> {
    entries_below(l.clients, 0x10000)
}

/// Sum of the account totals of all clients with an id below `n`.
pub open spec fn sum_totals_below(m: Map<u16, ClientV>, n: int) -> int
    decreases n,
{
    if n <= 0 {
        0
    } else if m.contains_key((n - 1) as u16) {
        sum_totals_below(m, n - 1) + account_total(m[(n - 1) as u16].account)
    } else {
        sum_totals_below(m, n - 1)
    }
}

/// The double-entry conservation invariant: the liabilities leg plus
/// the sum of all account totals is zero.
pub open spec fn conserved(l: LedgerV) -> bool {
    l.liabilities + sum_totals_below(l.clients, 0x10000) == 0
}

/// Every account total is representable in the 64-bit fixed-point
/// range.
pub open spec fn totals_fit(l: LedgerV) -> bool {
    forall|cid: u16|
        l.clients.contains_key(cid) ==> fits_i64(account_total(#[trigger] l.clients[cid].account))
}

/// Well-formedness of a ledger state: conservation plus representable
/// totals.  [`Ledger::new`] establishes it and [`lemma_conservation`]
/// shows every transaction preserves it, so it holds of every
/// reachable state.
pub open spec fn wf(l: LedgerV) -> bool {
    conserved(l) && totals_fit(l)
}

proof fn lemma_sum_totals_empty(n: int)
    ensures
        sum_totals_below(Map::<u16, ClientV>::empty(), n) == 0,
    decreases n,
{
    if n > 0 {
        lemma_sum_totals_empty(n - 1);
    }
}

proof fn lemma_sum_totals_insert(m: Map<u16, ClientV>, k: u16, v: ClientV, n: int)
    requires
        n <= 0x10000,
    ensures
        sum_totals_below(m.insert(k, v), n) == sum_totals_below(m, n) + if (k as int) < n {
            account_total(v.account) - if m.contains_key(k) {
                account_total(m[k].account)
            } else {
                0
            }
        } else {
            0
        },
    decreases n,
{
    if n > 0 {
        lemma_sum_totals_insert(m, k, v, n - 1);
    }
}

/// Conservation: for every reachable ledger state, the liabilities
/// leg plus the sum of all account totals is zero, and every total is
/// representable.  Holding at the empty ledger and preserved by every
/// transaction, the invariant holds of every reachable state.
pub proof fn lemma_conservation(l: LedgerV, t: Transaction)
    requires
        wf(l),
    ensures
        wf(apply_transaction(l, t).0),
{
    match t {
        Transaction::Normal { client_id, tx_id, kind } => {
            let c = if l.clients.contains_key(client_id) {
                l.clients[client_id]
            } else {
                client0()
            };
            let r = match kind {
                NormalTransaction::Deposit { amount } => dep_client(c, l.liabilities, tx_id, amount@),
                NormalTransaction::Withdraw { amount } => wd_client(
                    c,
                    l.liabilities,
                    tx_id,
                    amount@,
                ),
            };
            lemma_sum_totals_insert(l.clients, client_id, r.0, 0x10000);
        },
        Transaction::SettlementTransaction { client_id, tx_id, kind } => {
            if l.clients.contains_key(client_id) {
                let c = l.clients[client_id];
                match kind {
                    SettlementTransaction::Dispute => {
                        lemma_sum_totals_insert(l.clients, client_id, dispute_client(c, tx_id), 0x10000);
                    },
                    SettlementTransaction::Resolve => {
                        lemma_sum_totals_insert(l.clients, client_id, resolve_client(c, tx_id), 0x10000);
                    },
                    SettlementTransaction::Chargeback => {
                        let r = chargeback_client(c, l.liabilities, tx_id);
                        lemma_sum_totals_insert(l.clients, client_id, r.0, 0x10000);
                    },
                }
            }
        },
    }
}

/// Idempotency: re-applying an already-seen deposit or withdrawal
/// transaction id to its client is a no-op.
pub proof fn lemma_idempotency(l: LedgerV, client_id: u16, tx_id: u32, kind: NormalTransaction)
    requires
        l.clients.contains_key(client_id),
        match kind {
            NormalTransaction::Deposit { .. } => l.clients[client_id].deposits.contains_key(tx_id),
            NormalTransaction::Withdraw { .. } => l.clients[client_id].withdrawals.contains_key(
                tx_id,
            ),
        },
    ensures
        apply_normal(l, client_id, tx_id, kind).liabilities == l.liabilities,
        apply_normal(l, client_id, tx_id, kind).clients =~= l.clients,
{
}

/// Withdrawal guard: whenever a withdrawal actually moves funds, the
/// available leg stays at or above zero.
pub proof fn lemma_withdrawal_guard(c: ClientV, liab: int, tx_id: u32, amt: int)
    ensures
        ({
            let r = wd_client(c, liab, tx_id, amt);
            r.0.account.available != c.account.available ==> r.0.account.available >= 0
        }),
{
}

/// Freeze terminality, part one: a deposit or withdrawal aimed at a
/// frozen account changes nothing.
pub proof fn lemma_frozen_absorbs_normal(
    l: LedgerV,
    client_id: u16,
    tx_id: u32,
    kind: NormalTransaction,
)
    requires
        l.clients.contains_key(client_id),
        l.clients[client_id].account.status is Frozen,
    ensures
        apply_normal(l, client_id, tx_id, kind).liabilities == l.liabilities,
        apply_normal(l, client_id, tx_id, kind).clients =~= l.clients,
{
}

/// Freeze terminality, part two: no transaction ever returns a frozen
/// account to active.
pub proof fn lemma_frozen_terminal(l: LedgerV, t: Transaction, client_id: u16)
    requires
        l.clients.contains_key(client_id),
        l.clients[client_id].account.status is Frozen,
    ensures
        ({
            let l2 = apply_transaction(l, t).0;
            l2.clients.contains_key(client_id) && l2.clients[client_id].account.status is Frozen
        }),
{
}

/// The permitted evolutions of one deposit outcome: the amount is
/// immutable, and the state either stays or advances along
/// `Applied -> Disputed -> {Resolved, Chargeback}`.
pub open spec fn outcome_advances(before: DepositV, after: DepositV) -> bool {
    &&& after.amount == before.amount
    &&& {
        ||| after.kind == before.kind
        ||| (before.kind is Applied && after.kind is Disputed)
        ||| (before.kind is Disputed && after.kind is Resolved)
        ||| (before.kind is Disputed && after.kind is Chargeback)
    }
}

/// Dispute monotonicity: an existing deposit outcome is never removed
/// and only ever advances along the dispute lifecycle; every other
/// (state, event) pair leaves it unchanged.
pub proof fn lemma_dispute_monotonic(l: LedgerV, t: Transaction, client_id: u16, tx_id: u32)
    requires
        l.clients.contains_key(client_id),
        l.clients[client_id].deposits.contains_key(tx_id),
    ensures
        ({
            let l2 = apply_transaction(l, t).0;
            &&& l2.clients.contains_key(client_id)
            &&& l2.clients[client_id].deposits.contains_key(tx_id)
            &&& outcome_advances(
                l.clients[client_id].deposits[tx_id],
                l2.clients[client_id].deposits[tx_id],
            )
        }),
{
}

proof fn lemma_entries_below_props(m: Map<u16, ClientV>, n: int)
    requires
        n <= 0x10000,
    ensures
        forall|i: int|
            0 <= i < entries_below(m, n).len() ==> ((#[trigger] entries_below(m, n)[i].0) as int)
                < n && m.contains_key(entries_below(m, n)[i].0) && entries_below(m, n)[i].1
                == m[entries_below(m, n)[i].0].account,
        forall|i: int, j: int|
            0 <= i < j < entries_below(m, n).len() ==> (#[trigger] entries_below(m, n)[i].0)
                < (#[trigger] entries_below(m, n)[j].0),
        forall|k: u16|
            #[trigger] m.contains_key(k) && (k as int) < n ==> exists|i: int|
                0 <= i < entries_below(m, n).len() && (#[trigger] entries_below(m, n)[i]).0 == k,
    decreases n,
{
    if n > 0 {
        lemma_entries_below_props(m, n - 1);
        let prev = entries_below(m, n - 1);
        let cur = entries_below(m, n);
        assert(forall|i: int| 0 <= i < prev.len() ==> prev[i] == #[trigger] cur[i]);
        assert forall|k: u16|
            #[trigger] m.contains_key(k) && (k as int) < n implies exists|i: int|
            0 <= i < cur.len() && (#[trigger] cur[i]).0 == k by {
            if (k as int) < n - 1 {
                let i = choose|i: int| 0 <= i < prev.len() && (#[trigger] prev[i]).0 == k;
                assert(cur[i].0 == k);
            } else {
                assert(k as int == n - 1);
                assert(cur[cur.len() - 1].0 == k);
            }
        }
    }
}

/// The reported snapshot lists exactly the known clients, ascending by
/// client id, each paired with its account.
pub proof fn lemma_entries_complete(l: LedgerV)
    ensures
        forall|i: int|
            0 <= i < ledger_entries(l).len() ==> l.clients.contains_key(
                (#[trigger] ledger_entries(l)[i]).0,
            ) && ledger_entries(l)[i].1 == l.clients[ledger_entries(l)[i].0].account,
        forall|i: int, j: int|
            0 <= i < j < ledger_entries(l).len() ==> (#[trigger] ledger_entries(l)[i].0)
                < (#[trigger] ledger_entries(l)[j].0),
        forall|k: u16|
            #[trigger] l.clients.contains_key(k) ==> exists|i: int|
                0 <= i < ledger_entries(l).len() && (#[trigger] ledger_entries(l)[i]).0 == k,
{
    lemma_entries_below_props(l.clients, 0x10000);
}

/// In a well-formed ledger every total in the reported snapshot is
/// representable, which is all the snapshot renderer asks for.
pub proof fn lemma_wf_snapshot_fits(l: LedgerV)
    requires
        wf(l),
    ensures
        forall|i: int|
            0 <= i < ledger_entries(l).len() ==> fits_i64(
                account_total((#[trigger] ledger_entries(l)[i]).1),
            ),
{
    lemma_entries_below_props(l.clients, 0x10000);
    assert forall|i: int| 0 <= i < ledger_entries(l).len() implies fits_i64(
        account_total((#[trigger] ledger_entries(l)[i]).1),
    ) by {
        let k = ledger_entries(l)[i].0;
        assert(l.clients.contains_key(k));
        assert(fits_i64(account_total(l.clients[k].account)));
    }
}

} // verus!
