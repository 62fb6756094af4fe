use transactions::{
    Amount, Balance, Errors, Ledger, NormalTransaction, SettlementTransaction, Transaction,
};

fn deposit(client_id: u16, tx_id: u32, amount: &str) -> Transaction {
    Transaction::Normal {
        client_id,
        tx_id,
        kind: NormalTransaction::Deposit { amount: Amount::from_str(amount).unwrap() },
    }
}

fn withdraw(client_id: u16, tx_id: u32, amount: &str) -> Transaction {
    Transaction::Normal {
        client_id,
        tx_id,
        kind: NormalTransaction::Withdraw { amount: Amount::from_str(amount).unwrap() },
    }
}

fn dispute(client_id: u16, tx_id: u32, kind: SettlementTransaction) -> Transaction {
    Transaction::SettlementTransaction { client_id, tx_id, kind }
}

fn execute_tx(ledger: &mut Ledger, txs: &[Transaction]) {
    for tx in txs {
        let _ = ledger.handle_transaction(tx);
    }
}

fn ledger_sanity_check(ledger: &mut Ledger) {
    let mut accounts_total = Amount::zero();
    for (_, account) in ledger.entries() {
        accounts_total = accounts_total.checked_add(account.total()).unwrap();
    }
    assert_eq!(ledger.liabilities().checked_add(accounts_total).unwrap(), Amount::const_from_int(0));
}

fn assert_frozen(client_id: &u16, ledger: &Ledger) {
    let status = ledger.get_account(client_id).map(|x| x.status).expect("should be present");
    assert!(matches!(status, transactions::AccountStatus::Frozen));
}

fn assert_active(client_id: &u16, ledger: &Ledger) {
    let status = ledger.get_account(client_id).map(|x| x.status).expect("should be present");
    assert!(matches!(status, transactions::AccountStatus::Active));
}

fn assert_available(client_id: &u16, ledger: &Ledger, amount: Amount) {
    let available =
        ledger.get_account(client_id).map(|x| &x.available).expect("should be present");
    assert_eq!(*available, Balance { amount });
}

#[test]
fn add_funds_and_withdraw() {
    let mut ledger = Ledger::default();
    let deposit = deposit(1, 1, "15.5301");
    let withdraw = withdraw(1, 2, "5.52");
    let dispute_tx = dispute(1, 1, SettlementTransaction::Dispute);
    let resolve = dispute(1, 1, SettlementTransaction::Resolve);
    let txs = [deposit, withdraw, dispute_tx, resolve];
    execute_tx(&mut ledger, &txs);
    ledger_sanity_check(&mut ledger);
    assert_available(&1, &ledger, Amount::from_str("10.0101").unwrap());
    assert_active(&1, &ledger)
}

#[test]
fn double_entry_resolve() {
    let mut ledger = Ledger::default();
    let deposit = deposit(1, 1, "5.5");
    let withdraw = withdraw(1, 2, "5.5");
    let dispute_tx = dispute(1, 1, SettlementTransaction::Dispute);
    let resolve = dispute(1, 1, SettlementTransaction::Resolve);
    let txs = [deposit, withdraw, dispute_tx, resolve];
    execute_tx(&mut ledger, &txs);
    ledger_sanity_check(&mut ledger);
    assert_available(&1, &ledger, Amount::const_from_int(0));
    assert_active(&1, &ledger)
}

#[test]
fn double_entry_chargeback() {
    let mut ledger = Ledger::default();
    let deposit = deposit(1, 1, "5.5");
    let withdraw = withdraw(1, 2, "3.5");
    let dispute_tx = dispute(1, 1, SettlementTransaction::Dispute);
    let resolve = dispute(1, 1, SettlementTransaction::Chargeback);
    let txs = [deposit, withdraw, dispute_tx, resolve];
    execute_tx(&mut ledger, &txs);
    ledger_sanity_check(&mut ledger);
    assert_available(&1, &ledger, Amount::from_str("-3.5").unwrap());
    assert_frozen(&1, &ledger)
}

#[test]
fn double_entry_chargeback_multi() {
    let mut ledger = Ledger::default();
    let deposit_tx = deposit(1, 1, "5.5");
    let deposit_tx2 = deposit(1, 4, "5.5");
    let withdraw = withdraw(1, 2, "11.");
    let dispute_tx = dispute(1, 1, SettlementTransaction::Dispute);
    let resolve = dispute(1, 1, SettlementTransaction::Chargeback);
    let txs = [deposit_tx, deposit_tx2, withdraw, dispute_tx, resolve];
    execute_tx(&mut ledger, &txs);
    ledger_sanity_check(&mut ledger);
    assert_frozen(&1, &ledger)
}

#[test]
fn dispute_unknown_client_is_ignored() {
    let mut ledger = Ledger::default();
    execute_tx(&mut ledger, &[deposit(1, 1, "5.5")]);
    let r = ledger.handle_transaction(&dispute(9, 1, SettlementTransaction::Dispute));
    assert!(r.is_ok());
    assert!(ledger.get_account(&9).is_none());
    assert_eq!(ledger.entries().len(), 1);
    assert_available(&1, &ledger, Amount::from_str("5.5").unwrap());
    ledger_sanity_check(&mut ledger);
}

#[test]
fn dispute_unknown_transaction_is_ignored() {
    let mut ledger = Ledger::default();
    execute_tx(&mut ledger, &[deposit(1, 1, "5.5")]);
    let r = ledger.handle_transaction(&dispute(1, 99, SettlementTransaction::Dispute));
    assert!(r.is_ok());
    let account = ledger.get_account(&1).unwrap();
    assert_eq!(account.held, Balance { amount: Amount::const_from_int(0) });
    assert_available(&1, &ledger, Amount::from_str("5.5").unwrap());
}

#[test]
fn dispute_naming_a_withdrawal_is_ignored() {
    let mut ledger = Ledger::default();
    execute_tx(&mut ledger, &[deposit(1, 1, "5.5"), withdraw(1, 2, "1.5")]);
    let r = ledger.handle_transaction(&dispute(1, 2, SettlementTransaction::Dispute));
    assert!(r.is_ok());
    let account = ledger.get_account(&1).unwrap();
    assert_eq!(account.held, Balance { amount: Amount::const_from_int(0) });
    assert_available(&1, &ledger, Amount::from_str("4").unwrap());
}

#[test]
fn duplicate_deposit_is_ignored() {
    let mut ledger = Ledger::default();
    execute_tx(&mut ledger, &[deposit(1, 1, "5.5"), deposit(1, 1, "5.5")]);
    assert_available(&1, &ledger, Amount::from_str("5.5").unwrap());
    ledger_sanity_check(&mut ledger);
}

#[test]
fn duplicate_withdrawal_is_ignored() {
    let mut ledger = Ledger::default();
    execute_tx(&mut ledger, &[deposit(1, 1, "10"), withdraw(1, 2, "3"), withdraw(1, 2, "3")]);
    assert_available(&1, &ledger, Amount::from_str("7").unwrap());
    ledger_sanity_check(&mut ledger);
}

#[test]
fn withdrawal_over_available_is_ignored() {
    let mut ledger = Ledger::default();
    execute_tx(&mut ledger, &[deposit(1, 1, "5"), withdraw(1, 2, "10")]);
    assert_available(&1, &ledger, Amount::from_str("5").unwrap());
    ledger_sanity_check(&mut ledger);
}

#[test]
fn withdrawal_for_unknown_client_creates_entry() {
    let mut ledger = Ledger::default();
    execute_tx(&mut ledger, &[withdraw(7, 1, "2.5")]);
    assert!(ledger.get_account(&7).is_some());
    assert_available(&7, &ledger, Amount::const_from_int(0));
}

#[test]
fn frozen_account_absorbs_normal_transactions() {
    let mut ledger = Ledger::default();
    execute_tx(
        &mut ledger,
        &[
            deposit(1, 1, "5.5"),
            dispute(1, 1, SettlementTransaction::Dispute),
            dispute(1, 1, SettlementTransaction::Chargeback),
            deposit(1, 3, "100"),
            withdraw(1, 4, "1"),
        ],
    );
    assert_frozen(&1, &ledger);
    assert_available(&1, &ledger, Amount::const_from_int(0));
    ledger_sanity_check(&mut ledger);
}

#[test]
fn freeze_signal_raised_only_at_the_freezing_chargeback() {
    let mut ledger = Ledger::default();
    execute_tx(
        &mut ledger,
        &[
            deposit(1, 1, "5.5"),
            deposit(1, 2, "2"),
            dispute(1, 1, SettlementTransaction::Dispute),
            dispute(1, 2, SettlementTransaction::Dispute),
        ],
    );
    let first = ledger.handle_transaction(&dispute(1, 1, SettlementTransaction::Chargeback));
    assert_eq!(first, Err(Errors::AccountFrozen));
    let second = ledger.handle_transaction(&dispute(1, 2, SettlementTransaction::Chargeback));
    assert_eq!(second, Ok(()));
    assert_frozen(&1, &ledger);
    ledger_sanity_check(&mut ledger);
}

#[test]
fn resolve_without_dispute_is_ignored() {
    let mut ledger = Ledger::default();
    execute_tx(&mut ledger, &[deposit(1, 1, "5.5")]);
    let r = ledger.handle_transaction(&dispute(1, 1, SettlementTransaction::Resolve));
    assert!(r.is_ok());
    assert_available(&1, &ledger, Amount::from_str("5.5").unwrap());
    assert_active(&1, &ledger);
}

#[test]
fn chargeback_after_resolve_is_ignored() {
    let mut ledger = Ledger::default();
    execute_tx(
        &mut ledger,
        &[
            deposit(1, 1, "5.5"),
            dispute(1, 1, SettlementTransaction::Dispute),
            dispute(1, 1, SettlementTransaction::Resolve),
            dispute(1, 1, SettlementTransaction::Chargeback),
        ],
    );
    assert_active(&1, &ledger);
    assert_available(&1, &ledger, Amount::from_str("5.5").unwrap());
    ledger_sanity_check(&mut ledger);
}

#[test]
fn entries_are_ascending_by_client_id() {
    let mut ledger = Ledger::default();
    execute_tx(&mut ledger, &[deposit(30, 1, "1"), deposit(2, 2, "2"), deposit(7, 3, "3")]);
    let ids: Vec<u16> = ledger.entries().iter().map(|e| e.0).collect();
    assert_eq!(ids, vec![2, 7, 30]);
}
