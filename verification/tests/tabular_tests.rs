use transactions::{
    dump_to_csv, Account, AccountStatus, Amount, Balance, CsvAccount, CsvTransaction,
    CsvTransactionKind, Transaction, TryFromCsvTxError,
};

fn amount(s: &str) -> Amount {
    Amount::from_str(s).unwrap()
}

fn account(available: &str, held: &str, status: AccountStatus) -> Account {
    Account {
        available: Balance { amount: amount(available) },
        held: Balance { amount: amount(held) },
        status,
    }
}

#[test]
fn account_output_sample() {
    let entries = vec![(5u16, account("100.5500", "50.2300", AccountStatus::Active))];
    let expected = "client,available,held,total,locked\n5,100.55,50.23,150.78,false\n";
    assert_eq!(dump_to_csv(&entries), expected);
}

#[test]
fn output_marks_frozen_accounts_locked() {
    let entries = vec![
        (1u16, account("-3.5", "0", AccountStatus::Frozen)),
        (2u16, account("0", "5.5", AccountStatus::Active)),
    ];
    let expected = "client,available,held,total,locked\n1,-3.5,0,-3.5,true\n2,0,5.5,5.5,false\n";
    assert_eq!(dump_to_csv(&entries), expected);
}

#[test]
fn output_of_empty_snapshot_is_just_the_header() {
    let entries: Vec<(u16, Account)> = vec![];
    assert_eq!(dump_to_csv(&entries), "client,available,held,total,locked\n");
}

#[test]
fn from_entry_builds_the_output_row() {
    let row = CsvAccount::from_entry(5, &account("100.55", "50.23", AccountStatus::Active)).unwrap();
    assert_eq!(row.client, 5);
    assert_eq!(row.available, amount("100.55"));
    assert_eq!(row.held, amount("50.23"));
    assert_eq!(row.total, amount("150.78"));
    assert!(!row.locked);
    let frozen = CsvAccount::from_entry(9, &account("0", "1", AccountStatus::Frozen)).unwrap();
    assert!(frozen.locked);
}

fn row(kind: CsvTransactionKind, amount: Option<Amount>) -> CsvTransaction {
    CsvTransaction { kind, client_id: 6, tx_id: 5, amount }
}

#[test]
fn conversion_validates_normal_amounts() {
    let ok = Transaction::try_from_csv(row(CsvTransactionKind::Deposit, Some(amount("5.5"))));
    assert!(matches!(
        ok,
        Ok(Transaction::Normal { client_id: 6, tx_id: 5, .. })
    ));
    assert!(matches!(
        Transaction::try_from_csv(row(CsvTransactionKind::Deposit, None)),
        Err(TryFromCsvTxError)
    ));
    assert!(matches!(
        Transaction::try_from_csv(row(CsvTransactionKind::Withdraw, Some(amount("0")))),
        Err(TryFromCsvTxError)
    ));
    assert!(matches!(
        Transaction::try_from_csv(row(CsvTransactionKind::Withdraw, Some(amount("-1")))),
        Err(TryFromCsvTxError)
    ));
}

#[test]
fn conversion_accepts_settlement_rows_without_amounts() {
    assert!(Transaction::try_from_csv(row(CsvTransactionKind::Dispute, None)).is_ok());
    assert!(Transaction::try_from_csv(row(CsvTransactionKind::Resolve, None)).is_ok());
    assert!(Transaction::try_from_csv(row(CsvTransactionKind::Chargeback, None)).is_ok());
}
