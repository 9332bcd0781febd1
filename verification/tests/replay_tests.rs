// Replay scenarios: whole streams of records run through `process_tx`.
// Amounts are fixed-point with four decimal digits: 10000 stands for 1.0000.

use ledger::process_tx;
use ledger::Record;
use ledger::TxKind;

fn rec(kind: TxKind, client: u16, tx: u32, amount: Option<i64>) -> Record {
    Record { kind, client, tx, amount }
}

#[test]
fn deposit() {
    let records = vec![
        rec(TxKind::Deposit, 1, 1, Some(10000)),
        rec(TxKind::Deposit, 2, 2, Some(25000)),
        rec(TxKind::Deposit, 1, 3, Some(7500)),
    ];
    let accounts = process_tx(&records).unwrap();
    for acc in accounts.into_iter() {
        assert_eq!(acc.held + acc.available, acc.total);
    }
}

#[test]
fn deposit_and_withdrawal() {
    let records = vec![
        rec(TxKind::Deposit, 1, 1, Some(10000)),
        rec(TxKind::Withdraw, 1, 2, Some(50000)),
    ];
    assert!(process_tx(&records).is_err());
}

#[test]
fn sums_up_to_zero() {
    let records = vec![
        rec(TxKind::Deposit, 1, 1, Some(30000)),
        rec(TxKind::Withdraw, 1, 2, Some(30000)),
    ];
    assert_eq!(process_tx(&records).unwrap()[0].total, 0);
}

#[test]
fn two_clients() {
    let records = vec![
        rec(TxKind::Deposit, 1, 1, Some(100000)),
        rec(TxKind::Withdraw, 1, 2, Some(10000)),
        rec(TxKind::Deposit, 2, 3, Some(60000)),
        rec(TxKind::Deposit, 2, 4, Some(40000)),
        rec(TxKind::Dispute, 2, 4, None),
    ];
    let accounts = process_tx(&records).unwrap();
    let acc1 = &accounts[0];
    let acc2 = &accounts[1];

    assert_eq!(acc1.total, 90000);
    assert_eq!(acc1.held, 0);
    assert_eq!(acc1.available, 90000);

    assert_eq!(acc2.total, 100000);
    assert_eq!(acc2.held, 40000);
    assert_eq!(acc2.available, 60000);
}

#[test]
fn dispute() {
    let records = vec![
        rec(TxKind::Deposit, 1, 1, Some(40000)),
        rec(TxKind::Withdraw, 1, 2, Some(40000)),
        rec(TxKind::Dispute, 1, 1, None),
    ];
    let accounts = process_tx(&records).unwrap();
    let acc = &accounts[0];
    assert_eq!(acc.total, 0);
    assert_eq!(acc.held, 40000);
    assert_eq!(acc.available, -40000);
}

#[test]
fn dispute_invalid_ignored() {
    let records = vec![
        rec(TxKind::Deposit, 1, 1, Some(40000)),
        rec(TxKind::Withdraw, 1, 2, Some(40000)),
        rec(TxKind::Dispute, 1, 99, None),
    ];
    let accounts = process_tx(&records).unwrap();
    let acc = &accounts[0];

    assert_eq!(acc.total, 0);
    assert_eq!(acc.held, 0);
    assert_eq!(acc.available, 0);
}

#[test]
fn dispute_resolved() {
    let records = vec![
        rec(TxKind::Deposit, 1, 1, Some(40000)),
        rec(TxKind::Dispute, 1, 1, None),
        rec(TxKind::Resolve, 1, 1, None),
    ];
    let accounts = process_tx(&records).unwrap();
    let acc = &accounts[0];

    assert_eq!(acc.total, 40000);
    assert_eq!(acc.held, 0);
    assert_eq!(acc.available, 40000);
}

#[test]
fn chargeback() {
    let records = vec![
        rec(TxKind::Deposit, 1, 1, Some(40000)),
        rec(TxKind::Withdraw, 1, 2, Some(30000)),
        rec(TxKind::Dispute, 1, 1, None),
        rec(TxKind::Chargeback, 1, 1, None),
    ];
    let accounts = process_tx(&records).unwrap();
    let acc = &accounts[0];

    assert_eq!(acc.total, -30000);
    assert_eq!(acc.held, 0);
    assert_eq!(acc.available, -30000);
    assert!(acc.locked);
}

#[test]
fn balance_invariant_mixed_stream() {
    let records = vec![
        rec(TxKind::Deposit, 1, 1, Some(55000)),
        rec(TxKind::Deposit, 2, 2, Some(125000)),
        rec(TxKind::Dispute, 1, 1, None),
        rec(TxKind::Withdraw, 2, 3, Some(5000)),
        rec(TxKind::Resolve, 1, 1, None),
        rec(TxKind::Deposit, 3, 4, Some(10000)),
        rec(TxKind::Dispute, 3, 4, None),
        rec(TxKind::Chargeback, 3, 4, None),
        rec(TxKind::Deposit, 3, 5, Some(10000)),
    ];
    let accounts = process_tx(&records).unwrap();
    assert_eq!(accounts.len(), 3);
    for acc in accounts.iter() {
        assert_eq!(acc.available + acc.held, acc.total);
    }
}

#[test]
fn ignored_conclusions_leave_accounts_unchanged() {
    let base = vec![
        rec(TxKind::Deposit, 1, 1, Some(40000)),
        rec(TxKind::Deposit, 1, 2, Some(20000)),
        rec(TxKind::Dispute, 1, 2, None),
    ];
    let mut noisy = base.clone();
    // tx 1 is on record but not disputed; tx 7 is unknown entirely.
    noisy.push(rec(TxKind::Resolve, 1, 1, None));
    noisy.push(rec(TxKind::Chargeback, 1, 1, None));
    noisy.push(rec(TxKind::Resolve, 1, 7, None));
    noisy.push(rec(TxKind::Chargeback, 1, 7, None));

    let a = &process_tx(&base).unwrap()[0];
    let b = &process_tx(&noisy).unwrap()[0];
    assert_eq!(a.available, b.available);
    assert_eq!(a.held, b.held);
    assert_eq!(a.total, b.total);
    assert_eq!(a.locked, b.locked);
    assert_eq!(a.hist.get(&1), b.hist.get(&1));
    assert_eq!(a.hist.get(&2), b.hist.get(&2));
    assert_eq!(
        a.disputed_tx.contains(&2),
        b.disputed_tx.contains(&2)
    );
}

#[test]
fn dispute_resolve_round_trip_closes_the_transaction() {
    let records = vec![
        rec(TxKind::Deposit, 1, 1, Some(70000)),
        rec(TxKind::Dispute, 1, 1, None),
        rec(TxKind::Resolve, 1, 1, None),
        // the concluded transaction can never be disputed again
        rec(TxKind::Dispute, 1, 1, None),
    ];
    let accounts = process_tx(&records).unwrap();
    let acc = &accounts[0];
    assert_eq!(acc.available, 70000);
    assert_eq!(acc.held, 0);
    assert_eq!(acc.total, 70000);
    assert!(!acc.locked);
    assert!(acc.hist.get(&1).is_none());
    assert!(!acc.disputed_tx.contains(&1));
}

#[test]
fn chargeback_freezes_the_account() {
    let records = vec![
        rec(TxKind::Deposit, 1, 1, Some(70000)),
        rec(TxKind::Dispute, 1, 1, None),
        rec(TxKind::Chargeback, 1, 1, None),
        // even a valid deposit is dropped once the account is locked
        rec(TxKind::Deposit, 1, 2, Some(10000)),
    ];
    let accounts = process_tx(&records).unwrap();
    let acc = &accounts[0];
    assert_eq!(acc.available, 0);
    assert_eq!(acc.held, 0);
    assert_eq!(acc.total, 0);
    assert!(acc.locked);
    assert!(acc.hist.get(&2).is_none());
}

#[test]
fn end_to_end_scenario() {
    let records = vec![
        rec(TxKind::Deposit, 1, 1, Some(50000)),
        rec(TxKind::Deposit, 1, 2, Some(40000)),
        rec(TxKind::Withdraw, 1, 3, Some(90000)),
        rec(TxKind::Deposit, 2, 4, Some(100000)),
        rec(TxKind::Dispute, 2, 4, None),
    ];
    let accounts = process_tx(&records).unwrap();
    assert_eq!(accounts.len(), 2);

    let acc1 = &accounts[0];
    assert_eq!(acc1.available, 0);
    assert_eq!(acc1.held, 0);
    assert_eq!(acc1.total, 0);
    assert!(!acc1.locked);

    let acc2 = &accounts[1];
    assert_eq!(acc2.available, 0);
    assert_eq!(acc2.held, 100000);
    assert_eq!(acc2.total, 100000);
    assert!(!acc2.locked);
}

#[test]
fn second_dispute_of_an_open_transaction_holds_it_twice() {
    // A deposit stays in history while its dispute is open, so a repeated
    // dispute of the same id moves the amount again.
    let records = vec![
        rec(TxKind::Deposit, 1, 1, Some(40000)),
        rec(TxKind::Dispute, 1, 1, None),
        rec(TxKind::Dispute, 1, 1, None),
    ];
    let accounts = process_tx(&records).unwrap();
    let acc = &accounts[0];
    assert_eq!(acc.available, -40000);
    assert_eq!(acc.held, 80000);
    assert_eq!(acc.total, 40000);
}

#[test]
fn missing_amount_aborts_the_run() {
    let deposit_without_amount = vec![rec(TxKind::Deposit, 1, 1, None)];
    assert!(matches!(
        process_tx(&deposit_without_amount),
        Err(ledger::TxError::AmountMandatory)
    ));

    let withdrawal_without_amount = vec![
        rec(TxKind::Deposit, 1, 1, Some(10000)),
        rec(TxKind::Withdraw, 1, 2, None),
    ];
    assert!(matches!(
        process_tx(&withdrawal_without_amount),
        Err(ledger::TxError::AmountMandatory)
    ));
}

#[test]
fn insufficient_funds_abort_the_run() {
    let records = vec![
        rec(TxKind::Deposit, 1, 1, Some(10000)),
        rec(TxKind::Withdraw, 1, 2, Some(10001)),
    ];
    assert!(matches!(
        process_tx(&records),
        Err(ledger::TxError::NotEnoughAvailableFunds)
    ));
}

#[test]
fn empty_stream_yields_no_accounts() {
    let records: Vec<Record> = Vec::new();
    assert!(process_tx(&records).unwrap().is_empty());
}
