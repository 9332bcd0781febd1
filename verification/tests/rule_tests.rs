// Unit tests for the single transition rules and the ledger's own methods.
// Amounts are fixed-point with four decimal digits: 10000 stands for 1.0000.

use ledger::AccountState;
use ledger::Chargeback;
use ledger::Deposit;
use ledger::Dispute;
use ledger::Ledger;
use ledger::Record;
use ledger::Resolve;
use ledger::Transaction;
use ledger::TxError;
use ledger::TxKind;
use ledger::Withdrawal;

#[test]
fn deposit_credits_available_and_total() {
    let mut acc = AccountState::new(1);
    let dep = Deposit::create(1, Some(12500)).unwrap();
    dep.apply(&mut acc).unwrap();
    assert_eq!(acc.available, 12500);
    assert_eq!(acc.held, 0);
    assert_eq!(acc.total, 12500);
    assert_eq!(acc.hist.get(&1), Some(&12500));
}

#[test]
fn create_demands_an_amount() {
    assert!(matches!(
        Deposit::create(1, None),
        Err(TxError::AmountMandatory)
    ));
    assert!(matches!(
        Withdrawal::create(1, None),
        Err(TxError::AmountMandatory)
    ));
    assert!(Dispute::create(1, None).is_ok());
    assert!(Resolve::create(1, None).is_ok());
    assert!(Chargeback::create(1, None).is_ok());
}

#[test]
fn failing_withdrawal_leaves_the_account_untouched() {
    let mut acc = AccountState::new(1);
    Deposit::create(1, Some(50000))
        .unwrap()
        .apply(&mut acc)
        .unwrap();
    let w = Withdrawal::create(2, Some(50001)).unwrap();
    assert!(matches!(
        w.apply(&mut acc),
        Err(TxError::NotEnoughAvailableFunds)
    ));
    assert_eq!(acc.available, 50000);
    assert_eq!(acc.held, 0);
    assert_eq!(acc.total, 50000);
    assert!(!acc.locked);
    assert_eq!(acc.hist.get(&1), Some(&50000));
}

#[test]
fn withdrawal_of_the_whole_balance_succeeds() {
    let mut acc = AccountState::new(1);
    Deposit::create(1, Some(50000))
        .unwrap()
        .apply(&mut acc)
        .unwrap();
    Withdrawal::create(2, Some(50000))
        .unwrap()
        .apply(&mut acc)
        .unwrap();
    assert_eq!(acc.available, 0);
    assert_eq!(acc.total, 0);
}

#[test]
fn dispute_moves_funds_to_held() {
    let mut acc = AccountState::new(1);
    Deposit::create(7, Some(30000))
        .unwrap()
        .apply(&mut acc)
        .unwrap();
    Dispute::create(7, None).unwrap().apply(&mut acc).unwrap();
    assert_eq!(acc.available, 0);
    assert_eq!(acc.held, 30000);
    assert_eq!(acc.total, 30000);
    assert!(acc.disputed_tx.contains(&7));
}

#[test]
fn transaction_union_dispatches_each_kind() {
    let mut acc = AccountState::new(1);
    let dep = Transaction::create(TxKind::Deposit, 1, Some(40000)).unwrap();
    dep.apply(&mut acc).unwrap();
    let wd = Transaction::create(TxKind::Withdraw, 2, Some(10000)).unwrap();
    wd.apply(&mut acc).unwrap();
    let dis = Transaction::create(TxKind::Dispute, 1, None).unwrap();
    dis.apply(&mut acc).unwrap();
    assert_eq!(acc.available, -10000);
    assert_eq!(acc.held, 40000);
    assert_eq!(acc.total, 30000);
    let res = Transaction::create(TxKind::Resolve, 1, None).unwrap();
    res.apply(&mut acc).unwrap();
    assert_eq!(acc.available, 30000);
    assert_eq!(acc.held, 0);
    assert_eq!(acc.total, 30000);
    assert!(matches!(
        Transaction::create(TxKind::Chargeback, 1, None).unwrap(),
        Transaction::Chargeback(_)
    ));
}

#[test]
fn ledger_creates_each_client_once() {
    let mut ledger = Ledger::new();
    let i1 = ledger.get_or_create(5);
    let i2 = ledger.get_or_create(9);
    let i3 = ledger.get_or_create(5);
    assert_eq!(i1, 0);
    assert_eq!(i2, 1);
    assert_eq!(i1, i3);

    let r = Record { kind: TxKind::Deposit, client: 9, tx: 1, amount: Some(10000) };
    ledger.apply(&r).unwrap();
    let accounts = ledger.snapshot();
    assert_eq!(accounts.len(), 2);
    assert_eq!(accounts[0].client, 5);
    assert_eq!(accounts[1].client, 9);
    assert_eq!(accounts[1].available, 10000);
}

#[test]
fn locked_account_drops_events_silently() {
    let mut ledger = Ledger::new();
    let setup = [
        Record { kind: TxKind::Deposit, client: 1, tx: 1, amount: Some(20000) },
        Record { kind: TxKind::Dispute, client: 1, tx: 1, amount: None },
        Record { kind: TxKind::Chargeback, client: 1, tx: 1, amount: None },
    ];
    for r in setup.iter() {
        ledger.apply(r).unwrap();
    }
    // even a malformed record is dropped without an error once locked
    let malformed = Record { kind: TxKind::Deposit, client: 1, tx: 2, amount: None };
    assert!(ledger.apply(&malformed).is_ok());
    let accounts = ledger.snapshot();
    assert!(accounts[0].locked);
    assert_eq!(accounts[0].total, 0);
}
