use payments::ledger::{Account, TransactionRow, TransactionType};

fn row(kind: TransactionType, client: u16, tx: u32, amount: u64) -> TransactionRow {
    TransactionRow { kind, client, tx, amount }
}

#[test]
fn handle_dispute_event_resolve() -> Result<(), String> {
    let client_id = 0;
    let account = Account::new(client_id);

    let transactions = vec![
        row(TransactionType::Deposit, client_id, 0, 20000),
        row(TransactionType::Withdrawal, client_id, 1, 10000),
        row(TransactionType::Dispute, client_id, 1, 0),
    ];

    let mut acc = transactions.iter().fold(account, |mut acc, t| {
        acc.process_transaction(t);
        acc
    });

    assert_eq!(acc.available, 10000);
    assert_eq!(acc.held, 10000);

    acc.process_transaction(&row(TransactionType::Resolve, client_id, 1, 0));

    assert_eq!(acc.available, 20000);
    assert_eq!(acc.held, 0);
    assert_eq!(acc.locked, false);

    Ok(())
}

#[test]
fn handle_dispute_event_chargeback() -> Result<(), String> {
    let client_id = 0;
    let account = Account::new(client_id);

    let transactions = vec![
        row(TransactionType::Deposit, client_id, 0, 20000),
        row(TransactionType::Withdrawal, client_id, 1, 10000),
        row(TransactionType::Dispute, client_id, 1, 0),
    ];

    let mut acc = transactions.iter().fold(account, |mut acc, t| {
        acc.process_transaction(t);
        acc
    });

    assert_eq!(acc.available, 10000);
    assert_eq!(acc.held, 10000);

    acc.process_transaction(&row(TransactionType::Chargeback, client_id, 1, 0));

    assert_eq!(acc.available, 10000);
    assert_eq!(acc.held, 0);
    assert_eq!(acc.locked, true);

    Ok(())
}

#[test]
fn no_transactions_for_locked_account() -> Result<(), String> {
    let client_id = 0;
    let mut account = Account::new(client_id);
    account.locked = true;

    let transactions = vec![
        row(TransactionType::Deposit, client_id, 0, 20000),
        row(TransactionType::Withdrawal, client_id, 1, 10000),
        row(TransactionType::Dispute, client_id, 1, 0),
    ];

    let acc = transactions.iter().fold(account, |mut acc, t| {
        acc.process_transaction(t);
        acc
    });

    assert_eq!(acc.available, 0);
    assert_eq!(acc.held, 0);

    Ok(())
}

#[test]
fn withdrawal_boundary() {
    // Exactly the available balance: rejected without mutation.
    let mut acc = Account::new(7);
    acc.process_transaction(&row(TransactionType::Deposit, 7, 1, 10000));
    acc.process_transaction(&row(TransactionType::Withdrawal, 7, 2, 10000));
    assert_eq!(acc.available, 10000);
    assert!(!acc.transactions.contains_key(&2));

    // Above the available balance: rejected.
    acc.process_transaction(&row(TransactionType::Withdrawal, 7, 3, 10001));
    assert_eq!(acc.available, 10000);

    // Strictly below: succeeds and records the held transaction.
    acc.process_transaction(&row(TransactionType::Withdrawal, 7, 4, 9999));
    assert_eq!(acc.available, 1);
    assert!(acc.transactions.contains_key(&4));
}

#[test]
fn dispute_unknown_tx_is_noop() {
    let mut acc = Account::new(3);
    acc.process_transaction(&row(TransactionType::Deposit, 3, 1, 50000));
    acc.process_transaction(&row(TransactionType::Dispute, 3, 99, 0));
    acc.process_transaction(&row(TransactionType::Resolve, 3, 99, 0));
    acc.process_transaction(&row(TransactionType::Chargeback, 3, 99, 0));
    assert_eq!(acc.available, 50000);
    assert_eq!(acc.held, 0);
    assert_eq!(acc.locked, false);
}

#[test]
fn dispute_of_deposit_is_noop() {
    // Only successful withdrawals are held; a deposit's id is unknown.
    let mut acc = Account::new(3);
    acc.process_transaction(&row(TransactionType::Deposit, 3, 1, 50000));
    acc.process_transaction(&row(TransactionType::Dispute, 3, 1, 0));
    assert_eq!(acc.available, 50000);
    assert_eq!(acc.held, 0);
}

#[test]
fn resolve_after_done_is_noop() {
    let mut acc = Account::new(1);
    acc.process_transaction(&row(TransactionType::Deposit, 1, 0, 20000));
    acc.process_transaction(&row(TransactionType::Withdrawal, 1, 1, 10000));
    acc.process_transaction(&row(TransactionType::Dispute, 1, 1, 0));
    acc.process_transaction(&row(TransactionType::Resolve, 1, 1, 0));
    assert_eq!(acc.available, 20000);
    assert_eq!(acc.held, 0);

    // The dispute is done: repeating resolve or chargeback changes nothing.
    acc.process_transaction(&row(TransactionType::Resolve, 1, 1, 0));
    acc.process_transaction(&row(TransactionType::Chargeback, 1, 1, 0));
    assert_eq!(acc.available, 20000);
    assert_eq!(acc.held, 0);
    assert_eq!(acc.locked, false);
}

#[test]
fn resolve_without_dispute_is_noop() {
    let mut acc = Account::new(1);
    acc.process_transaction(&row(TransactionType::Deposit, 1, 0, 20000));
    acc.process_transaction(&row(TransactionType::Withdrawal, 1, 1, 10000));
    acc.process_transaction(&row(TransactionType::Resolve, 1, 1, 0));
    acc.process_transaction(&row(TransactionType::Chargeback, 1, 1, 0));
    assert_eq!(acc.available, 10000);
    assert_eq!(acc.held, 0);
    assert_eq!(acc.locked, false);
}

#[test]
fn repeated_dispute_adds_to_held_each_time() {
    let mut acc = Account::new(1);
    acc.process_transaction(&row(TransactionType::Deposit, 1, 0, 50000));
    acc.process_transaction(&row(TransactionType::Withdrawal, 1, 1, 10000));
    acc.process_transaction(&row(TransactionType::Dispute, 1, 1, 0));
    assert_eq!(acc.held, 10000);
    acc.process_transaction(&row(TransactionType::Dispute, 1, 1, 0));
    assert_eq!(acc.held, 20000);
    assert_eq!(acc.available, 40000);
}

#[test]
fn chargeback_locks_for_good() {
    let mut acc = Account::new(1);
    acc.process_transaction(&row(TransactionType::Deposit, 1, 0, 20000));
    acc.process_transaction(&row(TransactionType::Withdrawal, 1, 1, 10000));
    acc.process_transaction(&row(TransactionType::Dispute, 1, 1, 0));
    acc.process_transaction(&row(TransactionType::Chargeback, 1, 1, 0));
    assert!(acc.locked);
    assert_eq!(acc.available, 10000);
    assert_eq!(acc.held, 0);

    // Locked: every further transaction of any kind is ignored.
    acc.process_transaction(&row(TransactionType::Deposit, 1, 2, 5000));
    acc.process_transaction(&row(TransactionType::Withdrawal, 1, 3, 1000));
    acc.process_transaction(&row(TransactionType::Dispute, 1, 1, 0));
    assert!(acc.locked);
    assert_eq!(acc.available, 10000);
    assert_eq!(acc.held, 0);
}
