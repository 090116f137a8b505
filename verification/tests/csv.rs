use payments::driver::process_transactions;
use payments::ledger::{OutputAccount, TransactionRow, TransactionType};
use payments::pipeline::{process_csv, render_accounts};
use payments::rows::parse_csv;

#[test]
fn sanity_check() -> Result<(), String> {
    let input = r#"type, client, tx, amount
deposit, 1, 1, 1.0
deposit, 2, 2, 2.0
deposit, 1, 3, 2.0
withdrawal, 1, 4, 1.5
withdrawal, 2, 5, 3.0
"#
    .as_bytes();

    let deserialized = parse_csv(input);

    let mut res: Vec<OutputAccount> = process_transactions(&deserialized)
        .iter()
        .map(OutputAccount::from_account)
        .collect();

    res.sort_by(|a, b| a.client.partial_cmp(&b.client).unwrap());

    let a = OutputAccount {
        client: 1,
        available: 15000,
        held: 00000,
        total: 15000,
        locked: false,
    };
    let b = OutputAccount {
        client: 2,
        available: 20000,
        held: 00000,
        total: 20000,
        locked: false,
    };
    let exp = vec![a, b];

    assert_eq!(res, exp);

    let writer = render_accounts(&res);

    let output = std::str::from_utf8(&writer)
        .map_err(|e| format!("Failed converting output from bytes to string: {}", e))?;

    assert_eq!(
        output,
        "client,available,held,total,locked\n1,1.5000,0.0,1.5000,false\n2,2.0000,0.0,2.0000,false\n"
    );

    Ok(())
}

#[test]
fn can_deserialize_csv() -> Result<(), String> {
    let input = r#"type, client, tx, amount
deposit, 1, 1, 1.0
deposit, 2, 2, 2.0
deposit, 1, 3, 2.0
withdrawal, 1, 4, 1.5
withdrawal, 2, 5, 3.05
"#
    .as_bytes();

    let deserialized: Vec<TransactionRow> = parse_csv(input);

    let first_res = deserialized
        .first()
        .ok_or("No first entry in deserialized vector")?;

    assert_eq!(
        first_res,
        &TransactionRow {
            kind: TransactionType::Deposit,
            client: 1,
            tx: 1,
            amount: 10000
        }
    );

    let last_res = deserialized
        .last()
        .ok_or("No first entry in deserialized vector")?;

    assert_eq!(
        last_res,
        &TransactionRow {
            kind: TransactionType::Withdrawal,
            client: 2,
            tx: 5,
            amount: 30500
        }
    );

    Ok(())
}

#[test]
fn header_keys_are_case_insensitive_and_may_reorder() {
    let input = b"Amount, TX, CLIENT, Type\n1.0, 7, 3, deposit\n";
    let rows = parse_csv(input);
    assert_eq!(rows.len(), 1);
    assert_eq!(
        rows[0],
        TransactionRow {
            kind: TransactionType::Deposit,
            client: 3,
            tx: 7,
            amount: 10000
        }
    );
}

#[test]
fn malformed_rows_are_dropped() {
    let input = b"type, client, tx, amount\n\
        deposit, 1, 1, 1.0\n\
        payment, 1, 2, 1.0\n\
        deposit, 99999, 3, 1.0\n\
        deposit, 2, x, 1.0\n\
        deposit, 2, 4, 1\n\
        withdrawal, 1, 5, 0.5\n";
    let rows = parse_csv(input);
    assert_eq!(rows.len(), 2);
    assert_eq!(rows[0].kind, TransactionType::Deposit);
    assert_eq!(rows[1].kind, TransactionType::Withdrawal);
    assert_eq!(rows[1].amount, 5000);
}

#[test]
fn dispute_rows_ignore_the_amount_column() {
    let input = b"type, client, tx, amount\n\
        deposit, 1, 1, 2.0\n\
        withdrawal, 1, 2, 1.0\n\
        dispute, 1, 2,\n";
    let rows = parse_csv(input);
    assert_eq!(rows.len(), 3);
    assert_eq!(rows[2].kind, TransactionType::Dispute);
    assert_eq!(rows[2].amount, 0);
}

#[test]
fn end_to_end_chargeback_locks_account() {
    let input = b"type, client, tx, amount\n\
        deposit, 1, 0, 2.0\n\
        withdrawal, 1, 1, 1.0\n\
        dispute, 1, 1,\n\
        chargeback, 1, 1,\n\
        deposit, 1, 2, 5.0\n";
    let out = process_csv(input);
    let text = std::str::from_utf8(&out).unwrap();
    assert_eq!(
        text,
        "client,available,held,total,locked\n1,1.0000,0.0,1.0000,true\n"
    );
}

#[test]
fn empty_input_renders_nothing() {
    assert_eq!(process_csv(b""), Vec::<u8>::new());
    assert_eq!(process_csv(b"type, client, tx, amount\n"), Vec::<u8>::new());
}
