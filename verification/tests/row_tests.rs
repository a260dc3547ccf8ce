//! Tests of row parsing: the fields of one tabular row become one
//! validated event, or a malformed-row error.

use toy_payments::models::Transaction;
use toy_payments::models::Transaction::ChargeBack;
use toy_payments::models::Transaction::Deposit;
use toy_payments::models::Transaction::Dispute;
use toy_payments::models::Transaction::Resolve;
use toy_payments::models::Transaction::Unknown;
use toy_payments::models::Transaction::Withdrawal;
use toy_payments::models::TransactionDetail;
use toy_payments::row::transaction_from_fields;
use toy_payments::row::RowError;

/// Reads the first data row of a small tabular input and parses it.
fn parse_first_row(data: &str) -> Result<Transaction, RowError> {
    let mut rdr = csv::ReaderBuilder::new()
        .flexible(true)
        .from_reader(data.as_bytes());
    let record = rdr.records().next().unwrap().unwrap();
    let fields: Vec<String> = record.iter().map(|f| f.to_string()).collect();
    transaction_from_fields(&fields)
}

fn fields_of(parts: &[&str]) -> Vec<String> {
    parts.iter().map(|p| p.to_string()).collect()
}

#[test]
fn deserialize_fail() {
    //invalid transaction type
    let data = "\
type,client,tx,amount
d,0,0,1.1
";

    let tx = parse_first_row(data).unwrap();
    assert_eq!(tx, Unknown);

    //invalid number of fields
    let data = "\
type,client,tx,amount
d,0
";

    let tx = parse_first_row(data);
    assert!(tx.is_err());

    //invalid header
    let data = "\
type,client,tx
d,0
";

    let tx = parse_first_row(data);
    assert!(tx.is_err());
}

#[test]
fn deserialize_deposit() {
    let data = "\
type,client,tx,amount
deposit,0,0,101.111111
";
    let tx = parse_first_row(data).unwrap();
    assert_eq!(tx, Deposit(TransactionDetail::new(0, 0, Some(1011111))));
}

#[test]
fn deserialize_withdraw() {
    let data = "\
type,client,tx,amount
withdrawal,0,0,101
";
    let tx = parse_first_row(data).unwrap();
    assert_eq!(tx, Withdrawal(TransactionDetail::new(0, 0, Some(1010000))));
}

#[test]
fn deserialize_dispute() {
    let data = "\
type,client,tx,amount
dispute,0,0
";
    let tx = parse_first_row(data).unwrap();
    assert_eq!(tx, Dispute(TransactionDetail::new(0, 0, None)));
}

#[test]
fn deserialize_resolve() {
    let data = "\
type,client,tx,amount
resolve,0,0
";
    let tx = parse_first_row(data).unwrap();
    assert_eq!(tx, Resolve(TransactionDetail::new(0, 0, None)));
}

#[test]
fn deserialize_chargeback() {
    let data = "\
type,client,tx,amount
chargeback,0,0
";
    let tx = parse_first_row(data).unwrap();
    assert_eq!(tx, ChargeBack(TransactionDetail::new(0, 0, None)));
}

#[test]
fn row_trims_and_ignores_token_case() {
    let r = transaction_from_fields(&fields_of(&["  DePoSiT ", " 12 ", "\t34\t", " 1.5 "]));
    assert_eq!(r, Ok(Deposit(TransactionDetail::new(12, 34, Some(15000)))));

    let r = transaction_from_fields(&fields_of(&["CHARGEBACK", "1", "2"]));
    assert_eq!(r, Ok(ChargeBack(TransactionDetail::new(1, 2, None))));
}

#[test]
fn row_blank_amount_is_absent() {
    let r = transaction_from_fields(&fields_of(&["withdrawal", "1", "2", "  "]));
    assert_eq!(r, Ok(Withdrawal(TransactionDetail::new(1, 2, None))));
}

#[test]
fn row_rejects_bad_fields() {
    assert_eq!(transaction_from_fields(&fields_of(&[])), Err(RowError::MissingType));
    assert_eq!(
        transaction_from_fields(&fields_of(&["deposit"])),
        Err(RowError::MissingClient)
    );
    assert_eq!(
        transaction_from_fields(&fields_of(&["deposit", "1"])),
        Err(RowError::MissingTx)
    );
    assert_eq!(
        transaction_from_fields(&fields_of(&["deposit", "x", "2", "1.0"])),
        Err(RowError::BadClient)
    );
    assert_eq!(
        transaction_from_fields(&fields_of(&["deposit", "65536", "2", "1.0"])),
        Err(RowError::BadClient)
    );
    assert_eq!(
        transaction_from_fields(&fields_of(&["deposit", "1", "", "1.0"])),
        Err(RowError::BadTx)
    );
    assert_eq!(
        transaction_from_fields(&fields_of(&["deposit", "1", "4294967296", "1.0"])),
        Err(RowError::BadTx)
    );
    assert_eq!(
        transaction_from_fields(&fields_of(&["deposit", "1", "2", "abc"])),
        Err(RowError::BadAmount)
    );
    assert_eq!(
        transaction_from_fields(&fields_of(&["deposit", "1", "2", "1..2"])),
        Err(RowError::BadAmount)
    );
    assert_eq!(
        transaction_from_fields(&fields_of(&["deposit", "1", "2", "1."])),
        Err(RowError::BadAmount)
    );
    assert_eq!(
        transaction_from_fields(&fields_of(&["deposit", "1", "2", ".5"])),
        Err(RowError::BadAmount)
    );
}

fn amount_of(text: &str) -> i64 {
    match transaction_from_fields(&fields_of(&["deposit", "1", "2", text])).unwrap() {
        Deposit(d) => d.amount.unwrap(),
        _ => panic!("expected a deposit"),
    }
}

#[test]
fn row_rounds_half_to_even_at_four_digits() {
    assert_eq!(amount_of("1.1111"), 11111);
    assert_eq!(amount_of("0.00004"), 0);
    assert_eq!(amount_of("0.00005"), 0); // half, kept digits even
    assert_eq!(amount_of("0.00015"), 2); // half, kept digits odd
    assert_eq!(amount_of("0.000151"), 2); // over half
    assert_eq!(amount_of("0.00025"), 2); // half, kept digits even
    assert_eq!(amount_of("0.00006"), 1);
    assert_eq!(amount_of("1.99995"), 20000);
    assert_eq!(amount_of("-1.5"), -15000);
    assert_eq!(amount_of("007"), 70000);
}
