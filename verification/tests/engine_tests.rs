//! Tests of the transaction engine: deposits, withdrawals and the
//! dispute lifecycle, with the balances observed after every event.

use toy_payments::engine::TransactionEngine;
use toy_payments::errors::AccountLockError;
use toy_payments::errors::ChargebackError;
use toy_payments::errors::DepositError;
use toy_payments::errors::DisputeError;
use toy_payments::errors::DuplicateTransactionError;
use toy_payments::errors::ResolveError;
use toy_payments::errors::TransactionErrors;
use toy_payments::errors::WithdrawalError;
use toy_payments::models::TranactionState;
use toy_payments::models::Transaction::ChargeBack;
use toy_payments::models::Transaction::Deposit;
use toy_payments::models::Transaction::Dispute;
use toy_payments::models::Transaction::Resolve;
use toy_payments::models::Transaction::Withdrawal;
use toy_payments::models::TransactionDetail;

fn get_transaction_engine() -> TransactionEngine {
    TransactionEngine::new()
}

/// A whole-unit amount as a count of fixed-point units.
fn units(x: f64) -> i64 {
    (x * toy_payments::models::AMOUNT_SCALE as f64).round() as i64
}

fn check_account(
    engine: &TransactionEngine,
    account_id: u16,
    available: f64,
    held: f64,
    total: f64,
    deposits: usize,
    withdraws: usize,
    locked: bool,
) {
    let account = engine.accounts.get(&account_id).unwrap();
    assert_eq!(account.available, units(available));
    assert_eq!(account.total, units(total));
    assert_eq!(account.held, units(held));
    assert_eq!(account.locked, locked);
    assert_eq!(engine.deposit_transactions.len(), deposits);
    assert_eq!(engine.withdrawal_transactions.len(), withdraws);
}

fn check_transaction(engine: &TransactionEngine, tx: u32, state: TranactionState) {
    let transaction = engine
        .deposit_transactions
        .get(&tx)
        .or_else(|| engine.withdrawal_transactions.get(&tx))
        .unwrap();

    assert_eq!(transaction.state, state);
}

#[test]
fn test_deposit_and_withdraw() {
    let mut engine = get_transaction_engine();
    //invalid deposit transaction
    let tx = TransactionDetail::new(1, 2, None);
    assert_eq!(
        engine.process_deposit(tx).unwrap_err().message(),
        "Deposit error for tx 2"
    );
    assert!(engine.accounts.is_empty());
    assert!(engine.deposit_transactions.is_empty());
    assert!(engine.withdrawal_transactions.is_empty());

    //a valid transaction for client 1
    let tx = TransactionDetail::new(1, 2, Some(units(1.1111)));
    let _ = engine.process_deposit(tx);
    assert_eq!(engine.accounts.len(), 1);
    check_account(&engine, 1, 1.1111, 0.0, 1.1111, 1, 0, false);

    //Dup transaction id
    let tx = TransactionDetail::new(1, 2, Some(units(2.01)));
    assert_eq!(
        engine.process_deposit(tx).unwrap_err().message(),
        "Duplicate transaction id 2"
    );

    //a valid transaction for client 1
    let tx = TransactionDetail::new(1, 3, Some(units(1.8889)));
    let _ = engine.process_deposit(tx);
    assert_eq!(engine.accounts.len(), 1);
    check_account(&engine, 1, 3.0, 0.0, 3.0, 2, 0, false);

    //an invalid withdraw
    let tx = TransactionDetail::new(1, 4, None);
    assert_eq!(
        engine.process_withdrawal(tx).unwrap_err().message(),
        "Withdraw error for tx 4"
    );
    assert!(engine.withdrawal_transactions.is_empty());

    //a valid withdraw
    let tx = TransactionDetail::new(1, 4, Some(units(1.05)));
    let _ = engine.process_withdrawal(tx);
    assert_eq!(engine.accounts.len(), 1);
    check_account(&engine, 1, 1.95, 0.0, 1.95, 2, 1, false);

    //an invalid withdraw with dup transaction id
    let tx = TransactionDetail::new(1, 4, Some(units(1.95)));
    assert_eq!(
        engine.process_withdrawal(tx).unwrap_err().message(),
        "Duplicate transaction id 4"
    );
    check_account(&engine, 1, 1.95, 0.0, 1.95, 2, 1, false);

    //Withdraw more than available
    let tx = TransactionDetail::new(1, 5, Some(units(1.96)));
    assert_eq!(
        engine.process_withdrawal(tx).unwrap_err().message(),
        "Withdraw error for tx 5"
    );
    check_account(&engine, 1, 1.95, 0.0, 1.95, 2, 1, false);

    //Withdraw everything
    let tx = TransactionDetail::new(1, 5, Some(units(1.95)));
    let _ = engine.process_withdrawal(tx);
    assert_eq!(engine.accounts.len(), 1);
    check_account(&engine, 1, 0.0, 0.0, 0.0, 2, 2, false);
}

#[test]
fn test_multiple_account_withdraw_() {
    let mut engine = get_transaction_engine();
    //a deposit for client 1
    let tx = Deposit(TransactionDetail::new(1, 1, Some(units(1.1111))));
    let _ = engine.process_transaction(tx);
    assert_eq!(engine.accounts.len(), 1);
    check_account(&engine, 1, 1.1111, 0.0, 1.1111, 1, 0, false);

    //a deposit for client 2
    let tx = Deposit(TransactionDetail::new(2, 2, Some(units(1.1111))));
    let _ = engine.process_transaction(tx);
    assert_eq!(engine.accounts.len(), 2);
    check_account(&engine, 2, 1.1111, 0.0, 1.1111, 2, 0, false);

    //a deposit for client 3
    let tx = Deposit(TransactionDetail::new(3, 3, Some(units(1.1111))));
    let _ = engine.process_transaction(tx);
    assert_eq!(engine.accounts.len(), 3);
    check_account(&engine, 3, 1.1111, 0.0, 1.1111, 3, 0, false);

    //a failed withdraw for client 4
    let tx = TransactionDetail::new(4, 4, Some(units(1.1111)));
    assert_eq!(
        engine.process_withdrawal(tx).unwrap_err().message(),
        "Withdraw error for tx 4"
    );

    //a withdraw for client 3
    let tx = Withdrawal(TransactionDetail::new(3, 5, Some(units(1.1111))));
    let _ = engine.process_transaction(tx);
    assert_eq!(engine.accounts.len(), 4);
    check_account(&engine, 3, 0.0, 0.0, 0.0, 3, 1, false);

    //a withdraw for client 2
    let tx = Withdrawal(TransactionDetail::new(2, 6, Some(units(1.1111))));
    let _ = engine.process_transaction(tx);
    assert_eq!(engine.accounts.len(), 4);
    check_account(&engine, 2, 0.0, 0.0, 0.0, 3, 2, false);

    //a withdraw for client 1
    let tx = Withdrawal(TransactionDetail::new(1, 7, Some(units(1.1111))));
    let _ = engine.process_transaction(tx);
    assert_eq!(engine.accounts.len(), 4);
    check_account(&engine, 1, 0.0, 0.0, 0.0, 3, 3, false);
}

#[test]
fn test_deposit_dispute_resolve() {
    let mut engine = get_transaction_engine();
    //a deposit for client 1
    let tx = Deposit(TransactionDetail::new(1, 1, Some(units(1.1111))));
    let _ = engine.process_transaction(tx);
    assert_eq!(engine.accounts.len(), 1);
    check_account(&engine, 1, 1.1111, 0.0, 1.1111, 1, 0, false);

    //a deposit for client 2
    let tx = Deposit(TransactionDetail::new(2, 2, Some(units(1.1111))));
    let _ = engine.process_transaction(tx);
    assert_eq!(engine.accounts.len(), 2);
    check_account(&engine, 2, 1.1111, 0.0, 1.1111, 2, 0, false);

    //invalid dispute as transaction doesn't exist
    let tx = TransactionDetail::new(1, 3, None);
    assert_eq!(
        engine.process_dispute(tx).unwrap_err().message(),
        "Dispute error for tx 3"
    );

    //invalid dispute as client is incorrect
    let tx = TransactionDetail::new(2, 1, None);
    assert_eq!(
        engine.process_dispute(tx).unwrap_err().message(),
        "Dispute error for tx 1"
    );

    //valid dispute for client 1
    let tx = Dispute(TransactionDetail::new(1, 1, None));
    let _ = engine.process_transaction(tx);
    assert_eq!(engine.accounts.len(), 2);
    check_account(&engine, 1, 0.0, 1.1111, 1.1111, 2, 0, false);
    check_account(&engine, 2, 1.1111, 0.0, 1.1111, 2, 0, false);
    check_transaction(&engine, 1, TranactionState::Dispute);

    //invalid resolve as transaction doesn't exist
    let tx = TransactionDetail::new(1, 3, None);
    assert_eq!(
        engine.process_resolve(tx).unwrap_err().message(),
        "Resolve error for tx 3"
    );

    //invalid resolve as client is incorrect
    let tx = TransactionDetail::new(2, 1, None);
    assert_eq!(
        engine.process_resolve(tx).unwrap_err().message(),
        "Resolve error for tx 1"
    );

    //invalid resolve as transaction is not in dispute state
    let tx = TransactionDetail::new(2, 2, None);
    assert_eq!(
        engine.process_resolve(tx).unwrap_err().message(),
        "Resolve error for tx 2"
    );

    //valid resolve for client 1
    let tx = Resolve(TransactionDetail::new(1, 1, None));
    let _ = engine.process_transaction(tx);
    assert_eq!(engine.accounts.len(), 2);
    check_account(&engine, 1, 1.1111, 0.0, 1.1111, 2, 0, false);
    check_account(&engine, 2, 1.1111, 0.0, 1.1111, 2, 0, false);
    check_transaction(&engine, 1, TranactionState::Resolve);

    //invalid resolve, transaction is already resolved
    let tx = TransactionDetail::new(1, 1, None);
    assert_eq!(
        engine.process_resolve(tx).unwrap_err().message(),
        "Resolve error for tx 1"
    );
}

#[test]
fn test_withdraw_dispute_resolve() {
    let mut engine = get_transaction_engine();
    //a deposit for client 1
    let tx = Deposit(TransactionDetail::new(1, 1, Some(units(1.1111))));
    let _ = engine.process_transaction(tx);
    assert_eq!(engine.accounts.len(), 1);
    check_account(&engine, 1, 1.1111, 0.0, 1.1111, 1, 0, false);

    //a deposit for client 2
    let tx = Deposit(TransactionDetail::new(2, 2, Some(units(1.1111))));
    let _ = engine.process_transaction(tx);
    assert_eq!(engine.accounts.len(), 2);
    check_account(&engine, 2, 1.1111, 0.0, 1.1111, 2, 0, false);

    //a withdraw for client 1
    let tx = Withdrawal(TransactionDetail::new(1, 3, Some(units(1.1111))));
    let _ = engine.process_transaction(tx);
    assert_eq!(engine.accounts.len(), 2);
    check_account(&engine, 1, 0.0, 0.0, 0.0, 2, 1, false);
    check_account(&engine, 2, 1.1111, 0.0, 1.1111, 2, 1, false);

    //invalid dispute as transaction doesn't exist
    let tx = TransactionDetail::new(1, 4, None);
    assert_eq!(
        engine.process_dispute(tx).unwrap_err().message(),
        "Dispute error for tx 4"
    );

    //invalid dispute as client is incorrect
    let tx = TransactionDetail::new(2, 3, None);
    assert_eq!(
        engine.process_dispute(tx).unwrap_err().message(),
        "Dispute error for tx 3"
    );

    //valid dispute for client 1
    let tx = Dispute(TransactionDetail::new(1, 3, None));
    let _ = engine.process_transaction(tx);
    assert_eq!(engine.accounts.len(), 2);
    check_account(&engine, 1, 0.0, 1.1111, 1.1111, 2, 1, false);
    check_account(&engine, 2, 1.1111, 0.0, 1.1111, 2, 1, false);
    check_transaction(&engine, 3, TranactionState::Dispute);

    //invalid resolve as transaction doesn't exist
    let tx = TransactionDetail::new(1, 4, None);
    assert_eq!(
        engine.process_resolve(tx).unwrap_err().message(),
        "Resolve error for tx 4"
    );

    //invalid resolve as client is incorrect
    let tx = TransactionDetail::new(2, 3, None);
    assert_eq!(
        engine.process_resolve(tx).unwrap_err().message(),
        "Resolve error for tx 3"
    );

    //valid resolve for client 1
    let tx = Resolve(TransactionDetail::new(1, 3, None));
    let _ = engine.process_transaction(tx);
    assert_eq!(engine.accounts.len(), 2);
    check_account(&engine, 1, 0.0, 0.0, 0.0, 2, 1, false);
    check_account(&engine, 2, 1.1111, 0.0, 1.1111, 2, 1, false);
    check_transaction(&engine, 3, TranactionState::Resolve);

    //Invalid resolve, incorrect state
    let tx = TransactionDetail::new(1, 3, None);
    assert_eq!(
        engine.process_resolve(tx).unwrap_err().message(),
        "Resolve error for tx 3"
    );
}

#[test]
fn test_deposit_dispute_chargeback() {
    let mut engine = get_transaction_engine();
    //a deposit for client 1
    let tx = Deposit(TransactionDetail::new(1, 1, Some(units(1.1111))));
    let _ = engine.process_transaction(tx);
    assert_eq!(engine.accounts.len(), 1);
    check_account(&engine, 1, 1.1111, 0.0, 1.1111, 1, 0, false);

    //a deposit for client 2
    let tx = Deposit(TransactionDetail::new(2, 2, Some(units(1.1111))));
    let _ = engine.process_transaction(tx);
    assert_eq!(engine.accounts.len(), 2);
    check_account(&engine, 2, 1.1111, 0.0, 1.1111, 2, 0, false);

    //invalid dispute as transaction doesn't exist
    let tx = TransactionDetail::new(1, 3, None);
    assert_eq!(
        engine.process_dispute(tx).unwrap_err().message(),
        "Dispute error for tx 3"
    );

    //invalid dispute as client is incorrect
    let tx = TransactionDetail::new(2, 1, None);
    assert_eq!(
        engine.process_dispute(tx).unwrap_err().message(),
        "Dispute error for tx 1"
    );

    //valid dispute for client 1
    let tx = Dispute(TransactionDetail::new(1, 1, None));
    let _ = engine.process_transaction(tx);
    assert_eq!(engine.accounts.len(), 2);
    check_account(&engine, 1, 0.0, 1.1111, 1.1111, 2, 0, false);
    check_account(&engine, 2, 1.1111, 0.0, 1.1111, 2, 0, false);
    check_transaction(&engine, 1, TranactionState::Dispute);

    //invalid chargeback as transaction doesn't exist
    let tx = TransactionDetail::new(1, 3, None);
    assert_eq!(
        engine.process_chargeback(tx).unwrap_err().message(),
        "Chargeback error for tx 3"
    );

    //invalid chargeback as client is incorrect
    let tx = TransactionDetail::new(2, 1, None);
    assert_eq!(
        engine.process_chargeback(tx).unwrap_err().message(),
        "Chargeback error for tx 1"
    );

    //invalid chargeback as transaction is not in dispute state
    let tx = TransactionDetail::new(2, 2, None);
    assert_eq!(
        engine.process_chargeback(tx).unwrap_err().message(),
        "Chargeback error for tx 2"
    );

    //valid chargeback for client 1
    let tx = ChargeBack(TransactionDetail::new(1, 1, None));
    let _ = engine.process_transaction(tx);
    assert_eq!(engine.accounts.len(), 2);
    check_account(&engine, 1, 0.0, 0.0, 0.0, 2, 0, true);
    check_account(&engine, 2, 1.1111, 0.0, 1.1111, 2, 0, false);
    check_transaction(&engine, 1, TranactionState::ChargeBack);

    //invalid chargeback as account is locked
    let tx = TransactionDetail::new(1, 1, None);
    assert_eq!(
        engine.process_chargeback(tx).unwrap_err().message(),
        "Account 1 is locked"
    );
}

#[test]
fn test_withdraw_dispute_chargeback() {
    let mut engine = get_transaction_engine();
    //a deposit for client 1
    let tx = Deposit(TransactionDetail::new(1, 1, Some(units(1.1111))));
    let _ = engine.process_transaction(tx);
    assert_eq!(engine.accounts.len(), 1);
    check_account(&engine, 1, 1.1111, 0.0, 1.1111, 1, 0, false);

    //a deposit for client 2
    let tx = Deposit(TransactionDetail::new(2, 2, Some(units(1.1111))));
    let _ = engine.process_transaction(tx);
    assert_eq!(engine.accounts.len(), 2);
    check_account(&engine, 2, 1.1111, 0.0, 1.1111, 2, 0, false);

    //a withdraw for client 1
    let tx = Withdrawal(TransactionDetail::new(1, 3, Some(units(1.1111))));
    let _ = engine.process_transaction(tx);
    assert_eq!(engine.accounts.len(), 2);
    check_account(&engine, 1, 0.0, 0.0, 0.0, 2, 1, false);
    check_account(&engine, 2, 1.1111, 0.0, 1.1111, 2, 1, false);

    //invalid dispute as transaction doesn't exist
    let tx = TransactionDetail::new(1, 4, None);
    assert_eq!(
        engine.process_dispute(tx).unwrap_err().message(),
        "Dispute error for tx 4"
    );

    //invalid dispute as client is incorrect
    let tx = TransactionDetail::new(2, 3, None);
    assert_eq!(
        engine.process_dispute(tx).unwrap_err().message(),
        "Dispute error for tx 3"
    );

    //valid dispute for client 1
    let tx = Dispute(TransactionDetail::new(1, 3, None));
    let _ = engine.process_transaction(tx);
    assert_eq!(engine.accounts.len(), 2);
    check_account(&engine, 1, 0.0, 1.1111, 1.1111, 2, 1, false);
    check_account(&engine, 2, 1.1111, 0.0, 1.1111, 2, 1, false);
    check_transaction(&engine, 3, TranactionState::Dispute);

    //invalid chargeback as transaction doesn't exist
    let tx = TransactionDetail::new(1, 4, None);
    assert_eq!(
        engine.process_chargeback(tx).unwrap_err().message(),
        "Chargeback error for tx 4"
    );

    //invalid chargeback as client is incorrect
    let tx = TransactionDetail::new(2, 3, None);
    assert_eq!(
        engine.process_chargeback(tx).unwrap_err().message(),
        "Chargeback error for tx 3"
    );

    //valid chargeback for client 1
    let tx = ChargeBack(TransactionDetail::new(1, 3, None));
    let _ = engine.process_transaction(tx);
    assert_eq!(engine.accounts.len(), 2);
    check_account(&engine, 1, 1.1111, 0.0, 1.1111, 2, 1, true);
    check_account(&engine, 2, 1.1111, 0.0, 1.1111, 2, 1, false);
    check_transaction(&engine, 3, TranactionState::ChargeBack);

    //invalid chargeback as account is locked
    let tx = TransactionDetail::new(1, 3, None);
    assert_eq!(
        engine.process_chargeback(tx).unwrap_err().message(),
        "Account 1 is locked"
    );
}

#[test]
fn test_locked_account_rejects_everything() {
    let mut engine = get_transaction_engine();
    let _ = engine.process_deposit(TransactionDetail::new(1, 1, Some(units(2.0))));
    let _ = engine.process_dispute(TransactionDetail::new(1, 1, None));
    let _ = engine.process_chargeback(TransactionDetail::new(1, 1, None));
    check_account(&engine, 1, 0.0, 0.0, 0.0, 1, 0, true);

    assert_eq!(
        engine
            .process_deposit(TransactionDetail::new(1, 2, Some(units(1.0))))
            .unwrap_err()
            .message(),
        "Account 1 is locked"
    );
    assert_eq!(
        engine
            .process_withdrawal(TransactionDetail::new(1, 3, Some(units(1.0))))
            .unwrap_err()
            .message(),
        "Account 1 is locked"
    );
    assert_eq!(
        engine
            .process_dispute(TransactionDetail::new(1, 1, None))
            .unwrap_err()
            .message(),
        "Account 1 is locked"
    );
    assert_eq!(
        engine
            .process_resolve(TransactionDetail::new(1, 1, None))
            .unwrap_err()
            .message(),
        "Account 1 is locked"
    );
    check_account(&engine, 1, 0.0, 0.0, 0.0, 1, 0, true);
}

#[test]
fn test_shared_tx_id_across_ledgers() {
    // A deposit and a withdrawal may share a tx id: uniqueness is
    // enforced only within each ledger.
    let mut engine = get_transaction_engine();
    assert!(engine
        .process_deposit(TransactionDetail::new(1, 7, Some(units(3.0))))
        .is_ok());
    assert!(engine
        .process_withdrawal(TransactionDetail::new(1, 7, Some(units(1.0))))
        .is_ok());
    check_account(&engine, 1, 2.0, 0.0, 2.0, 1, 1, false);
}

#[test]
fn test_deposit_overflow_rejected() {
    let mut engine = get_transaction_engine();
    assert!(engine
        .process_deposit(TransactionDetail::new(1, 1, Some(i64::MAX)))
        .is_ok());
    let account = engine.accounts.get(&1).unwrap();
    assert_eq!(account.available, i64::MAX);
    assert_eq!(account.total, i64::MAX);
    // one more unit cannot be represented: rejected, state unchanged
    assert_eq!(
        engine
            .process_deposit(TransactionDetail::new(1, 2, Some(1)))
            .unwrap_err()
            .message(),
        "Deposit error for tx 2"
    );
    let account = engine.accounts.get(&1).unwrap();
    assert_eq!(account.available, i64::MAX);
    assert_eq!(engine.deposit_transactions.len(), 1);
}

#[test]
fn test_report_order_and_contents() {
    let mut engine = get_transaction_engine();
    let _ = engine.process_deposit(TransactionDetail::new(3, 1, Some(units(1.0))));
    let _ = engine.process_deposit(TransactionDetail::new(1, 2, Some(units(2.0))));
    let _ = engine.process_deposit(TransactionDetail::new(2, 3, Some(units(3.0))));
    let report = engine.report();
    assert_eq!(report.len(), 3);
    assert_eq!(report[0].client, 3);
    assert_eq!(report[0].available, units(1.0));
    assert_eq!(report[1].client, 1);
    assert_eq!(report[1].available, units(2.0));
    assert_eq!(report[2].client, 2);
    assert_eq!(report[2].available, units(3.0));
    assert!(get_transaction_engine().report().is_empty());
}

#[test]
fn test_unknown_event_changes_nothing() {
    let mut engine = get_transaction_engine();
    let _ = engine.process_deposit(TransactionDetail::new(1, 1, Some(units(1.0))));
    assert!(engine
        .process_transaction(toy_payments::models::Transaction::Unknown)
        .is_ok());
    check_account(&engine, 1, 1.0, 0.0, 1.0, 1, 0, false);
    assert_eq!(engine.accounts.len(), 1);
}

#[test]
fn test_dispute_needs_available_funds_for_deposits() {
    let mut engine = get_transaction_engine();
    let _ = engine.process_deposit(TransactionDetail::new(1, 1, Some(units(2.0))));
    let _ = engine.process_withdrawal(TransactionDetail::new(1, 2, Some(units(1.5))));
    check_account(&engine, 1, 0.5, 0.0, 0.5, 1, 1, false);
    // the deposited 2.0 is no longer available in full
    assert_eq!(
        engine
            .process_dispute(TransactionDetail::new(1, 1, None))
            .unwrap_err()
            .message(),
        "Dispute error for tx 1"
    );
    check_account(&engine, 1, 0.5, 0.0, 0.5, 1, 1, false);
}

#[test]
fn test_withdrawal_dispute_overflow_rejected() {
    let mut engine = get_transaction_engine();
    let _ = engine.process_deposit(TransactionDetail::new(1, 1, Some(i64::MAX)));
    let _ = engine.process_withdrawal(TransactionDetail::new(1, 2, Some(i64::MAX)));
    let _ = engine.process_deposit(TransactionDetail::new(1, 3, Some(i64::MAX)));
    let account = engine.accounts.get(&1).unwrap();
    assert_eq!(account.total, i64::MAX);
    // reinstating the disputed debit would overflow the total: rejected
    assert_eq!(
        engine
            .process_dispute(TransactionDetail::new(1, 2, None))
            .unwrap_err()
            .message(),
        "Dispute error for tx 2"
    );
    let account = engine.accounts.get(&1).unwrap();
    assert_eq!(account.total, i64::MAX);
    assert_eq!(account.held, 0);
}

#[test]
fn test_error_messages_render_ids() {
    assert_eq!(
        TransactionErrors::Deposit(DepositError { tx: 0 }).message(),
        "Deposit error for tx 0"
    );
    assert_eq!(
        TransactionErrors::Withdrawal(WithdrawalError { tx: 4294967295 }).message(),
        "Withdraw error for tx 4294967295"
    );
    assert_eq!(
        TransactionErrors::Dispute(DisputeError { tx: 10 }).message(),
        "Dispute error for tx 10"
    );
    assert_eq!(
        TransactionErrors::Resolve(ResolveError { tx: 907 }).message(),
        "Resolve error for tx 907"
    );
    assert_eq!(
        TransactionErrors::Chargeback(ChargebackError { tx: 52 }).message(),
        "Chargeback error for tx 52"
    );
    assert_eq!(
        TransactionErrors::AccountLock(AccountLockError { client: 65535 }).message(),
        "Account 65535 is locked"
    );
    assert_eq!(
        TransactionErrors::DuplicateTransaction(DuplicateTransactionError { tx: 123456 }).message(),
        "Duplicate transaction id 123456"
    );
}
