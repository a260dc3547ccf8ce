//! Error taxonomy of the transaction engine: one kind per way an event can
//! be rejected, each carrying the failing transaction or client id.

use crate::digits::spec_digits;
use crate::digits::u16_digits;
use crate::digits::u32_digits;
use vstd::prelude::*;

verus! {

/// A deposit was rejected: amount absent, not positive, or out of range.
#[derive(Debug, Clone, Copy, PartialEq, Eq, Structural)]
pub struct DepositError {
    pub tx: u32,
}

/// A withdrawal was rejected: amount absent, not positive, or more than
/// the available funds.
#[derive(Debug, Clone, Copy, PartialEq, Eq, Structural)]
pub struct WithdrawalError {
    pub tx: u32,
}

/// A dispute was rejected: no such record, client mismatch, record not in
/// the `Normal` state, or funds unavailable.
#[derive(Debug, Clone, Copy, PartialEq, Eq, Structural)]
pub struct DisputeError {
    pub tx: u32,
}

/// A resolve was rejected: no such record, client mismatch, record not in
/// the `Dispute` state, or held funds too small.
#[derive(Debug, Clone, Copy, PartialEq, Eq, Structural)]
pub struct ResolveError {
    pub tx: u32,
}

/// A chargeback was rejected: no such record, client mismatch, record not
/// in the `Dispute` state, or held funds too small.
#[derive(Debug, Clone, Copy, PartialEq, Eq, Structural)]
pub struct ChargebackError {
    pub tx: u32,
}

/// The event referred to a locked account.
#[derive(Debug, Clone, Copy, PartialEq, Eq, Structural)]
pub struct AccountLockError {
    pub client: u16,
}

/// A deposit or withdrawal reused a transaction id already present in the
/// same ledger.
#[derive(Debug, Clone, Copy, PartialEq, Eq, Structural)]
pub struct DuplicateTransactionError {
    pub tx: u32,
}

/// Every way the engine can reject an event.
#[derive(Debug, Clone, Copy, PartialEq, Eq, Structural)]
pub enum TransactionErrors {
    Deposit(DepositError),
    Withdrawal(WithdrawalError),
    Dispute(DisputeError),
    Resolve(ResolveError),
    Chargeback(ChargebackError),
    AccountLock(AccountLockError),
    DuplicateTransaction(DuplicateTransactionError),
}

impl TransactionErrors {
    /// The diagnostic line for this error.
    pub open spec fn message_seq(self) -> Seq<char> {
        match self {
            TransactionErrors::Deposit(e) => "Deposit error for tx "@ + spec_digits(e.tx as nat),
            TransactionErrors::Withdrawal(e) => "Withdraw error for tx "@ + spec_digits(
                e.tx as nat,
            ),
            TransactionErrors::Dispute(e) => "Dispute error for tx "@ + spec_digits(e.tx as nat),
            TransactionErrors::Resolve(e) => "Resolve error for tx "@ + spec_digits(e.tx as nat),
            TransactionErrors::Chargeback(e) => "Chargeback error for tx "@ + spec_digits(
                e.tx as nat,
            ),
            TransactionErrors::AccountLock(e) => "Account "@ + spec_digits(e.client as nat)
                + " is locked"@,
            TransactionErrors::DuplicateTransaction(e) => "Duplicate transaction id "@
                + spec_digits(e.tx as nat),
        }
    }

    /// Renders the diagnostic line for this error.
    pub fn message(&self) -> (r: String)
        ensures
            r@ == self.message_seq(),
    {
        match self {
            TransactionErrors::Deposit(e) => {
                let mut s = String::from_str("Deposit error for tx ");
                s.append(u32_digits(e.tx).as_str());
                s
            },
            TransactionErrors::Withdrawal(e) => {
                let mut s = String::from_str("Withdraw error for tx ");
                s.append(u32_digits(e.tx).as_str());
                s
            },
            TransactionErrors::Dispute(e) => {
                let mut s = String::from_str("Dispute error for tx ");
                s.append(u32_digits(e.tx).as_str());
                s
            },
            TransactionErrors::Resolve(e) => {
                let mut s = String::from_str("Resolve error for tx ");
                s.append(u32_digits(e.tx).as_str());
                s
            },
            TransactionErrors::Chargeback(e) => {
                let mut s = String::from_str("Chargeback error for tx ");
                s.append(u32_digits(e.tx).as_str());
                s
            },
            TransactionErrors::AccountLock(e) => {
                let mut s = String::from_str("Account ");
                s.append(u16_digits(e.client).as_str());
                s.append(" is locked");
                s
            },
            TransactionErrors::DuplicateTransaction(e) => {
                let mut s = String::from_str("Duplicate transaction id ");
                s.append(u32_digits(e.tx).as_str());
                s
            },
        }
    }
}

} // verus!
