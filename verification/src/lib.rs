//! A small payments ledger: a verified transaction engine that applies
//! deposit, withdrawal, dispute, resolve and chargeback events to per-client
//! accounts, enforcing balance invariants, duplicate-id rejection, account
//! locking and the dispute lifecycle.

pub mod digits;
pub mod engine;
pub mod errors;
pub mod laws;
pub mod models;
pub mod row;

pub use engine::TransactionEngine;
pub use errors::AccountLockError;
pub use errors::ChargebackError;
pub use errors::DepositError;
pub use errors::DisputeError;
pub use errors::DuplicateTransactionError;
pub use errors::ResolveError;
pub use errors::TransactionErrors;
pub use errors::WithdrawalError;
pub use models::Account;
pub use models::TranactionState;
pub use models::Transaction;
pub use models::TransactionDetail;
pub use row::RowError;
