//! Data model: events, transaction records and accounts.
//!
//! Monetary amounts are fixed-point decimals with four fractional digits,
//! held as a signed count of ten-thousandths (`11111` stands for `1.1111`).

use vstd::prelude::*;

verus! {

/// Number of fixed-point units in one whole currency unit.
pub const AMOUNT_SCALE: i64 = 10000;

/// Lifecycle state of an accepted deposit or withdrawal record.
///
/// Legal transitions: `Normal` -> `Dispute` (dispute event),
/// `Dispute` -> `Resolve` (resolve event), `Dispute` -> `ChargeBack`
/// (chargeback event). `Resolve` and `ChargeBack` are terminal.
#[derive(Debug, Clone, Copy, PartialEq, Eq, Structural)]
pub enum TranactionState {
    Normal,
    Dispute,
    Resolve,
    ChargeBack,
}

/// The fields an event carries: the client, the transaction id, and,
/// for deposits and withdrawals, the amount in fixed-point units.
/// `state` is the lifecycle state once the record is stored in a ledger.
#[derive(Debug, Clone, Copy, PartialEq, Eq, Structural)]
pub struct TransactionDetail {
    pub client: u16,
    pub tx: u32,
    pub amount: Option<i64>,
    pub state: TranactionState,
}

impl TransactionDetail {
    /// A fresh detail record in the `Normal` state.
    pub fn new(client: u16, tx: u32, amount: Option<i64>) -> (r: Self)
        ensures
            r == (TransactionDetail { client, tx, amount, state: TranactionState::Normal }),
    {
        Self { client, tx, amount, state: TranactionState::Normal }
    }
}

/// A ledger event, already validated by the ingestion layer.
#[derive(Debug, Clone, Copy, PartialEq, Eq, Structural)]
pub enum Transaction {
    Deposit(TransactionDetail),
    Withdrawal(TransactionDetail),
    Dispute(TransactionDetail),
    Resolve(TransactionDetail),
    ChargeBack(TransactionDetail),
    Unknown,
}

/// One client's account. Funds are split into `available` and `held`;
/// `total` is their sum. A locked account rejects every further event.
#[derive(Debug, Clone, Copy, PartialEq, Eq, Structural)]
pub struct Account {
    pub client: u16,
    pub available: i64,
    pub held: i64,
    pub total: i64,
    pub locked: bool,
}

impl Account {
    /// The account a client starts with: no funds, not locked.
    pub open spec fn init(client: u16) -> Account {
        Account { client, available: 0, held: 0, total: 0, locked: false }
    }

    /// Balances are consistent and non-negative.
    pub open spec fn wf(self) -> bool {
        &&& self.available >= 0
        &&& self.held >= 0
        &&& self.available + self.held == self.total
    }

    pub fn new(client: u16) -> (r: Self)
        ensures
            r == Account::init(client),
    {
        Self { client, available: 0, held: 0, total: 0, locked: false }
    }
}

} // verus!
