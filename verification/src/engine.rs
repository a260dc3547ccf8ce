//! The transaction engine: applies ledger events to per-client accounts.
//!
//! The engine owns two id-keyed ledgers (deposit-origin and
//! withdrawal-origin records) and one account table. Each event is fully
//! validated before any mutation; a rejected event leaves every balance,
//! every record and every lock unchanged, except that an account is
//! created lazily on the first event that refers to its client id.
//!
//! The meaning of every operation is given by a pure transition function
//! on [`EngineView`]; each executable method's contract says that it
//! computes exactly that transition.

use crate::errors::AccountLockError;
use crate::errors::ChargebackError;
use crate::errors::DepositError;
use crate::errors::DisputeError;
use crate::errors::DuplicateTransactionError;
use crate::errors::ResolveError;
use crate::errors::TransactionErrors;
use crate::errors::WithdrawalError;
use crate::models::Account;
use crate::models::TranactionState;
use crate::models::Transaction;
use crate::models::TransactionDetail;
use std::collections::HashMap;
use vstd::prelude::*;

verus! {

/// Initial room reserved for each transaction ledger.
pub const TRANSACTION_MAP_SIZE: usize = 10000;

/// Initial room reserved for the account table; client ids are 16 bits.
pub const ACCOUNT_MAP_SIZE: usize = 65535;

/// The abstract state of the engine: the two ledgers, the account table,
/// and the client ids in order of first reference.
#[verifier::ext_equal]
pub struct EngineView {
    pub deposits: Map<u32, TransactionDetail>,
    pub withdrawals: Map<u32, TransactionDetail>,
    pub accounts: Map<u16, Account>,
    pub clients: Seq<u16>,
}

/// A record stored under key `tx` carries that id and a positive amount.
pub open spec fn record_wf(r: TransactionDetail, tx: u32) -> bool {
    &&& r.tx == tx
    &&& match r.amount {
        Some(a) => a > 0,
        None => false,
    }
}

/// The account `client` owns, or the account it would start with.
pub open spec fn stored_account(accounts: Map<u16, Account>, client: u16) -> Account {
    if accounts.contains_key(client) {
        accounts[client]
    } else {
        Account::init(client)
    }
}

impl EngineView {
    /// The state the engine starts in: nothing stored.
    pub open spec fn init() -> EngineView {
        EngineView {
            deposits: Map::empty(),
            withdrawals: Map::empty(),
            accounts: Map::empty(),
            clients: Seq::empty(),
        }
    }

    /// Well-formedness, maintained by every operation:
    /// every account has consistent, non-negative balances and sits under
    /// its own client id; every stored record has a positive amount and
    /// sits under its own transaction id; `clients` lists exactly the
    /// keys of the account table, each once.
    pub open spec fn wf(self) -> bool {
        &&& forall|c: u16| #[trigger]
            self.accounts.contains_key(c) ==> self.accounts[c].wf() && self.accounts[c].client == c
        &&& forall|t: u32| #[trigger]
            self.deposits.contains_key(t) ==> record_wf(self.deposits[t], t)
        &&& forall|t: u32| #[trigger]
            self.withdrawals.contains_key(t) ==> record_wf(self.withdrawals[t], t)
        &&& self.clients.no_duplicates()
        &&& forall|i: int|
            0 <= i < self.clients.len() ==> self.accounts.contains_key(#[trigger] self.clients[i])
        &&& forall|c: u16| #[trigger] self.accounts.contains_key(c) ==> self.clients.contains(c)
    }
}

/// `v` with an account for `client`, created now if this is the first
/// event that refers to it.
pub open spec fn ensure_account(v: EngineView, client: u16) -> EngineView {
    if v.accounts.contains_key(client) {
        v
    } else {
        EngineView {
            accounts: v.accounts.insert(client, Account::init(client)),
            clients: v.clients.push(client),
            ..v
        }
    }
}

/// The outcome of a deposit event: the state after it and the result
/// handed back.
///
/// A deposit fails with `DuplicateTransaction` if its id is already in
/// the deposit ledger, then with `Deposit` if the amount is absent or
/// not positive, then with `AccountLock` if the account is locked, and
/// last with `Deposit` again if the amount would push the total past
/// what a balance can hold. On success `available` and `total` grow by
/// the amount and a `Normal` record enters the deposit ledger. Only a
/// successful deposit creates a missing account.
pub open spec fn apply_deposit(pre: EngineView, d: TransactionDetail) -> (EngineView, Result<
    (),
    TransactionErrors,
>) {
    if pre.deposits.contains_key(d.tx) {
        (pre, Err(TransactionErrors::DuplicateTransaction((DuplicateTransactionError { tx: d.tx }))))
    } else {
        match d.amount {
            Some(amt) => {
                let acct = stored_account(pre.accounts, d.client);
                if amt <= 0 {
                    (pre, Err(TransactionErrors::Deposit((DepositError { tx: d.tx }))))
                } else if acct.locked {
                    (
                        pre,
                        Err(TransactionErrors::AccountLock((AccountLockError { client: d.client }))),
                    )
                } else if acct.total + amt > i64::MAX {
                    (pre, Err(TransactionErrors::Deposit((DepositError { tx: d.tx }))))
                } else {
                    let upd = Account {
                        available: (acct.available + amt) as i64,
                        total: (acct.total + amt) as i64,
                        ..acct
                    };
                    (
                        EngineView {
                            deposits: pre.deposits.insert(
                                d.tx,
                                TransactionDetail { state: TranactionState::Normal, ..d },
                            ),
                            withdrawals: pre.withdrawals,
                            accounts: pre.accounts.insert(d.client, upd),
                            clients: if pre.accounts.contains_key(d.client) {
                                pre.clients
                            } else {
                                pre.clients.push(d.client)
                            },
                        },
                        Ok(()),
                    )
                }
            },
            None => (pre, Err(TransactionErrors::Deposit((DepositError { tx: d.tx })))),
        }
    }
}

/// Deposits preserve well-formedness.
pub proof fn lemma_deposit_preserves_wf(pre: EngineView, d: TransactionDetail)
    requires
        pre.wf(),
    ensures
        apply_deposit(pre, d).0.wf(),
{
    let post = apply_deposit(pre, d).0;
    if !pre.deposits.contains_key(d.tx) {
        match d.amount {
            Some(amt) => {
                let acct = stored_account(pre.accounts, d.client);
                if amt <= 0 || acct.locked || acct.total + amt > i64::MAX {
                } else {
                    lemma_account_update_wf(pre, d.client, acct, post);
                    assert forall|t: u32| #[trigger]
                        post.deposits.contains_key(t) implies record_wf(post.deposits[t], t) by {
                        if t != d.tx {
                            assert(pre.deposits.contains_key(t));
                        }
                    }
                }
            },
            None => {},
        }
    }
}

/// Storing an updated (or fresh) well-formed account for `client`, and
/// recording the client on first reference, keeps the state well-formed
/// as far as the account table and the client list go.
proof fn lemma_account_update_wf(pre: EngineView, client: u16, acct: Account, post: EngineView)
    requires
        pre.wf(),
        acct.wf(),
        acct.client == client,
        post.accounts[client].wf(),
        post.accounts[client].client == client,
        post.accounts == pre.accounts.insert(client, post.accounts[client]),
        post.clients == if pre.accounts.contains_key(client) {
            pre.clients
        } else {
            pre.clients.push(client)
        },
    ensures
        forall|c: u16| #[trigger]
            post.accounts.contains_key(c) ==> post.accounts[c].wf() && post.accounts[c].client == c,
        post.clients.no_duplicates(),
        forall|i: int|
            0 <= i < post.clients.len() ==> post.accounts.contains_key(#[trigger] post.clients[i]),
        forall|c: u16| #[trigger] post.accounts.contains_key(c) ==> post.clients.contains(c),
{
    assert forall|c: u16| #[trigger]
        post.accounts.contains_key(c) implies post.accounts[c].wf() && post.accounts[c].client
        == c by {
        if c != client {
            assert(pre.accounts.contains_key(c));
        }
    }
    if pre.accounts.contains_key(client) {
        assert forall|c: u16| #[trigger]
            post.accounts.contains_key(c) implies post.clients.contains(c) by {
            assert(pre.accounts.contains_key(c));
        }
    } else {
        assert(!pre.clients.contains(client)) by {
            if pre.clients.contains(client) {
                let i = choose|i: int|
                    0 <= i < pre.clients.len() && pre.clients[i] == client;
                assert(pre.accounts.contains_key(pre.clients[i]));
            }
        }
        assert(post.clients.no_duplicates()) by {
            assert forall|i: int, j: int|
                0 <= i < post.clients.len() && 0 <= j < post.clients.len() && i
                    != j implies post.clients[i] != post.clients[j] by {
                if i < pre.clients.len() && j < pre.clients.len() {
                } else if j == pre.clients.len() as int {
                    assert(!pre.clients.contains(client));
                    assert(post.clients[i] == pre.clients[i]);
                } else {
                    assert(!pre.clients.contains(client));
                    assert(post.clients[j] == pre.clients[j]);
                }
            }
        }
        assert forall|i: int|
            0 <= i < post.clients.len() implies post.accounts.contains_key(
            #[trigger] post.clients[i],
        ) by {
            if i < pre.clients.len() {
                assert(pre.accounts.contains_key(pre.clients[i]));
            } else {
                assert(post.clients[i] == client);
            }
        }
        assert forall|c: u16| #[trigger]
            post.accounts.contains_key(c) implies post.clients.contains(c) by {
            if c == client {
                assert(post.clients[pre.clients.len() as int] == c);
            } else {
                assert(pre.accounts.contains_key(c));
                let i = choose|i: int| 0 <= i < pre.clients.len() && pre.clients[i] == c;
                assert(post.clients[i] == c);
            }
        }
    }
}

/// Creating a missing account preserves well-formedness.
proof fn lemma_ensure_account_wf(pre: EngineView, client: u16)
    requires
        pre.wf(),
    ensures
        ensure_account(pre, client).wf(),
{
    let post = ensure_account(pre, client);
    if !pre.accounts.contains_key(client) {
        lemma_account_update_wf(pre, client, Account::init(client), post);
    }
}

/// The outcome of a withdrawal event.
///
/// A withdrawal fails with `DuplicateTransaction` if its id is already in
/// the withdrawal ledger, then with `AccountLock` if the account is
/// locked, then with `Withdrawal` if the amount is absent, not positive,
/// or more than the available funds. On success `available` and `total`
/// shrink by the amount and a `Normal` record enters the withdrawal
/// ledger. A missing account is created as soon as a withdrawal passes
/// the duplicate check, even when the withdrawal is then rejected.
pub open spec fn apply_withdrawal(pre: EngineView, d: TransactionDetail) -> (EngineView, Result<
    (),
    TransactionErrors,
>) {
    if pre.withdrawals.contains_key(d.tx) {
        (pre, Err(TransactionErrors::DuplicateTransaction((DuplicateTransactionError { tx: d.tx }))))
    } else {
        let acct = stored_account(pre.accounts, d.client);
        let v = ensure_account(pre, d.client);
        if acct.locked {
            (v, Err(TransactionErrors::AccountLock((AccountLockError { client: d.client }))))
        } else {
            match d.amount {
                Some(amt) => {
                    if amt <= 0 || acct.available < amt {
                        (v, Err(TransactionErrors::Withdrawal((WithdrawalError { tx: d.tx }))))
                    } else {
                        (
                            EngineView {
                                deposits: v.deposits,
                                withdrawals: v.withdrawals.insert(
                                    d.tx,
                                    TransactionDetail { state: TranactionState::Normal, ..d },
                                ),
                                accounts: v.accounts.insert(
                                    d.client,
                                    Account {
                                        available: (acct.available - amt) as i64,
                                        total: (acct.total - amt) as i64,
                                        ..acct
                                    },
                                ),
                                clients: v.clients,
                            },
                            Ok(()),
                        )
                    }
                },
                None => (v, Err(TransactionErrors::Withdrawal((WithdrawalError { tx: d.tx })))),
            }
        }
    }
}

/// Withdrawals preserve well-formedness.
pub proof fn lemma_withdrawal_preserves_wf(pre: EngineView, d: TransactionDetail)
    requires
        pre.wf(),
    ensures
        apply_withdrawal(pre, d).0.wf(),
{
    let post = apply_withdrawal(pre, d).0;
    if !pre.withdrawals.contains_key(d.tx) {
        lemma_ensure_account_wf(pre, d.client);
        let acct = stored_account(pre.accounts, d.client);
        match d.amount {
            Some(amt) => {
                if !acct.locked && amt > 0 && acct.available >= amt {
                    assert(pre.accounts.contains_key(d.client));
                    lemma_account_update_wf(pre, d.client, acct, post);
                    assert forall|t: u32| #[trigger]
                        post.withdrawals.contains_key(t) implies record_wf(
                        post.withdrawals[t],
                        t,
                    ) by {
                        if t != d.tx {
                            assert(pre.withdrawals.contains_key(t));
                        }
                    }
                }
            },
            None => {},
        }
    }
}

/// The outcome of a dispute event.
///
/// A dispute fails with `AccountLock` if the account is locked (checked
/// before any lookup). The deposit ledger is searched first, then the
/// withdrawal ledger; the dispute fails with `Dispute` if the id is in
/// neither, if the found record belongs to another client, or if the
/// record is not in the `Normal` state. Disputing a deposit further
/// requires the amount to be available, and moves it from `available` to
/// `held`; disputing a withdrawal reinstates the debited amount into
/// `held` and `total` (rejected only if `total` cannot hold it). On
/// success the record becomes `Dispute`. A missing account is created
/// even when the dispute is then rejected.
pub open spec fn apply_dispute(pre: EngineView, d: TransactionDetail) -> (EngineView, Result<
    (),
    TransactionErrors,
>) {
    let acct = stored_account(pre.accounts, d.client);
    let v = ensure_account(pre, d.client);
    if acct.locked {
        (v, Err(TransactionErrors::AccountLock((AccountLockError { client: d.client }))))
    } else if pre.deposits.contains_key(d.tx) {
        let rec = pre.deposits[d.tx];
        match rec.amount {
            Some(amt) => {
                if rec.client == d.client && rec.state == TranactionState::Normal
                    && acct.available >= amt {
                    (
                        EngineView {
                            deposits: v.deposits.insert(
                                d.tx,
                                TransactionDetail { state: TranactionState::Dispute, ..rec },
                            ),
                            withdrawals: v.withdrawals,
                            accounts: v.accounts.insert(
                                d.client,
                                Account {
                                    available: (acct.available - amt) as i64,
                                    held: (acct.held + amt) as i64,
                                    ..acct
                                },
                            ),
                            clients: v.clients,
                        },
                        Ok(()),
                    )
                } else {
                    (v, Err(TransactionErrors::Dispute((DisputeError { tx: d.tx }))))
                }
            },
            None => (v, Err(TransactionErrors::Dispute((DisputeError { tx: d.tx })))),
        }
    } else if pre.withdrawals.contains_key(d.tx) {
        let rec = pre.withdrawals[d.tx];
        match rec.amount {
            Some(amt) => {
                if rec.client == d.client && rec.state == TranactionState::Normal && acct.total
                    + amt <= i64::MAX {
                    (
                        EngineView {
                            deposits: v.deposits,
                            withdrawals: v.withdrawals.insert(
                                d.tx,
                                TransactionDetail { state: TranactionState::Dispute, ..rec },
                            ),
                            accounts: v.accounts.insert(
                                d.client,
                                Account {
                                    held: (acct.held + amt) as i64,
                                    total: (acct.total + amt) as i64,
                                    ..acct
                                },
                            ),
                            clients: v.clients,
                        },
                        Ok(()),
                    )
                } else {
                    (v, Err(TransactionErrors::Dispute((DisputeError { tx: d.tx }))))
                }
            },
            None => (v, Err(TransactionErrors::Dispute((DisputeError { tx: d.tx })))),
        }
    } else {
        (v, Err(TransactionErrors::Dispute((DisputeError { tx: d.tx }))))
    }
}

/// Disputes preserve well-formedness.
pub proof fn lemma_dispute_preserves_wf(pre: EngineView, d: TransactionDetail)
    requires
        pre.wf(),
    ensures
        apply_dispute(pre, d).0.wf(),
{
    let post = apply_dispute(pre, d).0;
    let acct = stored_account(pre.accounts, d.client);
    let v = ensure_account(pre, d.client);
    lemma_ensure_account_wf(pre, d.client);
    if !acct.locked && pre.deposits.contains_key(d.tx) {
        let rec = pre.deposits[d.tx];
        match rec.amount {
            Some(amt) => {
                if rec.client == d.client && rec.state == TranactionState::Normal
                    && acct.available >= amt {
                    assert(pre.accounts.contains_key(d.client));
                    lemma_account_update_wf(pre, d.client, acct, post);
                    assert forall|t: u32| #[trigger]
                        post.deposits.contains_key(t) implies record_wf(post.deposits[t], t) by {
                        if t != d.tx {
                            assert(pre.deposits.contains_key(t));
                        }
                    }
                }
            },
            None => {},
        }
    } else if !acct.locked && !pre.deposits.contains_key(d.tx) && pre.withdrawals.contains_key(
        d.tx,
    ) {
        let rec = pre.withdrawals[d.tx];
        match rec.amount {
            Some(amt) => {
                if rec.client == d.client && rec.state == TranactionState::Normal && acct.total
                    + amt <= i64::MAX {
                    let upd = Account {
                        held: (acct.held + amt) as i64,
                        total: (acct.total + amt) as i64,
                        ..acct
                    };
                    assert(v.accounts.insert(d.client, upd) =~= pre.accounts.insert(d.client, upd));
                    lemma_account_update_wf(pre, d.client, acct, post);
                    assert forall|t: u32| #[trigger]
                        post.withdrawals.contains_key(t) implies record_wf(
                        post.withdrawals[t],
                        t,
                    ) by {
                        if t != d.tx {
                            assert(pre.withdrawals.contains_key(t));
                        }
                    }
                }
            },
            None => {},
        }
    }
}

/// The outcome of a resolve event.
///
/// A resolve fails with `AccountLock` if the account is locked (checked
/// before any lookup). The deposit ledger is searched first, then the
/// withdrawal ledger; the resolve fails with `Resolve` if the id is in
/// neither, if the found record belongs to another client, if the record
/// is not in the `Dispute` state, or if `held` is smaller than the
/// amount. Resolving a deposit moves the amount from `held` back to
/// `available`; resolving a withdrawal removes the reinstated amount
/// from `held` and `total`, letting the original debit stand. On success
/// the record becomes `Resolve`. A missing account is created even when
/// the resolve is then rejected.
pub open spec fn apply_resolve(pre: EngineView, d: TransactionDetail) -> (EngineView, Result<
    (),
    TransactionErrors,
>) {
    let acct = stored_account(pre.accounts, d.client);
    let v = ensure_account(pre, d.client);
    if acct.locked {
        (v, Err(TransactionErrors::AccountLock((AccountLockError { client: d.client }))))
    } else if pre.deposits.contains_key(d.tx) {
        let rec = pre.deposits[d.tx];
        match rec.amount {
            Some(amt) => {
                if rec.client == d.client && rec.state == TranactionState::Dispute && acct.held
                    >= amt {
                    (
                        EngineView {
                            deposits: v.deposits.insert(
                                d.tx,
                                TransactionDetail { state: TranactionState::Resolve, ..rec },
                            ),
                            withdrawals: v.withdrawals,
                            accounts: v.accounts.insert(
                                d.client,
                                Account {
                                    available: (acct.available + amt) as i64,
                                    held: (acct.held - amt) as i64,
                                    ..acct
                                },
                            ),
                            clients: v.clients,
                        },
                        Ok(()),
                    )
                } else {
                    (v, Err(TransactionErrors::Resolve((ResolveError { tx: d.tx }))))
                }
            },
            None => (v, Err(TransactionErrors::Resolve((ResolveError { tx: d.tx })))),
        }
    } else if pre.withdrawals.contains_key(d.tx) {
        let rec = pre.withdrawals[d.tx];
        match rec.amount {
            Some(amt) => {
                if rec.client == d.client && rec.state == TranactionState::Dispute && acct.held
                    >= amt {
                    (
                        EngineView {
                            deposits: v.deposits,
                            withdrawals: v.withdrawals.insert(
                                d.tx,
                                TransactionDetail { state: TranactionState::Resolve, ..rec },
                            ),
                            accounts: v.accounts.insert(
                                d.client,
                                Account {
                                    held: (acct.held - amt) as i64,
                                    total: (acct.total - amt) as i64,
                                    ..acct
                                },
                            ),
                            clients: v.clients,
                        },
                        Ok(()),
                    )
                } else {
                    (v, Err(TransactionErrors::Resolve((ResolveError { tx: d.tx }))))
                }
            },
            None => (v, Err(TransactionErrors::Resolve((ResolveError { tx: d.tx })))),
        }
    } else {
        (v, Err(TransactionErrors::Resolve((ResolveError { tx: d.tx }))))
    }
}

/// Resolves preserve well-formedness.
pub proof fn lemma_resolve_preserves_wf(pre: EngineView, d: TransactionDetail)
    requires
        pre.wf(),
    ensures
        apply_resolve(pre, d).0.wf(),
{
    let post = apply_resolve(pre, d).0;
    let acct = stored_account(pre.accounts, d.client);
    lemma_ensure_account_wf(pre, d.client);
    if !acct.locked && pre.deposits.contains_key(d.tx) {
        let rec = pre.deposits[d.tx];
        match rec.amount {
            Some(amt) => {
                if rec.client == d.client && rec.state == TranactionState::Dispute && acct.held
                    >= amt {
                    assert(pre.accounts.contains_key(d.client));
                    lemma_account_update_wf(pre, d.client, acct, post);
                    assert forall|t: u32| #[trigger]
                        post.deposits.contains_key(t) implies record_wf(post.deposits[t], t) by {
                        if t != d.tx {
                            assert(pre.deposits.contains_key(t));
                        }
                    }
                }
            },
            None => {},
        }
    } else if !acct.locked && !pre.deposits.contains_key(d.tx) && pre.withdrawals.contains_key(
        d.tx,
    ) {
        let rec = pre.withdrawals[d.tx];
        match rec.amount {
            Some(amt) => {
                if rec.client == d.client && rec.state == TranactionState::Dispute && acct.held
                    >= amt {
                    assert(pre.accounts.contains_key(d.client));
                    lemma_account_update_wf(pre, d.client, acct, post);
                    assert forall|t: u32| #[trigger]
                        post.withdrawals.contains_key(t) implies record_wf(
                        post.withdrawals[t],
                        t,
                    ) by {
                        if t != d.tx {
                            assert(pre.withdrawals.contains_key(t));
                        }
                    }
                }
            },
            None => {},
        }
    }
}

/// The outcome of a chargeback event.
///
/// A chargeback has the same preconditions as a resolve, failing with
/// `AccountLock` or `Chargeback`. Charging back a deposit reverses it:
/// the amount leaves `held` and `total`; charging back a withdrawal
/// restores the debit: the amount moves from `held` to `available`. On
/// success the record becomes `ChargeBack` and the account is locked,
/// permanently. A missing account is created even when the chargeback is
/// then rejected.
pub open spec fn apply_chargeback(pre: EngineView, d: TransactionDetail) -> (EngineView, Result<
    (),
    TransactionErrors,
>) {
    let acct = stored_account(pre.accounts, d.client);
    let v = ensure_account(pre, d.client);
    if acct.locked {
        (v, Err(TransactionErrors::AccountLock((AccountLockError { client: d.client }))))
    } else if pre.deposits.contains_key(d.tx) {
        let rec = pre.deposits[d.tx];
        match rec.amount {
            Some(amt) => {
                if rec.client == d.client && rec.state == TranactionState::Dispute && acct.held
                    >= amt {
                    (
                        EngineView {
                            deposits: v.deposits.insert(
                                d.tx,
                                TransactionDetail { state: TranactionState::ChargeBack, ..rec },
                            ),
                            withdrawals: v.withdrawals,
                            accounts: v.accounts.insert(
                                d.client,
                                Account {
                                    held: (acct.held - amt) as i64,
                                    total: (acct.total - amt) as i64,
                                    locked: true,
                                    ..acct
                                },
                            ),
                            clients: v.clients,
                        },
                        Ok(()),
                    )
                } else {
                    (v, Err(TransactionErrors::Chargeback((ChargebackError { tx: d.tx }))))
                }
            },
            None => (v, Err(TransactionErrors::Chargeback((ChargebackError { tx: d.tx })))),
        }
    } else if pre.withdrawals.contains_key(d.tx) {
        let rec = pre.withdrawals[d.tx];
        match rec.amount {
            Some(amt) => {
                if rec.client == d.client && rec.state == TranactionState::Dispute && acct.held
                    >= amt {
                    (
                        EngineView {
                            deposits: v.deposits,
                            withdrawals: v.withdrawals.insert(
                                d.tx,
                                TransactionDetail { state: TranactionState::ChargeBack, ..rec },
                            ),
                            accounts: v.accounts.insert(
                                d.client,
                                Account {
                                    available: (acct.available + amt) as i64,
                                    held: (acct.held - amt) as i64,
                                    locked: true,
                                    ..acct
                                },
                            ),
                            clients: v.clients,
                        },
                        Ok(()),
                    )
                } else {
                    (v, Err(TransactionErrors::Chargeback((ChargebackError { tx: d.tx }))))
                }
            },
            None => (v, Err(TransactionErrors::Chargeback((ChargebackError { tx: d.tx })))),
        }
    } else {
        (v, Err(TransactionErrors::Chargeback((ChargebackError { tx: d.tx }))))
    }
}

/// Chargebacks preserve well-formedness.
pub proof fn lemma_chargeback_preserves_wf(pre: EngineView, d: TransactionDetail)
    requires
        pre.wf(),
    ensures
        apply_chargeback(pre, d).0.wf(),
{
    let post = apply_chargeback(pre, d).0;
    let acct = stored_account(pre.accounts, d.client);
    lemma_ensure_account_wf(pre, d.client);
    if !acct.locked && pre.deposits.contains_key(d.tx) {
        let rec = pre.deposits[d.tx];
        match rec.amount {
            Some(amt) => {
                if rec.client == d.client && rec.state == TranactionState::Dispute && acct.held
                    >= amt {
                    assert(pre.accounts.contains_key(d.client));
                    lemma_account_update_wf(pre, d.client, acct, post);
                    assert forall|t: u32| #[trigger]
                        post.deposits.contains_key(t) implies record_wf(post.deposits[t], t) by {
                        if t != d.tx {
                            assert(pre.deposits.contains_key(t));
                        }
                    }
                }
            },
            None => {},
        }
    } else if !acct.locked && !pre.deposits.contains_key(d.tx) && pre.withdrawals.contains_key(
        d.tx,
    ) {
        let rec = pre.withdrawals[d.tx];
        match rec.amount {
            Some(amt) => {
                if rec.client == d.client && rec.state == TranactionState::Dispute && acct.held
                    >= amt {
                    assert(pre.accounts.contains_key(d.client));
                    lemma_account_update_wf(pre, d.client, acct, post);
                    assert forall|t: u32| #[trigger]
                        post.withdrawals.contains_key(t) implies record_wf(
                        post.withdrawals[t],
                        t,
                    ) by {
                        if t != d.tx {
                            assert(pre.withdrawals.contains_key(t));
                        }
                    }
                }
            },
            None => {},
        }
    }
}

/// The outcome of any one event: deposits, withdrawals, disputes,
/// resolves and chargebacks act as their transition functions say;
/// an `Unknown` event changes nothing and reports no error.
pub open spec fn apply_event(pre: EngineView, t: Transaction) -> (EngineView, Result<
    (),
    TransactionErrors,
>) {
    match t {
        Transaction::Deposit(d) => apply_deposit(pre, d),
        Transaction::Withdrawal(d) => apply_withdrawal(pre, d),
        Transaction::Dispute(d) => apply_dispute(pre, d),
        Transaction::Resolve(d) => apply_resolve(pre, d),
        Transaction::ChargeBack(d) => apply_chargeback(pre, d),
        Transaction::Unknown => (pre, Ok(())),
    }
}

/// Every event preserves well-formedness; in particular every account's
/// balances stay consistent and non-negative.
pub proof fn lemma_event_preserves_wf(pre: EngineView, t: Transaction)
    requires
        pre.wf(),
    ensures
        apply_event(pre, t).0.wf(),
{
    match t {
        Transaction::Deposit(d) => lemma_deposit_preserves_wf(pre, d),
        Transaction::Withdrawal(d) => lemma_withdrawal_preserves_wf(pre, d),
        Transaction::Dispute(d) => lemma_dispute_preserves_wf(pre, d),
        Transaction::Resolve(d) => lemma_resolve_preserves_wf(pre, d),
        Transaction::ChargeBack(d) => lemma_chargeback_preserves_wf(pre, d),
        Transaction::Unknown => {},
    }
}

/// The engine. It is the sole owner and mutator of its ledgers and its
/// account table; events are applied strictly one at a time.
pub struct TransactionEngine {
    /// Withdrawal-origin records, keyed by transaction id.
    pub withdrawal_transactions: HashMap<u32, TransactionDetail>,
    /// Deposit-origin records, keyed by transaction id.
    pub deposit_transactions: HashMap<u32, TransactionDetail>,
    /// One account per client id, created lazily.
    pub accounts: HashMap<u16, Account>,
    /// Client ids in order of first reference; drives the final report.
    pub clients: Vec<u16>,
}

impl View for TransactionEngine {
    type V = EngineView;

    open spec fn view(&self) -> EngineView {
        EngineView {
            deposits: self.deposit_transactions@,
            withdrawals: self.withdrawal_transactions@,
            accounts: self.accounts@,
            clients: self.clients@,
        }
    }
}

impl TransactionEngine {
    /// The engine's state is well-formed.
    pub open spec fn wf(self) -> bool {
        self@.wf()
    }

    /// A fresh engine with empty ledgers and an empty account table.
    pub fn new() -> (r: Self)
        ensures
            r.wf(),
            r@ == EngineView::init(),
    {
        let r = Self {
            withdrawal_transactions: HashMap::with_capacity(TRANSACTION_MAP_SIZE),
            deposit_transactions: HashMap::with_capacity(TRANSACTION_MAP_SIZE),
            accounts: HashMap::with_capacity(ACCOUNT_MAP_SIZE),
            clients: Vec::new(),
        };
        proof {
            assert(r@ =~~= EngineView::init());
        }
        r
    }

    /// Rejects a transaction id that is already in the given ledger.
    fn check_dup_transaction_id(
        transactions: &HashMap<u32, TransactionDetail>,
        tx: u32,
    ) -> (r: Result<(), TransactionErrors>)
        ensures
            r == if transactions@.contains_key(tx) {
                Err::<(), TransactionErrors>(
                    TransactionErrors::DuplicateTransaction((DuplicateTransactionError { tx })),
                )
            } else {
                Ok::<(), TransactionErrors>(())
            },
    {
        if transactions.contains_key(&tx) {
            Err(TransactionErrors::DuplicateTransaction(DuplicateTransactionError { tx }))
        } else {
            Ok(())
        }
    }

    /// The account of `client` as the next operation sees it, without
    /// storing anything.
    fn account_or_init(&self, client: u16) -> (r: Account)
        ensures
            r == stored_account(self@.accounts, client),
    {
        match self.accounts.get(&client) {
            Some(a) => *a,
            None => Account::new(client),
        }
    }

    /// Applies one deposit event, as [`apply_deposit`] describes.
    pub fn process_deposit(&mut self, tx_detail: TransactionDetail) -> (r: Result<
        (),
        TransactionErrors,
    >)
        requires
            old(self).wf(),
        ensures
            final(self).wf(),
            final(self)@ == apply_deposit(old(self)@, tx_detail).0,
            r == apply_deposit(old(self)@, tx_detail).1,
    {
        proof {
            lemma_deposit_preserves_wf(old(self)@, tx_detail);
        }
        Self::check_dup_transaction_id(&self.deposit_transactions, tx_detail.tx)?;
        match tx_detail.amount {
            Some(amt) => {
                if amt <= 0 {
                    return Err(TransactionErrors::Deposit(DepositError { tx: tx_detail.tx }));
                }
                let acct = self.account_or_init(tx_detail.client);
                if acct.locked {
                    return Err(
                        TransactionErrors::AccountLock(AccountLockError { client: tx_detail.client }),
                    );
                }
                if acct.total > i64::MAX - amt {
                    return Err(TransactionErrors::Deposit(DepositError { tx: tx_detail.tx }));
                }
                let upd = Account { available: acct.available + amt, total: acct.total + amt, ..acct };
                if !self.accounts.contains_key(&tx_detail.client) {
                    self.clients.push(tx_detail.client);
                }
                self.accounts.insert(tx_detail.client, upd);
                self.deposit_transactions.insert(
                    tx_detail.tx,
                    TransactionDetail { state: TranactionState::Normal, ..tx_detail },
                );
                Ok(())
            },
            None => Err(TransactionErrors::Deposit(DepositError { tx: tx_detail.tx })),
        }
    }

    /// Hands back the (possibly newly created) account of `client`, or
    /// the lock error if it is locked. Creates and stores a missing
    /// account as a side effect, as the lazy-creation rule asks.
    fn get_unlocked_account(&mut self, client: u16) -> (r: Result<Account, TransactionErrors>)
        requires
            old(self).wf(),
        ensures
            final(self).wf(),
            final(self)@ == ensure_account(old(self)@, client),
            r == if stored_account(old(self)@.accounts, client).locked {
                Err::<Account, TransactionErrors>(
                    TransactionErrors::AccountLock((AccountLockError { client })),
                )
            } else {
                Ok::<Account, TransactionErrors>(stored_account(old(self)@.accounts, client))
            },
    {
        proof {
            lemma_ensure_account_wf(old(self)@, client);
        }
        match self.accounts.get(&client) {
            Some(a) => {
                let a = *a;
                if a.locked {
                    Err(TransactionErrors::AccountLock(AccountLockError { client }))
                } else {
                    Ok(a)
                }
            },
            None => {
                let a = Account::new(client);
                self.clients.push(client);
                self.accounts.insert(client, a);
                Ok(a)
            },
        }
    }

    /// Applies one withdrawal event, as [`apply_withdrawal`] describes.
    pub fn process_withdrawal(&mut self, tx_detail: TransactionDetail) -> (r: Result<
        (),
        TransactionErrors,
    >)
        requires
            old(self).wf(),
        ensures
            final(self).wf(),
            final(self)@ == apply_withdrawal(old(self)@, tx_detail).0,
            r == apply_withdrawal(old(self)@, tx_detail).1,
    {
        proof {
            lemma_withdrawal_preserves_wf(old(self)@, tx_detail);
        }
        Self::check_dup_transaction_id(&self.withdrawal_transactions, tx_detail.tx)?;
        let acct = self.get_unlocked_account(tx_detail.client)?;
        match tx_detail.amount {
            Some(amt) => {
                if amt <= 0 || acct.available < amt {
                    return Err(TransactionErrors::Withdrawal(WithdrawalError { tx: tx_detail.tx }));
                }
                let upd = Account { available: acct.available - amt, total: acct.total - amt, ..acct };
                self.accounts.insert(tx_detail.client, upd);
                self.withdrawal_transactions.insert(
                    tx_detail.tx,
                    TransactionDetail { state: TranactionState::Normal, ..tx_detail },
                );
                Ok(())
            },
            None => Err(TransactionErrors::Withdrawal(WithdrawalError { tx: tx_detail.tx })),
        }
    }

    /// Applies one dispute event, as [`apply_dispute`] describes.
    pub fn process_dispute(&mut self, tx_detail: TransactionDetail) -> (r: Result<
        (),
        TransactionErrors,
    >)
        requires
            old(self).wf(),
        ensures
            final(self).wf(),
            final(self)@ == apply_dispute(old(self)@, tx_detail).0,
            r == apply_dispute(old(self)@, tx_detail).1,
    {
        proof {
            lemma_dispute_preserves_wf(old(self)@, tx_detail);
        }
        let acct = self.get_unlocked_account(tx_detail.client)?;
        let dep = match self.deposit_transactions.get(&tx_detail.tx) {
            Some(r) => Some(*r),
            None => None,
        };
        match dep {
            Some(rec) => {
                match rec.amount {
                    Some(amt) => {
                        if rec.client == tx_detail.client && rec.state == TranactionState::Normal
                            && acct.available >= amt {
                            let upd = Account {
                                available: acct.available - amt,
                                held: acct.held + amt,
                                ..acct
                            };
                            self.accounts.insert(tx_detail.client, upd);
                            self.deposit_transactions.insert(
                                tx_detail.tx,
                                TransactionDetail { state: TranactionState::Dispute, ..rec },
                            );
                            Ok(())
                        } else {
                            Err(TransactionErrors::Dispute(DisputeError { tx: tx_detail.tx }))
                        }
                    },
                    None => Err(TransactionErrors::Dispute(DisputeError { tx: tx_detail.tx })),
                }
            },
            None => {
                let wdr = match self.withdrawal_transactions.get(&tx_detail.tx) {
                    Some(r) => Some(*r),
                    None => None,
                };
                match wdr {
                    Some(rec) => {
                        match rec.amount {
                            Some(amt) => {
                                if rec.client == tx_detail.client && rec.state
                                    == TranactionState::Normal && acct.total <= i64::MAX - amt {
                                    let upd = Account {
                                        held: acct.held + amt,
                                        total: acct.total + amt,
                                        ..acct
                                    };
                                    self.accounts.insert(tx_detail.client, upd);
                                    self.withdrawal_transactions.insert(
                                        tx_detail.tx,
                                        TransactionDetail { state: TranactionState::Dispute, ..rec },
                                    );
                                    Ok(())
                                } else {
                                    Err(
                                        TransactionErrors::Dispute(
                                            DisputeError { tx: tx_detail.tx },
                                        ),
                                    )
                                }
                            },
                            None => Err(
                                TransactionErrors::Dispute(DisputeError { tx: tx_detail.tx }),
                            ),
                        }
                    },
                    None => Err(TransactionErrors::Dispute(DisputeError { tx: tx_detail.tx })),
                }
            },
        }
    }

    /// Applies one resolve event, as [`apply_resolve`] describes.
    pub fn process_resolve(&mut self, tx_detail: TransactionDetail) -> (r: Result<
        (),
        TransactionErrors,
    >)
        requires
            old(self).wf(),
        ensures
            final(self).wf(),
            final(self)@ == apply_resolve(old(self)@, tx_detail).0,
            r == apply_resolve(old(self)@, tx_detail).1,
    {
        proof {
            lemma_resolve_preserves_wf(old(self)@, tx_detail);
        }
        let acct = self.get_unlocked_account(tx_detail.client)?;
        let dep = match self.deposit_transactions.get(&tx_detail.tx) {
            Some(r) => Some(*r),
            None => None,
        };
        match dep {
            Some(rec) => {
                match rec.amount {
                    Some(amt) => {
                        if rec.client == tx_detail.client && rec.state == TranactionState::Dispute
                            && acct.held >= amt {
                            let upd = Account {
                                available: acct.available + amt,
                                held: acct.held - amt,
                                ..acct
                            };
                            self.accounts.insert(tx_detail.client, upd);
                            self.deposit_transactions.insert(
                                tx_detail.tx,
                                TransactionDetail { state: TranactionState::Resolve, ..rec },
                            );
                            Ok(())
                        } else {
                            Err(TransactionErrors::Resolve(ResolveError { tx: tx_detail.tx }))
                        }
                    },
                    None => Err(TransactionErrors::Resolve(ResolveError { tx: tx_detail.tx })),
                }
            },
            None => {
                let wdr = match self.withdrawal_transactions.get(&tx_detail.tx) {
                    Some(r) => Some(*r),
                    None => None,
                };
                match wdr {
                    Some(rec) => {
                        match rec.amount {
                            Some(amt) => {
                                if rec.client == tx_detail.client && rec.state
                                    == TranactionState::Dispute && acct.held >= amt {
                                    let upd = Account {
                                        held: acct.held - amt,
                                        total: acct.total - amt,
                                        ..acct
                                    };
                                    self.accounts.insert(tx_detail.client, upd);
                                    self.withdrawal_transactions.insert(
                                        tx_detail.tx,
                                        TransactionDetail { state: TranactionState::Resolve, ..rec },
                                    );
                                    Ok(())
                                } else {
                                    Err(
                                        TransactionErrors::Resolve(
                                            ResolveError { tx: tx_detail.tx },
                                        ),
                                    )
                                }
                            },
                            None => Err(
                                TransactionErrors::Resolve(ResolveError { tx: tx_detail.tx }),
                            ),
                        }
                    },
                    None => Err(TransactionErrors::Resolve(ResolveError { tx: tx_detail.tx })),
                }
            },
        }
    }

    /// Applies one chargeback event, as [`apply_chargeback`] describes.
    pub fn process_chargeback(&mut self, tx_detail: TransactionDetail) -> (r: Result<
        (),
        TransactionErrors,
    >)
        requires
            old(self).wf(),
        ensures
            final(self).wf(),
            final(self)@ == apply_chargeback(old(self)@, tx_detail).0,
            r == apply_chargeback(old(self)@, tx_detail).1,
    {
        proof {
            lemma_chargeback_preserves_wf(old(self)@, tx_detail);
        }
        let acct = self.get_unlocked_account(tx_detail.client)?;
        let dep = match self.deposit_transactions.get(&tx_detail.tx) {
            Some(r) => Some(*r),
            None => None,
        };
        match dep {
            Some(rec) => {
                match rec.amount {
                    Some(amt) => {
                        if rec.client == tx_detail.client && rec.state == TranactionState::Dispute
                            && acct.held >= amt {
                            let upd = Account {
                                held: acct.held - amt,
                                total: acct.total - amt,
                                locked: true,
                                ..acct
                            };
                            self.accounts.insert(tx_detail.client, upd);
                            self.deposit_transactions.insert(
                                tx_detail.tx,
                                TransactionDetail { state: TranactionState::ChargeBack, ..rec },
                            );
                            Ok(())
                        } else {
                            Err(TransactionErrors::Chargeback(ChargebackError { tx: tx_detail.tx }))
                        }
                    },
                    None => Err(TransactionErrors::Chargeback(ChargebackError { tx: tx_detail.tx })),
                }
            },
            None => {
                let wdr = match self.withdrawal_transactions.get(&tx_detail.tx) {
                    Some(r) => Some(*r),
                    None => None,
                };
                match wdr {
                    Some(rec) => {
                        match rec.amount {
                            Some(amt) => {
                                if rec.client == tx_detail.client && rec.state
                                    == TranactionState::Dispute && acct.held >= amt {
                                    let upd = Account {
                                        available: acct.available + amt,
                                        held: acct.held - amt,
                                        locked: true,
                                        ..acct
                                    };
                                    self.accounts.insert(tx_detail.client, upd);
                                    self.withdrawal_transactions.insert(
                                        tx_detail.tx,
                                        TransactionDetail {
                                            state: TranactionState::ChargeBack,
                                            ..rec
                                        },
                                    );
                                    Ok(())
                                } else {
                                    Err(
                                        TransactionErrors::Chargeback(
                                            ChargebackError { tx: tx_detail.tx },
                                        ),
                                    )
                                }
                            },
                            None => Err(
                                TransactionErrors::Chargeback(ChargebackError { tx: tx_detail.tx }),
                            ),
                        }
                    },
                    None => Err(
                        TransactionErrors::Chargeback(ChargebackError { tx: tx_detail.tx }),
                    ),
                }
            },
        }
    }

    /// Applies one event of any kind, as [`apply_event`] describes. The
    /// caller decides what to do with a rejection; the engine's state is
    /// already correct either way.
    pub fn process_transaction(&mut self, tx: Transaction) -> (r: Result<(), TransactionErrors>)
        requires
            old(self).wf(),
        ensures
            final(self).wf(),
            final(self)@ == apply_event(old(self)@, tx).0,
            r == apply_event(old(self)@, tx).1,
    {
        match tx {
            Transaction::Deposit(tx_detail) => self.process_deposit(tx_detail),
            Transaction::Withdrawal(tx_detail) => self.process_withdrawal(tx_detail),
            Transaction::Dispute(tx_detail) => self.process_dispute(tx_detail),
            Transaction::Resolve(tx_detail) => self.process_resolve(tx_detail),
            Transaction::ChargeBack(tx_detail) => self.process_chargeback(tx_detail),
            Transaction::Unknown => Ok(()),
        }
    }

    /// The final snapshot: every account, in order of first reference.
    pub fn report(&self) -> (r: Vec<Account>)
        requires
            self.wf(),
        ensures
            r@.len() == self@.clients.len(),
            forall|i: int|
                0 <= i < r@.len() ==> r@[i] == self@.accounts[#[trigger] self@.clients[i]],
    {
        let mut out: Vec<Account> = Vec::new();
        let n = self.clients.len();
        for i in 0..n
            invariant
                n == self.clients.len(),
                self.wf(),
                out@.len() == i,
                forall|j: int|
                    0 <= j < i as int ==> out@[j] == self@.accounts[#[trigger] self@.clients[j]],
        {
            let client = self.clients[i];
            match self.accounts.get(&client) {
                Some(a) => out.push(*a),
                None => {
                    proof {
                        assert(false);
                    }
                },
            }
        }
        out
    }
}

} // verus!
