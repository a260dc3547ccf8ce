//! The engine's laws: properties that hold of every run, proved once and
//! for all over the transition functions in [`crate::engine`].

use crate::engine::apply_chargeback;
use crate::engine::apply_deposit;
use crate::engine::apply_dispute;
use crate::engine::apply_event;
use crate::engine::apply_resolve;
use crate::engine::apply_withdrawal;
use crate::engine::lemma_event_preserves_wf;
use crate::engine::EngineView;
use crate::errors::DuplicateTransactionError;
use crate::errors::TransactionErrors;
use crate::models::TranactionState;
use crate::models::Transaction;
use crate::models::TransactionDetail;
use vstd::prelude::*;

verus! {

/// The state an engine run starts from is well-formed.
pub proof fn lemma_init_wf()
    ensures
        EngineView::init().wf(),
{
    assert(EngineView::init().clients.no_duplicates());
}

/// Balance invariant: in every well-formed state — so, by
/// [`lemma_init_wf`] and [`lemma_event_preserves_wf`], at every
/// observation point of a run — every account satisfies
/// `available + held == total`, with both parts non-negative.
pub proof fn lemma_balances_invariant(v: EngineView, c: u16)
    requires
        v.wf(),
        v.accounts.contains_key(c),
    ensures
        v.accounts[c].available + v.accounts[c].held == v.accounts[c].total,
        v.accounts[c].available >= 0,
        v.accounts[c].held >= 0,
{
}

/// Lock invariant, one step: an event never changes a locked account —
/// not its balances and not its lock.
pub proof fn lemma_locked_account_frozen(pre: EngineView, t: Transaction, c: u16)
    requires
        pre.accounts.contains_key(c),
        pre.accounts[c].locked,
    ensures
        apply_event(pre, t).0.accounts.contains_key(c),
        apply_event(pre, t).0.accounts[c] == pre.accounts[c],
{
}

/// The state after a whole sequence of events, applied in order.
pub open spec fn apply_events(pre: EngineView, ts: Seq<Transaction>) -> EngineView
    decreases ts.len(),
{
    if ts.len() == 0 {
        pre
    } else {
        apply_events(apply_event(pre, ts[0]).0, ts.drop_first())
    }
}

/// Lock invariant: once an account is locked, no later event changes its
/// `available`, `held`, `total` or `locked` fields, however many events
/// follow.
pub proof fn lemma_locked_account_stays_frozen(pre: EngineView, ts: Seq<Transaction>, c: u16)
    requires
        pre.accounts.contains_key(c),
        pre.accounts[c].locked,
    ensures
        apply_events(pre, ts).accounts.contains_key(c),
        apply_events(pre, ts).accounts[c] == pre.accounts[c],
    decreases ts.len(),
{
    if ts.len() > 0 {
        lemma_locked_account_frozen(pre, ts[0], c);
        lemma_locked_account_stays_frozen(apply_event(pre, ts[0]).0, ts.drop_first(), c);
    }
}

/// Well-formedness holds after any sequence of events, so the balance
/// invariant holds at every observation point.
pub proof fn lemma_events_preserve_wf(pre: EngineView, ts: Seq<Transaction>)
    requires
        pre.wf(),
    ensures
        apply_events(pre, ts).wf(),
    decreases ts.len(),
{
    if ts.len() > 0 {
        lemma_event_preserves_wf(pre, ts[0]);
        lemma_events_preserve_wf(apply_event(pre, ts[0]).0, ts.drop_first());
    }
}

/// Duplicate-id law, deposits: a deposit whose id is already in the
/// deposit ledger always fails with `DuplicateTransaction` and leaves
/// the whole state unchanged.
pub proof fn lemma_duplicate_deposit_rejected(pre: EngineView, d: TransactionDetail)
    requires
        pre.deposits.contains_key(d.tx),
    ensures
        apply_deposit(pre, d).0 == pre,
        apply_deposit(pre, d).1 == Err::<(), TransactionErrors>(
            TransactionErrors::DuplicateTransaction((DuplicateTransactionError { tx: d.tx })),
        ),
{
}

/// Duplicate-id law, withdrawals: a withdrawal whose id is already in
/// the withdrawal ledger always fails with `DuplicateTransaction` and
/// leaves the whole state unchanged.
pub proof fn lemma_duplicate_withdrawal_rejected(pre: EngineView, d: TransactionDetail)
    requires
        pre.withdrawals.contains_key(d.tx),
    ensures
        apply_withdrawal(pre, d).0 == pre,
        apply_withdrawal(pre, d).1 == Err::<(), TransactionErrors>(
            TransactionErrors::DuplicateTransaction((DuplicateTransactionError { tx: d.tx })),
        ),
{
}

/// Two record states are adjacent when some event may take a record from
/// the first to the second: stay put, `Normal` to `Dispute`, or
/// `Dispute` to one of the terminal states.
pub open spec fn adjacent_states(s1: TranactionState, s2: TranactionState) -> bool {
    ||| s2 == s1
    ||| (s1 == TranactionState::Normal && s2 == TranactionState::Dispute)
    ||| (s1 == TranactionState::Dispute && s2 == TranactionState::Resolve)
    ||| (s1 == TranactionState::Dispute && s2 == TranactionState::ChargeBack)
}

/// State-machine law, one step: no event removes a stored record,
/// changes its client or amount, or moves it to a non-adjacent state;
/// and a record enters a ledger only in the `Normal` state.
pub proof fn lemma_record_transitions_adjacent(pre: EngineView, t: Transaction, tx: u32)
    ensures
        pre.deposits.contains_key(tx) ==> {
            let post = apply_event(pre, t).0;
            &&& post.deposits.contains_key(tx)
            &&& adjacent_states(pre.deposits[tx].state, post.deposits[tx].state)
            &&& post.deposits[tx].client == pre.deposits[tx].client
            &&& post.deposits[tx].amount == pre.deposits[tx].amount
        },
        pre.withdrawals.contains_key(tx) ==> {
            let post = apply_event(pre, t).0;
            &&& post.withdrawals.contains_key(tx)
            &&& adjacent_states(pre.withdrawals[tx].state, post.withdrawals[tx].state)
            &&& post.withdrawals[tx].client == pre.withdrawals[tx].client
            &&& post.withdrawals[tx].amount == pre.withdrawals[tx].amount
        },
        !pre.deposits.contains_key(tx) && apply_event(pre, t).0.deposits.contains_key(tx)
            ==> apply_event(pre, t).0.deposits[tx].state == TranactionState::Normal,
        !pre.withdrawals.contains_key(tx) && apply_event(pre, t).0.withdrawals.contains_key(tx)
            ==> apply_event(pre, t).0.withdrawals[tx].state == TranactionState::Normal,
{
    match t {
        Transaction::Deposit(d) => {
            assert(apply_event(pre, t) == apply_deposit(pre, d));
        },
        Transaction::Withdrawal(d) => {
            assert(apply_event(pre, t) == apply_withdrawal(pre, d));
        },
        Transaction::Dispute(d) => {
            assert(apply_event(pre, t) == apply_dispute(pre, d));
        },
        Transaction::Resolve(d) => {
            assert(apply_event(pre, t) == apply_resolve(pre, d));
        },
        Transaction::ChargeBack(d) => {
            assert(apply_event(pre, t) == apply_chargeback(pre, d));
        },
        Transaction::Unknown => {},
    }
}

/// State-machine law, disputes: a dispute succeeds only on a record
/// found in the `Normal` state, and moves exactly that record to
/// `Dispute`. The deposit ledger is searched before the withdrawal
/// ledger.
pub proof fn lemma_dispute_only_from_normal(pre: EngineView, d: TransactionDetail)
    requires
        apply_dispute(pre, d).1 is Ok,
    ensures
        ({
            let post = apply_dispute(pre, d).0;
            if pre.deposits.contains_key(d.tx) {
                &&& pre.deposits[d.tx].state == TranactionState::Normal
                &&& post.deposits[d.tx].state == TranactionState::Dispute
            } else {
                &&& pre.withdrawals.contains_key(d.tx)
                &&& pre.withdrawals[d.tx].state == TranactionState::Normal
                &&& post.withdrawals[d.tx].state == TranactionState::Dispute
            }
        }),
{
}

/// State-machine law, resolves and chargebacks: each succeeds only on a
/// record found in the `Dispute` state, and moves exactly that record to
/// its terminal state.
pub proof fn lemma_settlement_only_from_disputed(pre: EngineView, d: TransactionDetail)
    ensures
        apply_resolve(pre, d).1 is Ok ==> ({
            let post = apply_resolve(pre, d).0;
            if pre.deposits.contains_key(d.tx) {
                &&& pre.deposits[d.tx].state == TranactionState::Dispute
                &&& post.deposits[d.tx].state == TranactionState::Resolve
            } else {
                &&& pre.withdrawals.contains_key(d.tx)
                &&& pre.withdrawals[d.tx].state == TranactionState::Dispute
                &&& post.withdrawals[d.tx].state == TranactionState::Resolve
            }
        }),
        apply_chargeback(pre, d).1 is Ok ==> ({
            let post = apply_chargeback(pre, d).0;
            if pre.deposits.contains_key(d.tx) {
                &&& pre.deposits[d.tx].state == TranactionState::Dispute
                &&& post.deposits[d.tx].state == TranactionState::ChargeBack
            } else {
                &&& pre.withdrawals.contains_key(d.tx)
                &&& pre.withdrawals[d.tx].state == TranactionState::Dispute
                &&& post.withdrawals[d.tx].state == TranactionState::ChargeBack
            }
        }),
{
}

} // verus!
