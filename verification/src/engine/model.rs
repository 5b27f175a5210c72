//! The ledger as contracts see it: accounts as plain values, and what each kind
//! of transaction makes of an account.

use crate::engine::amount::LIMIT;
use crate::engine::payments::TransactionType;
use vstd::prelude::*;

verus! {

/// A transaction as contracts see it, its amount in units.
pub struct TransactionView {
    pub kind: TransactionType,
    pub client_id: u16,
    pub transaction_id: u32,
    pub amount: int,
    pub under_dispute: bool,
}

/// An account as contracts see it: its balances in units, and the deposits and
/// withdrawals that were applied to it, by transaction id.
pub struct AccountView {
    pub client_id: u16,
    pub available: int,
    pub held: int,
    pub locked: bool,
    pub transactions: Map<u32, TransactionView>,
}

/// The accounts of a ledger, by client id.
pub type LedgerView = Map<u16, AccountView>;

/// The account that a client has before its first record.
pub open spec fn new_account(client_id: u16) -> AccountView {
    AccountView {
        client_id,
        available: 0,
        held: 0,
        locked: false,
        transactions: Map::empty(),
    }
}

/// Whether `units` is a balance that an account can hold.
pub open spec fn in_range(units: int) -> bool {
    -LIMIT <= units <= LIMIT
}

/// Whether both balances of `a` can be held.
pub open spec fn within_limits(a: AccountView) -> bool {
    in_range(a.available) && in_range(a.held)
}

/// Whether `a` has a transaction `id` on record that can be disputed.
pub open spec fn disputable(a: AccountView, id: u32) -> bool {
    a.transactions.contains_key(id) && !a.transactions[id].under_dispute
}

/// Whether `a` has a transaction `id` on record that is under dispute.
pub open spec fn disputed(a: AccountView, id: u32) -> bool {
    a.transactions.contains_key(id) && a.transactions[id].under_dispute
}

/// The record `id` of `a` with its dispute mark set to `mark`.
pub open spec fn marked(a: AccountView, id: u32, mark: bool) -> Map<u32, TransactionView> {
    a.transactions.insert(id, TransactionView { under_dispute: mark, ..a.transactions[id] })
}

/// A deposit adds to the available funds and goes on record, in a locked account
/// as in any other.
pub open spec fn deposit(a: AccountView, tx: TransactionView) -> AccountView {
    AccountView {
        available: a.available + tx.amount,
        transactions: a.transactions.insert(tx.transaction_id, tx),
        ..a
    }
}

/// A withdrawal from an account that is not locked, and that the available funds
/// cover, is taken from them and goes on record; any other changes nothing.
pub open spec fn withdrawal(a: AccountView, tx: TransactionView) -> AccountView {
    if !a.locked && a.available >= tx.amount {
        AccountView {
            available: a.available - tx.amount,
            transactions: a.transactions.insert(tx.transaction_id, tx),
            ..a
        }
    } else {
        a
    }
}

/// A dispute of a recorded transaction that is not yet disputed moves its amount
/// from available to held; any other changes nothing.
pub open spec fn dispute(a: AccountView, id: u32) -> AccountView {
    if disputable(a, id) {
        AccountView {
            available: a.available - a.transactions[id].amount,
            held: a.held + a.transactions[id].amount,
            transactions: marked(a, id, true),
            ..a
        }
    } else {
        a
    }
}

/// A resolve of a disputed transaction moves its amount back from held to
/// available; any other changes nothing.
pub open spec fn resolve(a: AccountView, id: u32) -> AccountView {
    if disputed(a, id) {
        AccountView {
            available: a.available + a.transactions[id].amount,
            held: a.held - a.transactions[id].amount,
            transactions: marked(a, id, false),
            ..a
        }
    } else {
        a
    }
}

/// A chargeback of a disputed transaction takes its amount out of the held funds
/// and locks the account; any other changes nothing.
pub open spec fn chargeback(a: AccountView, id: u32) -> AccountView {
    if disputed(a, id) {
        AccountView {
            held: a.held - a.transactions[id].amount,
            locked: true,
            transactions: marked(a, id, false),
            ..a
        }
    } else {
        a
    }
}

/// What `tx` makes of the account `a`, balances unbounded.
pub open spec fn applied(a: AccountView, tx: TransactionView) -> AccountView {
    match tx.kind {
        TransactionType::Deposit => deposit(a, tx),
        TransactionType::Withdrawal => withdrawal(a, tx),
        TransactionType::Dispute => dispute(a, tx.transaction_id),
        TransactionType::Resolve => resolve(a, tx.transaction_id),
        TransactionType::Chargeback => chargeback(a, tx.transaction_id),
    }
}

/// The account of `client_id` in `ledger`, or a new one where it has none yet.
pub open spec fn account_of(ledger: LedgerView, client_id: u16) -> AccountView {
    if ledger.contains_key(client_id) {
        ledger[client_id]
    } else {
        new_account(client_id)
    }
}

/// The ledger after `tx`: the account of its client, made where there was none,
/// is replaced by what `tx` makes of it. `None` where that would take a balance
/// out of range.
pub open spec fn ledger_step(ledger: LedgerView, tx: TransactionView) -> Option<LedgerView> {
    let next = applied(account_of(ledger, tx.client_id), tx);
    if within_limits(next) {
        Some(ledger.insert(tx.client_id, next))
    } else {
        None
    }
}

/// The ledger after the transactions `txs`, applied in their order. One that the
/// ledger refuses changes nothing.
pub open spec fn replay(ledger: LedgerView, txs: Seq<TransactionView>) -> LedgerView
    decreases txs.len(),
{
    if txs.len() == 0 {
        ledger
    } else {
        let before = replay(ledger, txs.drop_last());
        match ledger_step(before, txs.last()) {
            Some(next) => next,
            None => before,
        }
    }
}

/// The message of the error that refuses a transaction for its effect on a
/// balance.
pub open spec fn out_of_range_message() -> Seq<char> {
    "Balance out of range"@
}

} // verus!
