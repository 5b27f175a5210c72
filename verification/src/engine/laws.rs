//! What holds of the ledger whatever the records are.

use crate::engine::ingestion::passes;
use crate::engine::model::{
    AccountView, LedgerView, TransactionView, account_of, applied, chargeback, disputable,
    dispute, disputed, ledger_step, replay, resolve, within_limits,
};
use crate::engine::payments::{pass, record_value};
use vstd::prelude::*;

verus! {

/// Whether no amount on record in `a` is negative.
pub open spec fn amounts_nonnegative(a: AccountView) -> bool {
    forall|id: u32| #[trigger] a.transactions.contains_key(id) ==> a.transactions[id].amount >= 0
}

/// Whether every account of `ledger` has available funds of zero or more and no
/// negative amount on record.
pub open spec fn solvent(ledger: LedgerView) -> bool {
    forall|c: u16| #[trigger]
        ledger.contains_key(c) ==> ledger[c].available >= 0 && amounts_nonnegative(ledger[c])
}

/// Whether `a` has on record only deposits and withdrawals of its own client,
/// each under its own id.
pub open spec fn records_own(a: AccountView) -> bool {
    forall|id: u32| #[trigger]
        a.transactions.contains_key(id) ==> {
            &&& a.transactions[id].transaction_id == id
            &&& a.transactions[id].client_id == a.client_id
            &&& (a.transactions[id].kind is Deposit || a.transactions[id].kind is Withdrawal)
        }
}

/// Whether every account of `ledger` stands under the id of its own client and
/// has on record only that client's deposits and withdrawals.
pub open spec fn consistent(ledger: LedgerView) -> bool {
    forall|c: u16| #[trigger]
        ledger.contains_key(c) ==> ledger[c].client_id == c && records_own(ledger[c])
}

/// What `ledger` holds for the client `c`: its account, or nothing.
pub open spec fn slot(ledger: LedgerView, c: u16) -> Option<AccountView> {
    if ledger.contains_key(c) {
        Some(ledger[c])
    } else {
        None
    }
}

/// The transactions among `txs` that are addressed to the client `c`, in their
/// order.
pub open spec fn for_client(txs: Seq<TransactionView>, c: u16) -> Seq<TransactionView> {
    txs.filter(|tx: TransactionView| tx.client_id == c)
}

/// The transactions that the records `queue` hold, where each of them holds
/// one.
pub open spec fn transactions_of(queue: Seq<Seq<char>>) -> Seq<TransactionView> {
    queue.map_values(|s: Seq<char>| record_value(s)->Ok_0)
}

/// Available funds are never taken below zero by anything but a dispute: a
/// deposit, a withdrawal, a resolve or a chargeback of an amount that is not
/// negative leaves them at zero or more, in an account that records no negative
/// amount.
pub proof fn lemma_available_stays_nonnegative(a: AccountView, tx: TransactionView)
    requires
        a.available >= 0,
        amounts_nonnegative(a),
        tx.amount >= 0,
        !(tx.kind is Dispute),
    ensures
        applied(a, tx).available >= 0,
        amounts_nonnegative(applied(a, tx)),
{
}

/// A dispute may take the available funds below zero, but it records no negative
/// amount where there was none.
pub proof fn lemma_dispute_keeps_amounts(a: AccountView, id: u32)
    requires
        amounts_nonnegative(a),
    ensures
        amounts_nonnegative(dispute(a, id)),
{
}

/// Records without a dispute among them, and without a negative amount, leave
/// the available funds of every account at zero or more.
pub proof fn lemma_replay_stays_solvent(ledger: LedgerView, txs: Seq<TransactionView>)
    requires
        solvent(ledger),
        forall|i: int|
            0 <= i < txs.len() ==> (#[trigger] txs[i]).amount >= 0 && !(txs[i].kind is Dispute),
    ensures
        solvent(replay(ledger, txs)),
    decreases txs.len(),
{
    if txs.len() > 0 {
        let front = txs.drop_last();
        assert forall|i: int| 0 <= i < front.len() implies (#[trigger] front[i]).amount >= 0 && !(
        front[i].kind is Dispute) by {
            assert(front[i] == txs[i]);
        }
        lemma_replay_stays_solvent(ledger, front);
        let before = replay(ledger, front);
        let tx = txs.last();
        assert(tx == txs[txs.len() - 1]);
        let a = account_of(before, tx.client_id);
        lemma_available_stays_nonnegative(a, tx);
    }
}

/// Balances that are within the limits stay within them whatever records
/// follow.
pub proof fn lemma_replay_within_limits(ledger: LedgerView, txs: Seq<TransactionView>)
    requires
        forall|c: u16| #[trigger] ledger.contains_key(c) ==> within_limits(ledger[c]),
    ensures
        forall|c: u16| #[trigger]
            replay(ledger, txs).contains_key(c) ==> within_limits(replay(ledger, txs)[c]),
    decreases txs.len(),
{
    if txs.len() > 0 {
        lemma_replay_within_limits(ledger, txs.drop_last());
        let before = replay(ledger, txs.drop_last());
        let after = replay(ledger, txs);
        assert forall|c: u16| #[trigger] after.contains_key(c) implies within_limits(after[c]) by {
            if c != txs.last().client_id || ledger_step(before, txs.last()) is None {
                assert(before.contains_key(c));
            }
        }
    }
}

/// A record leaves every account under the id of its own client, with only that
/// client's deposits and withdrawals on record: disputes, resolves and
/// chargebacks are never recorded themselves.
pub proof fn lemma_step_keeps_consistent(ledger: LedgerView, tx: TransactionView)
    requires
        consistent(ledger),
        ledger_step(ledger, tx) is Some,
    ensures
        consistent(ledger_step(ledger, tx)->0),
{
    let a = account_of(ledger, tx.client_id);
    let b = applied(a, tx);
    let next = ledger_step(ledger, tx)->0;
    assert(records_own(a));
    assert(records_own(b));
    assert forall|c: u16| #[trigger] next.contains_key(c) implies next[c].client_id == c
        && records_own(next[c]) by {
        if c != tx.client_id {
            assert(ledger.contains_key(c));
        }
    }
}

/// A ledger that is consistent stays so whatever records follow. The empty
/// ledger is consistent.
pub proof fn lemma_replay_keeps_consistent(ledger: LedgerView, txs: Seq<TransactionView>)
    requires
        consistent(ledger),
    ensures
        consistent(replay(ledger, txs)),
        consistent(Map::<u16, AccountView>::empty()),
    decreases txs.len(),
{
    if txs.len() > 0 {
        lemma_replay_keeps_consistent(ledger, txs.drop_last());
        let before = replay(ledger, txs.drop_last());
        if ledger_step(before, txs.last()) is Some {
            lemma_step_keeps_consistent(before, txs.last());
        }
    }
}

/// A withdrawal from an account that is not locked is applied if and only if the
/// available funds cover it: then they are reduced by its amount and it goes on
/// record. Otherwise the account stays as it was.
pub proof fn lemma_withdrawal_applied_iff_covered(a: AccountView, tx: TransactionView)
    requires
        tx.kind is Withdrawal,
        !a.locked,
    ensures
        a.available >= tx.amount ==> applied(a, tx) == (AccountView {
            available: a.available - tx.amount,
            transactions: a.transactions.insert(tx.transaction_id, tx),
            ..a
        }),
        a.available < tx.amount ==> applied(a, tx) == a,
{
}

/// A locked account takes no withdrawal.
pub proof fn lemma_locked_account_keeps_its_funds(a: AccountView, tx: TransactionView)
    requires
        tx.kind is Withdrawal,
        a.locked,
    ensures
        applied(a, tx) == a,
{
}

/// Moving funds between available and held neither makes nor loses money: a
/// dispute and a resolve leave the sum of the two balances as it was, and a
/// chargeback leaves the available funds as they were.
pub proof fn lemma_disputes_conserve_funds(a: AccountView, id: u32)
    ensures
        dispute(a, id).available + dispute(a, id).held == a.available + a.held,
        resolve(a, id).available + resolve(a, id).held == a.available + a.held,
        chargeback(a, id).available == a.available,
{
}

/// A dispute succeeds only against a transaction that is on record and not
/// under dispute: any other changes nothing. One that succeeds moves the amount
/// on record and puts the transaction under dispute, so that a second dispute
/// of it changes nothing.
pub proof fn lemma_dispute_once(a: AccountView, id: u32)
    ensures
        !disputable(a, id) ==> dispute(a, id) == a,
        disputable(a, id) ==> {
            &&& disputed(dispute(a, id), id)
            &&& dispute(a, id).available == a.available - a.transactions[id].amount
            &&& dispute(a, id).held == a.held + a.transactions[id].amount
            &&& dispute(a, id).transactions[id].amount == a.transactions[id].amount
        },
        dispute(dispute(a, id), id) == dispute(a, id),
{
}

/// A transaction stays under dispute until it is resolved or charged back:
/// no record of another id ends the dispute, and no further dispute of the same
/// id does.
pub proof fn lemma_dispute_lasts(a: AccountView, tx: TransactionView, id: u32)
    requires
        disputed(a, id),
        tx.transaction_id != id || tx.kind is Dispute,
    ensures
        disputed(applied(a, tx), id),
        applied(a, tx).transactions[id] == a.transactions[id],
{
}

/// A resolve and a chargeback succeed only against a transaction that is under
/// dispute: any other changes nothing. Both end the dispute. The resolve gives
/// the held amount back; the chargeback takes it away and locks the account.
pub proof fn lemma_resolve_and_chargeback(a: AccountView, id: u32)
    ensures
        !disputed(a, id) ==> resolve(a, id) == a && chargeback(a, id) == a,
        disputed(a, id) ==> {
            &&& !disputed(resolve(a, id), id)
            &&& resolve(a, id).available == a.available + a.transactions[id].amount
            &&& resolve(a, id).held == a.held - a.transactions[id].amount
            &&& resolve(a, id).locked == a.locked
            &&& !disputed(chargeback(a, id), id)
            &&& chargeback(a, id).held == a.held - a.transactions[id].amount
            &&& chargeback(a, id).locked
        },
{
}

/// A dispute that is resolved leaves both balances and the lock as they were
/// before the dispute.
pub proof fn lemma_resolve_undoes_dispute(a: AccountView, id: u32)
    requires
        disputable(a, id),
    ensures
        resolve(dispute(a, id), id) == a,
{
    let b = resolve(dispute(a, id), id);
    assert(b.transactions =~= a.transactions);
}

/// No record unlocks an account.
pub proof fn lemma_lock_lasts(a: AccountView, tx: TransactionView)
    requires
        a.locked,
    ensures
        applied(a, tx).locked,
{
}

/// An account that is locked stays locked whatever records follow.
pub proof fn lemma_replay_keeps_lock(ledger: LedgerView, txs: Seq<TransactionView>, c: u16)
    requires
        ledger.contains_key(c),
        ledger[c].locked,
    ensures
        replay(ledger, txs).contains_key(c),
        replay(ledger, txs)[c].locked,
    decreases txs.len(),
{
    if txs.len() > 0 {
        lemma_replay_keeps_lock(ledger, txs.drop_last(), c);
        let before = replay(ledger, txs.drop_last());
        if txs.last().client_id == c {
            lemma_lock_lasts(before[c], txs.last());
        }
    }
}

/// A record changes the account of its own client and no other.
pub proof fn lemma_step_is_local(ledger: LedgerView, tx: TransactionView, c: u16)
    requires
        tx.client_id != c,
        ledger_step(ledger, tx) is Some,
    ensures
        slot(ledger_step(ledger, tx)->0, c) == slot(ledger, c),
{
}

/// The account of a client after a sequence of records is the account that the
/// records addressed to that client make, in their order, of the account it had
/// before. Records of other clients, wherever they stand in between, make no
/// difference.
pub proof fn lemma_replay_by_client(
    l1: LedgerView,
    l2: LedgerView,
    s1: Seq<TransactionView>,
    s2: Seq<TransactionView>,
    c: u16,
)
    requires
        slot(l1, c) == slot(l2, c),
        for_client(s1, c) == for_client(s2, c),
    ensures
        slot(replay(l1, s1), c) == slot(replay(l2, s2), c),
{
    lemma_replay_of_own_records(l1, s1, c);
    lemma_replay_of_own_records(l2, s2, c);
    lemma_replay_same_records(l1, l2, for_client(s1, c), c);
}

/// The account of a client after a sequence of records is its account after the
/// records of that sequence that are addressed to it.
pub proof fn lemma_replay_of_own_records(ledger: LedgerView, txs: Seq<TransactionView>, c: u16)
    ensures
        slot(replay(ledger, txs), c) == slot(replay(ledger, for_client(txs, c)), c),
    decreases txs.len(),
{
    reveal(Seq::filter);
    if txs.len() > 0 {
        let front = txs.drop_last();
        let tx = txs.last();
        lemma_replay_of_own_records(ledger, front, c);
        let a = replay(ledger, front);
        let b = replay(ledger, for_client(front, c));
        if tx.client_id == c {
            let own = for_client(front, c).push(tx);
            assert(for_client(txs, c) == own);
            assert(own.drop_last() =~= for_client(front, c));
            assert(own.last() == tx);
        } else {
            assert(for_client(txs, c) == for_client(front, c));
        }
    }
}

/// The same records make the same account of the same account, whatever else
/// the two ledgers hold.
pub proof fn lemma_replay_same_records(
    l1: LedgerView,
    l2: LedgerView,
    txs: Seq<TransactionView>,
    c: u16,
)
    requires
        slot(l1, c) == slot(l2, c),
    ensures
        slot(replay(l1, txs), c) == slot(replay(l2, txs), c),
    decreases txs.len(),
{
    if txs.len() > 0 {
        lemma_replay_same_records(l1, l2, txs.drop_last(), c);
    }
}

/// Replaying records one after another is replaying the first and then the
/// rest.
pub proof fn lemma_replay_first(ledger: LedgerView, tx: TransactionView, txs: Seq<TransactionView>)
    ensures
        replay(ledger, seq![tx] + txs) == replay(replay(ledger, seq![tx]), txs),
    decreases txs.len(),
{
    let all = seq![tx] + txs;
    assert(seq![tx].drop_last() =~= Seq::<TransactionView>::empty());
    if txs.len() == 0 {
        assert(all =~= seq![tx]);
    } else {
        lemma_replay_first(ledger, tx, txs.drop_last());
        assert(all.drop_last() =~= seq![tx] + txs.drop_last());
        assert(all.last() == txs.last());
    }
}

/// A worker that ends well has emptied the queue: every record held a
/// transaction, the ledger refused none, and the ledger is what replaying those
/// transactions in the order of the queue makes of it.
pub proof fn lemma_pass_replays(queue: Seq<Seq<char>>, ledger: LedgerView)
    requires
        pass(queue, ledger).outcome is Ok,
    ensures
        pass(queue, ledger).queue.len() == 0,
        forall|i: int| 0 <= i < queue.len() ==> record_value(#[trigger] queue[i]) is Ok,
        pass(queue, ledger).ledger == replay(ledger, transactions_of(queue)),
    decreases queue.len(),
{
    if queue.len() == 0 {
        assert(transactions_of(queue) =~= Seq::<TransactionView>::empty());
    } else {
        let tx = record_value(queue[0])->Ok_0;
        let next = ledger_step(ledger, tx)->0;
        let rest = queue.drop_first();
        lemma_pass_replays(rest, next);
        assert forall|i: int| 0 <= i < queue.len() implies record_value(#[trigger] queue[i])
            is Ok by {
            if i > 0 {
                assert(queue[i] == rest[i - 1]);
            }
        }
        assert(transactions_of(queue) =~= seq![tx] + transactions_of(rest));
        lemma_replay_first(ledger, tx, transactions_of(rest));
        assert(seq![tx].drop_last() =~= Seq::<TransactionView>::empty());
        assert(seq![tx].last() == tx);
        assert(replay(ledger, Seq::<TransactionView>::empty()) == ledger);
        assert(replay(ledger, seq![tx]) == next);
    }
}

/// Where no record fails, the number of workers makes no difference: with one
/// worker or with many, the queue ends empty, every worker ends well, and the
/// ledger is what replaying the records in the order of the queue makes of it.
pub proof fn lemma_workers_make_no_difference(queue: Seq<Seq<char>>, ledger: LedgerView, n: nat)
    requires
        n >= 1,
        pass(queue, ledger).outcome is Ok,
    ensures
        passes(queue, ledger, n).queue.len() == 0,
        passes(queue, ledger, n).ledger == replay(ledger, transactions_of(queue)),
        passes(queue, ledger, n).outcomes.len() == n,
        forall|i: int| 0 <= i < n ==> #[trigger] passes(queue, ledger, n).outcomes[i] is Ok,
    decreases n,
{
    lemma_pass_replays(queue, ledger);
    if n == 1 {
        assert(passes(queue, ledger, 0).outcomes.len() == 0);
    } else {
        lemma_workers_make_no_difference(queue, ledger, (n - 1) as nat);
        let before = passes(queue, ledger, (n - 1) as nat);
        assert(pass(before.queue, before.ledger).outcome is Ok);
    }
}

} // verus!
