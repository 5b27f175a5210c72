//! Transactions, accounts, and the service that applies the one to the other.

use crate::engine::amount::{Amount, LIMIT, amount_text, amount_value, truncate4};
use crate::engine::errors::{Fault, PaymentError, outcome_view};
use crate::engine::ingestion::PaymentsQueue;
use crate::engine::model::{
    AccountView, LedgerView, TransactionView, account_of, applied, in_range, ledger_step,
    new_account, out_of_range_message, within_limits,
};
use crate::engine::text::{
    chars_of, decimal, fields_of, lemma_first_field, parse_unsigned, push_decimal, split_fields,
    text_is, texts, unsigned_value,
};
use std::collections::HashMap;
use vstd::prelude::*;

verus! {

/// What a record asks for.
#[derive(Clone, Copy, Debug, PartialEq, Eq, Structural)]
pub enum TransactionType {
    Deposit,
    Withdrawal,
    Dispute,
    Resolve,
    Chargeback,
}

/// One record: a deposit or a withdrawal of an amount, or a dispute, a resolve or
/// a chargeback that refers to an earlier record of the same client by its id.
#[derive(Clone, Copy, Debug)]
pub struct Transaction {
    transaction_type: TransactionType,
    client_id: u16,
    transaction_id: u32,
    amount: Amount,
    under_dispute: bool,
}

impl View for Transaction {
    type V = TransactionView;

    closed spec fn view(&self) -> TransactionView {
        TransactionView {
            kind: self.transaction_type,
            client_id: self.client_id,
            transaction_id: self.transaction_id,
            amount: self.amount@,
            under_dispute: self.under_dispute,
        }
    }
}

/// The first line of a report.
pub open spec fn header_text() -> Seq<char> {
    "client,available,held,total,locked"@
}

/// The line of a report for the account `a`: client, available, held, total and
/// locked, with commas between them. The three amounts are given to four decimal
/// places.
pub open spec fn row_text(a: AccountView) -> Seq<char> {
    decimal(a.client_id as nat) + seq![','] + amount_text(truncate4(a.available)) + seq![',']
        + amount_text(truncate4(a.held)) + seq![','] + amount_text(
        truncate4(a.available + a.held),
    ) + seq![','] + if a.locked {
        "true"@
    } else {
        "false"@
    }
}

/// The lines of a report for the clients below `n` that have an account, by
/// ascending client id.
pub open spec fn rows_below(ledger: LedgerView, n: nat) -> Seq<Seq<char>>
    decreases n,
{
    if n == 0 {
        Seq::empty()
    } else {
        let before = rows_below(ledger, (n - 1) as nat);
        if ledger.contains_key((n - 1) as u16) {
            before.push(row_text(ledger[(n - 1) as u16]))
        } else {
            before
        }
    }
}

/// The report on a ledger: the header, then one line for each account, by
/// ascending client id.
pub open spec fn report_text(ledger: LedgerView) -> Seq<Seq<char>> {
    seq![header_text()] + rows_below(ledger, 0x1_0000)
}

/// The kind that the keyword `s` names. Keywords are lower case and match as a
/// whole.
pub open spec fn kind_of(s: Seq<char>) -> Option<TransactionType> {
    if s == "deposit"@ {
        Some(TransactionType::Deposit)
    } else if s == "withdrawal"@ {
        Some(TransactionType::Withdrawal)
    } else if s == "dispute"@ {
        Some(TransactionType::Dispute)
    } else if s == "resolve"@ {
        Some(TransactionType::Resolve)
    } else if s == "chargeback"@ {
        Some(TransactionType::Chargeback)
    } else {
        None
    }
}

/// Whether a record of this kind carries an amount.
pub open spec fn moves_money(kind: TransactionType) -> bool {
    kind is Deposit || kind is Withdrawal
}

/// The transaction that the record `s` holds, or the message that says what is
/// wrong with it. A record has four fields or more, set apart by commas: kind,
/// client id, transaction id, amount. They are checked in that order. The amount
/// of a dispute, a resolve or a chargeback is not read, and fields after the
/// fourth never are.
pub open spec fn record_value(s: Seq<char>) -> Result<TransactionView, Seq<char>> {
    let fields = split_fields(s);
    if fields.len() < 4 {
        Err("Invalid input data"@)
    } else if kind_of(fields[0]) is None {
        Err("Invalid transaction type: "@ + fields[0])
    } else if unsigned_value(fields[1], u16::MAX as int) is None {
        Err("Could not parse client id"@)
    } else if unsigned_value(fields[2], u32::MAX as int) is None {
        Err("Could not parse transaction id"@)
    } else if moves_money(kind_of(fields[0])->0) && amount_value(fields[3]) is None {
        Err("Could not parse amount"@)
    } else {
        Ok(
            TransactionView {
                kind: kind_of(fields[0])->0,
                client_id: unsigned_value(fields[1], u16::MAX as int)->0 as u16,
                transaction_id: unsigned_value(fields[2], u32::MAX as int)->0 as u32,
                amount: if moves_money(kind_of(fields[0])->0) {
                    amount_value(fields[3])->0
                } else {
                    0
                },
                under_dispute: false,
            },
        )
    }
}

/// The kind that the keyword `word` names.
fn kind_of_chars(word: &Vec<char>) -> (r: Option<TransactionType>)
    ensures
        r == kind_of(word@),
{
    if text_is(word, "deposit") {
        Some(TransactionType::Deposit)
    } else if text_is(word, "withdrawal") {
        Some(TransactionType::Withdrawal)
    } else if text_is(word, "dispute") {
        Some(TransactionType::Dispute)
    } else if text_is(word, "resolve") {
        Some(TransactionType::Resolve)
    } else if text_is(word, "chargeback") {
        Some(TransactionType::Chargeback)
    } else {
        None
    }
}

impl TransactionType {
    /// Reads a kind from its keyword.
    pub fn from_str(s: &str) -> (r: Result<TransactionType, PaymentError>)
        ensures
            match kind_of(s@) {
                Some(kind) => r == Ok::<TransactionType, PaymentError>(kind),
                None => {
                    &&& r matches Err(e)
                    &&& e@ == Fault::PaymentProcessingError("Invalid transaction type: "@ + s@)
                },
            },
    {
        let word = chars_of(s);
        match kind_of_chars(&word) {
            Some(kind) => Ok(kind),
            None => Err(
                PaymentError::PaymentProcessingError(
                    String::from_str("Invalid transaction type: ").concat(s),
                ),
            ),
        }
    }
}

impl Transaction {
    /// Reads a transaction from one record.
    pub fn from_str(s: &str) -> (r: Result<Transaction, PaymentError>)
        ensures
            match record_value(s@) {
                Ok(t) => r matches Ok(transaction) && transaction@ == t,
                Err(message) => r matches Err(e) && e@ == Fault::PaymentProcessingError(message),
            },
    {
        let text = chars_of(s);
        let parts = fields_of(&text);
        if parts.len() < 4 {
            return Err(
                PaymentError::PaymentProcessingError(String::from_str("Invalid input data")),
            );
        }
        assert(forall|i: int| 0 <= i < parts.len() ==> #[trigger] texts(parts@)[i] == parts@[i]@);

        let transaction_type = match kind_of_chars(&parts[0]) {
            Some(kind) => kind,
            None => {
                proof {
                    lemma_first_field(s@);
                }
                let word = s.substring_char(0, parts[0].len());
                return Err(
                    PaymentError::PaymentProcessingError(
                        String::from_str("Invalid transaction type: ").concat(word),
                    ),
                );
            },
        };
        let client_id: u16 = match parse_unsigned(&parts[1], 0xffff) {
            Some(n) => n as u16,
            None => {
                return Err(
                    PaymentError::PaymentProcessingError(
                        String::from_str("Could not parse client id"),
                    ),
                );
            },
        };
        let transaction_id: u32 = match parse_unsigned(&parts[2], 0xffff_ffff) {
            Some(n) => n as u32,
            None => {
                return Err(
                    PaymentError::PaymentProcessingError(
                        String::from_str("Could not parse transaction id"),
                    ),
                );
            },
        };
        let amount = match transaction_type {
            TransactionType::Deposit | TransactionType::Withdrawal => {
                match Amount::from_chars(&parts[3]) {
                    Some(amount) => amount,
                    None => {
                        return Err(
                            PaymentError::PaymentProcessingError(
                                String::from_str("Could not parse amount"),
                            ),
                        );
                    },
                }
            },
            _ => Amount::zero(),
        };

        Ok(Transaction { transaction_type, client_id, transaction_id, amount, under_dispute: false })
    }

    /// A transaction of the given kind, not under dispute.
    pub fn new(
        transaction_type: TransactionType,
        client_id: u16,
        transaction_id: u32,
        amount: Amount,
    ) -> (r: Transaction)
        ensures
            r@ == (TransactionView {
                kind: transaction_type,
                client_id,
                transaction_id,
                amount: amount@,
                under_dispute: false,
            }),
    {
        Transaction { transaction_type, client_id, transaction_id, amount, under_dispute: false }
    }

    /// What the record asks for.
    pub fn transaction_type(&self) -> (r: TransactionType)
        ensures
            r == self@.kind,
    {
        self.transaction_type
    }

    /// The client whose account the record is for.
    pub fn client_id(&self) -> (r: u16)
        ensures
            r == self@.client_id,
    {
        self.client_id
    }

    /// The record's own id, or for a dispute, a resolve or a chargeback the id of
    /// the record that it refers to.
    pub fn transaction_id(&self) -> (r: u32)
        ensures
            r == self@.transaction_id,
    {
        self.transaction_id
    }

    /// The amount to deposit or withdraw.
    pub fn amount(&self) -> (r: Amount)
        ensures
            r@ == self@.amount,
    {
        self.amount
    }

    /// Whether the transaction is on record as disputed.
    pub fn under_dispute(&self) -> (r: bool)
        ensures
            r == self@.under_dispute,
    {
        self.under_dispute
    }
}

/// The state of one client: funds available and held, whether the account is
/// locked, and the deposits and withdrawals applied so far.
#[derive(Debug)]
pub struct Account {
    client_id: u16,
    available: Amount,
    held: Amount,
    locked: bool,
    // Map of transaction id to transaction
    transactions: HashMap<u32, Transaction>,
}

impl View for Account {
    type V = AccountView;

    closed spec fn view(&self) -> AccountView {
        AccountView {
            client_id: self.client_id,
            available: self.available@,
            held: self.held@,
            locked: self.locked,
            transactions: self.transactions@.map_values(|t: Transaction| t@),
        }
    }
}

impl Clone for Account {
    fn clone(&self) -> (r: Self)
        ensures
            r@ == self@,
    {
        proof {
            use_type_invariant(self);
        }
        Account {
            client_id: self.client_id,
            available: self.available,
            held: self.held,
            locked: self.locked,
            transactions: self.transactions.clone(),
        }
    }
}

impl Account {
    /// Both balances are in range, and so is every amount on record, by twice the
    /// range: moving one between the balances cannot overflow.
    #[verifier::type_invariant]
    closed spec fn bounded(self) -> bool {
        &&& in_range(self.available@)
        &&& in_range(self.held@)
        &&& forall|id: u32| #[trigger]
            self.transactions@.contains_key(id) ==> -2 * LIMIT <= self.transactions@[id]@.amount
                <= 2 * LIMIT
    }

    /// An empty account for `client_id`.
    pub fn new(client_id: &u16) -> (r: Self)
        ensures
            r@ == new_account(*client_id),
    {
        let r = Account {
            client_id: *client_id,
            available: Amount::zero(),
            held: Amount::zero(),
            locked: false,
            transactions: HashMap::new(),
        };
        assert(r@.transactions =~= Map::empty());
        r
    }

    /// The client that owns the account.
    pub fn client_id(&self) -> (r: u16)
        ensures
            r == self@.client_id,
    {
        self.client_id
    }

    /// Available and held funds together, to four decimal places.
    pub fn total(&self) -> (r: Amount)
        ensures
            r@ == truncate4(self@.available + self@.held),
    {
        proof {
            use_type_invariant(self);
        }
        let t = Amount::from_units(self.held.units() + self.available.units());
        t.truncate()
    }

    /// The funds that can be withdrawn, to four decimal places.
    pub fn available(&self) -> (r: Amount)
        ensures
            r@ == truncate4(self@.available),
    {
        proof {
            use_type_invariant(self);
        }
        self.available.truncate()
    }

    /// The funds held back by disputes, to four decimal places.
    pub fn held(&self) -> (r: Amount)
        ensures
            r@ == truncate4(self@.held),
    {
        proof {
            use_type_invariant(self);
        }
        self.held.truncate()
    }

    /// The account's line of a report.
    pub fn row(&self) -> (r: String)
        ensures
            r@ == row_text(self@),
    {
        let mut out = String::new();
        push_decimal(&mut out, self.client_id as u128);
        out.append(",");
        out.append(self.available().to_text().as_str());
        out.append(",");
        out.append(self.held().to_text().as_str());
        out.append(",");
        out.append(self.total().to_text().as_str());
        out.append(",");
        out.append(if self.locked {
            "true"
        } else {
            "false"
        });
        proof {
            reveal_strlit(",");
            assert(","@ =~= seq![',']);
            assert(out@ =~= row_text(self@));
        }
        out
    }

    /// Whether a chargeback has locked the account.
    pub fn locked(&self) -> (r: bool)
        ensures
            r == self@.locked,
    {
        self.locked
    }
}

/// The accounts of all clients. Every change to an account goes through
/// `process_transaction`.
#[derive(Debug)]
pub struct AccountService {
    // Map of client id to account
    accounts: HashMap<u16, Account>,
}

impl View for AccountService {
    type V = LedgerView;

    closed spec fn view(&self) -> LedgerView {
        self.accounts@.map_values(|a: Account| a@)
    }
}

impl AccountService {
    /// A service without accounts.
    pub fn new() -> (r: Self)
        ensures
            r@ == Map::<u16, AccountView>::empty(),
    {
        let r = AccountService { accounts: HashMap::new() };
        assert(r@ =~= Map::<u16, AccountView>::empty());
        r
    }

    /// Applies `transaction` to the account of its client, which is made first
    /// where the client has none. A transaction whose condition does not hold
    /// changes nothing in the account and is no error: a withdrawal that the
    /// available funds do not cover, or from a locked account; a dispute of what
    /// is not on record or is disputed already; a resolve or a chargeback of what
    /// is not under dispute. One that would take a balance out of range is
    /// refused, and then nothing changes at all.
    pub fn process_transaction(&mut self, transaction: Transaction) -> (r: Result<
        (),
        PaymentError,
    >)
        ensures
            match ledger_step(old(self)@, transaction@) {
                Some(next) => r is Ok && final(self)@ == next,
                None => {
                    &&& r matches Err(e)
                    &&& e@ == Fault::PaymentProcessingError(out_of_range_message())
                    &&& final(self)@ == old(self)@
                },
            },
    {
        let client_id = transaction.client_id;
        let id = transaction.transaction_id;
        let found = self.accounts.remove(&client_id);
        let existed = found.is_some();
        let account = match found {
            Some(account) => account,
            None => Account::new(&client_id),
        };
        let ghost before = account@;
        assert(before == account_of(old(self)@, client_id));
        assert(self@ =~= old(self)@.remove(client_id));
        proof {
            use_type_invariant(&account);
        }
        let Account { client_id: owner, available: a, held: h, locked: l, transactions: t } =
            account;
        let mut transactions = t;
        let mut available = a.units();
        let mut held = h.units();
        let mut locked = l;
        let ghost history = transactions@.map_values(|t: Transaction| t@);
        let mut in_range = true;

        match transaction.transaction_type {
            TransactionType::Deposit => {
                let amount = transaction.amount.units();
                if amount > LIMIT - available || amount < -LIMIT - available {
                    in_range = false;
                } else {
                    available = available + amount;
                    transactions.insert(id, transaction);
                }
            },
            TransactionType::Withdrawal => {
                let amount = transaction.amount.units();
                if !locked && available >= amount {
                    if amount < available - LIMIT {
                        in_range = false;
                    } else {
                        available = available - amount;
                        transactions.insert(id, transaction);
                    }
                }
            },
            TransactionType::Dispute => {
                let entry = match transactions.get(&id) {
                    Some(t) => Some(*t),
                    None => None,
                };
                if let Some(mut disputed_transaction) = entry {
                    // Can only dispute a transaction that isn't already under dispute
                    if !disputed_transaction.under_dispute {
                        let amount = disputed_transaction.amount.units();
                        let less = available - amount;
                        let more = held + amount;
                        if less < -LIMIT || less > LIMIT || more < -LIMIT || more > LIMIT {
                            in_range = false;
                        } else {
                            available = less;
                            held = more;
                            disputed_transaction.under_dispute = true;
                            transactions.insert(id, disputed_transaction);
                        }
                    }
                }
            },
            TransactionType::Resolve => {
                let entry = match transactions.get(&id) {
                    Some(t) => Some(*t),
                    None => None,
                };
                if let Some(mut disputed_transaction) = entry {
                    // Can only resolve a transaction that is under dispute
                    if disputed_transaction.under_dispute {
                        let amount = disputed_transaction.amount.units();
                        let more = available + amount;
                        let less = held - amount;
                        if less < -LIMIT || less > LIMIT || more < -LIMIT || more > LIMIT {
                            in_range = false;
                        } else {
                            available = more;
                            held = less;
                            disputed_transaction.under_dispute = false;
                            transactions.insert(id, disputed_transaction);
                        }
                    }
                }
            },
            TransactionType::Chargeback => {
                let entry = match transactions.get(&id) {
                    Some(t) => Some(*t),
                    None => None,
                };
                if let Some(mut disputed_transaction) = entry {
                    // Can only chargeback a transaction that is under dispute
                    if disputed_transaction.under_dispute {
                        let amount = disputed_transaction.amount.units();
                        let less = held - amount;
                        if less < -LIMIT || less > LIMIT {
                            in_range = false;
                        } else {
                            held = less;
                            locked = true;
                            disputed_transaction.under_dispute = false;
                            transactions.insert(id, disputed_transaction);
                        }
                    }
                }
            },
        }

        let ghost next = applied(before, transaction@);
        assert(in_range ==> transactions@.map_values(|t: Transaction| t@) =~= next.transactions);
        assert(!in_range ==> transactions@.map_values(|t: Transaction| t@) =~= history);
        let account = Account {
            client_id: owner,
            available: Amount::from_units(available),
            held: Amount::from_units(held),
            locked,
            transactions,
        };
        if in_range {
            assert(account@ == next);
            self.accounts.insert(client_id, account);
            assert(self@ =~= old(self)@.insert(client_id, next));
            Ok(())
        } else {
            assert(account@ == before);
            assert(!within_limits(next));
            if existed {
                self.accounts.insert(client_id, account);
            }
            assert(self@ =~= old(self)@);
            Err(PaymentError::PaymentProcessingError(String::from_str("Balance out of range")))
        }
    }

    /// The report on all accounts: the header, then a line for each account, by
    /// ascending client id.
    pub fn report(&self) -> (rows: Vec<String>)
        ensures
            rows@.map_values(|s: String| s@) == report_text(self@),
    {
        let mut rows: Vec<String> = Vec::new();
        rows.push(String::from_str("client,available,held,total,locked"));
        assert(rows@.map_values(|s: String| s@) =~= seq![header_text()] + rows_below(self@, 0));
        let mut next: u32 = 0;
        while next < 0x1_0000
            invariant
                next <= 0x1_0000,
                rows@.map_values(|s: String| s@) == seq![header_text()] + rows_below(
                    self@,
                    next as nat,
                ),
            decreases 0x1_0000 - next,
        {
            let ghost before = rows@.map_values(|s: String| s@);
            let client_id = next as u16;
            match self.accounts.get(&client_id) {
                Some(account) => {
                    let row = account.row();
                    rows.push(row);
                    assert(rows@.map_values(|s: String| s@) =~= before.push(row@));
                    assert(before.push(row@) =~= seq![header_text()] + rows_below(
                        self@,
                        next as nat,
                    ).push(row@));
                },
                None => {},
            }
            next = next + 1;
        }
        rows
    }

    /// A copy of the account of client `id`, if there is one.
    pub fn get_account(&self, id: u16) -> (r: Option<Account>)
        ensures
            match r {
                Some(account) => self@.contains_key(id) && account@ == self@[id],
                None => !self@.contains_key(id),
            },
    {
        match self.accounts.get(&id) {
            Some(account) => Some(account.clone()),
            None => None,
        }
    }
}

/// How one worker leaves things: the records still queued, the ledger, and how
/// the worker ended.
pub struct Pass {
    pub queue: Seq<Seq<char>>,
    pub ledger: LedgerView,
    pub outcome: Result<(), Fault>,
}

/// One worker's pass over `queue`. It takes the records from the head, one at a
/// time, and applies each to the ledger. It ends well when the queue is empty.
/// The first record that is malformed, or that the ledger refuses, ends it with
/// that error: the record is gone from the queue, the ledger is as it was before
/// it, and the records behind it wait on.
pub open spec fn pass(queue: Seq<Seq<char>>, ledger: LedgerView) -> Pass
    decreases queue.len(),
{
    if queue.len() == 0 {
        Pass { queue, ledger, outcome: Ok(()) }
    } else {
        match record_value(queue[0]) {
            Err(message) => Pass {
                queue: queue.drop_first(),
                ledger,
                outcome: Err(Fault::PaymentProcessingError(message)),
            },
            Ok(tx) => match ledger_step(ledger, tx) {
                None => Pass {
                    queue: queue.drop_first(),
                    ledger,
                    outcome: Err(Fault::PaymentProcessingError(out_of_range_message())),
                },
                Some(next) => pass(queue.drop_first(), next),
            },
        }
    }
}

/// A worker: it owns a queue of records and the accounts that they are for.
#[derive(Debug)]
pub struct PaymentsProcessor {
    payments_queue: PaymentsQueue,
    account_service: AccountService,
}

/// A worker as contracts see it.
pub struct ProcessorView {
    pub queue: Seq<Seq<char>>,
    pub ledger: LedgerView,
}

impl View for PaymentsProcessor {
    type V = ProcessorView;

    closed spec fn view(&self) -> ProcessorView {
        ProcessorView { queue: self.payments_queue@, ledger: self.account_service@ }
    }
}

impl PaymentsProcessor {
    /// A worker for `payments_queue` and `account_service`.
    pub fn new(payments_queue: PaymentsQueue, account_service: AccountService) -> (r: Self)
        ensures
            r@ == (ProcessorView { queue: payments_queue@, ledger: account_service@ }),
    {
        Self { payments_queue, account_service }
    }

    /// Works the queue off, as `pass` says.
    pub fn start(&mut self) -> (r: Result<(), PaymentError>)
        ensures
            final(self)@.queue == pass(old(self)@.queue, old(self)@.ledger).queue,
            final(self)@.ledger == pass(old(self)@.queue, old(self)@.ledger).ledger,
            outcome_view(r) == pass(old(self)@.queue, old(self)@.ledger).outcome,
    {
        loop
            invariant
                pass(self@.queue, self@.ledger) == pass(old(self)@.queue, old(self)@.ledger),
            decreases self@.queue.len(),
        {
            let transaction_string = match self.payments_queue.get_transaction() {
                Some(transaction_string) => transaction_string,
                None => {
                    return Ok(());
                },
            };
            let transaction = match Transaction::from_str(transaction_string.as_str()) {
                Ok(transaction) => transaction,
                Err(e) => {
                    return Err(e);
                },
            };
            match self.account_service.process_transaction(transaction) {
                Ok(_) => {},
                Err(e) => {
                    return Err(e);
                },
            }
        }
    }

    /// The queue and the accounts, handed back.
    pub fn into_parts(self) -> (r: (PaymentsQueue, AccountService))
        ensures
            r.0@ == self@.queue,
            r.1@ == self@.ledger,
    {
        (self.payments_queue, self.account_service)
    }

    /// The queue that the worker takes its records from.
    pub fn payments_queue(&self) -> (r: &PaymentsQueue)
        ensures
            r@ == self@.queue,
    {
        &self.payments_queue
    }

    /// The accounts that the worker applies its records to.
    pub fn account_service(&self) -> (r: &AccountService)
        ensures
            r@ == self@.ledger,
    {
        &self.account_service
    }
}

} // verus!
