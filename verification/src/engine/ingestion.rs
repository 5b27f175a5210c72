//! The queue of records that wait to be processed, and the service that fills
//! it and has it worked off.

use crate::engine::errors::{Fault, PaymentError, outcome_view};
use crate::engine::model::LedgerView;
use crate::engine::payments::{AccountService, PaymentsProcessor, pass};
use std::collections::VecDeque;
use vstd::prelude::*;

verus! {

/// A first-in, first-out queue of raw records. It knows nothing of what a record
/// means.
#[derive(Debug)]
pub struct PaymentsQueue {
    queue: VecDeque<String>,
}

impl View for PaymentsQueue {
    type V = Seq<Seq<char>>;

    closed spec fn view(&self) -> Seq<Seq<char>> {
        self.queue@.map_values(|s: String| s@)
    }
}

impl PaymentsQueue {
    /// An empty queue.
    pub fn new() -> (r: Self)
        ensures
            r@ == Seq::<Seq<char>>::empty(),
    {
        let r = PaymentsQueue { queue: VecDeque::new() };
        assert(r@ =~= Seq::<Seq<char>>::empty());
        r
    }

    /// Appends `message` at the tail.
    pub fn publish_transaction(&mut self, message: String)
        ensures
            final(self)@ == old(self)@.push(message@),
    {
        self.queue.push_back(message);
        assert(self@ =~= old(self)@.push(message@));
    }

    /// Removes the record at the head and returns it; `None` where the queue is
    /// empty.
    pub fn get_transaction(&mut self) -> (r: Option<String>)
        ensures
            match r {
                Some(message) => {
                    &&& old(self)@.len() > 0
                    &&& message@ == old(self)@[0]
                    &&& final(self)@ == old(self)@.drop_first()
                },
                None => old(self)@.len() == 0 && final(self)@ == old(self)@,
            },
    {
        let r = self.queue.pop_front();
        assert(r is Some ==> self@ =~= old(self)@.drop_first());
        r
    }

    /// How many records wait.
    pub fn len(&self) -> (r: usize)
        ensures
            r == self@.len(),
    {
        self.queue.len()
    }
}

/// How a number of workers leave things.
pub struct Passes {
    pub queue: Seq<Seq<char>>,
    pub ledger: LedgerView,
    pub outcomes: Seq<Result<(), Fault>>,
}

/// The passes of `n` workers, one after the other: each goes on where the one
/// before it ended. A worker that finds the queue empty ends well at once.
pub open spec fn passes(queue: Seq<Seq<char>>, ledger: LedgerView, n: nat) -> Passes
    decreases n,
{
    if n == 0 {
        Passes { queue, ledger, outcomes: Seq::empty() }
    } else {
        let before = passes(queue, ledger, (n - 1) as nat);
        let last = pass(before.queue, before.ledger);
        Passes {
            queue: last.queue,
            ledger: last.ledger,
            outcomes: before.outcomes.push(last.outcome),
        }
    }
}

/// The records among the lines of an input: all lines but the first, which is a
/// header.
pub open spec fn after_header(lines: Seq<Seq<char>>) -> Seq<Seq<char>> {
    if lines.len() == 0 {
        lines
    } else {
        lines.drop_first()
    }
}

/// Takes records in and has a number of workers apply them to the accounts.
#[derive(Debug)]
pub struct IngestionService {
    payments_queue: PaymentsQueue,
    account_service: AccountService,
    num_workers: u8,
    workers: Vec<Result<(), PaymentError>>,
}

/// An ingestion service as contracts see it: the records that wait, the ledger,
/// the number of workers of a run, and how the workers that ran have ended.
pub struct ServiceView {
    pub queue: Seq<Seq<char>>,
    pub ledger: LedgerView,
    pub num_workers: u8,
    pub outcomes: Seq<Result<(), Fault>>,
}

impl View for IngestionService {
    type V = ServiceView;

    closed spec fn view(&self) -> ServiceView {
        ServiceView {
            queue: self.payments_queue@,
            ledger: self.account_service@,
            num_workers: self.num_workers,
            outcomes: self.workers@.map_values(|r: Result<(), PaymentError>| outcome_view(r)),
        }
    }
}

impl IngestionService {
    /// A service over `payments_queue` and `account_service`, with `num_workers`
    /// workers to a run.
    pub fn new(
        payments_queue: PaymentsQueue,
        account_service: AccountService,
        num_workers: u8,
    ) -> (r: Self)
        ensures
            r@ == (ServiceView {
                queue: payments_queue@,
                ledger: account_service@,
                num_workers,
                outcomes: Seq::empty(),
            }),
    {
        let r = Self { payments_queue, account_service, num_workers, workers: Vec::new() };
        assert(r@.outcomes =~= Seq::empty());
        r
    }

    /// Has the workers work the queue off, one after the other, and keeps how
    /// each of them ended.
    pub fn run(&mut self)
        ensures
            final(self)@ == ({
                let end = passes(
                    old(self)@.queue,
                    old(self)@.ledger,
                    old(self)@.num_workers as nat,
                );
                ServiceView {
                    queue: end.queue,
                    ledger: end.ledger,
                    num_workers: old(self)@.num_workers,
                    outcomes: old(self)@.outcomes + end.outcomes,
                }
            }),
    {
        let mut payments_queue = PaymentsQueue::new();
        let mut account_service = AccountService::new();
        std::mem::swap(&mut payments_queue, &mut self.payments_queue);
        std::mem::swap(&mut account_service, &mut self.account_service);
        let mut processor = PaymentsProcessor::new(payments_queue, account_service);
        let mut started: u8 = 0;
        assert(self@.outcomes =~= old(self)@.outcomes + Seq::empty());
        while started < self.num_workers
            invariant
                started <= self.num_workers,
                self.num_workers == old(self).num_workers,
                processor@.queue == passes(
                    old(self)@.queue,
                    old(self)@.ledger,
                    started as nat,
                ).queue,
                processor@.ledger == passes(
                    old(self)@.queue,
                    old(self)@.ledger,
                    started as nat,
                ).ledger,
                self@.outcomes == old(self)@.outcomes + passes(
                    old(self)@.queue,
                    old(self)@.ledger,
                    started as nat,
                ).outcomes,
            decreases self.num_workers - started,
        {
            let ghost before = passes(old(self)@.queue, old(self)@.ledger, started as nat);
            let ghost last = pass(before.queue, before.ledger);
            let ghost kept = self@.outcomes;
            let result = processor.start();
            self.workers.push(result);
            started = started + 1;
            assert(passes(old(self)@.queue, old(self)@.ledger, started as nat).outcomes
                == before.outcomes.push(last.outcome));
            assert(self@.outcomes =~= kept.push(last.outcome));
            assert(self@.outcomes =~= old(self)@.outcomes + before.outcomes.push(last.outcome));
        }
        let (payments_queue, account_service) = processor.into_parts();
        self.payments_queue = payments_queue;
        self.account_service = account_service;
    }

    /// Hands out how the workers of the runs so far have ended, and forgets it.
    pub fn shutdown_gracefully(&mut self) -> (results: Vec<Result<(), PaymentError>>)
        ensures
            results@.map_values(|r: Result<(), PaymentError>| outcome_view(r)) == old(
                self,
            )@.outcomes,
            final(self)@ == (ServiceView { outcomes: Seq::empty(), ..old(self)@ }),
    {
        let mut results: Vec<Result<(), PaymentError>> = Vec::new();
        std::mem::swap(&mut results, &mut self.workers);
        assert(self@.outcomes =~= Seq::empty());
        results
    }

    /// Takes in the lines of an input: the first is a header and is skipped, the
    /// others are queued as records, in their order.
    pub fn submit_payments_csv(&mut self, lines: Vec<String>)
        ensures
            final(self)@ == (ServiceView {
                queue: old(self)@.queue + after_header(lines@.map_values(|s: String| s@)),
                ..old(self)@
            }),
    {
        let ghost texts = lines@.map_values(|s: String| s@);
        let mut header = true;
        assert(old(self)@.queue + after_header(texts.take(0)) =~= old(self)@.queue);
        for line in it: lines
            invariant
                it.seq() == lines@,
                texts == lines@.map_values(|s: String| s@),
                header == (it.index() == 0),
                self@ == (ServiceView {
                    queue: old(self)@.queue + after_header(texts.take(it.index() as int)),
                    ..old(self)@
                }),
        {
            let ghost seen = texts.take(it.index() as int);
            let ghost next = texts.take(it.index() + 1);
            assert(next =~= seen.push(line@));
            if header {
                header = false;
                assert(after_header(next) =~= after_header(seen));
            } else {
                assert(old(self)@.queue + after_header(next) =~= (old(self)@.queue
                    + after_header(seen)).push(line@));
                self.payments_queue.publish_transaction(line);
            }
        }
        assert(texts.take(lines@.len() as int) =~= texts);
    }

    /// The queue and the accounts, handed back.
    pub fn into_parts(self) -> (r: (PaymentsQueue, AccountService))
        ensures
            r.0@ == self@.queue,
            r.1@ == self@.ledger,
    {
        (self.payments_queue, self.account_service)
    }

    /// How many workers a run has.
    pub fn num_workers(&self) -> (r: u8)
        ensures
            r == self@.num_workers,
    {
        self.num_workers
    }

    /// The records that wait.
    pub fn payments_queue(&self) -> (r: &PaymentsQueue)
        ensures
            r@ == self@.queue,
    {
        &self.payments_queue
    }

    /// The accounts.
    pub fn account_service(&self) -> (r: &AccountService)
        ensures
            r@ == self@.ledger,
    {
        &self.account_service
    }
}

} // verus!
