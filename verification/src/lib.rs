//! A payments engine: a ledger of client accounts driven by a stream of
//! deposit, withdrawal, dispute, resolve and chargeback records.
//!
//! Records are lines of text, `kind,client,transaction,amount`. They wait in a
//! first-in, first-out queue; a worker takes them off one at a time, reads each
//! as a transaction and applies it to the account of its client. Amounts are
//! fixed-point decimals of eight places, bounded in magnitude; balances are
//! reported to four places.
//!
//! The library is sequential. Every operation that changes the queue or the
//! accounts takes them by exclusive reference, so a program that shares them
//! between threads puts them behind a lock and gets each operation as one
//! indivisible step. The workers of a run work one after another, which keeps
//! the records of every client in the order in which they were queued.
//!
//! Reading the input and printing the report are left to the program: the
//! library takes the lines of an input as values and hands the lines of a report
//! back.

pub mod cli;
pub mod engine;

use crate::engine::ingestion::{IngestionService, PaymentsQueue, ServiceView};
use crate::engine::payments::AccountService;
use vstd::prelude::*;

verus! {

/// An engine with nothing queued, no accounts, and one worker to a run.
pub fn payments_engine() -> (r: IngestionService)
    ensures
        r@ == (ServiceView {
            queue: Seq::empty(),
            ledger: Map::empty(),
            num_workers: 1,
            outcomes: Seq::empty(),
        }),
{
    let payments_queue = PaymentsQueue::new();
    let account_service = AccountService::new();
    IngestionService::new(payments_queue, account_service, 1)
}

} // verus!
