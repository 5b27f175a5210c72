//! The engine's parts.
//!
//! - `text` and `amount`: how records and decimal numbers are read and written;
//! - `errors`: what can stop a run;
//! - `download`: the location of an input;
//! - `model`: the ledger as plain values, and what each transaction makes of it;
//! - `payments`: transactions, accounts, the account service and the worker;
//! - `ingestion`: the record queue and the service that runs the workers;
//! - `laws`: what holds of the ledger whatever the records are.

pub mod amount;
pub mod download;
pub mod errors;
pub mod ingestion;
pub mod laws;
pub mod model;
pub mod payments;
pub mod text;
