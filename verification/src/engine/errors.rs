//! The errors of a run.

use vstd::prelude::*;

verus! {

/// What can stop a run. Each variant carries a message for the operator.
#[derive(Debug)]
pub enum PaymentError {
    /// The input location names a scheme that is not known.
    InvalidUriScheme(String),
    /// The input could not be opened or read.
    FileDownloadError(String),
    /// A record is malformed, or applying it would take a balance out of range.
    PaymentProcessingError(String),
    /// The command line is incomplete.
    CliError(String),
}

/// A `PaymentError` with its message as a sequence of characters.
pub enum Fault {
    InvalidUriScheme(Seq<char>),
    FileDownloadError(Seq<char>),
    PaymentProcessingError(Seq<char>),
    CliError(Seq<char>),
}

impl View for PaymentError {
    type V = Fault;

    open spec fn view(&self) -> Fault {
        match self {
            PaymentError::InvalidUriScheme(m) => Fault::InvalidUriScheme(m@),
            PaymentError::FileDownloadError(m) => Fault::FileDownloadError(m@),
            PaymentError::PaymentProcessingError(m) => Fault::PaymentProcessingError(m@),
            PaymentError::CliError(m) => Fault::CliError(m@),
        }
    }
}

/// How a piece of work ended, as contracts see it.
pub open spec fn outcome_view(r: Result<(), PaymentError>) -> Result<(), Fault> {
    match r {
        Ok(_) => Ok(()),
        Err(e) => Err(e@),
    }
}

impl Clone for PaymentError {
    fn clone(&self) -> (r: Self)
        ensures
            r@ == self@,
    {
        match self {
            PaymentError::InvalidUriScheme(m) => PaymentError::InvalidUriScheme(m.clone()),
            PaymentError::FileDownloadError(m) => PaymentError::FileDownloadError(m.clone()),
            PaymentError::PaymentProcessingError(m) => PaymentError::PaymentProcessingError(
                m.clone(),
            ),
            PaymentError::CliError(m) => PaymentError::CliError(m.clone()),
        }
    }
}

impl PaymentError {
    /// The message that the error carries.
    pub fn message(&self) -> (r: &String)
        ensures
            self@ == Fault::InvalidUriScheme(r@) || self@ == Fault::FileDownloadError(r@) || self@
                == Fault::PaymentProcessingError(r@) || self@ == Fault::CliError(r@),
    {
        match self {
            PaymentError::InvalidUriScheme(m) => m,
            PaymentError::FileDownloadError(m) => m,
            PaymentError::PaymentProcessingError(m) => m,
            PaymentError::CliError(m) => m,
        }
    }
}

} // verus!
