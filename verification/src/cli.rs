//! The command line: one argument, the path of the input file.

use crate::engine::errors::{Fault, PaymentError};
use vstd::prelude::*;

verus! {

/// The location that the arguments name. The first argument is the program's
/// own name; the second is the path of a file on this machine. Further ones are
/// not read.
pub fn input_uri(args: &Vec<String>) -> (r: Result<String, PaymentError>)
    ensures
        match r {
            Ok(uri) => args.len() >= 2 && uri@ == "file://"@ + args[1]@,
            Err(e) => args.len() < 2 && e@ == Fault::CliError("Provide input file"@),
        },
{
    if args.len() < 2 {
        return Err(PaymentError::CliError(String::from_str("Provide input file")));
    }
    Ok(String::from_str("file://").concat(args[1].as_str()))
}

} // verus!
