//! Errors of the command reader.

use vstd::prelude::*;

verus! {

/// Errors that may happen during operation.
#[derive(Debug)]
pub enum Error {
    /// Failure parsing a command.
    CommandParse(&'static str),
    /// Some unimplemented functionality was requested.
    Unimplemented(&'static str),
}

/// The message of a command parse error, if `e` is one.
pub open spec fn command_parse_message(e: Error) -> Option<Seq<char>> {
    match e {
        Error::CommandParse(m) => Some(m@),
        _ => None,
    }
}

} // verus!
