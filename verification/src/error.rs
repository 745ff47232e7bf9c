//! Error taxonomy for configuration loading, parsing, merging and
//! validation.

use vstd::prelude::*;

verus! {

/// What went wrong while assembling a configuration.
#[derive(Debug, Clone, PartialEq, Eq)]
pub enum Error {
    /// Configuration file shape errors, such as an unrecognised format.
    Config(String),
    /// Environment variable errors.
    Environment(String),
    /// Command-line argument errors.
    Cli(String),
    /// Filesystem failures, carried as their message.
    Io(String),
    /// Format parse or typed-decode failures.
    Serialization(String),
    /// Reserved for irreconcilable structural conflicts; the shipped merge
    /// policies are total and never raise it.
    MergeConflict(String),
    /// Rejections by a user-supplied validation predicate.
    Validation(String),
}

/// The message text carried by an error.
pub open spec fn error_text(e: Error) -> Seq<char> {
    match e {
        Error::Config(s) => s@,
        Error::Environment(s) => s@,
        Error::Cli(s) => s@,
        Error::Io(s) => s@,
        Error::Serialization(s) => s@,
        Error::MergeConflict(s) => s@,
        Error::Validation(s) => s@,
    }
}

impl Error {
    /// The message text carried by this error.
    pub fn message(&self) -> (r: &String)
        ensures
            r@ == error_text(*self),
    {
        match self {
            Error::Config(s) => s,
            Error::Environment(s) => s,
            Error::Cli(s) => s,
            Error::Io(s) => s,
            Error::Serialization(s) => s,
            Error::MergeConflict(s) => s,
            Error::Validation(s) => s,
        }
    }
}

} // verus!
