//! The ways in which an invocation can go wrong.

use vstd::prelude::*;
use vstd::string::StringExecFns;

verus! {

/// Why an invocation did not run to its ordinary end.
#[derive(Debug, PartialEq, Eq)]
pub enum QueryError {
    /// A key of the argument map has no marker in the query text.
    UnknownArgumentKey,
    /// An extra argument is not a single `key=value` pair.
    MalformedExtraArgument,
    /// Neither a literal query nor a query file was given.
    QuerySourceMissing,
    /// The query file could not be read; the field holds the cause.
    FileReadError(String),
    /// The network call failed.
    TransportError,
    /// The result could not be written to the output file.
    OutputWriteError,
}

impl QueryError {
    /// Every error ends the invocation, except a failed write of the output
    /// file, after which the result goes to standard output.
    pub open spec fn fatal(self) -> bool {
        !(self is OutputWriteError)
    }

    /// The status the process exits with after this error.
    pub open spec fn status(self) -> int {
        match self {
            QueryError::QuerySourceMissing => -1,
            QueryError::MalformedExtraArgument => -2,
            QueryError::UnknownArgumentKey => -3,
            QueryError::FileReadError(_) => -3,
            QueryError::TransportError => -3,
            QueryError::OutputWriteError => 0,
        }
    }

    /// The text shown to the user for this error.
    pub open spec fn description(self) -> Seq<char> {
        match self {
            QueryError::UnknownArgumentKey => "Extra argument key doesn't exist"@,
            QueryError::MalformedExtraArgument => "Wrong format in extra argument"@,
            QueryError::QuerySourceMissing => "QUERY_FILE or QUERY_STRING must be set! use -h to see usage."@,
            QueryError::FileReadError(cause) => "Failed to read query string from file. err: "@
                + cause@,
            QueryError::TransportError => "Failed to send request"@,
            QueryError::OutputWriteError => "Failed to write the output file"@,
        }
    }

    /// Whether this error ends the invocation.
    pub fn is_fatal(&self) -> (fatal: bool)
        ensures
            fatal == self.fatal(),
    {
        match self {
            QueryError::OutputWriteError => false,
            _ => true,
        }
    }

    /// The status the process exits with after this error: zero exactly for
    /// the error that is recovered from.
    pub fn exit_code(&self) -> (code: i32)
        ensures
            code == self.status(),
            code != 0 <==> self.fatal(),
    {
        match self {
            QueryError::QuerySourceMissing => -1,
            QueryError::MalformedExtraArgument => -2,
            QueryError::UnknownArgumentKey => -3,
            QueryError::FileReadError(_) => -3,
            QueryError::TransportError => -3,
            QueryError::OutputWriteError => 0,
        }
    }

    /// The text shown to the user for this error.
    pub fn message(&self) -> (text: String)
        ensures
            text@ == self.description(),
    {
        match self {
            QueryError::UnknownArgumentKey => String::from_str("Extra argument key doesn't exist"),
            QueryError::MalformedExtraArgument => String::from_str(
                "Wrong format in extra argument",
            ),
            QueryError::QuerySourceMissing => String::from_str(
                "QUERY_FILE or QUERY_STRING must be set! use -h to see usage.",
            ),
            QueryError::FileReadError(cause) => String::from_str(
                "Failed to read query string from file. err: ",
            ).concat(cause.as_str()),
            QueryError::TransportError => String::from_str("Failed to send request"),
            QueryError::OutputWriteError => String::from_str("Failed to write the output file"),
        }
    }
}

} // verus!
