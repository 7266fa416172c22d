//! The error taxonomy: bad arguments, or a file that could not be read.

use vstd::prelude::*;
use vstd::string::StringExecFns;

verus! {

/// What can go wrong in one run: the argument list did not supply a
/// non-empty query and file path, or the file behind the path could not
/// be read (the carried string is the underlying cause).
#[derive(Debug)]
pub enum SearchError {
    ArgumentError,
    FileReadError(String),
}

impl SearchError {
    /// The human-readable message for this error, prefixed with the
    /// failure kind.
    pub open spec fn spec_message(self) -> Seq<char> {
        match self {
            SearchError::ArgumentError => "argument error: a query and a file path are required"@,
            SearchError::FileReadError(cause) => "file read error: "@ + cause@,
        }
    }

    /// Renders the message; used by callers in place of `Display`.
    pub fn message(&self) -> (m: String)
        ensures
            m@ == self.spec_message(),
    {
        match self {
            SearchError::ArgumentError => {
                String::from_str("argument error: a query and a file path are required")
            },
            SearchError::FileReadError(cause) => {
                String::from_str("file read error: ").concat(cause.as_str())
            },
        }
    }
}

} // verus!
