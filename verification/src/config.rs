//! Resolving a raw argument list into a validated search configuration.

use vstd::prelude::*;
use crate::error::SearchError;

verus! {

/// A validated configuration for one run: the query, the path of the file
/// to search, and whether matching ignores ASCII case. Once constructed,
/// the query and the path are non-empty and the value is never mutated.
pub struct Config {
    query: String,
    file_path: String,
    case_insensitive: bool,
}

impl Config {
    /// The query string.
    pub closed spec fn spec_query(self) -> Seq<char> {
        self.query@
    }

    /// The file path.
    pub closed spec fn spec_file_path(self) -> Seq<char> {
        self.file_path@
    }

    /// Whether matching ignores ASCII case.
    pub closed spec fn spec_case_insensitive(self) -> bool {
        self.case_insensitive
    }

    /// A configuration is well-formed when its query and file path are
    /// non-empty; construction only ever yields well-formed values.
    pub open spec fn wf(self) -> bool {
        self.spec_query().len() > 0 && self.spec_file_path().len() > 0
    }

    /// Extracts the query and file path from the raw argument list
    /// (`args[0]` is the program name) and records the case toggle.
    /// Fails with `ArgumentError` when fewer than two positional
    /// arguments follow the program name, or when either is empty.
    pub fn new(args: &[String], case_insensitive: bool) -> (result: Result<Config, SearchError>)
        ensures
            result is Ok <==> (args@.len() >= 3 && args@[1]@.len() > 0 && args@[2]@.len() > 0),
            result is Ok ==> result->Ok_0.wf(),
            result is Ok ==> result->Ok_0.spec_query() == args@[1]@,
            result is Ok ==> result->Ok_0.spec_file_path() == args@[2]@,
            result is Ok ==> result->Ok_0.spec_case_insensitive() == case_insensitive,
            result is Err ==> result->Err_0 is ArgumentError,
    {
        if args.len() < 3 {
            return Err(SearchError::ArgumentError);
        }
        let query = args[1].clone();
        let file_path = args[2].clone();
        if query.as_str().is_empty() || file_path.as_str().is_empty() {
            return Err(SearchError::ArgumentError);
        }
        Ok(Config { query, file_path, case_insensitive })
    }

    /// The query to look for.
    pub fn query(&self) -> (q: &String)
        ensures
            q@ == self.spec_query(),
    {
        &self.query
    }

    /// The path of the file to search.
    pub fn file_path(&self) -> (p: &String)
        ensures
            p@ == self.spec_file_path(),
    {
        &self.file_path
    }

    /// Whether matching ignores ASCII case.
    pub fn case_insensitive(&self) -> (b: bool)
        ensures
            b == self.spec_case_insensitive(),
    {
        self.case_insensitive
    }
}

} // verus!
