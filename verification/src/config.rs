//! The search configuration: what to look for, where, and how to compare.
//!
//! The front end gathers the raw material — the first two command-line
//! arguments and the presence of an environment toggle — and hands it over as
//! plain values; building the configuration and rejecting missing arguments
//! is decided here.

use vstd::prelude::*;

verus! {

/// A complete search configuration.
pub struct Config {
    /// The substring to look for.
    pub query: String,
    /// The path of the file whose contents are to be searched.
    pub filename: String,
    /// Whether the search compares case-sensitively.
    pub case_sensitive: bool,
}

impl Config {
    /// Builds a configuration from the query and file-name arguments, if they
    /// were given, and the case-sensitivity choice; a missing argument is
    /// rejected, the query's absence being reported first.
    pub fn new(query: Option<String>, filename: Option<String>, case_sensitive: bool) -> (r:
        Result<Config, &'static str>)
        ensures
            match r {
                Ok(c) => query is Some && filename is Some && c.query@ == query->0@
                    && c.filename@ == filename->0@ && c.case_sensitive == case_sensitive,
                Err(m) => (query is None && m@ == "Didn't get a query string"@) || (query is Some
                    && filename is None && m@ == "Didnt get a file name"@),
            },
    {
        let q = match query {
            Some(q) => q,
            None => {
                return Err("Didn't get a query string");
            },
        };
        let f = match filename {
            Some(f) => f,
            None => {
                return Err("Didnt get a file name");
            },
        };
        Ok(Config { query: q, filename: f, case_sensitive: case_sensitive })
    }
}

} // verus!
