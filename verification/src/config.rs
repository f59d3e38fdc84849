//! Options a caller supplies: the query, the file name, and the case mode.

use vstd::prelude::*;

use crate::matcher::line_views;
use crate::matcher::search;
use crate::matcher::search_case_insensitive;
use crate::matcher::search_fold_spec;
use crate::matcher::search_spec;

verus! {

/// The options a search run works from.
pub struct Config {
    pub query: String,
    pub filename: String,
    pub case_sensitive: bool,
}

impl Config {
    /// Builds the options from the argument list, given as the process
    /// receives it — the program name first, then the query, then the file
    /// name — and from whether the `CASE_INSENSITIVE` environment variable
    /// is set. The variable's presence, with any Unicode value — one that is
    /// not Unicode counts as unset — selects case-insensitive search. A
    /// missing query or file name is a configuration error with a fixed
    /// message.
    pub fn new(args: Vec<String>, case_insensitive_set: bool) -> (result: Result<
        Config,
        &'static str,
    >)
        ensures
            match result {
                Ok(c) => {
                    &&& args@.len() >= 3
                    &&& c.query@ == args@[1]@
                    &&& c.filename@ == args@[2]@
                    &&& c.case_sensitive == !case_insensitive_set
                },
                Err(m) => {
                    &&& args@.len() < 3
                    &&& m@ == (if args@.len() < 2 {
                        "Didn't get a query string"@
                    } else {
                        "Didn't get a file name"@
                    })
                },
            },
    {
        if args.len() < 2 {
            return Err("Didn't get a query string");
        }
        if args.len() < 3 {
            return Err("Didn't get a file name");
        }
        let query = args[1].clone();
        let filename = args[2].clone();
        Ok(Config { query, filename, case_sensitive: !case_insensitive_set })
    }
}

/// What a run reports for the given options and content: the case mode
/// selects between the two searches.
pub open spec fn run_spec(config: Config, content: Seq<char>) -> Seq<Seq<char>> {
    if config.case_sensitive {
        search_spec(config.query@, content)
    } else {
        search_fold_spec(config.query@, content)
    }
}

/// The lines a run reports: the search the options call for, applied to the
/// content. Reading the file and printing the result stay with the caller.
pub fn matching_lines<'a>(config: &Config, contents: &'a str) -> (r: Vec<&'a str>)
    ensures
        line_views(r@) == run_spec(*config, contents@),
{
    if config.case_sensitive {
        search(config.query.as_str(), contents)
    } else {
        search_case_insensitive(config.query.as_str(), contents)
    }
}

} // verus!
