//! One run of the search over the contents of the configured file. Reading
//! the file and writing the lines out is the caller's part.

use vstd::prelude::*;
use crate::config::{Config, ConfigView};
use crate::search::{insensitive_search, matching_lines, matching_lines_ignoring_case, search};

verus! {

/// The lines that a run puts out for a configuration and the contents of
/// its file: those that hold the query, with or without regard to letter
/// case as the configuration says, in the order of the file.
pub open spec fn output_lines(config: ConfigView, contents: Seq<char>) -> Seq<Seq<char>> {
    if config.case_insensitive {
        matching_lines_ignoring_case(contents, config.query)
    } else {
        matching_lines(contents, config.query)
    }
}

/// Searches `contents`, the text of the file that `config` names, in the
/// mode that `config` selects, and gives the lines to put out, in order.
pub fn run<'a>(config: &'a Config, contents: &'a str) -> (found: Vec<&'a str>)
    ensures
        found.deep_view() == output_lines(config@, contents@),
{
    if config.case_insensitive {
        insensitive_search(contents, config.query.as_str())
    } else {
        search(contents, config.query.as_str())
    }
}

} // verus!
