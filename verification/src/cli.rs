//! Command-line facing data: the argument record and the processing mode.
//! Argument parsing itself belongs to the surrounding I/O layer; the
//! library only consumes the resulting values.

use vstd::prelude::*;

use crate::text::{chars_to_string, find_char, str_to_chars, subvec};

verus! {

/// The command-line arguments.
#[derive(Debug, Clone)]
pub struct Cli {
    /// Path to the bibliography file.
    pub bib_file: String,
    /// Path to a target folder or a single document file.
    pub target_path: String,
    /// Operation mode.
    pub mode: Mode,
    /// Paths to ignore.
    pub ignore_paths: Option<Vec<String>>,
    /// Optional path of a generated index file (only when processing).
    pub generate_index_to_file: Option<String>,
    /// Optional rewrite of generated index links.
    pub index_link_prefix_rewrite: Option<(String, String)>,
}

/// The processing mode: verify only, or verify and rewrite.
#[derive(Debug, Clone, PartialEq, Eq, Structural)]
pub enum Mode {
    Verify,
    Process,
}

/// Parses a string of the form `from:to` into the pair `(from, to)`,
/// splitting at the first colon.
pub fn parse_prefix_rewrite(s: &str) -> (r: Result<(String, String), String>)
    ensures
        match r {
            Ok(pair) => {
                &&& find_char(s@, ':', 0) matches Some(i) && pair.0@ == s@.subrange(0, i)
                    && pair.1@ == s@.subrange(i + 1, s@.len() as int)
            },
            Err(m) => find_char(s@, ':', 0) is None && m@ == "Expected format: <from>:<to>"@,
        },
{
    let chars = str_to_chars(s);
    match crate::text::find_char_exec(&chars, ':', 0) {
        Some(i) => {
            proof {
                assert(i < chars.len());
            }
            let from = subvec(&chars, 0, i);
            let to = subvec(&chars, i + 1, chars.len());
            Ok((chars_to_string(&from), chars_to_string(&to)))
        },
        None => Err("Expected format: <from>:<to>".to_owned()),
    }
}

} // verus!
