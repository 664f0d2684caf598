//! Telling snapshot files from other files by their names.
//!
//! Every exchange is kept in one file whose name ends in `.json`. Which names
//! those are is decided by a regular expression, matched by the `regex`
//! crate.

use regex::Regex;
use vstd::prelude::*;

verus! {

/// What the `regex` crate answers when asked whether the regular expression
/// `pattern` matches somewhere in `text`: `None` where `pattern` does not
/// compile, and otherwise whether there is a match.
pub uninterp spec fn regex_search(pattern: Seq<char>, text: Seq<char>) -> Option<bool>;

/// Whether an answer of the `regex` crate says that a file is a snapshot:
/// only a match does; no match and a pattern that does not compile do not.
pub open spec fn spec_is_selected(answer: Option<bool>) -> bool {
    answer == Some(true)
}

/// Compiles `pattern` with `regex::Regex::new` and asks `Regex::is_match`
/// whether it matches somewhere in `text`.
///
/// Trusted, not proved: the answer depends on the pattern and the text alone,
/// so that it can go by the name [`regex_search`]. A pattern that does not
/// compile gives `None`. Nothing is claimed about which texts a pattern
/// matches.
#[verifier::external_body]
fn search(pattern: &str, text: &str) -> (answer: Option<bool>)
    ensures
        answer == regex_search(pattern@, text@),
{
    match Regex::new(pattern) {
        Ok(expression) => Some(expression.is_match(text)),
        Err(_) => None,
    }
}

/// The regular expression that the names of snapshot files match.
pub fn snapshot_pattern() -> (pattern: &'static str)
    ensures
        pattern@ == r".*\.json$"@,
{
    r".*\.json$"
}

/// Whether an answer of the `regex` crate says that a file is a snapshot.
pub fn is_selected(answer: Option<bool>) -> (selected: bool)
    ensures
        selected == spec_is_selected(answer),
{
    match answer {
        Some(matched) => matched,
        None => false,
    }
}

/// Whether `name` is the name of a snapshot file: whether the snapshot
/// pattern matches it.
pub fn is_snapshot_file(name: &str) -> (selected: bool)
    ensures
        selected == spec_is_selected(regex_search(r".*\.json$"@, name@)),
{
    is_selected(search(snapshot_pattern(), name))
}

} // verus!
