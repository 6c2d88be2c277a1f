//! Regular expressions, matched by the `regex` crate.
//!
//! A pattern travels through the library as its source text. What the
//! `regex` crate makes of a pattern is not restated here: the spec functions
//! of this module name its answers, and the executable functions call it.

use regex::Regex;
use vstd::prelude::*;

verus! {

/// Whether `regex::Regex::new` accepts `pattern`.
pub uninterp spec fn regex_compiles(pattern: Seq<char>) -> bool;

/// Whether the expression that `regex::Regex::new` builds from `pattern`
/// matches somewhere in `text`, as `regex::Regex::is_match` tells.
pub uninterp spec fn regex_is_match(pattern: Seq<char>, text: Seq<char>) -> bool;

/// The capture groups of the first match of `pattern` in `text`, as
/// `regex::Regex::captures` finds them: group 0 is the whole match, and a
/// group that took no part in the match is `None`. The result is `None`
/// where there is no match or the pattern does not compile.
pub uninterp spec fn regex_captures(pattern: Seq<char>, text: Seq<char>) -> Option<
    Seq<Option<Seq<char>>>,
>;

/// Compiles `pattern` with `regex::Regex::new` and asks
/// `regex::Regex::is_match` whether it matches somewhere in `text`.
///
/// Not proved: that the answer is `None` exactly for the patterns that
/// `Regex::new` refuses, and otherwise what `is_match` returns.
#[verifier::external_body]
pub(crate) fn pattern_is_match(pattern: &str, text: &str) -> (found: Option<bool>)
    ensures
        found == (if regex_compiles(pattern@) {
            Some(regex_is_match(pattern@, text@))
        } else {
            None
        }),
{
    match Regex::new(pattern) {
        Ok(expression) => Some(expression.is_match(text)),
        Err(_) => None,
    }
}

/// Compiles `pattern` with `regex::Regex::new` and returns the groups of the
/// first match that `regex::Regex::captures` finds in `text`, each as an
/// owned string.
///
/// Not proved: that the groups are those of `Regex::captures`.
#[verifier::external_body]
pub(crate) fn pattern_captures(pattern: &str, text: &str) -> (groups: Option<Vec<Option<String>>>)
    ensures
        groups.deep_view() == regex_captures(pattern@, text@),
{
    let expression = Regex::new(pattern).ok()?;
    let captures = expression.captures(text)?;
    Some(captures.iter().map(|group| group.map(|found| found.as_str().to_owned())).collect())
}

} // verus!
