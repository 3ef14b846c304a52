//! Name patterns: regular expressions over publisher names.

use vstd::prelude::*;
use regex::Regex;

verus! {

/// Whether `Regex::new` accepts `pattern`: its syntax is that of a regular
/// expression and its compiled form stays within the default size limit.
pub uninterp spec fn pattern_valid(pattern: Seq<char>) -> bool;

/// For a valid pattern, whether `Regex::is_match` finds a match of it
/// anywhere in `text`.
pub uninterp spec fn pattern_matches(pattern: Seq<char>, text: Seq<char>) -> bool;

/// The search pattern is no regular expression.
#[derive(Clone, Copy, Debug, PartialEq, Eq, Structural)]
pub struct PatternError;

/// `Regex::new` on `pattern` and, where that succeeds, `Regex::is_match` of
/// the compiled expression on `text`. The contract gives both results a
/// name and assumes no more than that each is a function of the strings.
#[verifier::external_body]
fn regex_is_match(pattern: &str, text: &str) -> (found: Option<bool>)
    ensures
        found == if pattern_valid(pattern@) {
            Some(pattern_matches(pattern@, text@))
        } else {
            None::<bool>
        },
{
    match Regex::new(pattern) {
        Ok(compiled) => Some(compiled.is_match(text)),
        Err(_) => None,
    }
}

/// Whether `name` matches `pattern`, read as a regular expression; fails
/// exactly when the pattern is none.
pub fn name_matches(pattern: &str, name: &str) -> (r: Result<bool, PatternError>)
    ensures
        match r {
            Ok(found) => pattern_valid(pattern@) && found == pattern_matches(pattern@, name@),
            Err(_) => !pattern_valid(pattern@),
        },
{
    match regex_is_match(pattern, name) {
        Some(found) => Ok(found),
        None => Err(PatternError),
    }
}

/// Checks that `pattern` is a regular expression.
pub fn check_pattern(pattern: &str) -> (r: Result<(), PatternError>)
    ensures
        r is Ok == pattern_valid(pattern@),
{
    match regex_is_match(pattern, "") {
        Some(_) => Ok(()),
        None => Err(PatternError),
    }
}

} // verus!
