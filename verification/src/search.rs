//! Search-pattern compilation and matching, delegated to the `regex` crate.
//!
//! Whether a pattern compiles, and whether a compiled pattern matches a text,
//! are functions of the pattern and the text alone; the two uninterpreted
//! names below stand for those results, and every contract that talks about
//! search matching goes through them.

use vstd::prelude::*;

verus! {

/// Whether `regex::Regex::new` accepts `pattern`.
pub uninterp spec fn regex_valid(pattern: Seq<char>) -> bool;

/// Whether the regular expression `pattern` matches anywhere in `text`,
/// as decided by `regex::Regex::is_match`.
pub uninterp spec fn regex_match(pattern: Seq<char>, text: Seq<char>) -> bool;

/// A search pattern that was rejected by the regular-expression compiler.
/// The navigation layer reports it and leaves the previous search untouched.
#[derive(Clone, Copy, Debug, PartialEq, Eq, Structural)]
pub struct PatternError;

/// Relies on `regex::Regex::new`: whether a pattern compiles depends on the
/// pattern alone.
#[verifier::external_body]
pub(crate) fn regex_compile_ok(pattern: &str) -> (r: bool)
    ensures
        r == regex_valid(pattern@),
{
    regex::Regex::new(pattern).is_ok()
}

/// Relies on `regex::Regex::new` and `regex::Regex::is_match`: whether a
/// pattern compiles, and where it matches, depend on the pattern and the
/// text alone, so compiling afresh before each match returns the same answer
/// as matching against a stored compiled pattern.
#[verifier::external_body]
pub(crate) fn regex_text_match(pattern: &str, text: &str) -> (r: bool)
    requires
        regex_valid(pattern@),
    ensures
        r == regex_match(pattern@, text@),
{
    match regex::Regex::new(pattern) {
        Ok(re) => re.is_match(text),
        Err(_) => false,
    }
}

} // verus!
