//! Pattern matching for topic names.
//!
//! Clients and policy rules supply regular expressions; the regex crate
//! answers whether a pattern matches a topic.  The two spec names below
//! stand for the crate's answers: both are functions of the strings alone.

use vstd::prelude::*;

verus! {

/// Whether `regex::Regex::new` accepts the pattern.
pub uninterp spec fn re_valid(pattern: Seq<char>) -> bool;

/// Whether the compiled pattern matches somewhere in the text, as
/// `regex::Regex::is_match` answers it.
pub uninterp spec fn re_matches(pattern: Seq<char>, text: Seq<char>) -> bool;

/// Relies on `regex::Regex::new`: whether it accepts a pattern depends on
/// the pattern text alone.
#[verifier::external_body]
pub fn pattern_is_valid(pattern: &String) -> (r: bool)
    ensures
        r == re_valid(pattern@),
{
    regex::Regex::new(pattern.as_str()).is_ok()
}

/// Relies on `regex::Regex::new` and `regex::Regex::is_match`: their
/// answers depend on the pattern and text alone.  A pattern that does not
/// compile matches nothing.
#[verifier::external_body]
pub fn pattern_matches(pattern: &String, text: &String) -> (r: bool)
    ensures
        r == (re_valid(pattern@) && re_matches(pattern@, text@)),
{
    match regex::Regex::new(pattern.as_str()) {
        Ok(re) => re.is_match(text.as_str()),
        Err(_) => false,
    }
}

} // verus!
