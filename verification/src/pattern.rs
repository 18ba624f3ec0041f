//! Regular expressions, through the `regex` crate.

use vstd::prelude::*;

verus! {

/// What is wrong with a pattern, as `regex::Regex::new` reports it; nothing where it compiles.
pub uninterp spec fn regex_error(pattern: Seq<char>) -> Option<Seq<char>>;

/// Whether a pattern that compiles is found in a text, as `regex::Regex::is_match` decides.
pub uninterp spec fn regex_found(pattern: Seq<char>, text: Seq<char>) -> bool;

/// Calls `regex::Regex::new`: whether a pattern compiles, and the text of the error if not,
/// depend on the pattern alone.
#[verifier::external_body]
fn pattern_error(pattern: &str) -> (r: Option<String>)
    ensures
        match r {
            Some(e) => regex_error(pattern@) == Some(e@),
            None => regex_error(pattern@) is None,
        },
{
    regex::Regex::new(pattern).err().map(|e| e.to_string())
}

/// Calls `regex::Regex::is_match` on a pattern that compiles: the answer depends on the
/// pattern and the text alone.
#[verifier::external_body]
fn found(pattern: &str, text: &str) -> (r: bool)
    requires
        regex_error(pattern@) is None,
    ensures
        r == regex_found(pattern@, text@),
{
    regex::Regex::new(pattern).unwrap().is_match(text)
}

/// The outcome of looking for a pattern: the error of the pattern, or whether there is a text
/// that it is found in.
pub open spec fn search(pattern: Seq<char>, text: Option<Seq<char>>) -> Result<bool, Seq<char>> {
    match regex_error(pattern) {
        Some(e) => Err(e),
        None => match text {
            Some(t) => Ok(regex_found(pattern, t)),
            None => Ok(false),
        },
    }
}

/// Looks for a pattern in a text. A pattern that does not compile is an error even where
/// there is no text.
pub fn matches_text(pattern: &str, text: Option<&String>) -> (r: Result<bool, String>)
    ensures
        match r {
            Ok(b) => search(
                pattern@,
                match text {
                    Some(t) => Some(t@),
                    None => None,
                },
            ) == Ok::<bool, Seq<char>>(b),
            Err(e) => search(
                pattern@,
                match text {
                    Some(t) => Some(t@),
                    None => None,
                },
            ) == Err::<bool, Seq<char>>(e@),
        },
{
    match pattern_error(pattern) {
        Some(e) => Err(e),
        None => match text {
            Some(t) => Ok(found(pattern, t.as_str())),
            None => Ok(false),
        },
    }
}

} // verus!
