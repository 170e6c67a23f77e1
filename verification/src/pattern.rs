//! Regular expressions, by the `regex` crate.
use vstd::prelude::*;

verus! {

/// A compiled regular expression of the `regex` crate.
#[verifier::external_type_specification]
#[verifier::external_body]
pub struct ExRegex(regex::Regex);

/// The pattern that `re` was compiled from, if that was done by `Regex::new`,
/// with the settings that the `regex` crate has by default.
pub uninterp spec fn plain_pattern(re: regex::Regex) -> Option<Seq<char>>;

/// What `Regex::new` complains of in `pattern`; `None` where it compiles it.
pub uninterp spec fn pattern_fault(pattern: Seq<char>) -> Option<Seq<char>>;

/// Whether `pattern`, compiled by `Regex::new`, matches somewhere in `s`.
pub uninterp spec fn pattern_finds(pattern: Seq<char>, s: Seq<char>) -> bool;

/// Compile a pattern with `regex::Regex::new`. Which patterns it compiles, and
/// how it complains of the others, is `pattern_fault`.
#[verifier::external_body]
pub(crate) fn compile(pattern: &str) -> (r: Result<regex::Regex, String>)
    ensures
        match r {
            Ok(re) => pattern_fault(pattern@) is None && plain_pattern(re) == Some(pattern@),
            Err(e) => pattern_fault(pattern@) == Some(e@),
        },
{
    regex::Regex::new(pattern).map_err(|e| e.to_string())
}

/// Search `s` with `regex::Regex::is_match`, which is not anchored. What it
/// finds is `pattern_finds`.
#[verifier::external_body]
pub(crate) fn is_match(re: &regex::Regex, s: &str) -> (r: bool)
    requires
        plain_pattern(*re) is Some,
    ensures
        r == pattern_finds(plain_pattern(*re)->0, s@),
{
    re.is_match(s)
}

} // verus!
