//! Regular-expression replacement, done by the `regex` crate.
use vstd::prelude::*;

verus! {

/// What `regex::Regex::new(pattern)` followed by `replace_all(text, replacement)` gives:
/// `None` when the pattern does not compile, else the text with every non-overlapping
/// match replaced (`$1` and the like in `replacement` stand for capture groups).
pub uninterp spec fn regex_replace_all(pattern: Seq<char>, text: Seq<char>, replacement: Seq<char>) -> Option<Seq<char>>;

/// Compiles `pattern` with `regex::Regex::new` and applies `Regex::replace_all` to
/// `text`. The contract only names the result: the regex semantics are not restated.
#[verifier::external_body]
pub(crate) fn replace_all_matches(pattern: &str, text: &str, replacement: &str) -> (r: Option<String>)
    ensures
        match r {
            Some(s) => regex_replace_all(pattern@, text@, replacement@) == Some(s@),
            None => regex_replace_all(pattern@, text@, replacement@) is None,
        },
{
    match regex::Regex::new(pattern) {
        Ok(re) => Some(re.replace_all(text, replacement).into_owned()),
        Err(_) => None,
    }
}

/// `text` with the replacement applied, or `text` itself when the pattern does not
/// compile.
pub open spec fn replaced_or_same(pattern: Seq<char>, text: Seq<char>, replacement: Seq<char>) -> Seq<char> {
    match regex_replace_all(pattern, text, replacement) {
        Some(s) => s,
        None => text,
    }
}

/// Replaces every match of `pattern` in `text`; leaves `text` as it is when the pattern
/// does not compile.
pub fn replace_all_or_keep(pattern: &str, text: String, replacement: &str) -> (r: String)
    ensures
        r@ == replaced_or_same(pattern@, text@, replacement@),
{
    match replace_all_matches(pattern, text.as_str(), replacement) {
        Some(s) => s,
        None => text,
    }
}

} // verus!
