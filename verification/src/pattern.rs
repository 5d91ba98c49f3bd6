//! Regular expressions, as the `regex` crate compiles and runs them.

use vstd::prelude::*;

verus! {

/// The error of `Regex::new`, carried through as it is.
#[verifier::external_type_specification]
#[verifier::external_body]
pub struct ExRegexError(regex::Error);

/// Whether `Regex::new` accepts `pattern`.
pub uninterp spec fn regex_compiles(pattern: Seq<char>) -> bool;

/// Whether the expression compiled from `pattern` matches somewhere in `text`,
/// as `Regex::is_match` reports it.
pub uninterp spec fn regex_matches(pattern: Seq<char>, text: Seq<char>) -> bool;

/// The text of capture group 1 in the leftmost match of the expression
/// compiled from `pattern` in `text`, as `Regex::captures` finds it; `None`
/// without a match, or where group 1 took no part in it.
pub uninterp spec fn regex_first_group(pattern: Seq<char>, text: Seq<char>) -> Option<Seq<char>>;

/// Compiles `pattern` with `Regex::new` and asks `Regex::is_match` about
/// `text`. The contract claims that both depend on their arguments alone: an
/// error comes exactly where the pattern does not compile, and the answer is
/// the one that the crate gives for this pattern and text.
#[verifier::external_body]
pub(crate) fn pattern_is_match(pattern: &str, text: &str) -> (r: Result<bool, regex::Error>)
    ensures
        r is Ok == regex_compiles(pattern@),
        r matches Ok(b) ==> b == regex_matches(pattern@, text@),
{
    match regex::Regex::new(pattern) {
        Ok(re) => Ok(re.is_match(text)),
        Err(e) => Err(e),
    }
}

/// Compiles `pattern` with `Regex::new`, runs `Regex::captures` on `text` and
/// copies out what group 1 matched. The contract claims that the outcome
/// depends on the arguments alone.
#[verifier::external_body]
pub(crate) fn pattern_first_group(pattern: &str, text: &str) -> (r: Result<
    Option<String>,
    regex::Error,
>)
    ensures
        r is Ok == regex_compiles(pattern@),
        r matches Ok(g) ==> (g is Some == regex_first_group(pattern@, text@) is Some),
        r matches Ok(Some(g)) ==> regex_first_group(pattern@, text@) == Some(g@),
{
    match regex::Regex::new(pattern) {
        Ok(re) => match re.captures(text) {
            Some(found) => match found.get(1) {
                Some(group) => Ok(Some(group.as_str().to_string())),
                None => Ok(None),
            },
            None => Ok(None),
        },
        Err(e) => Err(e),
    }
}

} // verus!
