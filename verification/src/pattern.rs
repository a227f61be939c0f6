use vstd::prelude::*;

verus! {

/// `regex::Regex`, a compiled pattern. Nothing is known of what is inside.
#[verifier::external_type_specification]
#[verifier::external_body]
pub struct ExRegex(regex::Regex);

/// `regex::Error`, what went wrong with a pattern. Nothing is known of what
/// is inside.
#[verifier::external_type_specification]
#[verifier::external_body]
pub struct ExRegexError(regex::Error);

/// The compiled form of a pattern; `None` for a pattern that does not compile.
pub uninterp spec fn compiled(pattern: Seq<char>) -> Option<regex::Regex>;

/// Whether a compiled pattern matches somewhere in a text.
pub uninterp spec fn matches_in(re: regex::Regex, text: Seq<char>) -> bool;

/// What the first capture group holds in the leftmost match of a compiled
/// pattern in a text; `None` without a match, or where the group took no part
/// in it.
pub uninterp spec fn first_group(re: regex::Regex, text: Seq<char>) -> Option<Seq<char>>;

/// `Regex::new`: the pattern compiled, or the error for one that is not valid
/// or grows too large.
#[verifier::external_body]
pub(crate) fn compile(pattern: &str) -> (r: Result<regex::Regex, regex::Error>)
    ensures
        r.ok() == compiled(pattern@),
{
    regex::Regex::new(pattern)
}

/// `Regex::is_match`.
#[verifier::external_body]
pub(crate) fn is_match(re: &regex::Regex, text: &str) -> (r: bool)
    ensures
        r == matches_in(*re, text@),
{
    re.is_match(text)
}

/// `Regex::captures`, then `Captures::get` with index 1: the text of the first
/// group in the leftmost match.
#[verifier::external_body]
pub(crate) fn capture_first_group(re: &regex::Regex, text: &str) -> (r: Option<String>)
    ensures
        match r {
            Some(s) => first_group(*re, text@) == Some(s@),
            None => first_group(*re, text@) is None,
        },
{
    match re.captures(text) {
        Some(groups) => match groups.get(1) {
            Some(m) => Some(m.as_str().to_string()),
            None => None,
        },
        None => None,
    }
}

} // verus!
