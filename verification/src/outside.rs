//! Calls into the `regex` crate whose results are named, not restated.
use vstd::prelude::*;

verus! {

/// What `regex::Regex::new(pattern)` followed by `Regex::replace(text, replacement)`
/// yields: `None` when the pattern does not compile, otherwise the text with
/// its first match replaced.
pub uninterp spec fn regex_replace_first_of(
    pattern: Seq<char>,
    text: Seq<char>,
    replacement: Seq<char>,
) -> Option<Seq<char>>;

/// What `regex::Regex::new(pattern)` followed by `Regex::replace_all(text,
/// replacement)` yields: `None` when the pattern does not compile, otherwise
/// the text with every non-overlapping match replaced.
pub uninterp spec fn regex_replace_all_of(
    pattern: Seq<char>,
    text: Seq<char>,
    replacement: Seq<char>,
) -> Option<Seq<char>>;

/// What `regex::Regex::new(pattern)` followed by `Regex::captures(text)` yields:
/// `None` when the pattern does not compile; otherwise `None` inside when
/// nothing matches, or the groups of the first match (group 0 is the whole
/// match; a group that did not take part is `None`).
pub uninterp spec fn regex_captures_of(pattern: Seq<char>, text: Seq<char>) -> Option<
    Option<Seq<Option<Seq<char>>>>,
>;

/// The characters held, if any.
pub open spec fn opt_chars(o: Option<Vec<char>>) -> Option<Seq<char>> {
    match o {
        Some(v) => Some(v@),
        None => None,
    }
}

/// The groups of a match, as characters.
pub open spec fn groups_view(g: Vec<Option<Vec<char>>>) -> Seq<Option<Seq<char>>> {
    g@.map_values(|m: Option<Vec<char>>| opt_chars(m))
}

/// The result of a capture, as characters.
pub open spec fn captures_view(r: Option<Option<Vec<Option<Vec<char>>>>>) -> Option<
    Option<Seq<Option<Seq<char>>>>,
> {
    match r {
        None => None,
        Some(None) => Some(None),
        Some(Some(g)) => Some(Some(groups_view(g))),
    }
}

/// Calls `regex::Regex::new` and `Regex::replace`; the contract claims only
/// that the result is the name `regex_replace_first_of` of its arguments.
#[verifier::external_body]
pub(crate) fn regex_replace_first(pattern: &str, text: &[char], replacement: &str) -> (r: Option<
    Vec<char>,
>)
    ensures
        opt_chars(r) == regex_replace_first_of(pattern@, text@, replacement@),
{
    let haystack: String = text.iter().collect();
    match regex::Regex::new(pattern) {
        Ok(re) => Some(re.replace(&haystack, replacement).chars().collect()),
        Err(_) => None,
    }
}

/// Calls `regex::Regex::new` and `Regex::replace_all`; the contract claims
/// only that the result is the name `regex_replace_all_of` of its arguments.
#[verifier::external_body]
pub(crate) fn regex_replace_all(pattern: &str, text: &[char], replacement: &str) -> (r: Option<Vec<char>>)
    ensures
        opt_chars(r) == regex_replace_all_of(pattern@, text@, replacement@),
{
    let haystack: String = text.iter().collect();
    match regex::Regex::new(pattern) {
        Ok(re) => Some(re.replace_all(&haystack, replacement).chars().collect()),
        Err(_) => None,
    }
}

/// Calls `regex::Regex::new` and `Regex::captures`; the contract claims only
/// that the result is the name `regex_captures_of` of its arguments.
#[verifier::external_body]
pub(crate) fn regex_captures(pattern: &str, text: &[char]) -> (r: Option<Option<Vec<Option<Vec<char>>>>>)
    ensures
        captures_view(r) == regex_captures_of(pattern@, text@),
{
    let haystack: String = text.iter().collect();
    match regex::Regex::new(pattern) {
        Ok(re) => Some(re.captures(&haystack).map(|caps| caps.iter().map(|m| m.map(|m| m.as_str().chars().collect())).collect())),
        Err(_) => None,
    }
}

} // verus!
