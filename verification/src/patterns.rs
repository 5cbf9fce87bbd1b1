//! Regular-expression matching with the `regex` crate.
//!
//! A compiled pattern carries its source text as a ghost value, so that the
//! outcome of a match can be specified over the pattern text and the
//! haystack.

use vstd::prelude::*;

verus! {

#[verifier::external_type_specification]
#[verifier::external_body]
pub struct ExRegex(regex::Regex);

/// A compiled regular expression and the pattern it was compiled from.
pub struct Pattern {
    re: regex::Regex,
    source: Ghost<Seq<char>>,
}

impl Pattern {
    /// The pattern text this expression was compiled from.
    pub closed spec fn source(&self) -> Seq<char> {
        self.source@
    }
}

/// Whether `pattern` is a valid regular expression for `regex::Regex::new`.
pub uninterp spec fn regex_valid(pattern: Seq<char>) -> bool;

/// The capture groups of the leftmost-first match of `pattern` in
/// `haystack`, as `regex::Regex::captures` reports them: `None` when there
/// is no match, otherwise group 0 (the whole match) and each numbered group,
/// `None` for a group that did not take part.
pub uninterp spec fn regex_captures(pattern: Seq<char>, haystack: Seq<char>) -> Option<
    Seq<Option<Seq<char>>>,
>;

/// `haystack` with the leftmost-first match of `pattern` replaced by
/// `replacement` (with `$name` expansion), as `regex::Regex::replace` does;
/// unchanged when there is no match.
pub uninterp spec fn regex_replace_first(
    pattern: Seq<char>,
    haystack: Seq<char>,
    replacement: Seq<char>,
) -> Seq<char>;

/// Whether `pattern` matches somewhere in `haystack` (`regex::Regex::is_match`).
pub uninterp spec fn regex_is_match(pattern: Seq<char>, haystack: Seq<char>) -> bool;

pub open spec fn groups_view(g: Vec<Option<String>>) -> Seq<Option<Seq<char>>> {
    g@.map_values(|o: Option<String>| crate::types::opt_str_view(o))
}

pub open spec fn captures_view(r: Option<Vec<Option<String>>>) -> Option<Seq<Option<Seq<char>>>> {
    match r {
        Some(g) => Some(groups_view(g)),
        None => None,
    }
}

/// Compiles `pattern` with `regex::Regex::new`; `None` when the pattern is
/// not a valid regular expression.
#[verifier::external_body]
pub(crate) fn compile(pattern: &str) -> (r: Option<Pattern>)
    ensures
        r is Some <==> regex_valid(pattern@),
        r matches Some(p) ==> p.source() == pattern@,
{
    match regex::Regex::new(pattern) {
        Ok(re) => Some(Pattern { re, source: Ghost(pattern@) }),
        Err(_) => None,
    }
}

/// Runs `regex::Regex::captures` and copies out the text of each group.
#[verifier::external_body]
pub(crate) fn captures(p: &Pattern, haystack: &str) -> (r: Option<Vec<Option<String>>>)
    ensures
        captures_view(r) == regex_captures(p.source(), haystack@),
{
    p.re.captures(haystack).map(|c| c.iter().map(|m| m.map(|m| m.as_str().to_string())).collect())
}

/// Runs `regex::Regex::replace` (first match only).
#[verifier::external_body]
pub(crate) fn replace_first(p: &Pattern, haystack: &str, replacement: &str) -> (r: String)
    ensures
        r@ == regex_replace_first(p.source(), haystack@, replacement@),
{
    p.re.replace(haystack, replacement).into_owned()
}

/// Runs `regex::Regex::is_match`.
#[verifier::external_body]
pub(crate) fn is_match(p: &Pattern, haystack: &str) -> (r: bool)
    ensures
        r == regex_is_match(p.source(), haystack@),
{
    p.re.is_match(haystack)
}

/// The groups of a match of `pattern` in `haystack`: those `regex` reports
/// when the pattern is valid, none otherwise.
pub open spec fn captures_of(pattern: Seq<char>, haystack: Seq<char>) -> Option<
    Seq<Option<Seq<char>>>,
> {
    if regex_valid(pattern) {
        regex_captures(pattern, haystack)
    } else {
        None
    }
}

/// Compiles `pattern` and captures its match in `haystack`.
pub fn captures_str(pattern: &str, haystack: &str) -> (r: Option<Vec<Option<String>>>)
    ensures
        captures_view(r) == captures_of(pattern@, haystack@),
{
    match compile(pattern) {
        Some(p) => captures(&p, haystack),
        None => None,
    }
}

} // verus!
