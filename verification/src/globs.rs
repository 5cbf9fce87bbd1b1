//! Glob matching with the `globset` crate.

use vstd::prelude::*;

verus! {

#[verifier::external_type_specification]
#[verifier::external_body]
pub struct ExGlobMatcher(globset::GlobMatcher);

/// A compiled glob and the text it was compiled from.
pub struct GlobPattern {
    matcher: globset::GlobMatcher,
    source: Ghost<Seq<char>>,
}

impl GlobPattern {
    /// The glob text this matcher was compiled from.
    pub closed spec fn source(&self) -> Seq<char> {
        self.source@
    }
}

/// The error text `globset::Glob::new` gives for `glob`, or `None` when the
/// glob is valid.
pub uninterp spec fn glob_error(glob: Seq<char>) -> Option<Seq<char>>;

/// Whether the matcher compiled from `glob` matches `path`
/// (`globset::GlobMatcher::is_match`).
pub uninterp spec fn glob_match(glob: Seq<char>, path: Seq<char>) -> bool;

/// Compiles `glob` with `globset::Glob::new` and `compile_matcher`; the
/// error's text when the glob is invalid. Which globs are valid, and the
/// error text, are named, not stated.
#[verifier::external_body]
pub(crate) fn compile_glob(glob: &str) -> (r: Result<GlobPattern, String>)
    ensures
        match r {
            Ok(m) => glob_error(glob@) is None && m.source() == glob@,
            Err(e) => glob_error(glob@) == Some(e@),
        },
{
    match globset::Glob::new(glob) {
        Ok(g) => Ok(GlobPattern { matcher: g.compile_matcher(), source: Ghost(glob@) }),
        Err(e) => Err(e.to_string()),
    }
}

/// Whether the compiled glob matches `path` (`GlobMatcher::is_match`).
#[verifier::external_body]
pub(crate) fn glob_is_match(m: &GlobPattern, path: &str) -> (r: bool)
    ensures
        r == glob_match(m.source(), path@),
{
    m.matcher.is_match(path)
}

} // verus!
