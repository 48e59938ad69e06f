//! The patterns of a `case` statement: glob patterns (`*`, `?`, `[...]`)
//! as the `glob` crate reads them, and a pattern that it cannot read taken
//! as literal text.
use vstd::prelude::*;

verus! {

#[verifier::external_type_specification]
#[verifier::external_body]
pub struct ExGlobPattern(glob::Pattern);

/// Whether `glob` reads `pattern` as a pattern.
pub uninterp spec fn glob_valid(pattern: Seq<char>) -> bool;

/// Whether the word `word` matches the glob pattern `pattern`, as
/// `glob::Pattern::matches` with the default options answers.
pub uninterp spec fn glob_match(pattern: Seq<char>, word: Seq<char>) -> bool;

/// A compiled `case` pattern, kept with the text it was compiled from.
pub struct GlobPattern {
    text: String,
    compiled: glob::Pattern,
}

impl GlobPattern {
    /// The text the pattern was compiled from.
    pub closed spec fn source(&self) -> Seq<char> {
        self.text@
    }
}

/// `glob::Pattern::new`: the pattern compiled from `pattern`, with that
/// text, or `None` where `glob` refuses the text. The contract claims when
/// each comes, by the name `glob_valid`.
#[verifier::external_body]
fn compile_glob(pattern: &str) -> (r: Option<GlobPattern>)
    ensures
        r is Some <==> glob_valid(pattern@),
        r matches Some(g) ==> g.source() == pattern@,
{
    match glob::Pattern::new(pattern) {
        Ok(compiled) => Some(GlobPattern { text: pattern.to_string(), compiled }),
        Err(_) => None,
    }
}

/// `glob::Pattern::matches` with the default options: whether `word`
/// matches the pattern, by the name `glob_match` of its text.
#[verifier::external_body]
fn glob_matches(p: &GlobPattern, word: &str) -> (r: bool)
    ensures
        r == glob_match(p.source(), word@),
{
    p.compiled.matches(word)
}

/// Whether `word` matches the `case` pattern `pattern`: by `glob`, or, when
/// `glob` cannot read the pattern, when the two are the same text.
pub fn case_pattern_matches(pattern: &str, word: &str) -> (r: bool)
    ensures
        glob_valid(pattern@) ==> r == glob_match(pattern@, word@),
        !glob_valid(pattern@) ==> r == (pattern@ == word@),
{
    match compile_glob(pattern) {
        Some(p) => glob_matches(&p, word),
        None => crate::text::str_eq(pattern, word),
    }
}

} // verus!
