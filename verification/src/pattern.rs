//! Compiled search terms, backed by the `regex` crate.
use vstd::prelude::*;

verus! {

#[verifier::external_type_specification]
#[verifier::external_body]
pub struct ExRegex(regex::Regex);

#[verifier::external_type_specification]
#[verifier::external_body]
pub struct ExRegexError(regex::Error);

/// Whether the regular expression `pattern` matches anywhere in `haystack`,
/// as `regex::Regex::is_match` answers for a regex built from `pattern`.
pub uninterp spec fn regex_finds(pattern: Seq<char>, haystack: Seq<char>) -> bool;

/// Whether `regex::Regex::new` accepts `pattern`: its syntax is valid and
/// the compiled regex fits the crate's default size limits.
pub uninterp spec fn regex_accepts(pattern: Seq<char>) -> bool;

/// A regular expression together with the pattern it was built from.
pub struct CompiledTerm {
    re: regex::Regex,
    source: Ghost<Seq<char>>,
}

impl CompiledTerm {
    /// The pattern this term was built from.
    pub closed spec fn pattern(&self) -> Seq<char> {
        self.source@
    }
}

/// Calls `regex::Regex::new`: it succeeds exactly when `regex_accepts`
/// holds of the pattern, and a term it returns was built from `pattern`.
#[verifier::external_body]
pub fn compile_term(pattern: &str) -> (r: Result<CompiledTerm, regex::Error>)
    ensures
        r is Ok <==> regex_accepts(pattern@),
        r matches Ok(t) ==> t.pattern() == pattern@,
{
    match regex::Regex::new(pattern) {
        Ok(re) => Ok(CompiledTerm { re, source: Ghost(pattern@) }),
        Err(e) => Err(e),
    }
}

/// Calls `regex::Regex::is_match` on the term's regex: the answer is
/// `regex_finds` of the term's pattern and the haystack.
#[verifier::external_body]
pub fn term_matches(term: &CompiledTerm, haystack: &str) -> (b: bool)
    ensures
        b == regex_finds(term.pattern(), haystack@),
{
    term.re.is_match(haystack)
}

} // verus!
