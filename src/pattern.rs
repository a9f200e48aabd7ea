//! Regular expressions, compiled and matched by the regex crate.
use vstd::prelude::*;

verus! {

#[verifier::external_type_specification]
#[verifier::external_body]
pub struct ExRegex(regex::Regex);

#[verifier::external_type_specification]
#[verifier::external_body]
pub struct ExRegexError(regex::Error);

/// Whether `pattern` compiles with the regex crate's default options.
pub uninterp spec fn regex_compiles(pattern: Seq<char>) -> bool;

/// Whether the regex compiled from `pattern` matches anywhere in `text`.
pub uninterp spec fn regex_finds(pattern: Seq<char>, text: Seq<char>) -> bool;

/// A compiled regex together with the pattern it was compiled from.
pub struct Pattern {
    source: String,
    compiled: regex::Regex,
}

impl Pattern {
    /// The pattern this regex was compiled from.
    pub closed spec fn source(&self) -> Seq<char> {
        self.source@
    }

    /// Relies on regex::Regex::new: it fails on a pattern that does not
    /// compile (bad syntax, or over the default size limit), which depends on
    /// the pattern alone.
    #[verifier::external_body]
    pub(crate) fn compile(pattern: &str) -> (r: Result<Pattern, regex::Error>)
        ensures
            r is Ok <==> regex_compiles(pattern@),
            r matches Ok(p) ==> p.source() == pattern@,
    {
        match regex::Regex::new(pattern) {
            Ok(compiled) => Ok(Pattern { source: pattern.to_owned(), compiled }),
            Err(e) => Err(e),
        }
    }

    /// Relies on regex::Regex::is_match: whether the regex matches anywhere
    /// in `text`.
    #[verifier::external_body]
    pub(crate) fn is_match(&self, text: &str) -> (r: bool)
        ensures
            r == regex_finds(self.source(), text@),
    {
        self.compiled.is_match(text)
    }

    /// The pattern this regex was compiled from.
    pub fn as_str(&self) -> (r: &str)
        ensures
            r@ == self.source(),
    {
        self.source.as_str()
    }
}

} // verus!
