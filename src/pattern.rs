//! Search patterns, compiled with the `regex` crate.

use regex::Regex;
use vstd::prelude::*;

verus! {

#[verifier::external_type_specification]
#[verifier::external_body]
pub struct ExRegex(Regex);

/// Whether `regex::Regex::new` accepts the pattern text. This depends on the
/// text alone (the default size limit is fixed).
pub uninterp spec fn regex_compiles(text: Seq<char>) -> bool;

/// Whether the regex compiled from `text` finds a match anywhere in `line`.
pub uninterp spec fn regex_finds(text: Seq<char>, line: Seq<char>) -> bool;

/// A compiled search pattern, together with the text it was compiled from.
///
/// Values are only ever built by `compile_regex` below, so `re` is always the
/// regex compiled from `text`.
pub struct Pattern {
    text: String,
    re: Regex,
}

/// The reason a pattern text was rejected.
pub struct PatternError {
    pub message: String,
}

impl View for Pattern {
    type V = Seq<char>;

    /// A pattern is seen as the text it was compiled from.
    closed spec fn view(&self) -> Seq<char> {
        self.text@
    }
}

/// Relies on `regex::Regex::new`: it succeeds exactly when the text is a valid
/// regular expression within the default size limit; the error is turned into
/// its message (`Display` of `regex::Error`).
#[verifier::external_body]
fn compile_regex(text: &str) -> (r: Result<Pattern, String>)
    ensures
        r is Ok <==> regex_compiles(text@),
        r matches Ok(p) ==> p@ == text@,
{
    match Regex::new(text) {
        Ok(re) => Ok(Pattern { text: text.to_string(), re }),
        Err(e) => Err(e.to_string()),
    }
}

/// Relies on `regex::Regex::is_match`: true exactly when the regex matches
/// somewhere in the line. The regex is the one compiled from the pattern's text.
#[verifier::external_body]
fn regex_is_match(p: &Pattern, line: &str) -> (r: bool)
    ensures
        r == regex_finds(p@, line@),
{
    p.re.is_match(line)
}

impl Pattern {
    /// Compiles a pattern text; fails exactly when the regex engine rejects it.
    pub fn new(text: &str) -> (r: Result<Pattern, PatternError>)
        ensures
            r is Ok <==> regex_compiles(text@),
            r matches Ok(p) ==> p@ == text@,
    {
        match compile_regex(text) {
            Ok(p) => Ok(p),
            Err(message) => Err(PatternError { message }),
        }
    }

    /// Whether the pattern matches somewhere in `line`.
    pub fn is_match(&self, line: &str) -> (r: bool)
        ensures
            r == regex_finds(self@, line@),
    {
        regex_is_match(self, line)
    }
}

} // verus!
