//! Regular-expression patterns, matched with the `regex` crate.
use vstd::prelude::*;

verus! {

/// `regex::Regex`, held opaquely inside a `Pattern`.
#[verifier::external_type_specification]
#[verifier::external_body]
pub struct ExRegex(regex::Regex);

/// Whether `regex::Regex::new` accepts the pattern (with its default size
/// limit, the answer depends on the pattern alone).
pub uninterp spec fn regex_compiles(pattern: Seq<char>) -> bool;

/// Whether the regex compiled from `pattern` matches somewhere in `text`.
pub uninterp spec fn regex_finds(pattern: Seq<char>, text: Seq<char>) -> bool;

/// Relies on `regex::Regex::new`: it returns a regex exactly when the
/// pattern is valid and within the default size limit.
#[verifier::external_body]
fn compile(pattern: &str) -> (r: Option<regex::Regex>)
    ensures
        r is Some <==> regex_compiles(pattern@),
{
    regex::Regex::new(pattern).ok()
}

/// A compiled pattern together with its source text.
pub struct Pattern {
    source: String,
    regex: regex::Regex,
}

/// Relies on `regex::Regex::is_match`: whether the regex matches anywhere
/// in the text. The regex of a `Pattern` is always the one compiled from
/// its source, as `Pattern::new` is the only way to make one.
#[verifier::external_body]
fn find(pattern: &Pattern, text: &str) -> (r: bool)
    ensures
        r == regex_finds(pattern.source@, text@),
{
    pattern.regex.is_match(text)
}

impl Pattern {
    /// The source text of the pattern.
    pub closed spec fn source(&self) -> Seq<char> {
        self.source@
    }

    /// Compiles `p`; `None` when the pattern is not a valid regex.
    pub fn new(p: &str) -> (r: Option<Pattern>)
        ensures
            r is Some <==> regex_compiles(p@),
            r matches Some(x) ==> x.source() == p@,
    {
        match compile(p) {
            Some(regex) => Some(Pattern { source: p.to_owned(), regex }),
            None => None,
        }
    }

    /// Whether the pattern matches somewhere in `text`.
    pub fn is_match(&self, text: &str) -> (r: bool)
        ensures
            r == regex_finds(self.source(), text@),
    {
        find(self, text)
    }
}

/// `text` matches the pattern `p`, which is a valid regex.
pub open spec fn pattern_hits(p: Seq<char>, text: Seq<char>) -> bool {
    regex_compiles(p) && regex_finds(p, text)
}

/// Whether `text` matches `p`; an invalid pattern matches nothing.
pub fn matches_pattern(p: &str, text: &str) -> (r: bool)
    ensures
        r == pattern_hits(p@, text@),
{
    match Pattern::new(p) {
        Some(pat) => pat.is_match(text),
        None => false,
    }
}

} // verus!
