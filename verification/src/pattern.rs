//! Regular expressions (the `regex` crate) as used to target text on screen.

use vstd::prelude::*;

verus! {

#[verifier::external_type_specification]
#[verifier::external_body]
pub struct ExRegex(regex::Regex);

/// A compiled regular expression together with the pattern it came from.
#[derive(Debug)]
pub struct Pattern {
    source: String,
    re: regex::Regex,
}

impl Pattern {
    /// The pattern this regular expression was compiled from.
    pub closed spec fn source(&self) -> Seq<char> {
        self.source@
    }
}

/// Whether `regex::Regex::new` accepts `pattern`.
pub uninterp spec fn regex_compiles(pattern: Seq<char>) -> bool;

/// The `(start, end)` byte spans that `regex::Regex::find_iter` yields for
/// `pattern` over `haystack`: the successive non-overlapping matches.
pub uninterp spec fn regex_match_spans(pattern: Seq<char>, haystack: Seq<char>) -> Seq<(usize, usize)>;

/// The text (`Display`) of the `regex::Error` that `regex::Regex::new`
/// gives for a pattern it rejects: the reason, as the crate words it.
pub uninterp spec fn regex_rejection(pattern: Seq<char>) -> Seq<char>;

/// `regex::Regex::new`: succeeds exactly on the patterns that `regex_compiles`
/// names, and the compiled value keeps a copy of its pattern; a rejection is
/// handed back as the error's text, `regex_rejection` of the pattern.
#[verifier::external_body]
pub(crate) fn compile_pattern(pattern: &str) -> (r: Result<Pattern, String>)
    ensures
        (r is Ok) == regex_compiles(pattern@),
        r matches Ok(p) ==> p.source() == pattern@,
        r is Err ==> r->Err_0@ == regex_rejection(pattern@),
{
    regex::Regex::new(pattern).map(|re| Pattern { source: pattern.to_string(), re }).map_err(|e| e.to_string())
}

/// `regex::Regex::find_iter`, each match taken as its byte span; the contract
/// claims only that the spans are `regex_match_spans` of the pattern and the
/// haystack (the regex semantics are not restated).
#[verifier::external_body]
pub(crate) fn match_spans(p: &Pattern, haystack: &str) -> (r: Vec<(usize, usize)>)
    ensures
        r@ == regex_match_spans(p.source(), haystack@),
{
    p.re.find_iter(haystack).map(|m| (m.start(), m.end())).collect()
}

/// Whether `regex::Regex::is_match` finds a match of `pattern` anywhere in
/// `haystack`.
pub uninterp spec fn regex_is_match(pattern: Seq<char>, haystack: Seq<char>) -> bool;

/// `regex::Regex::is_match`; the contract claims only that the answer is
/// `regex_is_match` of the pattern and the haystack.
#[verifier::external_body]
pub(crate) fn is_match(p: &Pattern, haystack: &str) -> (r: bool)
    ensures
        r == regex_is_match(p.source(), haystack@),
{
    p.re.is_match(haystack)
}

} // verus!
