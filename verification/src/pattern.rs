//! Regular expressions, compiled and run by the `regex` crate.
//!
//! What a regular expression matches is not written out here: each query
//! below is given a name, and the contracts of the library speak of those
//! names applied to the pattern's source text and the haystack.

use vstd::prelude::*;

verus! {

#[verifier::external_type_specification]
#[verifier::external_body]
pub struct ExRegex(regex::Regex);

#[verifier::external_type_specification]
#[verifier::external_body]
pub struct ExRegexError(regex::Error);

/// `regex::Regex::new(pattern)` succeeds.
pub uninterp spec fn regex_compiles(pattern: Seq<char>) -> bool;

/// `Regex::is_match(hay)` of the regex compiled from `pattern`.
pub uninterp spec fn regex_is_match(pattern: Seq<char>, hay: Seq<char>) -> bool;

/// The text of `Regex::find(hay)` of the regex compiled from `pattern`.
pub uninterp spec fn regex_find(pattern: Seq<char>, hay: Seq<char>) -> Option<Seq<char>>;

/// The text of capture group `group` in `Regex::captures(hay)` of the regex
/// compiled from `pattern`; `None` without a match or where the group took
/// no part in it.
pub uninterp spec fn regex_capture(pattern: Seq<char>, hay: Seq<char>, group: nat) -> Option<
    Seq<char>,
>;

/// `Regex::replace_all(hay, rep)` of the regex compiled from `pattern`.
pub uninterp spec fn regex_replace_all(pattern: Seq<char>, hay: Seq<char>, rep: Seq<char>) -> Seq<
    char,
>;

/// A compiled regular expression together with its source text. Only
/// `Pattern::compile` makes one, so `compiled` is always what
/// `Regex::new(source)` gave.
pub struct Pattern {
    source: String,
    compiled: regex::Regex,
}

impl View for Pattern {
    type V = Seq<char>;

    /// The source text of the pattern.
    closed spec fn view(&self) -> Seq<char> {
        self.source@
    }
}

impl Pattern {
    /// `regex::Regex::new(source)`: `Ok` exactly where the regex crate accepts
    /// the pattern.
    #[verifier::external_body]
    pub(crate) fn compile(source: &str) -> (r: Result<Pattern, regex::Error>)
        ensures
            r is Ok <==> regex_compiles(source@),
            r matches Ok(p) ==> p@ == source@,
    {
        regex::Regex::new(source).map(|compiled| Pattern { source: source.to_string(), compiled })
    }

    /// `Regex::is_match`.
    #[verifier::external_body]
    pub(crate) fn is_match(&self, hay: &str) -> (r: bool)
        ensures
            r == regex_is_match(self@, hay@),
    {
        self.compiled.is_match(hay)
    }

    /// `Regex::find`, the matched text.
    #[verifier::external_body]
    pub(crate) fn find_text(&self, hay: &str) -> (r: Option<String>)
        ensures
            r matches Some(t) ==> regex_find(self@, hay@) == Some(t@),
            r is None <==> regex_find(self@, hay@) is None,
    {
        self.compiled.find(hay).map(|m| m.as_str().to_string())
    }

    /// `Regex::captures`, the text of one capture group.
    #[verifier::external_body]
    pub(crate) fn capture_text(&self, hay: &str, group: usize) -> (r: Option<String>)
        ensures
            r matches Some(t) ==> regex_capture(self@, hay@, group as nat) == Some(t@),
            r is None <==> regex_capture(self@, hay@, group as nat) is None,
    {
        self.compiled.captures(hay).and_then(|c| c.get(group)).map(|m| m.as_str().to_string())
    }

    /// `Regex::replace_all`.
    #[verifier::external_body]
    pub(crate) fn replace_all(&self, hay: &str, rep: &str) -> (r: String)
        ensures
            r@ == regex_replace_all(self@, hay@, rep@),
    {
        self.compiled.replace_all(hay, rep).into_owned()
    }
}

} // verus!
