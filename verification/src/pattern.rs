//! Compiled regular expressions, carried together with the pattern text they
//! were compiled from so that contracts can speak about what they match.
//!
//! The matching itself is done by the `regex` crate; its results are named by
//! uninterpreted spec functions, since spelling out the regular-expression
//! language here would restate the crate without checking it.

use vstd::prelude::*;

verus! {

/// Declares `regex::Regex` to the verifier, so a compiled expression can
/// live in a field; its values stay opaque here.
#[verifier::external_type_specification]
#[verifier::external_body]
pub struct ExRegex(regex::Regex);

/// Whether `regex::Regex::new` accepts `pattern`: the pattern is
/// syntactically valid and within the default size limit. Compilation is a
/// function of the pattern text alone.
pub uninterp spec fn regex_valid(pattern: Seq<char>) -> bool;

/// Whether the regular expression compiled from `pattern` matches anywhere
/// in `text`. Matching is a function of the two texts alone.
pub uninterp spec fn regex_match(pattern: Seq<char>, text: Seq<char>) -> bool;

/// A regular expression compiled once at startup, together with its source
/// text. The fields are private: the only constructor is `Pattern::compile`,
/// so `re` is always the compilation of `source`.
#[derive(Debug)]
pub struct Pattern {
    source: String,
    re: regex::Regex,
}

impl Pattern {
    /// The pattern text this regular expression was compiled from.
    pub closed spec fn pattern(self) -> Seq<char> {
        self.source@
    }

    /// Relies on `regex::Regex::new`: it returns `Ok` exactly on valid
    /// patterns, and the compiled expression is determined by the pattern
    /// text.
    #[verifier::external_body]
    pub fn compile(pattern: &str) -> (r: Option<Pattern>)
        ensures
            r is Some <==> regex_valid(pattern@),
            r is Some ==> r->0.pattern() == pattern@,
    {
        match regex::Regex::new(pattern) {
            Ok(re) => Some(Pattern { source: pattern.to_owned(), re }),
            Err(_) => None,
        }
    }

    /// Relies on `regex::Regex::is_match`: true if and only if the compiled
    /// expression matches anywhere in `text`, a function of the pattern and
    /// the haystack alone.
    #[verifier::external_body]
    pub fn is_match(&self, text: &str) -> (b: bool)
        ensures
            b == regex_match(self.pattern(), text@),
    {
        self.re.is_match(text)
    }
}

} // verus!
