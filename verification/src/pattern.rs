//! Search patterns.
//!
//! Regular-expression compilation and matching are delegated to the
//! `regex` crate; a compiled pattern is kept together with the source
//! text and case flag it was built from, so that contracts can speak of
//! what it matches as a function of that source alone. The fields are
//! private: a `Pattern` only comes out of `Pattern::new`.

use vstd::prelude::*;

verus! {

/// The regex engine's compiled form, opaque to the library.
#[verifier::external_type_specification]
#[verifier::external_body]
pub struct ExRegex(regex::Regex);

/// Whether the regular expression `pattern`, compiled with the given
/// case-insensitivity flag, matches anywhere in `text`. A function of
/// the three arguments alone.
pub uninterp spec fn re_matches(pattern: Seq<char>, ignore_case: bool, text: Seq<char>) -> bool;

/// Whether `pattern` compiles under the given case-insensitivity flag.
/// The flag matters: compilation enforces a size limit on the compiled
/// form, and case-insensitive compilation expands case-folded classes,
/// so one source can compile under one flag and not the other.
pub uninterp spec fn re_valid(pattern: Seq<char>, ignore_case: bool) -> bool;

/// A compiled search pattern and the source it was built from.
pub struct Pattern {
    source: String,
    ignore_case: bool,
    re: regex::Regex,
}

impl Pattern {
    /// The pattern text this value was compiled from.
    pub closed spec fn spec_source(&self) -> Seq<char> {
        self.source@
    }

    /// Whether this value was compiled case-insensitively.
    pub closed spec fn spec_ignore_case(&self) -> bool {
        self.ignore_case
    }

    /// Relies on regex::RegexBuilder::build: whether compilation
    /// succeeds is a function of the pattern source and the case flag.
    #[verifier::external_body]
    pub fn new(source: &str, ignore_case: bool) -> (r: Option<Pattern>)
        ensures
            r is Some <==> re_valid(source@, ignore_case),
            r matches Some(p) ==> p.spec_source() == source@ && p.spec_ignore_case()
                == ignore_case,
    {
        regex::RegexBuilder::new(source).case_insensitive(ignore_case).build().ok().map(
            |re| Pattern { source: source.to_owned(), ignore_case, re },
        )
    }

    /// Relies on regex::Regex::is_match: whether a match exists anywhere
    /// in the text is a function of the pattern source, its case flag
    /// and the text alone.
    #[verifier::external_body]
    pub fn is_match(&self, text: &str) -> (r: bool)
        ensures
            r == re_matches(self.spec_source(), self.spec_ignore_case(), text@),
    {
        self.re.is_match(text)
    }
}

} // verus!
