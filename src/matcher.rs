//! Deciding whether one facet value matches a query needle.

use vstd::prelude::*;

verus! {

/// regex's compiled `Regex`, opaque.
#[verifier::external_type_specification]
#[verifier::external_body]
pub struct ExRegex(regex::Regex);

/// regex's `Error`, carried through unopened.
#[verifier::external_type_specification]
#[verifier::external_body]
pub struct ExRegexError(regex::Error);

/// `needle` occurs in `hay` as a contiguous run of characters.
pub open spec fn occurs_in(needle: Seq<char>, hay: Seq<char>) -> bool {
    exists|i: int|
        0 <= i && i + needle.len() <= hay.len() && #[trigger] hay.subrange(i, i + needle.len())
            == needle
}

/// Whether `regex::Regex::new` accepts `pattern`.
pub uninterp spec fn regex_compiles(pattern: Seq<char>) -> bool;

/// Whether the regex compiled from `pattern` matches somewhere in `hay`.
pub uninterp spec fn regex_finds(pattern: Seq<char>, hay: Seq<char>) -> bool;

/// Relies on `str::contains`: true exactly when `needle` is a sub-slice of `hay`.
#[verifier::external_body]
fn str_contains(hay: &str, needle: &str) -> (r: bool)
    ensures
        r == occurs_in(needle@, hay@),
{
    hay.contains(needle)
}

/// A compiled regular expression together with the pattern it was built from.
/// The fields are private: `compile_regex` is the only way to make one, so
/// `re` is always the compilation of `source`.
pub struct RegexNeedle {
    re: regex::Regex,
    source: String,
}

impl RegexNeedle {
    /// The pattern this regex was compiled from.
    pub closed spec fn source(&self) -> Seq<char> {
        self.source@
    }

    /// Relies on `Regex::is_match`: whether the regex compiled from the
    /// pattern finds a match anywhere in `hay`.
    #[verifier::external_body]
    fn is_match(&self, hay: &str) -> (r: bool)
        ensures
            r == regex_finds(self.source(), hay@),
    {
        self.re.is_match(hay)
    }
}

/// Relies on `Regex::new`: it either compiles `pattern` or reports why not,
/// and which of the two depends on the pattern alone.
#[verifier::external_body]
fn compile_regex(pattern: &str) -> (r: Result<RegexNeedle, regex::Error>)
    ensures
        r is Ok <==> regex_compiles(pattern@),
        r is Ok ==> r->Ok_0.source() == pattern@,
{
    regex::Regex::new(pattern).map(|re| RegexNeedle { re, source: pattern.to_string() })
}

/// A needle given as a regular expression that does not compile.
pub struct PatternError {
    pub pattern: String,
}

/// What a query looks for in a facet value.
pub enum Needle {
    /// Case-sensitive substring containment.
    Literal(String),
    /// Containment match of a regular expression.
    Pattern(RegexNeedle),
}

/// Whether a facet value `value` satisfies the query `(needle, use_regex)`.
pub open spec fn query_accepts(needle: Seq<char>, use_regex: bool, value: Seq<char>) -> bool {
    if use_regex {
        regex_finds(needle, value)
    } else {
        occurs_in(needle, value)
    }
}

impl Needle {
    /// This needle was built for the query `(needle, use_regex)`.
    pub open spec fn is_for(&self, needle: Seq<char>, use_regex: bool) -> bool {
        match self {
            Needle::Literal(s) => !use_regex && s@ == needle,
            Needle::Pattern(p) => use_regex && p.source() == needle,
        }
    }

    /// Whether this needle accepts the facet value `value`.
    pub open spec fn accepts(&self, value: Seq<char>) -> bool {
        match self {
            Needle::Literal(s) => occurs_in(s@, value),
            Needle::Pattern(p) => regex_finds(p.source(), value),
        }
    }

    /// Prepares the query `(needle, use_regex)`; a regex that does not compile
    /// is reported, never treated as matching nothing.
    pub fn new(needle: &str, use_regex: bool) -> (r: Result<Needle, PatternError>)
        ensures
            r is Err <==> use_regex && !regex_compiles(needle@),
            r is Ok ==> r->Ok_0.is_for(needle@, use_regex),
            r is Err ==> r->Err_0.pattern@ == needle@,
    {
        if use_regex {
            match compile_regex(needle) {
                Ok(p) => Ok(Needle::Pattern(p)),
                Err(_) => Err(PatternError { pattern: needle.to_string() }),
            }
        } else {
            Ok(Needle::Literal(needle.to_string()))
        }
    }

    /// Tests one facet value.
    pub fn accepts_value(&self, value: &str) -> (r: bool)
        ensures
            r == self.accepts(value@),
    {
        match self {
            Needle::Literal(s) => str_contains(value, s.as_str()),
            Needle::Pattern(p) => p.is_match(value),
        }
    }
}

} // verus!
