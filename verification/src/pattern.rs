//! Patterns over text: regular expressions that are searched for anywhere in
//! a text, never held against the whole of it.

use regex::Regex;
use vstd::prelude::*;

verus! {

/// `regex::Regex`, a compiled regular expression. Nothing is known of what
/// is inside; a value of it is only carried and handed back to the crate.
#[verifier::external_type_specification]
#[verifier::external_body]
pub struct ExRegex(regex::Regex);

/// `regex::Error`, the reason why `regex::Regex::new` refused a pattern.
/// Nothing is known of what is inside.
#[verifier::external_type_specification]
#[verifier::external_body]
pub struct ExRegexError(regex::Error);

/// Whether the regular expression written as `pattern` has a match somewhere
/// in `text`. It stands for the answer of the `regex` crate's search; what a
/// pattern means is that crate's business.
pub uninterp spec fn pattern_matches(pattern: Seq<char>, text: Seq<char>) -> bool;

/// A compiled pattern. Its view is the text it was compiled from.
#[derive(Debug)]
pub struct Pattern {
    source: String,
    regex: Regex,
}

impl View for Pattern {
    type V = Seq<char>;

    closed spec fn view(&self) -> Seq<char> {
        self.source@
    }
}

/// Why a pattern could not be used.
#[derive(Debug)]
pub enum PatternError {
    /// The text is no regular expression, or one too large to compile.
    Invalid(regex::Error),
}

/// `regex::Regex::new` on `pattern`, the compiled expression kept beside the
/// text it came from. Nothing is promised about which texts compile. Not
/// proved: that the value handed back carries `pattern` as its source.
#[verifier::external_body]
fn compile(pattern: &str) -> (r: Result<Pattern, regex::Error>)
    ensures
        r matches Ok(p) ==> p@ == pattern@,
{
    Regex::new(pattern).map(|regex| Pattern { source: pattern.to_owned(), regex })
}

/// `regex::Regex::is_match` of the compiled expression on `text`: true if and
/// only if the expression matches somewhere in `text`. Not proved: that the
/// answer is the one `pattern_matches` names for the pattern's source.
#[verifier::external_body]
fn search(pattern: &Pattern, text: &str) -> (found: bool)
    ensures
        found == pattern_matches(pattern@, text@),
{
    pattern.regex.is_match(text)
}

impl Pattern {
    /// What `new` makes of the compiler's answer: a compiled pattern is
    /// handed on as it is, a refusal becomes `PatternError::Invalid`.
    pub fn from_compiled(compiled: Result<Pattern, regex::Error>) -> (r: Result<
        Pattern,
        PatternError,
    >)
        ensures
            compiled matches Ok(p) ==> r == Ok::<Pattern, PatternError>(p),
            compiled matches Err(e) ==> r == Err::<Pattern, PatternError>(PatternError::Invalid(e)),
    {
        match compiled {
            Ok(p) => Ok(p),
            Err(e) => Err(PatternError::Invalid(e)),
        }
    }

    /// Compiles `pattern`. Whether a text compiles is decided by the regular
    /// expression compiler; a pattern that comes back was compiled from
    /// exactly `pattern`.
    pub fn new(pattern: &str) -> (r: Result<Pattern, PatternError>)
        ensures
            r matches Ok(p) ==> p@ == pattern@,
    {
        Pattern::from_compiled(compile(pattern))
    }

    /// The text this pattern was compiled from.
    pub fn as_str(&self) -> (s: &str)
        ensures
            s@ == self@,
    {
        self.source.as_str()
    }

    /// Whether the pattern matches somewhere in `text`.
    pub fn is_match(&self, text: &str) -> (found: bool)
        ensures
            found == pattern_matches(self@, text@),
    {
        search(self, text)
    }
}

} // verus!
