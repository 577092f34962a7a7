//! Case-insensitive regular expressions, compiled and run by the `regex` crate.
use vstd::prelude::*;

verus! {

#[verifier::external_type_specification]
#[verifier::external_body]
pub struct ExRegex(regex::Regex);

#[verifier::external_type_specification]
#[verifier::external_body]
pub struct ExRegexError(regex::Error);

/// Whether the `regex` crate accepts `pattern` (built case-insensitively, with its
/// default limits).
pub uninterp spec fn pattern_compiles(pattern: Seq<char>) -> bool;

/// Whether the case-insensitive matcher of `pattern` finds a match anywhere in `text`.
pub uninterp spec fn pattern_matches(pattern: Seq<char>, text: Seq<char>) -> bool;

/// A compiled case-insensitive pattern, together with the text it was compiled from.
pub struct CaseInsensitivePattern {
    re: regex::Regex,
    source: Ghost<Seq<char>>,
}

impl CaseInsensitivePattern {
    /// The pattern text this matcher was compiled from.
    pub closed spec fn source(&self) -> Seq<char> {
        self.source@
    }
}

/// The pattern was refused by the regular expression compiler.
#[derive(Clone, Copy, PartialEq, Eq, Debug)]
pub struct InvalidPattern;

/// Calls `regex::RegexBuilder::new(pattern).case_insensitive(true).build()`.
/// Claims: it succeeds exactly when `pattern_compiles(pattern)`, and the matcher it
/// returns is the one for `pattern`.
#[verifier::external_body]
fn build_case_insensitive(pattern: &str) -> (res: Result<CaseInsensitivePattern, regex::Error>)
    ensures
        res is Ok <==> pattern_compiles(pattern@),
        res matches Ok(p) ==> p.source() == pattern@,
{
    match regex::RegexBuilder::new(pattern).case_insensitive(true).build() {
        Ok(re) => Ok(CaseInsensitivePattern { re, source: Ghost(pattern@) }),
        Err(e) => Err(e),
    }
}

/// Calls `regex::Regex::is_match`. Claims: the answer is `pattern_matches` of the
/// matcher's pattern and the text.
#[verifier::external_body]
pub(crate) fn is_match(p: &CaseInsensitivePattern, text: &str) -> (res: bool)
    ensures
        res == pattern_matches(p.source(), text@),
{
    p.re.is_match(text)
}

/// Compile `pattern` case-insensitively.
pub fn compile(pattern: &str) -> (res: Result<CaseInsensitivePattern, InvalidPattern>)
    ensures
        res is Ok <==> pattern_compiles(pattern@),
        res matches Ok(p) ==> p.source() == pattern@,
{
    match build_case_insensitive(pattern) {
        Ok(p) => Ok(p),
        Err(_) => Err(InvalidPattern),
    }
}

} // verus!
