//! Optional name patterns: a file name must match the include pattern, and
//! must not match the exclude pattern, to survive discovery.

use vstd::prelude::*;

verus! {

#[verifier::external_type_specification]
#[verifier::external_body]
pub struct ExRegex(regex::Regex);

#[verifier::external_type_specification]
#[verifier::external_body]
pub struct ExRegexError(regex::Error);

/// Whether the regular expression written `pattern` matches anywhere in
/// `text`.
pub uninterp spec fn regex_match(pattern: Seq<char>, text: Seq<char>) -> bool;

/// A compiled name pattern, kept together with the text it was compiled
/// from.
pub struct NamePattern {
    re: regex::Regex,
    pattern: String,
}

impl NamePattern {
    /// The pattern text this matcher was compiled from.
    pub closed spec fn pattern(self) -> Seq<char> {
        self.pattern@
    }

    /// Relies on regex's `Regex::new`: on success the matcher is compiled
    /// from exactly the given pattern text. An invalid pattern, or one
    /// whose compiled form exceeds the crate's default size limit, is
    /// answered with the crate's error.
    #[verifier::external_body]
    pub fn new(pattern: &str) -> (r: Result<NamePattern, regex::Error>)
        ensures
            r matches Ok(p) ==> p.pattern() == pattern@,
    {
        match regex::Regex::new(pattern) {
            Ok(re) => Ok(NamePattern { re, pattern: pattern.to_owned() }),
            Err(e) => Err(e),
        }
    }

    /// Relies on regex's `Regex::is_match`: true exactly when the pattern
    /// matches somewhere in `text`, a function of the pattern text and the
    /// haystack alone.
    #[verifier::external_body]
    pub(crate) fn is_match(&self, text: &str) -> (r: bool)
        ensures
            r == regex_match(self.pattern(), text@),
    {
        self.re.is_match(text)
    }
}

} // verus!
