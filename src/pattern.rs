//! Compiled, fully anchored patterns.
//!
//! Pattern compilation and matching are done by the `regex` crate. Its
//! language is not restated here: whether a pattern compiles and whether it
//! matches a text are named results, each a function of its arguments alone.

use vstd::prelude::*;

verus! {

#[verifier::external_type_specification]
#[verifier::external_body]
pub struct ExRegex(regex::Regex);

#[verifier::external_type_specification]
#[verifier::external_body]
pub struct ExRegexError(regex::Error);

/// Whether `regex::Regex::new` accepts `pattern` (a valid pattern within the
/// default size limit).
pub uninterp spec fn regex_compiles(pattern: Seq<char>) -> bool;

/// Whether the regex compiled from `pattern` matches somewhere in `text`.
pub uninterp spec fn regex_is_match(pattern: Seq<char>, text: Seq<char>) -> bool;

/// The pattern `body` as a non-capturing group anchored at both ends, so
/// that it can only match a whole text (a top-level `|` in `body` stays
/// inside the group).
pub open spec fn anchored(body: Seq<char>) -> Seq<char> {
    seq!['^', '(', '?', ':'] + body + seq![')', '$']
}

/// A regular expression together with the source text it was compiled from.
///
/// The fields are private and `compile` is the only place that builds a
/// value, so `reg` is always the compilation of `source`.
pub struct Pattern {
    source: String,
    reg: regex::Regex,
}

impl View for Pattern {
    type V = Seq<char>;

    closed spec fn view(&self) -> Seq<char> {
        self.source@
    }
}

/// Why a pattern was refused.
pub struct PatternError {
    cause: regex::Error,
}

impl PatternError {
    /// What the regex compiler reported.
    pub fn cause(&self) -> &regex::Error {
        &self.cause
    }
}

/// Relies on `regex::Regex::new`: it returns `Ok` exactly for the patterns
/// it accepts, and the compiled regex is kept next to its source.
#[verifier::external_body]
fn compile(source: String) -> (r: Result<Pattern, regex::Error>)
    ensures
        r is Ok <==> regex_compiles(source@),
        r matches Ok(p) ==> p@ == source@,
{
    match regex::Regex::new(&source) {
        Ok(reg) => Ok(Pattern { source, reg }),
        Err(e) => Err(e),
    }
}

/// Relies on `regex::Regex::is_match`: whether the pattern matches anywhere
/// in `text`.
#[verifier::external_body]
fn is_match(p: &Pattern, text: &str) -> (r: bool)
    ensures
        r == regex_is_match(p@, text@),
{
    p.reg.is_match(text)
}

impl Pattern {
    /// Compiles `^(?:body)$`: `body` grouped and anchored at both ends, so
    /// that the pattern matches a text only when `body` matches all of it.
    pub fn new(body: &str) -> (r: Result<Pattern, PatternError>)
        ensures
            r is Ok <==> regex_compiles(anchored(body@)),
            r matches Ok(p) ==> p@ == anchored(body@),
    {
        let mut source = String::from_str("^(?:");
        source.append(body);
        source.append(")$");
        proof {
            reveal_strlit("^(?:");
            reveal_strlit(")$");
            assert(source@ =~= anchored(body@));
        }
        match compile(source) {
            Ok(p) => Ok(p),
            Err(cause) => Err(PatternError { cause }),
        }
    }

    /// Whether the pattern matches `text`; as the pattern is grouped and
    /// anchored, that is whether its body matches all of `text`.
    pub fn matches(&self, text: &str) -> (r: bool)
        ensures
            r == regex_is_match(self@, text@),
    {
        is_match(self, text)
    }

    /// The anchored source text of the pattern.
    pub fn as_str(&self) -> (r: &str)
        ensures
            r@ == self@,
    {
        self.source.as_str()
    }
}

} // verus!
