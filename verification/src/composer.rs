//! The composer check: whether a text is a version as PHP composer writes
//! them. The grammar is a regular expression, compiled once and matched by
//! the `regex` crate.

use crate::error::ParseSemVerError;
use regex::Regex;
use vstd::prelude::*;

verus! {

/// `regex::Regex`, a compiled regular expression. Nothing of its inside
/// is known here.
#[verifier::external_type_specification]
#[verifier::external_body]
pub struct ExRegex(regex::Regex);

/// `regex::Error`, the reason why a pattern did not compile.
#[verifier::external_type_specification]
#[verifier::external_body]
pub struct ExRegexError(regex::Error);

/// Whether a pattern compiles: whether `Regex::new` returns an expression
/// for it.
pub uninterp spec fn regex_compiles(pattern: Seq<char>) -> bool;

/// The expression was compiled from its pattern alone, with no option set
/// beside it, as `Regex::new` compiles one.
pub uninterp spec fn regex_is_plain(regex: Regex) -> bool;

/// The pattern that a compiled expression was made from: what
/// `Regex::as_str` returns.
pub uninterp spec fn regex_pattern(regex: Regex) -> Seq<char>;

/// Whether the expression that `Regex::new` compiles from `pattern` matches
/// somewhere in `text`: what `Regex::is_match` answers for it.
pub uninterp spec fn regex_matches(pattern: Seq<char>, text: Seq<char>) -> bool;

/// Compiles a regular expression.
///
/// Calls `Regex::new`, which builds the expression from the pattern with
/// the default options. Whether it succeeds depends on the pattern alone
/// and is named; the expression it returns keeps the pattern it was made
/// from (`Regex::as_str` returns it).
#[verifier::external_body]
fn compile(pattern: &str) -> (r: Result<Regex, regex::Error>)
    ensures
        r is Ok <==> regex_compiles(pattern@),
        r matches Ok(regex) ==> regex_is_plain(regex) && regex_pattern(regex) == pattern@,
{
    Regex::new(pattern)
}

/// Whether `regex` matches somewhere in `text`.
///
/// Calls `Regex::is_match`. It answers from the compiled program, which
/// for an expression compiled by `Regex::new` depends on the pattern alone;
/// so the answer depends on the pattern and the text.
#[verifier::external_body]
fn is_match(regex: &Regex, text: &str) -> (found: bool)
    requires
        regex_is_plain(*regex),
    ensures
        found == regex_matches(regex_pattern(*regex), text@),
{
    regex.is_match(text)
}

/// The composer grammar: an optional `v`, three dot-separated numbers, and
/// an optional dash, suffix marker and number, from the start of the text
/// to its end.
///
/// Known gap: the pattern lets a number follow `dev` (`1.0.0-dev123`),
/// which composer itself does not accept.
pub const COMPOSER_PATTERN: &'static str =
    r"^v?(?P<major>\d+)\.(?P<minor>\d+)\.(?P<patch>\d+)(-(?P<suffix>dev|d|patch|p|alpha|a|beta|b|RC)(?P<suffix_version>\d+)?)?$";

/// A checker of texts against one pattern: by default the composer
/// grammar. The expression is compiled once, when the checker is made.
pub struct ComposerChecker {
    regex: Regex,
}

impl ComposerChecker {
    /// The expression of a checker is always one that `compile` returned.
    #[verifier::type_invariant]
    spec fn regex_is_compiled_plainly(self) -> bool {
        regex_is_plain(self.regex)
    }

    /// The pattern that the checker matches texts against.
    pub closed spec fn pattern(&self) -> Seq<char> {
        regex_pattern(self.regex)
    }

    /// A checker for `pattern`, if it compiles.
    pub fn from_pattern(pattern: &str) -> (r: Result<ComposerChecker, ParseSemVerError>)
        ensures
            match r {
                Ok(checker) => regex_compiles(pattern@) && checker.pattern() == pattern@,
                Err(_) => !regex_compiles(pattern@),
            },
    {
        match compile(pattern) {
            Ok(regex) => Ok(ComposerChecker { regex }),
            Err(_) => Err(ParseSemVerError),
        }
    }

    /// A checker for the composer grammar.
    pub fn new() -> (r: Result<ComposerChecker, ParseSemVerError>)
        ensures
            match r {
                Ok(checker) => regex_compiles(COMPOSER_PATTERN@) && checker.pattern()
                    == COMPOSER_PATTERN@,
                Err(_) => !regex_compiles(COMPOSER_PATTERN@),
            },
    {
        ComposerChecker::from_pattern(COMPOSER_PATTERN)
    }

    /// Whether `version` is written as the checker's pattern demands.
    pub fn is_valid(&self, version: &str) -> (valid: bool)
        ensures
            valid == regex_matches(self.pattern(), version@),
    {
        proof {
            use_type_invariant(self);
        }
        is_match(&self.regex, version)
    }
}

} // verus!
