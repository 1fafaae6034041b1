//! The version: an optional prefix, three width-preserving numbers and an
//! optional suffix; how a token sequence is read as one, and how one is
//! written.

use crate::decimal::{
    decimal_text, parse_signed, push_decimal, push_padded, push_signed, signed_text, signed_value,
};
use crate::error::ParseSemVerError;
use crate::markers::{SemVerPair, SemVerPrefix, SemVerSuffix};
use crate::month::{month_named, month_number};
use crate::padded::ZeroPaddedInt;
use crate::text::{chars_of, reads_as};
use crate::tokens::{tokenize, tokens_of};
use std::str::FromStr;
use vstd::prelude::*;

verus! {

/// A parsed version.
#[derive(Debug, PartialEq, Eq, Clone, Copy)]
pub struct SemVer {
    pub prefix: Option<SemVerPrefix>,
    pub major: ZeroPaddedInt,
    pub minor: ZeroPaddedInt,
    pub patch: ZeroPaddedInt,
    pub suffix: Option<SemVerPair>,
}

/// The prefix that the first token names, if it names one.
pub open spec fn leading_prefix(tokens: Seq<Seq<char>>) -> Option<SemVerPrefix> {
    if tokens.len() > 0 {
        SemVerPrefix::named(tokens[0])
    } else {
        None
    }
}

/// The tokens without a first token that is a prefix or the word `release`.
pub open spec fn without_lead(tokens: Seq<Seq<char>>) -> Seq<Seq<char>> {
    if tokens.len() > 0 && (SemVerPrefix::named(tokens[0]) is Some || tokens[0] == "release"@) {
        tokens.skip(1)
    } else {
        tokens
    }
}

/// The tokens with a month name in second place replaced by the number of
/// the month. No other place is looked at.
pub open spec fn with_month_number(tokens: Seq<Seq<char>>) -> Seq<Seq<char>> {
    if tokens.len() >= 2 {
        match month_named(tokens[1]) {
            Some(number) => tokens.update(1, decimal_text(number as nat)),
            None => tokens,
        }
    } else {
        tokens
    }
}

/// Two tokens get a `0` as their third.
pub open spec fn with_patch(tokens: Seq<Seq<char>>) -> Seq<Seq<char>> {
    if tokens.len() == 2 {
        tokens.push("0"@)
    } else {
        tokens
    }
}

/// The suffix marker that the fourth token names, if there is a fourth
/// token and it names one.
pub open spec fn suffix_marker(tokens: Seq<Seq<char>>) -> Option<SemVerSuffix> {
    if tokens.len() >= 4 {
        SemVerSuffix::named(tokens[3])
    } else {
        None
    }
}

/// The tokens without a fourth token that is a suffix marker or the
/// letter `v`.
pub open spec fn without_marker(tokens: Seq<Seq<char>>) -> Seq<Seq<char>> {
    if tokens.len() >= 4 && (SemVerSuffix::named(tokens[3]) is Some || tokens[3] == "v"@) {
        tokens.remove(3)
    } else {
        tokens
    }
}

/// The suffix, from the marker found and the tokens left after it. A fourth
/// token left is the suffix number and must be one; a number without a
/// marker gets the default marker.
pub open spec fn suffix_of(marker: Option<SemVerSuffix>, tail: Seq<Seq<char>>) -> Result<
    Option<SemVerPair>,
    ParseSemVerError,
> {
    if tail.len() >= 4 {
        match signed_value(tail[3]) {
            Some(number) => Ok(
                Some(
                    SemVerPair {
                        suffix: match marker {
                            Some(suffix) => suffix,
                            None => SemVerSuffix::P,
                        },
                        version: Some(number),
                    },
                ),
            ),
            None => Err(ParseSemVerError),
        }
    } else {
        match marker {
            Some(suffix) => Ok(Some(SemVerPair { suffix, version: None })),
            None => Ok(None),
        }
    }
}

/// The tokens in the order they are read in: the three numbers first, then
/// a suffix number if there is one, then whatever is left over.
pub open spec fn arranged(tokens: Seq<Seq<char>>) -> Seq<Seq<char>> {
    without_marker(with_patch(with_month_number(without_lead(tokens))))
}

/// The version that a token sequence denotes.
pub open spec fn version_of(tokens: Seq<Seq<char>>) -> Result<SemVer, ParseSemVerError> {
    let rest = without_lead(tokens);
    if rest.len() < 2 {
        Err(ParseSemVerError)
    } else {
        let full = with_patch(with_month_number(rest));
        let tail = arranged(tokens);
        match suffix_of(suffix_marker(full), tail) {
            Err(e) => Err(e),
            Ok(suffix) => match (
                ZeroPaddedInt::parsed(tail[0]),
                ZeroPaddedInt::parsed(tail[1]),
                ZeroPaddedInt::parsed(tail[2]),
            ) {
                (Some(major), Some(minor), Some(patch)) => Ok(
                    SemVer { prefix: leading_prefix(tokens), major, minor, patch, suffix },
                ),
                _ => Err(ParseSemVerError),
            },
        }
    }
}

impl SemVerPair {
    /// A dash, the marker, and the number if there is one.
    pub open spec fn text(self) -> Seq<char> {
        "-"@ + self.suffix.text() + match self.version {
            Some(number) => signed_text(number as int),
            None => Seq::empty(),
        }
    }
}

impl SemVer {
    /// The version is one that its own text is read back as: each number
    /// fills its width, and a suffix number is not negative.
    pub open spec fn reads_back(self) -> bool {
        &&& self.major.fills_width()
        &&& self.minor.fills_width()
        &&& self.patch.fills_width()
        &&& match self.suffix {
            Some(pair) => match pair.version {
                Some(number) => number >= 0,
                None => true,
            },
            None => true,
        }
    }

    /// The version that a string denotes.
    pub open spec fn parsed(s: Seq<char>) -> Result<SemVer, ParseSemVerError> {
        version_of(tokens_of(s))
    }

    /// The canonical text: prefix, the three numbers joined by dots, suffix.
    pub open spec fn text(self) -> Seq<char> {
        (match self.prefix {
            Some(prefix) => prefix.text(),
            None => Seq::empty(),
        }) + self.major.text() + "."@ + self.minor.text() + "."@ + self.patch.text() + (
        match self.suffix {
            Some(pair) => pair.text(),
            None => Seq::empty(),
        })
    }
}

/// Reads a token as a number that keeps its width.
fn number_at(tokens: &Vec<String>, i: usize) -> (r: Option<ZeroPaddedInt>)
    requires
        i < tokens.len(),
    ensures
        r == ZeroPaddedInt::parsed(tokens.deep_view()[i as int]),
{
    match ZeroPaddedInt::from_str(tokens[i].as_str()) {
        Ok(number) => Some(number),
        Err(_) => None,
    }
}

/// Reads the minor number: the number of the month that the token names,
/// or else the token itself.
fn minor_at(tokens: &Vec<String>, i: usize) -> (r: Option<ZeroPaddedInt>)
    requires
        i < tokens.len(),
    ensures
        r == ZeroPaddedInt::parsed(
            match month_named(tokens.deep_view()[i as int]) {
                Some(number) => decimal_text(number as nat),
                None => tokens.deep_view()[i as int],
            },
        ),
{
    match month_number(tokens[i].as_str()) {
        Some(number) => {
            let mut text = String::new();
            push_decimal(&mut text, number);
            assert(text@ =~= decimal_text(number as nat));
            match ZeroPaddedInt::from_str(text.as_str()) {
                Ok(minor) => Some(minor),
                Err(_) => None,
            }
        },
        None => number_at(tokens, i),
    }
}

/// Reads a token sequence as a version.
pub fn classify(tokens: &Vec<String>) -> (r: Result<SemVer, ParseSemVerError>)
    ensures
        r == version_of(tokens.deep_view()),
{
    let n = tokens.len();
    let ghost all = tokens.deep_view();
    if n == 0 {
        return Err(ParseSemVerError);
    }
    assert(all[0] == tokens@[0]@);
    let prefix = match SemVerPrefix::from_str(tokens[0].as_str()) {
        Ok(prefix) => Some(prefix),
        Err(_) => None,
    };
    let lead = prefix.is_some() || reads_as(&chars_of(tokens[0].as_str()), "release");
    let first: usize = if lead {
        1
    } else {
        0
    };
    let ghost rest = without_lead(all);
    assert(rest =~= all.skip(first as int));
    if n - first < 2 {
        return Err(ParseSemVerError);
    }
    let ghost full = with_patch(with_month_number(rest));
    let ghost tail = without_marker(full);
    let major = number_at(tokens, first);
    let minor = minor_at(tokens, first + 1);
    let patch = if n - first == 2 {
        match ZeroPaddedInt::from_str("0") {
            Ok(patch) => Some(patch),
            Err(_) => None,
        }
    } else {
        number_at(tokens, first + 2)
    };
    assert(major == ZeroPaddedInt::parsed(tail[0]));
    assert(minor == ZeroPaddedInt::parsed(tail[1]));
    assert(patch == ZeroPaddedInt::parsed(tail[2]));
    let mut cursor: usize = first + 3;
    let mut marker: Option<SemVerSuffix> = None;
    assert(full.len() == if n - first == 2 {
        3
    } else {
        n - first
    });
    if n > cursor {
        assert(full[3] == tokens@[cursor as int]@);
        assert(full.len() >= 5 ==> full.remove(3)[3] == tokens@[cursor + 1]@);
        match SemVerSuffix::from_str(tokens[cursor].as_str()) {
            Ok(suffix) => {
                marker = Some(suffix);
                cursor = cursor + 1;
            },
            Err(_) => {
                if reads_as(&chars_of(tokens[cursor].as_str()), "v") {
                    cursor = cursor + 1;
                }
            },
        }
    }
    assert(marker == suffix_marker(full));
    assert(tail.len() >= 4 <==> n > cursor);
    let mut number: Option<i32> = None;
    if n > cursor {
        assert(tail[3] == tokens@[cursor as int]@);
        match parse_signed(&chars_of(tokens[cursor].as_str())) {
            Some(value) => {
                number = Some(value);
            },
            None => {
                return Err(ParseSemVerError);
            },
        }
        if marker.is_none() {
            marker = Some(SemVerSuffix::P);
        }
    }
    let suffix = match marker {
        Some(suffix) => Some(SemVerPair { suffix, version: number }),
        None => None,
    };
    assert(Ok::<Option<SemVerPair>, ParseSemVerError>(suffix) == suffix_of(
        suffix_marker(full),
        tail,
    ));
    match (major, minor, patch) {
        (Some(major), Some(minor), Some(patch)) => Ok(
            SemVer { prefix, major, minor, patch, suffix },
        ),
        _ => Err(ParseSemVerError),
    }
}

impl SemVerPair {
    /// Appends the suffix to `out`.
    fn push_to(&self, out: &mut String)
        ensures
            final(out)@ == old(out)@ + self.text(),
    {
        out.append("-");
        out.append(self.suffix.as_str());
        match self.version {
            Some(number) => {
                push_signed(out, number);
            },
            None => {},
        }
        assert(out@ =~= old(out)@ + self.text());
    }
}

impl SemVer {
    /// Writes the version in its canonical text.
    pub fn to_string(&self) -> (r: String)
        ensures
            r@ == self.text(),
    {
        let mut out = String::new();
        match &self.prefix {
            Some(prefix) => {
                out.append(prefix.as_str());
            },
            None => {},
        }
        push_padded(&mut out, self.major.value, self.major.width);
        out.append(".");
        push_padded(&mut out, self.minor.value, self.minor.width);
        out.append(".");
        push_padded(&mut out, self.patch.value, self.patch.width);
        match &self.suffix {
            Some(pair) => {
                pair.push_to(&mut out);
            },
            None => {},
        }
        assert(out@ =~= self.text());
        out
    }

    /// The same version with the major number raised by one.
    pub fn increment_major(self) -> (r: SemVer)
        requires
            self.major.value < u32::MAX,
        ensures
            r == (SemVer {
                major: ZeroPaddedInt {
                    value: (self.major.value + 1) as u32,
                    width: self.major.width,
                },
                ..self
            }),
    {
        SemVer { major: self.major.add(1), ..self }
    }

    /// The same version with the minor number raised by one.
    pub fn increment_minor(self) -> (r: SemVer)
        requires
            self.minor.value < u32::MAX,
        ensures
            r == (SemVer {
                minor: ZeroPaddedInt {
                    value: (self.minor.value + 1) as u32,
                    width: self.minor.width,
                },
                ..self
            }),
    {
        SemVer { minor: self.minor.add(1), ..self }
    }

    /// The same version with the patch number raised by one.
    pub fn increment_patch(self) -> (r: SemVer)
        requires
            self.patch.value < u32::MAX,
        ensures
            r == (SemVer {
                patch: ZeroPaddedInt {
                    value: (self.patch.value + 1) as u32,
                    width: self.patch.width,
                },
                ..self
            }),
    {
        SemVer { patch: self.patch.add(1), ..self }
    }
}

impl FromStr for SemVer {
    type Err = ParseSemVerError;

    /// Parses a version string.
    fn from_str(s: &str) -> (r: Result<SemVer, ParseSemVerError>)
        ensures
            r == SemVer::parsed(s@),
    {
        let tokens = tokenize(s);
        classify(&tokens)
    }
}

} // verus!
