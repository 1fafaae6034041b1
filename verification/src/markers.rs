//! The closed vocabularies of a version: the prefix marker and the suffix
//! markers, each read without regard to ASCII case and written in one
//! canonical spelling.

use crate::error::ParseSemVerError;
use crate::text::{ascii_lowercase, chars_of, reads_as, to_ascii_lowercase};
use std::str::FromStr;
use vstd::prelude::*;

verus! {

/// The marker that may stand before a version.
#[derive(Debug, PartialEq, Eq, Clone, Copy)]
pub enum SemVerPrefix {
    V,
}

/// The qualifier that may follow a version.
#[derive(Debug, PartialEq, Eq, Clone, Copy)]
pub enum SemVerSuffix {
    Dev,
    Patch,
    P,
    Alpha,
    A,
    Beta,
    B,
    RC,
}

/// A suffix marker with the number that may follow it.
#[derive(Debug, PartialEq, Eq, Clone, Copy)]
pub struct SemVerPair {
    pub suffix: SemVerSuffix,
    pub version: Option<i32>,
}

impl SemVerPrefix {
    /// The prefix that `s` names, in any mix of ASCII upper and lower case.
    pub open spec fn named(s: Seq<char>) -> Option<SemVerPrefix> {
        if ascii_lowercase(s) == "v"@ {
            Some(SemVerPrefix::V)
        } else {
            None
        }
    }

    /// The canonical spelling.
    pub open spec fn text(self) -> Seq<char> {
        "v"@
    }

    /// Writes the marker in its canonical spelling.
    pub fn as_str(&self) -> (r: &'static str)
        ensures
            r@ == self.text(),
    {
        "v"
    }

    /// Writes the marker in its canonical spelling.
    pub fn to_string(&self) -> (r: String)
        ensures
            r@ == self.text(),
    {
        self.as_str().to_owned()
    }
}

impl SemVerSuffix {
    /// The suffix that `s` names, in any mix of ASCII upper and lower case.
    pub open spec fn named(s: Seq<char>) -> Option<SemVerSuffix> {
        let word = ascii_lowercase(s);
        if word == "dev"@ {
            Some(SemVerSuffix::Dev)
        } else if word == "patch"@ {
            Some(SemVerSuffix::Patch)
        } else if word == "p"@ {
            Some(SemVerSuffix::P)
        } else if word == "alpha"@ {
            Some(SemVerSuffix::Alpha)
        } else if word == "a"@ {
            Some(SemVerSuffix::A)
        } else if word == "beta"@ {
            Some(SemVerSuffix::Beta)
        } else if word == "b"@ {
            Some(SemVerSuffix::B)
        } else if word == "rc"@ {
            Some(SemVerSuffix::RC)
        } else {
            None
        }
    }

    /// The canonical spelling: lower case, but for `RC`.
    pub open spec fn text(self) -> Seq<char> {
        match self {
            SemVerSuffix::Dev => "dev"@,
            SemVerSuffix::Patch => "patch"@,
            SemVerSuffix::P => "p"@,
            SemVerSuffix::Alpha => "alpha"@,
            SemVerSuffix::A => "a"@,
            SemVerSuffix::Beta => "beta"@,
            SemVerSuffix::B => "b"@,
            SemVerSuffix::RC => "RC"@,
        }
    }

    /// The marker in its canonical spelling.
    pub fn as_str(&self) -> (r: &'static str)
        ensures
            r@ == self.text(),
    {
        match self {
            SemVerSuffix::Dev => "dev",
            SemVerSuffix::Patch => "patch",
            SemVerSuffix::P => "p",
            SemVerSuffix::Alpha => "alpha",
            SemVerSuffix::A => "a",
            SemVerSuffix::Beta => "beta",
            SemVerSuffix::B => "b",
            SemVerSuffix::RC => "RC",
        }
    }

    /// Writes the marker in its canonical spelling.
    pub fn to_string(&self) -> (r: String)
        ensures
            r@ == self.text(),
    {
        self.as_str().to_owned()
    }
}

impl FromStr for SemVerPrefix {
    type Err = ParseSemVerError;

    /// Reads a prefix marker.
    fn from_str(s: &str) -> (r: Result<SemVerPrefix, ParseSemVerError>)
        ensures
            r == match SemVerPrefix::named(s@) {
                Some(prefix) => Ok::<SemVerPrefix, ParseSemVerError>(prefix),
                None => Err(ParseSemVerError),
            },
    {
        let lower = to_ascii_lowercase(&chars_of(s));
        if reads_as(&lower, "v") {
            Ok(SemVerPrefix::V)
        } else {
            Err(ParseSemVerError)
        }
    }
}

impl FromStr for SemVerSuffix {
    type Err = ParseSemVerError;

    /// Reads a suffix marker.
    fn from_str(s: &str) -> (r: Result<SemVerSuffix, ParseSemVerError>)
        ensures
            r == match SemVerSuffix::named(s@) {
                Some(suffix) => Ok::<SemVerSuffix, ParseSemVerError>(suffix),
                None => Err(ParseSemVerError),
            },
    {
        let word = to_ascii_lowercase(&chars_of(s));
        if reads_as(&word, "dev") {
            Ok(SemVerSuffix::Dev)
        } else if reads_as(&word, "patch") {
            Ok(SemVerSuffix::Patch)
        } else if reads_as(&word, "p") {
            Ok(SemVerSuffix::P)
        } else if reads_as(&word, "alpha") {
            Ok(SemVerSuffix::Alpha)
        } else if reads_as(&word, "a") {
            Ok(SemVerSuffix::A)
        } else if reads_as(&word, "beta") {
            Ok(SemVerSuffix::Beta)
        } else if reads_as(&word, "b") {
            Ok(SemVerSuffix::B)
        } else if reads_as(&word, "rc") {
            Ok(SemVerSuffix::RC)
        } else {
            Err(ParseSemVerError)
        }
    }
}

impl Default for SemVerSuffix {
    /// The marker of a suffix number that came without one.
    fn default() -> (r: SemVerSuffix)
        ensures
            r == SemVerSuffix::P,
    {
        SemVerSuffix::P
    }
}

} // verus!
