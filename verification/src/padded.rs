//! An unsigned number that remembers how many characters it was written
//! with, so that writing it again brings its leading zeros back.

use crate::decimal::{
    count_digits, digit_count, padded_text, parse_unsigned, push_padded, unsigned_value,
};
use crate::error::ParseSemVerError;
use crate::text::chars_of;
use std::str::FromStr;
use vstd::prelude::*;
use vstd::std_specs::convert::FromSpecImpl;

verus! {

/// A value and the width it is written with.
#[derive(Debug, PartialEq, Eq, Clone, Copy)]
pub struct ZeroPaddedInt {
    pub value: u32,
    pub width: usize,
}

impl ZeroPaddedInt {
    /// What a token denotes: its number, and its length as the width. (A
    /// token too long for its length to be a width denotes nothing; no
    /// string in memory is that long.)
    pub open spec fn parsed(s: Seq<char>) -> Option<ZeroPaddedInt> {
        match unsigned_value(s) {
            Some(value) if s.len() <= usize::MAX => Some(
                ZeroPaddedInt { value, width: s.len() as usize },
            ),
            _ => None,
        }
    }

    /// The width is enough for the digits of the value, so that the text
    /// has exactly the width.
    pub open spec fn fills_width(self) -> bool {
        digit_count(self.value as nat) <= self.width
    }

    /// The value filled up with zeros to the width; a value too long for
    /// the width is written in full.
    pub open spec fn text(self) -> Seq<char> {
        padded_text(self.value as nat, self.width as nat)
    }

    /// A value with an explicit width.
    pub fn new(value: u32, width: usize) -> (r: ZeroPaddedInt)
        ensures
            r == (ZeroPaddedInt { value, width }),
    {
        ZeroPaddedInt { value, width }
    }

    /// The same width, the value raised by `rhs`.
    pub fn add(self, rhs: u32) -> (r: ZeroPaddedInt)
        requires
            self.value + rhs <= u32::MAX,
        ensures
            r == (ZeroPaddedInt { value: (self.value + rhs) as u32, width: self.width }),
    {
        ZeroPaddedInt { value: self.value + rhs, width: self.width }
    }

    /// Writes the value, zero-padded to the width.
    pub fn to_string(&self) -> (r: String)
        ensures
            r@ == self.text(),
    {
        let mut out = String::new();
        push_padded(&mut out, self.value, self.width);
        assert(out@ =~= self.text());
        out
    }
}

impl FromStr for ZeroPaddedInt {
    type Err = ParseSemVerError;

    /// Reads a token: an optional `+` and digits. The width is the number of
    /// characters of the token.
    fn from_str(s: &str) -> (r: Result<ZeroPaddedInt, ParseSemVerError>)
        ensures
            r == match ZeroPaddedInt::parsed(s@) {
                Some(number) => Ok::<ZeroPaddedInt, ParseSemVerError>(number),
                None => Err(ParseSemVerError),
            },
    {
        let chars = chars_of(s);
        match parse_unsigned(&chars) {
            Some(value) => Ok(ZeroPaddedInt { value, width: chars.len() }),
            None => Err(ParseSemVerError),
        }
    }
}

impl From<u32> for ZeroPaddedInt {
    /// A value at its natural width, without padding.
    fn from(value: u32) -> (r: ZeroPaddedInt) {
        ZeroPaddedInt { value, width: count_digits(value) }
    }
}

impl FromSpecImpl<u32> for ZeroPaddedInt {
    open spec fn obeys_from_spec() -> bool {
        true
    }

    open spec fn from_spec(value: u32) -> ZeroPaddedInt {
        ZeroPaddedInt { value, width: digit_count(value as nat) as usize }
    }
}

} // verus!
