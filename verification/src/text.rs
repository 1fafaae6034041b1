//! Text as sequences of characters: case folding, the classification of
//! numeric characters, and comparison of character runs.

use crate::decimal::is_digit;
use itertools::Itertools;
use vstd::prelude::*;
use vstd::utf8::is_ascii_chars;

verus! {

/// The lower-case form of an ASCII character; any other character is kept.
pub open spec fn ascii_lower_char(c: char) -> char {
    if 'A' <= c && c <= 'Z' {
        ((c as u8) + 32) as char
    } else {
        c
    }
}

/// `s` with its ASCII upper-case letters made lower-case.
pub open spec fn ascii_lowercase(s: Seq<char>) -> Seq<char> {
    Seq::new(s.len(), |i: int| ascii_lower_char(s[i]))
}

/// The lower-case form that Unicode gives to text that is not all ASCII.
pub uninterp spec fn unicode_lowercase(s: Seq<char>) -> Seq<char>;

/// The lower-case form of `s`. On ASCII text it is `ascii_lowercase`;
/// on other text it is what the Unicode case mapping yields.
pub open spec fn lowercase(s: Seq<char>) -> Seq<char> {
    if is_ascii_chars(s) {
        ascii_lowercase(s)
    } else {
        unicode_lowercase(s)
    }
}

/// Whether Unicode classes a character beyond ASCII as numeric.
pub uninterp spec fn unicode_numeric(c: char) -> bool;

/// `c` is a numeric character: among ASCII the digits `0` to `9`, beyond
/// ASCII whatever Unicode classes as a number.
pub open spec fn is_numeric(c: char) -> bool {
    if c <= '\u{7f}' {
        is_digit(c)
    } else {
        unicode_numeric(c)
    }
}

/// The characters of `s`, in order.
///
/// Calls `Itertools::collect_vec` on the character iterator of `s`; the
/// vector it returns holds every item that the iterator yields, in order.
#[verifier::external_body]
pub(crate) fn chars_of(s: &str) -> (chars: Vec<char>)
    ensures
        chars@ == s@,
{
    s.chars().collect_vec()
}

/// The lower-case form of `s`.
///
/// Calls `str::to_lowercase`. The Unicode case mapping leaves every ASCII
/// character but `A` to `Z` alone and maps those to `a` to `z`, so on ASCII
/// text the result is stated in full; on other text it is only named.
#[verifier::external_body]
pub(crate) fn to_lowercase(s: &str) -> (lower: String)
    ensures
        lower@ == if is_ascii_chars(s@) {
            ascii_lowercase(s@)
        } else {
            unicode_lowercase(s@)
        },
{
    s.to_lowercase()
}

/// Whether `c` is numeric.
///
/// Calls `char::is_numeric`, which answers by the Unicode general
/// categories for numbers. The only ASCII characters in them are the digits
/// `0` to `9`; for a character beyond ASCII the answer is only named.
#[verifier::external_body]
pub(crate) fn char_is_numeric(c: char) -> (numeric: bool)
    ensures
        numeric == if c <= '\u{7f}' {
            is_digit(c)
        } else {
            unicode_numeric(c)
        },
{
    c.is_numeric()
}

/// Makes the ASCII upper-case letters of `token` lower-case.
pub fn to_ascii_lowercase(token: &Vec<char>) -> (lower: Vec<char>)
    ensures
        lower@ == ascii_lowercase(token@),
{
    let mut lower: Vec<char> = Vec::new();
    let mut i: usize = 0;
    while i < token.len()
        invariant
            i <= token.len(),
            lower@ == ascii_lowercase(token@.take(i as int)),
        decreases token.len() - i,
    {
        let c = token[i];
        let folded = if 'A' <= c && c <= 'Z' {
            ((c as u8) + 32) as char
        } else {
            c
        };
        lower.push(folded);
        i += 1;
        assert(lower@ =~= ascii_lowercase(token@.take(i as int)));
    }
    assert(token@.take(token.len() as int) =~= token@);
    lower
}

/// Whether two character runs are the same.
pub fn same_chars(a: &Vec<char>, b: &Vec<char>) -> (same: bool)
    ensures
        same == (a@ == b@),
{
    if a.len() != b.len() {
        return false;
    }
    let mut i: usize = 0;
    while i < a.len()
        invariant
            i <= a.len(),
            a.len() == b.len(),
            forall|j: int| 0 <= j < i ==> a@[j] == b@[j],
        decreases a.len() - i,
    {
        if a[i] != b[i] {
            return false;
        }
        i += 1;
    }
    assert(a@ =~= b@);
    true
}

/// Whether `token` reads exactly as `word`.
pub fn reads_as(token: &Vec<char>, word: &str) -> (same: bool)
    ensures
        same == (token@ == word@),
{
    let expected = chars_of(word);
    same_chars(token, &expected)
}

} // verus!
