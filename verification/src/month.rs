//! Month names. A month may be written by its English name, in full or cut
//! to three letters, and stands for its number in the year.

use crate::text::ascii_lowercase;
use chrono::Month;
use vstd::prelude::*;

verus! {

/// The number, from 1 to 12, of the month that `s` names: its full English
/// name or the first three letters of it, in any mix of ASCII upper and
/// lower case. Nothing else names a month.
pub open spec fn month_named(s: Seq<char>) -> Option<u32> {
    let name = ascii_lowercase(s);
    if name == "jan"@ || name == "january"@ {
        Some(1u32)
    } else if name == "feb"@ || name == "february"@ {
        Some(2u32)
    } else if name == "mar"@ || name == "march"@ {
        Some(3u32)
    } else if name == "apr"@ || name == "april"@ {
        Some(4u32)
    } else if name == "may"@ {
        Some(5u32)
    } else if name == "jun"@ || name == "june"@ {
        Some(6u32)
    } else if name == "jul"@ || name == "july"@ {
        Some(7u32)
    } else if name == "aug"@ || name == "august"@ {
        Some(8u32)
    } else if name == "sep"@ || name == "september"@ {
        Some(9u32)
    } else if name == "oct"@ || name == "october"@ {
        Some(10u32)
    } else if name == "nov"@ || name == "november"@ {
        Some(11u32)
    } else if name == "dec"@ || name == "december"@ {
        Some(12u32)
    } else {
        None
    }
}

/// The number of the month that `token` names.
///
/// Calls the `FromStr` implementation of `chrono::Month` and, on a month,
/// `Month::number_from_month`. The first accepts exactly the short and the
/// long English month names, compared without regard to ASCII case; the
/// second counts from January as 1.
#[verifier::external_body]
pub(crate) fn month_number(token: &str) -> (number: Option<u32>)
    ensures
        number == month_named(token@),
{
    match token.parse::<Month>() {
        Ok(month) => Some(month.number_from_month()),
        Err(_) => None,
    }
}

} // verus!
