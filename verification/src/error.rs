//! The error of the parsers.

use vstd::prelude::*;

verus! {

/// A text could not be read as what was asked for.
#[derive(Debug, PartialEq, Eq)]
pub struct ParseSemVerError;

} // verus!
