//! Parsing of loosely structured version strings (`2.3.0-alpha.1`,
//! `release-2022-02-09`, `v2023-Nov-0027-v1`) into a version that keeps the
//! width of its numbers, and writing of that version in PHP composer format.

pub mod composer;
pub mod decimal;
pub mod error;
pub mod laws;
pub mod markers;
pub mod month;
pub mod padded;
pub mod semver;
pub mod text;
pub mod tokens;

pub use composer::ComposerChecker;
pub use error::ParseSemVerError;
pub use markers::{SemVerPair, SemVerPrefix, SemVerSuffix};
pub use padded::ZeroPaddedInt;
pub use semver::SemVer;
pub use tokens::{split_alpha_and_number, tokenize};
