//! The types of other crates and of the standard library that values of this library pass
//! through. Nothing is known of what such a value holds.

use vstd::prelude::*;

verus! {

/// `glob::PatternError`: why a text is no glob pattern.
#[verifier::external_type_specification]
#[verifier::external_body]
pub struct ExPatternError(glob::PatternError);

/// `std::num::ParseIntError`: why a text is no number.
#[verifier::external_type_specification]
#[verifier::external_body]
pub struct ExParseIntError(std::num::ParseIntError);

/// `std::io::Error`: why reading or writing failed.
#[verifier::external_type_specification]
#[verifier::external_body]
pub struct ExIoError(std::io::Error);

} // verus!
