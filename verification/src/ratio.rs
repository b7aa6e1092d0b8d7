//! Fractions of integers: what the pipeline hands to double-precision
//! division.
use vstd::prelude::*;

verus! {

/// A fraction `num / den` of two integers.
#[derive(Clone, Copy, Debug, PartialEq, Eq, Structural)]
pub struct Ratio {
    pub num: i64,
    pub den: i64,
}

} // verus!
