//! Exact ratios.
//!
//! Everything the crate decides, it decides on whole numbers: a ratio is kept as its two
//! terms, so that comparing two of them or holding one against a limit involves no rounding.
//! Whoever displays one divides.

use vstd::prelude::*;

verus! {

/// A quotient of two whole numbers, not reduced.
#[derive(Debug, Clone, Copy, PartialEq, Eq, Structural)]
pub struct Ratio {
    /// What is divided.
    pub numer: u128,
    /// What it is divided by.
    pub denom: u128,
}

} // verus!
