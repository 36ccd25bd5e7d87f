//! The errors of the library.
use vstd::prelude::*;

verus! {

/// An error of interpolation or of sampling.
#[derive(Clone, Copy, Debug, PartialEq, Eq, Structural)]
pub enum Error {
    /// Fewer samples than the threshold requires.
    NotEnoughShares,
    /// Two samples share an index.
    DuplicateEntry,
    /// The requested degree leaves no room for its coefficients.
    DegreeTooHigh,
    /// The random source gave a polynomial of a lower degree than requested.
    Sampling,
}

} // verus!
