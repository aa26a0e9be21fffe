//! Pollard's kangaroo (lambda) method for the discrete logarithm problem in
//! the Ristretto group, for secrets of bounded bit length.
//!
//! A precomputed table of distinguished points (built from "tame" walks of
//! known discrete log) lets the solver run "wild" walks from a target point
//! and recover the secret when the two kinds of walk collide.

use vstd::prelude::*;

pub mod bytes;
pub mod group;
pub mod utils;
pub mod kangaroo;
pub mod generator;
pub mod solver;
pub mod presets;
pub mod codec;

verus! {

/// The errors this library surfaces to its callers.
#[derive(Clone, Copy, Debug, PartialEq, Eq, Structural)]
pub enum Error {
    /// A parameter set was rejected at entry: `secret_size` outside `[8, 64]`,
    /// `W` or `R` not a power of two, a degenerate step bound `i * W`, or a
    /// jump magnitude that would not be positive.
    InvalidParameters,
    /// A requested bit length is above the 64 bits this library supports.
    InvalidBitLength,
    /// The entropy source failed; generation or solving aborts with no
    /// partially built state left behind.
    RandomnessFailure,
    /// Persisted bytes were malformed, held a non-canonical scalar or point
    /// encoding, or described an invalid parameter set.
    DeserializationFailed,
}

} // verus!
