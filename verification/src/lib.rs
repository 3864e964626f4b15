//! Primality-testing toolkit: a Lucas-Lehmer engine for Mersenne candidates
//! 2^p - 1 with resumable checkpoints, a Miller-Rabin-style probable-prime
//! test, and a batch sieve that screens a contiguous range with a fixed-base
//! Fermat predicate.

use vstd::prelude::*;

pub mod arith;
pub mod checkpoint;
pub mod lucas;
pub mod prp;
pub mod sieve;

verus! {

/// Failures surfaced by the toolkit's entry points.
#[derive(Clone, Copy, Debug, PartialEq, Eq, Structural)]
pub enum PrimeError {
    /// The request itself is malformed: exponent below 2, range with end
    /// before start, witness base below 2, or a checkpoint that does not
    /// fit the exponent.
    InvalidInput,
    /// The Mersenne number 2^p - 1 does not fit the engine's word width.
    ArithmeticOverflow,
    /// A batch candidate does not fit the backend's native lane width.
    WidthOverflow,
}

} // verus!
