//! The arithmetic provider.
//!
//! Rounding arithmetic on binary64 values — addition, multiplication,
//! square roots, logarithms, the discrete Fourier transform — cannot be
//! verified in this crate, so the engine does not perform it: a caller
//! supplies an implementation of [`RealOps`] (built on the platform's
//! double-precision arithmetic and an FFT library), and the engine routes
//! every rounding operation through it, on raw bit patterns.
//!
//! The trait promises nothing. Every contract in this crate therefore
//! states only what holds whatever an implementation returns: dispatch,
//! counting, ordering and the finiteness of every published feature are
//! proved unconditionally, while numerical values are as good as the
//! provider.

use vstd::prelude::*;

verus! {

/// Double-precision arithmetic on raw bit patterns, supplied by the caller.
///
/// An implementation is expected to interpret each `u64` as the bit pattern
/// of an IEEE 754 binary64 value and to perform the platform's rounding
/// operation; `fft` is expected to be a discrete Fourier transform of the
/// complex sequence given as separate real and imaginary parts, returned the
/// same way (unscaled in both directions). None of this is checked: the
/// engine's own guarantees hold for any implementation.
pub trait RealOps {
    /// The rounded sum of `a` and `b`.
    fn add(&self, a: u64, b: u64) -> u64;

    /// The rounded difference of `a` and `b`.
    fn sub(&self, a: u64, b: u64) -> u64;

    /// The rounded product of `a` and `b`.
    fn mul(&self, a: u64, b: u64) -> u64;

    /// The rounded quotient of `a` and `b`.
    fn div(&self, a: u64, b: u64) -> u64;

    /// The rounded square root of `a`.
    fn sqrt(&self, a: u64) -> u64;

    /// The natural logarithm of `a`.
    fn ln(&self, a: u64) -> u64;

    /// The exponential of `a`.
    fn exp(&self, a: u64) -> u64;

    /// `a` raised to the power `b`.
    fn powf(&self, a: u64, b: u64) -> u64;

    /// The largest integral value not above `a`.
    fn floor(&self, a: u64) -> u64;

    /// The smallest integral value not below `a`.
    fn ceil(&self, a: u64) -> u64;

    /// The value of `a` truncated to an unsigned machine integer, saturating
    /// at the bounds and taking NaN to zero.
    fn to_usize(&self, a: u64) -> usize;

    /// The binary64 value nearest to the unsigned machine integer `n`.
    fn from_usize(&self, n: usize) -> u64;

    /// The discrete Fourier transform (inverse when `inverse` is set) of the
    /// complex sequence `re + i·im`, as its real and imaginary parts.
    fn fft(&self, re: &Vec<u64>, im: &Vec<u64>, inverse: bool) -> (Vec<u64>, Vec<u64>);
}

} // verus!
