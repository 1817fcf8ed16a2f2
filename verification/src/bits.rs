//! The bit-level model of IEEE 754 binary64 values.
//!
//! The whole engine carries double-precision samples as their raw 64-bit
//! patterns. Everything that depends only on the bit layout of binary64 —
//! classification (finite, NaN, zero), the sign, comparison, negation, the
//! absolute value, and the boundary rule that replaces non-finite values by
//! zero — is defined and verified here. Arithmetic that needs rounding is
//! not: it goes through the `RealOps` provider (see `arith`).

use vstd::prelude::*;

verus! {

/// Mask of the eleven exponent bits.
pub const EXP_MASK: u64 = 0x7FF0_0000_0000_0000;

/// Mask of the fifty-two fraction bits.
pub const FRAC_MASK: u64 = 0x000F_FFFF_FFFF_FFFF;

/// Mask of the sign bit.
pub const SIGN_MASK: u64 = 0x8000_0000_0000_0000;

/// Mask of everything but the sign bit: the magnitude.
pub const MAG_MASK: u64 = 0x7FFF_FFFF_FFFF_FFFF;

/// The pattern of positive zero.
pub const ZERO_BITS: u64 = 0;

/// The pattern of 1.0.
pub const ONE_BITS: u64 = 0x3FF0_0000_0000_0000;

/// The canonical quiet NaN pattern.
pub const NAN_BITS: u64 = 0x7FF8_0000_0000_0000;

/// The exponent field of a pattern.
pub open spec fn spec_exp_field(b: u64) -> u64 {
    (b >> 52) & 0x7FF
}

/// The fraction field of a pattern.
pub open spec fn spec_frac_field(b: u64) -> u64 {
    b & FRAC_MASK
}

/// Whether the sign bit is set.
pub open spec fn spec_sign(b: u64) -> bool {
    b & SIGN_MASK != 0
}

/// A pattern is NaN when the exponent field is saturated and the fraction is
/// not zero.
pub open spec fn spec_is_nan(b: u64) -> bool {
    spec_exp_field(b) == 0x7FF && spec_frac_field(b) != 0
}

/// A pattern is finite (neither NaN nor an infinity) when the exponent field
/// is not saturated.
pub open spec fn spec_is_finite(b: u64) -> bool {
    spec_exp_field(b) != 0x7FF
}

/// A pattern is a zero when all bits but the sign are clear.
pub open spec fn spec_is_zero(b: u64) -> bool {
    b & MAG_MASK == 0
}

/// Numeric equality of two patterns: NaN equals nothing, the two zeros are
/// equal, everything else is equal exactly on its own pattern.
pub open spec fn spec_feq(a: u64, b: u64) -> bool {
    &&& !spec_is_nan(a)
    &&& !spec_is_nan(b)
    &&& (a == b || (spec_is_zero(a) && spec_is_zero(b)))
}

/// Numeric strict order of two patterns. Any comparison with NaN is false;
/// otherwise negatives order below positives, positive magnitudes order as
/// their patterns and negative magnitudes in reverse.
pub open spec fn spec_flt(a: u64, b: u64) -> bool {
    &&& !spec_is_nan(a)
    &&& !spec_is_nan(b)
    &&& !spec_feq(a, b)
    &&& if spec_sign(a) != spec_sign(b) {
        spec_sign(a)
    } else if !spec_sign(a) {
        a < b
    } else {
        a > b
    }
}

/// Numeric non-strict order: strictly below or numerically equal.
pub open spec fn spec_fle(a: u64, b: u64) -> bool {
    spec_flt(a, b) || spec_feq(a, b)
}

/// The key that turns the numeric order into a total order on patterns:
/// flipping all bits of a negative pattern, and the sign bit of a positive
/// one, makes the unsigned order of the keys extend the numeric order, with
/// the negative zero just below the positive one and NaNs at the two ends.
pub open spec fn spec_order_key(b: u64) -> u64 {
    if spec_sign(b) {
        !b
    } else {
        b | SIGN_MASK
    }
}

/// The total order the engine sorts by.
pub open spec fn spec_tle(a: u64, b: u64) -> bool {
    spec_order_key(a) <= spec_order_key(b)
}

/// The boundary rule of the dispatcher: a finite pattern passes through and
/// anything else becomes positive zero.
pub open spec fn spec_sanitize(b: u64) -> u64 {
    if spec_is_finite(b) {
        b
    } else {
        ZERO_BITS
    }
}

/// How the named constants classify.
pub proof fn lemma_constant_classes()
    ensures
        spec_is_finite(ZERO_BITS),
        spec_is_zero(ZERO_BITS),
        spec_is_finite(ONE_BITS),
        !spec_is_zero(ONE_BITS),
        spec_is_nan(NAN_BITS),
        !spec_is_finite(NAN_BITS),
{
    assert(((0u64 >> 52) & 0x7FF) != 0x7FF && (0u64 & 0x7FFF_FFFF_FFFF_FFFF) == 0)
        by (bit_vector);
    assert(((0x3FF0_0000_0000_0000u64 >> 52) & 0x7FF) != 0x7FF && (0x3FF0_0000_0000_0000u64
        & 0x7FFF_FFFF_FFFF_FFFF) != 0) by (bit_vector);
    assert(((0x7FF8_0000_0000_0000u64 >> 52) & 0x7FF) == 0x7FF && (0x7FF8_0000_0000_0000u64
        & 0x000F_FFFF_FFFF_FFFF) != 0) by (bit_vector);
}

/// The boundary rule never lets a non-finite pattern through: whatever the
/// raw value, its sanitized form is finite.
pub proof fn lemma_sanitize_finite(b: u64)
    ensures
        spec_is_finite(spec_sanitize(b)),
{
    lemma_constant_classes();
}

/// Whether the pattern is NaN.
pub fn is_nan(b: u64) -> (r: bool)
    ensures
        r == spec_is_nan(b),
{
    (b >> 52) & 0x7FF == 0x7FF && b & FRAC_MASK != 0
}

/// Whether the pattern is finite.
pub fn is_finite(b: u64) -> (r: bool)
    ensures
        r == spec_is_finite(b),
{
    (b >> 52) & 0x7FF != 0x7FF
}

/// Whether the pattern is a zero of either sign.
pub fn is_zero(b: u64) -> (r: bool)
    ensures
        r == spec_is_zero(b),
{
    b & MAG_MASK == 0
}

/// Numeric equality.
pub fn feq(a: u64, b: u64) -> (r: bool)
    ensures
        r == spec_feq(a, b),
{
    !is_nan(a) && !is_nan(b) && (a == b || (is_zero(a) && is_zero(b)))
}

/// Numeric strict order.
pub fn flt(a: u64, b: u64) -> (r: bool)
    ensures
        r == spec_flt(a, b),
{
    if is_nan(a) || is_nan(b) || feq(a, b) {
        false
    } else {
        let sa: bool = a & SIGN_MASK != 0;
        let sb: bool = b & SIGN_MASK != 0;
        if sa != sb {
            sa
        } else if !sa {
            a < b
        } else {
            a > b
        }
    }
}

/// Numeric non-strict order.
pub fn fle(a: u64, b: u64) -> (r: bool)
    ensures
        r == spec_fle(a, b),
{
    flt(a, b) || feq(a, b)
}

/// The total order key.
pub fn order_key(b: u64) -> (r: u64)
    ensures
        r == spec_order_key(b),
{
    if b & SIGN_MASK != 0 {
        !b
    } else {
        b | SIGN_MASK
    }
}

/// The total order the engine sorts by.
pub fn tle(a: u64, b: u64) -> (r: bool)
    ensures
        r == spec_tle(a, b),
{
    order_key(a) <= order_key(b)
}

/// Negation: the sign bit flips and nothing else moves.
pub fn fneg(b: u64) -> (r: u64)
    ensures
        r == (b ^ SIGN_MASK),
{
    b ^ SIGN_MASK
}

/// Absolute value: the sign bit clears and nothing else moves.
pub fn fabs(b: u64) -> (r: u64)
    ensures
        r == (b & MAG_MASK),
{
    b & MAG_MASK
}

/// The boundary rule of the dispatcher: finite patterns pass, non-finite
/// ones become zero, so the result is always finite.
pub fn sanitize(b: u64) -> (r: u64)
    ensures
        r == spec_sanitize(b),
        spec_is_finite(r),
{
    if is_finite(b) {
        b
    } else {
        proof {
            assert(((0u64 >> 52) & 0x7FF) != 0x7FF) by (bit_vector);
        }
        ZERO_BITS
    }
}

} // verus!
