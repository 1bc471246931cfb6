//! The scalar model of this library.
//!
//! Every data value, weight and estimate is an IEEE 754 binary64 value,
//! carried as its 64-bit pattern (the result of `f64::to_bits`).  Holding the
//! pattern instead of the number lets the whole data-handling layer state and
//! prove exact, bit-level contracts: which entries are missing (NaN), which
//! rows are equal as group keys, and in which order distinct values stand.
//! The arithmetic a kernel performs on the encoded numbers is outside this
//! model; everything the structural layer reads from a value is defined here.

use vstd::prelude::*;

verus! {

/// The bit pattern of a quiet NaN: the pattern `f64::NAN.to_bits()` yields on
/// every platform this library targets.  Used as the canonical stand-in for
/// all NaN patterns wherever NaN forms a single group key.
pub const NAN_BITS: u64 = 0x7FF8_0000_0000_0000;

/// The bit pattern of positive zero.
pub const ZERO_BITS: u64 = 0;

/// The bit pattern of 1.0.
pub const ONE_BITS: u64 = 0x3FF0_0000_0000_0000;

/// The sign-less magnitude of a pattern: everything but the sign bit.
pub open spec fn spec_magnitude(b: u64) -> u64 {
    b & 0x7FFF_FFFF_FFFF_FFFF
}

/// Whether the pattern encodes a NaN: all exponent bits set and a non-zero
/// fraction.
pub open spec fn spec_is_nan(b: u64) -> bool {
    b & 0x7FF0_0000_0000_0000 == 0x7FF0_0000_0000_0000 && b & 0x000F_FFFF_FFFF_FFFF != 0
}

/// Whether the pattern encodes a zero (positive or negative).
pub open spec fn spec_is_zero(b: u64) -> bool {
    spec_magnitude(b) == 0
}

/// Whether the sign bit is set.
pub open spec fn spec_is_negative(b: u64) -> bool {
    b >> 63 == 1
}

/// Numeric equality of two non-NaN patterns: the encoded values are equal
/// exactly when the patterns are equal or both encode a zero.
pub open spec fn spec_eq_value(a: u64, b: u64) -> bool {
    a == b || (spec_is_zero(a) && spec_is_zero(b))
}

/// Numeric strict order of two non-NaN patterns: the order of the encoded
/// values.  For patterns of one sign it is the magnitude order (reversed for
/// negative values); a negative value is below a positive one unless both
/// are zeros.
pub open spec fn spec_lt_value(a: u64, b: u64) -> bool {
    if spec_is_negative(a) && spec_is_negative(b) {
        spec_magnitude(b) < spec_magnitude(a)
    } else if !spec_is_negative(a) && !spec_is_negative(b) {
        spec_magnitude(a) < spec_magnitude(b)
    } else if spec_is_negative(a) {
        !(spec_is_zero(a) && spec_is_zero(b))
    } else {
        false
    }
}

/// The canonical form of a pattern for group-key purposes: every NaN pattern
/// collapses to [`NAN_BITS`]; every other pattern stands for itself.
pub open spec fn spec_canonical(b: u64) -> u64 {
    if spec_is_nan(b) {
        NAN_BITS
    } else {
        b
    }
}

/// Whether the pattern encodes a NaN.
pub fn is_nan_bits(b: u64) -> (r: bool)
    ensures
        r == spec_is_nan(b),
{
    b & 0x7FF0_0000_0000_0000 == 0x7FF0_0000_0000_0000 && b & 0x000F_FFFF_FFFF_FFFF != 0
}

/// The canonical form of a pattern for group-key purposes.
pub fn canonical_bits(b: u64) -> (r: u64)
    ensures
        r == spec_canonical(b),
{
    if is_nan_bits(b) {
        NAN_BITS
    } else {
        b
    }
}

/// Numeric equality of two non-NaN patterns.
pub fn eq_value_bits(a: u64, b: u64) -> (r: bool)
    ensures
        r == spec_eq_value(a, b),
{
    a == b || (a & 0x7FFF_FFFF_FFFF_FFFF == 0 && b & 0x7FFF_FFFF_FFFF_FFFF == 0)
}

/// Numeric strict order of two non-NaN patterns.
pub fn lt_value_bits(a: u64, b: u64) -> (r: bool)
    ensures
        r == spec_lt_value(a, b),
{
    let negative_a = a >> 63 == 1;
    let negative_b = b >> 63 == 1;
    let magnitude_a = a & 0x7FFF_FFFF_FFFF_FFFF;
    let magnitude_b = b & 0x7FFF_FFFF_FFFF_FFFF;
    if negative_a && negative_b {
        magnitude_b < magnitude_a
    } else if !negative_a && !negative_b {
        magnitude_a < magnitude_b
    } else if negative_a {
        !(magnitude_a == 0 && magnitude_b == 0)
    } else {
        false
    }
}

/// The value order is a strict total order on the equivalence classes of
/// [`spec_eq_value`]: of two patterns, exactly one of `a < b`, `b < a`,
/// `a == b` holds.
pub proof fn lemma_lt_value_trichotomy(a: u64, b: u64)
    ensures
        spec_lt_value(a, b) || spec_lt_value(b, a) || spec_eq_value(a, b),
        spec_lt_value(a, b) ==> !spec_lt_value(b, a) && !spec_eq_value(a, b),
        spec_eq_value(a, b) ==> !spec_lt_value(a, b) && !spec_lt_value(b, a),
{
    assert((a >> 63 == 0 || a >> 63 == 1) && (b >> 63 == 0 || b >> 63 == 1)) by (bit_vector);
    assert(a >> 63 == b >> 63 && (a & 0x7FFF_FFFF_FFFF_FFFF) == (b & 0x7FFF_FFFF_FFFF_FFFF)
        ==> a == b) by (bit_vector);
}

/// The value order is transitive.
pub proof fn lemma_lt_value_transitive(a: u64, b: u64, c: u64)
    requires
        spec_lt_value(a, b),
        spec_lt_value(b, c),
    ensures
        spec_lt_value(a, c),
{
    assert((a >> 63 == 0 || a >> 63 == 1) && (b >> 63 == 0 || b >> 63 == 1) && (c >> 63 == 0
        || c >> 63 == 1)) by (bit_vector);
}

} // verus!
