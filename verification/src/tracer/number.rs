use vstd::prelude::*;

verus! {

// The renderer computes with binary64 numbers of IEEE 754. Where such a
// number is compared or turned into a byte, it comes here as its 64 bits:
// the top bit is the sign, below it lie 11 bits of exponent and 52 of
// fraction. Exponent and fraction together are the magnitude, and
// magnitudes are ordered as the absolute values are. Above the magnitude of
// infinity lie the patterns that are not a number. A number from 1 on is
// (2^52 + fraction) * 2^(exponent - 1075).

/// The sign bit of a binary64 number.
pub const SIGN_BIT: u64 = 0x8000_0000_0000_0000;

/// The magnitude bits of infinity; a greater magnitude is not a number.
pub const INFINITY_BITS: u64 = 0x7FF0_0000_0000_0000;

/// The sign bit of `bits` is set.
pub open spec fn is_negative(bits: u64) -> bool {
    bits >= SIGN_BIT
}

/// The 63 bits of `bits` below the sign bit.
pub open spec fn magnitude(bits: u64) -> int {
    if bits >= SIGN_BIT {
        bits - SIGN_BIT
    } else {
        bits as int
    }
}

/// `bits` stand for a number, infinite or not.
pub open spec fn is_number(bits: u64) -> bool {
    magnitude(bits) <= INFINITY_BITS
}

/// The number of `a` is below that of `b`, where the sign decides first and
/// then the magnitude, so that zero with the sign bit set lies just below
/// zero without it.
pub open spec fn below(a: u64, b: u64) -> bool {
    if is_negative(a) {
        !is_negative(b) || magnitude(a) > magnitude(b)
    } else {
        !is_negative(b) && magnitude(a) < magnitude(b)
    }
}

/// The bit above the fraction: 2 to the power of 52.
pub const HIDDEN_BIT: u64 = 0x10_0000_0000_0000;

/// The exponent bits of `bits`.
pub open spec fn exponent(bits: u64) -> int {
    magnitude(bits) / (HIDDEN_BIT as int)
}

/// The fraction bits of `bits`.
pub open spec fn fraction(bits: u64) -> int {
    magnitude(bits) % (HIDDEN_BIT as int)
}

} // verus!
