use vstd::prelude::*;
use crate::tracer::number::{below, is_negative, is_number, magnitude, INFINITY_BITS, SIGN_BIT};

verus! {

// A distance along a ray is carried as a signed key. Keys are ordered as the
// distances are: the greater the key, the farther the point. A key that is
// not positive stands for "no hit": the primitive is missed or lies behind
// the ray's origin. A key is made from the bits of the distance.

/// The key of the distance with these bits: the magnitude for a number
/// without the sign bit, minus the magnitude minus one for a number with
/// it, and minus one, a miss, for what is not a number.
pub open spec fn key_of(bits: u64) -> int {
    if !is_number(bits) {
        -1
    } else if is_negative(bits) {
        -magnitude(bits) - 1
    } else {
        magnitude(bits)
    }
}

/// Makes the key of a distance from the bits of the number.
pub fn distance_key(bits: u64) -> (key: i64)
    ensures
        key == key_of(bits),
{
    let negative: bool = bits >= SIGN_BIT;
    let size: u64 = if negative {
        bits - SIGN_BIT
    } else {
        bits
    };
    if size > INFINITY_BITS {
        -1
    } else if negative {
        -(size as i64) - 1
    } else {
        size as i64
    }
}

/// Keys are ordered as the numbers are.
pub proof fn lemma_keys_keep_order(a: u64, b: u64)
    requires
        is_number(a),
        is_number(b),
    ensures
        key_of(a) < key_of(b) <==> below(a, b),
        key_of(a) == key_of(b) <==> a == b,
{
}

/// A key is positive exactly for a number above zero.
pub proof fn lemma_key_sign(bits: u64)
    ensures
        key_of(bits) > 0 <==> is_number(bits) && !is_negative(bits) && magnitude(bits) > 0,
{
}

} // verus!
