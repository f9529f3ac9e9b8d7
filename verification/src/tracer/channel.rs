use vstd::prelude::*;
use vstd::arithmetic::power2::{lemma2_to64_rest, pow2};
use vstd::bits::lemma_u64_shr_is_div;
use crate::tracer::number::{
    below, exponent, fraction, is_negative, is_number, magnitude, HIDDEN_BIT, INFINITY_BITS,
    SIGN_BIT,
};

verus! {

// A channel that has been scaled by a fraction is a number again, and
// becomes a byte here.

/// The exponent bits of the numbers from 1 up to 2.
pub const EXPONENT_OF_ONE: u64 = 1023;

/// The exponent bits of the numbers from 128 up to 256.
pub const EXPONENT_OF_128: u64 = 1030;

/// The whole part of a number from 1 up to but not including 256: of
/// (2^52 + fraction) * 2^(exponent - 1075), where the exponent is at most
/// 1030, so that the power divides.
pub open spec fn whole_part(bits: u64) -> int
    recommends
        EXPONENT_OF_ONE <= exponent(bits) <= EXPONENT_OF_128,
{
    (HIDDEN_BIT + fraction(bits)) / (pow2((1075 - exponent(bits)) as nat) as int)
}

/// The channel value of a number: 0 for what is below 1, negative or not a
/// number, 255 for what is 256 or more, else the number's whole part.
pub open spec fn channel_value(bits: u64) -> int {
    if !is_number(bits) || is_negative(bits) || exponent(bits) < EXPONENT_OF_ONE {
        0
    } else if exponent(bits) > EXPONENT_OF_128 {
        255
    } else {
        whole_part(bits)
    }
}

/// Turns a scaled channel into a byte: the number is cut down to its whole
/// part and held between 0 and 255.
pub fn channel_of(bits: u64) -> (channel: u8)
    ensures
        channel == channel_value(bits),
{
    if bits >= SIGN_BIT || bits > INFINITY_BITS {
        return 0;
    }
    let exponent: u64 = bits / HIDDEN_BIT;
    let fraction: u64 = bits % HIDDEN_BIT;
    if exponent < EXPONENT_OF_ONE {
        0
    } else if exponent > EXPONENT_OF_128 {
        255
    } else {
        let shift: u64 = 1075 - exponent;
        let whole: u64 = (HIDDEN_BIT + fraction) >> shift;
        proof {
            lemma_u64_shr_is_div((HIDDEN_BIT + fraction) as u64, shift);
            lemma_whole_part_fits(bits);
        }
        whole as u8
    }
}

/// The whole part of a number from 1 up to but not including 256 lies from
/// 1 to 255.
pub proof fn lemma_whole_part_fits(bits: u64)
    requires
        EXPONENT_OF_ONE <= exponent(bits) <= EXPONENT_OF_128,
    ensures
        1 <= whole_part(bits) <= 255,
{
    lemma_steps(exponent(bits));
    let f = fraction(bits);
    assert(0 <= f < HIDDEN_BIT);
}

/// Every channel value is a byte.
pub proof fn lemma_channel_is_byte(bits: u64)
    ensures
        0 <= channel_value(bits) <= 255,
{
    if EXPONENT_OF_ONE <= exponent(bits) <= EXPONENT_OF_128 {
        lemma_whole_part_fits(bits);
    }
}

/// A greater number never has a smaller channel value.
pub proof fn lemma_channel_keeps_order(a: u64, b: u64)
    requires
        is_number(a),
        is_number(b),
        below(a, b),
    ensures
        channel_value(a) <= channel_value(b),
{
    lemma_channel_is_byte(a);
    lemma_channel_is_byte(b);
    if !is_negative(a) {
        let ea = exponent(a);
        let eb = exponent(b);
        assert(magnitude(a) < magnitude(b));
        assert(ea <= eb);
        if EXPONENT_OF_ONE <= ea && eb <= EXPONENT_OF_128 {
            lemma_steps(ea);
            lemma_steps(eb);
            lemma_whole_part_bounds(a);
            lemma_whole_part_bounds(b);
            if ea == eb {
                assert(fraction(a) < fraction(b));
                vstd::arithmetic::div_mod::lemma_div_is_ordered(
                    HIDDEN_BIT + fraction(a),
                    HIDDEN_BIT + fraction(b),
                    pow2((1075 - ea) as nat) as int,
                );
            } else {
                assert(2 * pow2((ea - 1023) as nat) <= pow2((eb - 1023) as nat));
            }
        }
    }
}

/// The whole part of a number lies between the power of two at its
/// exponent and the next.
proof fn lemma_whole_part_bounds(bits: u64)
    requires
        EXPONENT_OF_ONE <= exponent(bits) <= EXPONENT_OF_128,
    ensures
        pow2((exponent(bits) - 1023) as nat) <= whole_part(bits),
        whole_part(bits) < 2 * pow2((exponent(bits) - 1023) as nat),
{
    lemma_steps(exponent(bits));
    let f = fraction(bits);
    assert(0 <= f < HIDDEN_BIT);
}

/// The powers of two that a number from 1 up to but not including 256 is
/// divided by, and those that bound its whole part.
proof fn lemma_steps(e: int)
    requires
        EXPONENT_OF_ONE <= e <= EXPONENT_OF_128,
    ensures
        e == 1023 ==> pow2((1075 - e) as nat) == 0x10_0000_0000_0000
            && pow2((e - 1023) as nat) == 1,
        e == 1024 ==> pow2((1075 - e) as nat) == 0x8_0000_0000_0000
            && pow2((e - 1023) as nat) == 2,
        e == 1025 ==> pow2((1075 - e) as nat) == 0x4_0000_0000_0000
            && pow2((e - 1023) as nat) == 4,
        e == 1026 ==> pow2((1075 - e) as nat) == 0x2_0000_0000_0000
            && pow2((e - 1023) as nat) == 8,
        e == 1027 ==> pow2((1075 - e) as nat) == 0x1_0000_0000_0000
            && pow2((e - 1023) as nat) == 16,
        e == 1028 ==> pow2((1075 - e) as nat) == 0x8000_0000_0000
            && pow2((e - 1023) as nat) == 32,
        e == 1029 ==> pow2((1075 - e) as nat) == 0x4000_0000_0000
            && pow2((e - 1023) as nat) == 64,
        e == 1030 ==> pow2((1075 - e) as nat) == 0x2000_0000_0000
            && pow2((e - 1023) as nat) == 128,
{
    vstd::arithmetic::power2::lemma2_to64();
    lemma2_to64_rest();
    if e == 1023 {
        assert((1075 - e) as nat == 52 && (e - 1023) as nat == 0);
    } else if e == 1024 {
        assert((1075 - e) as nat == 51 && (e - 1023) as nat == 1);
    } else if e == 1025 {
        assert((1075 - e) as nat == 50 && (e - 1023) as nat == 2);
    } else if e == 1026 {
        assert((1075 - e) as nat == 49 && (e - 1023) as nat == 3);
    } else if e == 1027 {
        assert((1075 - e) as nat == 48 && (e - 1023) as nat == 4);
    } else if e == 1028 {
        assert((1075 - e) as nat == 47 && (e - 1023) as nat == 5);
    } else if e == 1029 {
        assert((1075 - e) as nat == 46 && (e - 1023) as nat == 6);
    } else {
        assert((1075 - e) as nat == 45 && (e - 1023) as nat == 7);
    }
}

} // verus!
