//! Order keys for scores: an IEEE-754 single-precision score, given by its
//! bit pattern, maps to a `u32` whose unsigned order is the numbers' total
//! order (negative numbers below positive ones, larger magnitude further out).
use vstd::prelude::*;

verus! {

/// The key of the score with bit pattern `bits`: a negative number has all
/// bits flipped, a non-negative one gets its sign bit set.
pub open spec fn key_of_bits(bits: u32) -> u32 {
    if bits & 0x8000_0000 != 0 {
        !bits
    } else {
        bits | 0x8000_0000
    }
}

/// The bit pattern of the score whose key is `key`.
pub open spec fn bits_of_key(key: u32) -> u32 {
    if key & 0x8000_0000 != 0 {
        key & 0x7fff_ffff
    } else {
        !key
    }
}

pub fn score_key(bits: u32) -> (r: u32)
    ensures
        r == key_of_bits(bits),
{
    if bits & 0x8000_0000 != 0 {
        !bits
    } else {
        bits | 0x8000_0000
    }
}

pub fn score_bits(key: u32) -> (r: u32)
    ensures
        r == bits_of_key(key),
{
    if key & 0x8000_0000 != 0 {
        key & 0x7fff_ffff
    } else {
        !key
    }
}

/// Keys and bit patterns correspond one to one: converting either way and
/// back gives the value started from.
pub proof fn score_key_round_trip(bits: u32, key: u32)
    ensures
        bits_of_key(key_of_bits(bits)) == bits,
        key_of_bits(bits_of_key(key)) == key,
{
    assert(bits & 0x8000_0000 != 0 ==> (!bits) & 0x8000_0000 == 0 && !(!bits) == bits) by (bit_vector);
    assert(bits & 0x8000_0000 == 0 ==> (bits | 0x8000_0000) & 0x8000_0000 != 0 && (bits | 0x8000_0000)
        & 0x7fff_ffff == bits) by (bit_vector);
    assert(key & 0x8000_0000 != 0 ==> (key & 0x7fff_ffff) & 0x8000_0000 == 0 && ((key & 0x7fff_ffff)
        | 0x8000_0000) == key) by (bit_vector);
    assert(key & 0x8000_0000 == 0 ==> (!key) & 0x8000_0000 != 0 && !(!key) == key) by (bit_vector);
}

} // verus!
