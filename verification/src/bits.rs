//! Bit-level model shared by the pool and the sampler.
//!
//! Bytes are read most-significant bit first, so the bit stream of a pulse
//! starts with the high bit of its first byte.

use vstd::prelude::*;

verus! {

/// Bit `j` of byte `b`, counting the most significant bit as bit 0.
pub open spec fn byte_bit(b: u8, j: int) -> bool
    recommends
        0 <= j < 8,
{
    (b >> ((7 - j) as u8)) & 1 == 1
}

/// The bit stream of a byte sequence: each byte contributes eight bits,
/// most significant first.
pub open spec fn bits_of_bytes(bytes: Seq<u8>) -> Seq<bool> {
    Seq::new(bytes.len() * 8, |t: int| byte_bit(bytes[t / 8], t % 8))
}

/// Value of a bit string read most-significant-bit first, right-aligned:
/// the first bit carries the highest weight.
pub open spec fn bits_value(bits: Seq<bool>) -> nat
    decreases bits.len(),
{
    if bits.len() == 0 {
        0
    } else {
        2 * bits_value(bits.drop_last()) + (if bits.last() {
            1nat
        } else {
            0nat
        })
    }
}

} // verus!
