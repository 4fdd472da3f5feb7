//! Single-precision numbers as their IEEE 754 bit patterns.
//!
//! The library never computes with such a number. It carries the 32 bits
//! from where they are read to where they are written, and changes a sign
//! where the format asks for it.

use vstd::prelude::*;

verus! {

/// The bit that holds the sign.
pub const SIGN_BIT: u32 = 0x8000_0000;

/// The pattern of the number 0.
pub const ZERO: u32 = 0;

/// The pattern of the number 1.
pub const ONE: u32 = 0x3F80_0000;

/// The pattern of the number -1.
pub const MINUS_ONE: u32 = 0xBF80_0000;

/// The pattern of the number with the opposite sign: the sign bit is
/// flipped and all other bits stay.
pub open spec fn negated(bits: u32) -> u32 {
    if bits >= SIGN_BIT {
        (bits - SIGN_BIT) as u32
    } else {
        (bits + SIGN_BIT) as u32
    }
}

/// Flips the sign of the number that `bits` stands for.
pub fn negate(bits: u32) -> (r: u32)
    ensures
        r == negated(bits),
{
    if bits >= SIGN_BIT {
        bits - SIGN_BIT
    } else {
        bits + SIGN_BIT
    }
}

} // verus!
