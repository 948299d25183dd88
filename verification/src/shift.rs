//! Multiply-shift hashing of 64-bit words down to 20 bits.
use crate::imp::shift_u64;
use crate::model::multiply_shift;
use vstd::arithmetic::power2::{lemma2_to64, pow2};
use vstd::prelude::*;

verus! {

/// Number of bits in a hash value.
pub const HASH_WIDTH: u8 = 20;

/// Hashes `x` with the multiplier `a`: the top twenty bits of `a * x mod
/// 2^64`.
pub fn shift(a: u64, x: u64) -> (r: u32)
    ensures
        r as nat == multiply_shift(64, 20, a as nat, x as nat),
        (r as nat) < pow2(20),
{
    proof {
        lemma2_to64();
    }
    shift_u64(20, a, x) as u32
}

/// The same hash as [`shift`], kept out of line.
#[inline(never)]
pub fn modprime_shift_no_inline(a: u64, x: u64) -> (r: u32)
    ensures
        r as nat == multiply_shift(64, 20, a as nat, x as nat),
        (r as nat) < pow2(20),
{
    shift(a, x)
}

} // verus!
