//! Hashing of a block of 64 words of 32 bits down to 20 bits.
use crate::lemmas::{lemma_pair_step, lemma_top20, lemma_wrapping_mul_add_u64};
use crate::model::{dot, offset_hash, pair_dot, radix2};
use vstd::arithmetic::div_mod::lemma_add_mod_noop;
use vstd::arithmetic::power2::pow2;
use vstd::prelude::*;

verus! {

/// Number of bits in a hash value.
pub const L: usize = 20;

/// Number of words in a block.
pub const D: usize = 64;

/// The dot-product hash: the top twenty bits of `b` plus the sum of all
/// `a[i] * x[i]`, taken modulo `2^64`.
pub fn vec64x32(a: &[u64; 64], b: u64, x: &[u32; 64]) -> (r: u32)
    ensures
        r as nat == offset_hash(20, b, dot(a@, x@, 64)),
        (r as nat) < pow2(20),
{
    let mut sum: u64 = b;
    let mut i: usize = 0;
    proof {
        vstd::arithmetic::div_mod::lemma_small_mod(b as nat, radix2());
    }
    while i < D
        invariant
            i <= 64,
            sum as nat == (b as nat + dot(a@, x@, i as nat)) % radix2(),
        decreases 64 - i,
    {
        proof {
            lemma_wrapping_mul_add_u64(a[i as int], x[i as int] as u64, sum);
            let before = b as int + dot(a@, x@, i as nat);
            let term = a[i as int] as int * x[i as int] as int;
            lemma_add_mod_noop(before, term, radix2() as int);
            vstd::arithmetic::div_mod::lemma_add_mod_noop_right(sum as int, term, radix2() as int);
        }
        sum = sum.wrapping_add(a[i].wrapping_mul(x[i] as u64));
        i = i + 1;
    }
    proof {
        lemma_top20(sum);
    }
    ((sum >> (64 - L)) as u32) & 0xfffff
}

/// The same hash as [`vec64x32`], kept out of line.
#[inline(never)]
pub fn vec_vec64x32_no_inline(a: &[u64; 64], b: u64, x: &[u32; 64]) -> (r: u32)
    ensures
        r as nat == offset_hash(20, b, dot(a@, x@, 64)),
        (r as nat) < pow2(20),
{
    vec64x32(a, b, x)
}

/// The pair hash: the top twenty bits of `b` plus the sum of all products
/// `(a[2i] + x[2i+1]) * (a[2i+1] + x[2i])`, taken modulo `2^64`. Each
/// product hashes a pair of words jointly.
pub fn vec64x32_pair(a: &[u64; 64], b: u64, x: &[u32; 64]) -> (r: u32)
    ensures
        r as nat == offset_hash(20, b, pair_dot(a@, x@, 32)),
        (r as nat) < pow2(20),
{
    let mut sum: u64 = b;
    let mut i: usize = 0;
    proof {
        vstd::arithmetic::div_mod::lemma_small_mod(b as nat, radix2());
    }
    while i < D / 2
        invariant
            i <= 32,
            sum as nat == (b as nat + pair_dot(a@, x@, i as nat)) % radix2(),
        decreases 32 - i,
    {
        proof {
            let (k0, k1) = (a[2 * i as int], a[2 * i as int + 1]);
            let (lo, hi) = (x[2 * i as int] as u64, x[2 * i as int + 1] as u64);
            lemma_pair_step(sum, k0, k1, lo, hi);
            let before = b as int + pair_dot(a@, x@, i as nat);
            let term = (k0 as int + hi as int) * (k1 as int + lo as int);
            lemma_add_mod_noop(before, term, radix2() as int);
            vstd::arithmetic::div_mod::lemma_add_mod_noop_right(sum as int, term, radix2() as int);
        }
        let c: u64 = a[2 * i].wrapping_add(x[2 * i + 1] as u64);
        let d: u64 = a[2 * i + 1].wrapping_add(x[2 * i] as u64);
        sum = sum.wrapping_add(c.wrapping_mul(d));
        i = i + 1;
    }
    proof {
        lemma_top20(sum);
    }
    ((sum >> (64 - L)) as u32) & 0xfffff
}

/// The same hash as [`vec64x32_pair`], kept out of line.
#[inline(never)]
pub fn vec_vec64x32_pair_no_inline(a: &[u64; 64], b: u64, x: &[u32; 64]) -> (r: u32)
    ensures
        r as nat == offset_hash(20, b, pair_dot(a@, x@, 32)),
        (r as nat) < pow2(20),
{
    vec64x32_pair(a, b, x)
}

} // verus!
