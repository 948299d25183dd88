//! The inner loops of a measurement: every hash of an input is folded into
//! one word by exclusive or, so that no hash goes unused.
use crate::bench::{pair_shift_block, vector_shift_block};
use crate::imp::{
    mmp_p31_u30, mmp_p31_u64, mmp_p61_u60_128, mmp_p89_u64, shift_strong_u32,
    shift_strong_u64_128, shift_u128_128, shift_u32, shift_u64, M31, M61,
};
use crate::model::{
    filter_fresh, limbs3, mmp, mmp31_triple, multiply_shift, multiply_shift_strong, p31, p61,
    p89, pair_digest, pair_run, vector_digest, vector_run,
};
use vstd::arithmetic::power2::lemma2_to64;
use vstd::prelude::*;

verus! {

/// Number of bits in the hashes that are folded.
pub const L: usize = 20;

/// The exclusive or of `tmp` with every hash of a sequence.
pub open spec fn xor_fold(tmp: u32, hashes: Seq<u32>) -> u32
    decreases hashes.len(),
{
    if hashes.len() == 0 {
        tmp
    } else {
        xor_fold(tmp, hashes.drop_last()) ^ hashes.last()
    }
}

/// One more hash is one more exclusive or.
proof fn lemma_xor_fold_step(tmp: u32, hashes: Seq<u32>, i: int)
    requires
        0 <= i < hashes.len(),
    ensures
        xor_fold(tmp, hashes.take(i + 1)) == xor_fold(tmp, hashes.take(i)) ^ hashes[i],
{
    assert(hashes.take(i + 1).drop_last() =~= hashes.take(i));
}

/// The multiply-shift hashes of 32-bit inputs at twenty bits.
pub open spec fn shift_u32_hashes(a: u32, input: Seq<u32>) -> Seq<u32> {
    Seq::new(input.len(), |i: int| multiply_shift(32, 20, a as nat, input[i] as nat) as u32)
}

/// Folds the multiply-shift hash of every 32-bit input, at twenty bits,
/// into `tmp`.
pub fn xor_shift_u32(a: u32, input: &[u32], tmp: &mut u32)
    ensures
        *final(tmp) == xor_fold(*old(tmp), shift_u32_hashes(a, input@)),
{
    let ghost start = *tmp;
    let ghost hashes = shift_u32_hashes(a, input@);
    let mut i: usize = 0;
    while i < input.len()
        invariant
            i <= input@.len(),
            hashes == shift_u32_hashes(a, input@),
            *tmp == xor_fold(start, hashes.take(i as int)),
        decreases input@.len() - i,
    {
        let hash: u32 = shift_u32(L, a, input[i]);
        proof {
            lemma_xor_fold_step(start, hashes, i as int);
        }
        *tmp = *tmp ^ hash;
        i = i + 1;
    }
    proof {
        assert(hashes.take(input@.len() as int) =~= hashes);
    }
}

/// The multiply-shift hashes of 64-bit inputs at twenty bits.
pub open spec fn shift_u64_hashes(a: u64, input: Seq<u64>) -> Seq<u32> {
    Seq::new(input.len(), |i: int| multiply_shift(64, 20, a as nat, input[i] as nat) as u32)
}

/// Folds the multiply-shift hash of every 64-bit input, at twenty bits,
/// into `tmp`.
pub fn xor_shift_u64(a: u64, input: &[u64], tmp: &mut u32)
    ensures
        *final(tmp) == xor_fold(*old(tmp), shift_u64_hashes(a, input@)),
{
    let ghost start = *tmp;
    let ghost hashes = shift_u64_hashes(a, input@);
    let mut i: usize = 0;
    while i < input.len()
        invariant
            i <= input@.len(),
            hashes == shift_u64_hashes(a, input@),
            *tmp == xor_fold(start, hashes.take(i as int)),
        decreases input@.len() - i,
    {
        proof {
            lemma2_to64();
        }
        let hash: u32 = shift_u64(L, a, input[i]) as u32;
        proof {
            lemma_xor_fold_step(start, hashes, i as int);
        }
        *tmp = *tmp ^ hash;
        i = i + 1;
    }
    proof {
        assert(hashes.take(input@.len() as int) =~= hashes);
    }
}

/// The multiply-shift hashes of 128-bit inputs at twenty bits.
pub open spec fn shift_u128_hashes(a: u128, input: Seq<u128>) -> Seq<u32> {
    Seq::new(input.len(), |i: int| multiply_shift(128, 20, a as nat, input[i] as nat) as u32)
}

/// Folds the multiply-shift hash of every 128-bit input, at twenty bits,
/// into `tmp`.
pub fn xor_shift_u128(a: u128, input: &[u128], tmp: &mut u32)
    ensures
        *final(tmp) == xor_fold(*old(tmp), shift_u128_hashes(a, input@)),
{
    let ghost start = *tmp;
    let ghost hashes = shift_u128_hashes(a, input@);
    let mut i: usize = 0;
    while i < input.len()
        invariant
            i <= input@.len(),
            hashes == shift_u128_hashes(a, input@),
            *tmp == xor_fold(start, hashes.take(i as int)),
        decreases input@.len() - i,
    {
        proof {
            lemma2_to64();
        }
        let hash: u32 = shift_u128_128(L, a, input[i]) as u32;
        proof {
            lemma_xor_fold_step(start, hashes, i as int);
        }
        *tmp = *tmp ^ hash;
        i = i + 1;
    }
    proof {
        assert(hashes.take(input@.len() as int) =~= hashes);
    }
}

/// The strong multiply-shift hashes of 32-bit inputs at twenty bits.
pub open spec fn shift_strong_u32_hashes(a: u64, b: u64, input: Seq<u32>) -> Seq<u32> {
    Seq::new(
        input.len(),
        |i: int| multiply_shift_strong(64, 20, a as nat, b as nat, input[i] as nat) as u32,
    )
}

/// Folds the strong multiply-shift hash of every 32-bit input, at twenty
/// bits, into `tmp`.
pub fn xor_shift_strong_u32(a: u64, b: u64, input: &[u32], tmp: &mut u32)
    ensures
        *final(tmp) == xor_fold(*old(tmp), shift_strong_u32_hashes(a, b, input@)),
{
    let ghost start = *tmp;
    let ghost hashes = shift_strong_u32_hashes(a, b, input@);
    let mut i: usize = 0;
    while i < input.len()
        invariant
            i <= input@.len(),
            hashes == shift_strong_u32_hashes(a, b, input@),
            *tmp == xor_fold(start, hashes.take(i as int)),
        decreases input@.len() - i,
    {
        let hash: u32 = shift_strong_u32(L, a, b, input[i]);
        proof {
            lemma_xor_fold_step(start, hashes, i as int);
        }
        *tmp = *tmp ^ hash;
        i = i + 1;
    }
    proof {
        assert(hashes.take(input@.len() as int) =~= hashes);
    }
}

/// The strong multiply-shift hashes of 64-bit inputs at twenty bits.
pub open spec fn shift_strong_u64_hashes(a: u128, b: u128, input: Seq<u64>) -> Seq<u32> {
    Seq::new(
        input.len(),
        |i: int| multiply_shift_strong(128, 20, a as nat, b as nat, input[i] as nat) as u32,
    )
}

/// Folds the strong multiply-shift hash of every 64-bit input, at twenty
/// bits, into `tmp`.
pub fn xor_shift_strong_u64(a: u128, b: u128, input: &[u64], tmp: &mut u32)
    ensures
        *final(tmp) == xor_fold(*old(tmp), shift_strong_u64_hashes(a, b, input@)),
{
    let ghost start = *tmp;
    let ghost hashes = shift_strong_u64_hashes(a, b, input@);
    let mut i: usize = 0;
    while i < input.len()
        invariant
            i <= input@.len(),
            hashes == shift_strong_u64_hashes(a, b, input@),
            *tmp == xor_fold(start, hashes.take(i as int)),
        decreases input@.len() - i,
    {
        proof {
            lemma2_to64();
        }
        let hash: u32 = shift_strong_u64_128(L, a, b, input[i]) as u32;
        proof {
            lemma_xor_fold_step(start, hashes, i as int);
        }
        *tmp = *tmp ^ hash;
        i = i + 1;
    }
    proof {
        assert(hashes.take(input@.len() as int) =~= hashes);
    }
}

/// The hashes modulo `2^31 - 1` of the inputs at twenty bits.
pub open spec fn mmp_p31_u30_hashes(a: u32, b: u32, input: Seq<u32>) -> Seq<u32> {
    Seq::new(input.len(), |i: int| mmp(p31(), 20, a as nat, b as nat, input[i] as nat) as u32)
}

/// Folds the hash modulo `2^31 - 1` of every input, at twenty bits, into
/// `tmp`. Coefficients and inputs lie below the prime.
pub fn xor_mmp_p31_u30(a: u32, b: u32, input: &[u32], tmp: &mut u32)
    requires
        a < M31,
        b < M31,
        forall|i: int| 0 <= i < input@.len() ==> input@[i] < M31,
    ensures
        *final(tmp) == xor_fold(*old(tmp), mmp_p31_u30_hashes(a, b, input@)),
{
    let ghost start = *tmp;
    let ghost hashes = mmp_p31_u30_hashes(a, b, input@);
    let mut i: usize = 0;
    while i < input.len()
        invariant
            i <= input@.len(),
            hashes == mmp_p31_u30_hashes(a, b, input@),
            a < M31,
            b < M31,
            forall|i: int| 0 <= i < input@.len() ==> input@[i] < M31,
            *tmp == xor_fold(start, hashes.take(i as int)),
        decreases input@.len() - i,
    {
        let hash: u32 = mmp_p31_u30(L, a, b, input[i]);
        proof {
            lemma_xor_fold_step(start, hashes, i as int);
        }
        *tmp = *tmp ^ hash;
        i = i + 1;
    }
    proof {
        assert(hashes.take(input@.len() as int) =~= hashes);
    }
}

/// The triple hashes modulo `2^31 - 1` of 64-bit inputs at twenty bits.
pub open spec fn mmp_p31_u64_hashes(a: [u32; 3], b: [u32; 3], input: Seq<u64>) -> Seq<u32> {
    Seq::new(input.len(), |i: int| mmp31_triple(20, a, b, input[i]))
}

/// Folds the triple hash modulo `2^31 - 1` of every 64-bit input, at twenty
/// bits, into `tmp`. The coefficients lie below the prime.
pub fn xor_mmp_p31_u64(a: [u32; 3], b: [u32; 3], input: &[u64], tmp: &mut u32)
    requires
        forall|k: int| 0 <= k < 3 ==> a[k] < M31 && b[k] < M31,
    ensures
        *final(tmp) == xor_fold(*old(tmp), mmp_p31_u64_hashes(a, b, input@)),
{
    let ghost start = *tmp;
    let ghost hashes = mmp_p31_u64_hashes(a, b, input@);
    let mut i: usize = 0;
    while i < input.len()
        invariant
            i <= input@.len(),
            hashes == mmp_p31_u64_hashes(a, b, input@),
            forall|k: int| 0 <= k < 3 ==> a[k] < M31 && b[k] < M31,
            *tmp == xor_fold(start, hashes.take(i as int)),
        decreases input@.len() - i,
    {
        let hash: u32 = mmp_p31_u64(L, a, b, input[i]);
        proof {
            lemma_xor_fold_step(start, hashes, i as int);
        }
        *tmp = *tmp ^ hash;
        i = i + 1;
    }
    proof {
        assert(hashes.take(input@.len() as int) =~= hashes);
    }
}

/// The hashes modulo `2^61 - 1` of the inputs at twenty bits.
pub open spec fn mmp_p61_hashes(a: u64, b: u64, input: Seq<u32>) -> Seq<u32> {
    Seq::new(input.len(), |i: int| mmp(p61(), 20, a as nat, b as nat, input[i] as nat) as u32)
}

/// Folds the hash modulo `2^61 - 1` of every input, at twenty bits, into
/// `tmp`. The coefficients lie below the prime.
pub fn xor_mmp_p61(a: u64, b: u64, input: &[u32], tmp: &mut u32)
    requires
        a < M61,
        b < M61,
    ensures
        *final(tmp) == xor_fold(*old(tmp), mmp_p61_hashes(a, b, input@)),
{
    let ghost start = *tmp;
    let ghost hashes = mmp_p61_hashes(a, b, input@);
    let mut i: usize = 0;
    while i < input.len()
        invariant
            i <= input@.len(),
            hashes == mmp_p61_hashes(a, b, input@),
            a < M61,
            b < M61,
            *tmp == xor_fold(start, hashes.take(i as int)),
        decreases input@.len() - i,
    {
        proof {
            lemma2_to64();
        }
        let hash: u32 = mmp_p61_u60_128(L, a, b, input[i] as u64) as u32;
        proof {
            lemma_xor_fold_step(start, hashes, i as int);
        }
        *tmp = *tmp ^ hash;
        i = i + 1;
    }
    proof {
        assert(hashes.take(input@.len() as int) =~= hashes);
    }
}

/// The hashes modulo `2^89 - 1` of 64-bit inputs at twenty bits.
pub open spec fn mmp_p89_hashes(a: [u32; 3], b: [u32; 3], input: Seq<u64>) -> Seq<u32> {
    Seq::new(input.len(), |i: int| mmp(p89(), 20, limbs3(a), limbs3(b), input[i] as nat) as u32)
}

/// Folds the hash modulo `2^89 - 1` of every 64-bit input, at twenty bits,
/// into `tmp`. The coefficients are residues.
pub fn xor_mmp_p89(a: [u32; 3], b: [u32; 3], input: &[u64], tmp: &mut u32)
    requires
        limbs3(a) < p89(),
        limbs3(b) < p89(),
    ensures
        *final(tmp) == xor_fold(*old(tmp), mmp_p89_hashes(a, b, input@)),
{
    let ghost start = *tmp;
    let ghost hashes = mmp_p89_hashes(a, b, input@);
    let mut i: usize = 0;
    while i < input.len()
        invariant
            i <= input@.len(),
            hashes == mmp_p89_hashes(a, b, input@),
            limbs3(a) < p89(),
            limbs3(b) < p89(),
            *tmp == xor_fold(start, hashes.take(i as int)),
        decreases input@.len() - i,
    {
        proof {
            lemma2_to64();
        }
        let hash: u32 = mmp_p89_u64(L, a, b, input[i]) as u32;
        proof {
            lemma_xor_fold_step(start, hashes, i as int);
        }
        *tmp = *tmp ^ hash;
        i = i + 1;
    }
    proof {
        assert(hashes.take(input@.len() as int) =~= hashes);
    }
}

/// The dot-product hashes of blocks of 64 words at twenty bits.
pub open spec fn vector_shift_blocks_hashes(a: [u64; 65], input: Seq<[u32; 64]>) -> Seq<u32> {
    Seq::new(
        input.len(),
        |i: int| vector_digest(vector_run(filter_fresh(a@), input[i]@), 20) as u32,
    )
}

/// Folds the dot-product hash of every block of 64 words, at twenty bits,
/// into `tmp`.
pub fn xor_vector_shift_blocks(a: [u64; 65], input: &[[u32; 64]], tmp: &mut u32)
    ensures
        *final(tmp) == xor_fold(*old(tmp), vector_shift_blocks_hashes(a, input@)),
{
    let ghost start = *tmp;
    let ghost hashes = vector_shift_blocks_hashes(a, input@);
    let mut i: usize = 0;
    while i < input.len()
        invariant
            i <= input@.len(),
            hashes == vector_shift_blocks_hashes(a, input@),
            *tmp == xor_fold(start, hashes.take(i as int)),
        decreases input@.len() - i,
    {
        let hash: u32 = vector_shift_block(a, &input[i], L);
        proof {
            lemma_xor_fold_step(start, hashes, i as int);
        }
        *tmp = *tmp ^ hash;
        i = i + 1;
    }
    proof {
        assert(hashes.take(input@.len() as int) =~= hashes);
    }
}

/// The pair hashes of blocks of 32 words at twenty bits.
pub open spec fn pair_shift_blocks_hashes(a: [u64; 65], input: Seq<[u64; 32]>) -> Seq<u32> {
    Seq::new(input.len(), |i: int| pair_digest(pair_run(filter_fresh(a@), input[i]@), 20) as u32)
}

/// Folds the pair hash of every block of 32 words, at twenty bits, into
/// `tmp`.
pub fn xor_pair_shift_blocks(a: [u64; 65], input: &[[u64; 32]], tmp: &mut u32)
    ensures
        *final(tmp) == xor_fold(*old(tmp), pair_shift_blocks_hashes(a, input@)),
{
    let ghost start = *tmp;
    let ghost hashes = pair_shift_blocks_hashes(a, input@);
    let mut i: usize = 0;
    while i < input.len()
        invariant
            i <= input@.len(),
            hashes == pair_shift_blocks_hashes(a, input@),
            *tmp == xor_fold(start, hashes.take(i as int)),
        decreases input@.len() - i,
    {
        let hash: u32 = pair_shift_block(a, &input[i], L);
        proof {
            lemma_xor_fold_step(start, hashes, i as int);
        }
        *tmp = *tmp ^ hash;
        i = i + 1;
    }
    proof {
        assert(hashes.take(input@.len() as int) =~= hashes);
    }
}

} // verus!
