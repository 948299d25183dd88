//! Preparing a measurement: raw bytes are read as big-endian words and cut
//! into blocks, the number of passes over a data set is worked out, and a
//! block or a string of words is hashed in one go.
use crate::imp::{PairShiftU64D32, PolyU64, PreprocPolyU64D32, VectorShiftU32D64};
use crate::laws::law_pipeline_agrees_with_poly;
use crate::model::{
    filter_fresh, limbs3, p89, packed, pair_digest, pair_run, pipeline_fresh, pipeline_run,
    pipeline_wf, poly_digest, poly_fresh, poly_run, poly_wf, vector_digest, vector_run,
};
use byteorder::{BigEndian, ByteOrder};
use vstd::arithmetic::power2::pow2;
use vstd::prelude::*;
use vstd::slice::slice_subrange;

verus! {

/// The big-endian 32-bit word that starts at byte `at`.
pub open spec fn be_u32(bytes: Seq<u8>, at: int) -> nat {
    bytes[at] as nat * 0x100_0000 + bytes[at + 1] as nat * 0x1_0000 + bytes[at + 2] as nat * 0x100
        + bytes[at + 3] as nat
}

/// The big-endian 64-bit word that starts at byte `at`.
pub open spec fn be_u64(bytes: Seq<u8>, at: int) -> nat {
    be_u32(bytes, at) * 0x1_0000_0000 + be_u32(bytes, at + 4)
}

/// `byteorder::BigEndian::read_u32_into`: every four bytes of `src` are read
/// as one big-endian word into `dst`, which keeps its length. The call
/// panics unless `src` holds four bytes for each word of `dst`.
#[verifier::external_body]
fn read_u32_into(src: &[u8], dst: &mut Vec<u32>)
    requires
        src@.len() == 4 * old(dst)@.len(),
    ensures
        final(dst)@.len() == old(dst)@.len(),
        forall|i: int| 0 <= i < final(dst)@.len() ==> final(dst)@[i] as nat == be_u32(src@, 4 * i),
{
    BigEndian::read_u32_into(src, dst.as_mut_slice());
}

/// `byteorder::BigEndian::read_u64_into`: every eight bytes of `src` are
/// read as one big-endian word into `dst`, which keeps its length. The call
/// panics unless `src` holds eight bytes for each word of `dst`.
#[verifier::external_body]
fn read_u64_into(src: &[u8], dst: &mut Vec<u64>)
    requires
        src@.len() == 8 * old(dst)@.len(),
    ensures
        final(dst)@.len() == old(dst)@.len(),
        forall|i: int| 0 <= i < final(dst)@.len() ==> final(dst)@[i] as nat == be_u64(src@, 8 * i),
{
    BigEndian::read_u64_into(src, dst.as_mut_slice());
}

/// The 32-bit words of `raw`, big-endian, as far as whole words go.
pub fn words_u32(raw: &[u8]) -> (r: Vec<u32>)
    ensures
        r@.len() == raw@.len() / 4,
        forall|i: int| 0 <= i < r@.len() ==> r@[i] as nat == be_u32(raw@, 4 * i),
{
    let n: usize = raw.len() / 4;
    let whole: &[u8] = slice_subrange(raw, 0, 4 * n);
    let mut words: Vec<u32> = vec![0; n];
    read_u32_into(whole, &mut words);
    words
}

/// The 64-bit words of `raw`, big-endian, as far as whole words go.
pub fn words_u64(raw: &[u8]) -> (r: Vec<u64>)
    ensures
        r@.len() == raw@.len() / 8,
        forall|i: int| 0 <= i < r@.len() ==> r@[i] as nat == be_u64(raw@, 8 * i),
{
    let n: usize = raw.len() / 8;
    let whole: &[u8] = slice_subrange(raw, 0, 8 * n);
    let mut words: Vec<u64> = vec![0; n];
    read_u64_into(whole, &mut words);
    words
}

/// The 32-bit words of `raw`, each cut down to its low 30 bits: inputs that
/// lie below the prime `2^31 - 1`.
pub fn inputs_u30(raw: &[u8]) -> (r: Vec<u32>)
    ensures
        r@.len() == raw@.len() / 4,
        forall|i: int| 0 <= i < r@.len() ==> r@[i] as nat == be_u32(raw@, 4 * i) % 0x4000_0000,
        forall|i: int| 0 <= i < r@.len() ==> r@[i] < 0x4000_0000,
{
    let words: Vec<u32> = words_u32(raw);
    let mut inputs: Vec<u32> = Vec::new();
    let mut i: usize = 0;
    while i < words.len()
        invariant
            i <= words@.len(),
            inputs@.len() == i,
            forall|j: int| 0 <= j < i ==> inputs@[j] as nat == (words@[j] as nat) % 0x4000_0000,
        decreases words@.len() - i,
    {
        let value: u32 = words[i];
        proof {
            assert(value & 0x3fff_ffff == value % 0x4000_0000) by (bit_vector);
        }
        inputs.push(value & 0x3fffffff);
        i = i + 1;
    }
    inputs
}

/// The same values as 64-bit words.
pub fn widen_u64(words: &[u32]) -> (r: Vec<u64>)
    ensures
        r@.len() == words@.len(),
        forall|i: int| 0 <= i < r@.len() ==> r@[i] == words@[i],
{
    let mut wide: Vec<u64> = Vec::new();
    let mut i: usize = 0;
    while i < words.len()
        invariant
            i <= words@.len(),
            wide@.len() == i,
            forall|j: int| 0 <= j < i ==> wide@[j] == words@[j],
        decreases words@.len() - i,
    {
        wide.push(words[i] as u64);
        i = i + 1;
    }
    wide
}

/// The same values as 128-bit words.
pub fn widen_u128(words: &[u32]) -> (r: Vec<u128>)
    ensures
        r@.len() == words@.len(),
        forall|i: int| 0 <= i < r@.len() ==> r@[i] == words@[i],
{
    let mut wide: Vec<u128> = Vec::new();
    let mut i: usize = 0;
    while i < words.len()
        invariant
            i <= words@.len(),
            wide@.len() == i,
            forall|j: int| 0 <= j < i ==> wide@[j] == words@[j],
        decreases words@.len() - i,
    {
        wide.push(words[i] as u128);
        i = i + 1;
    }
    wide
}

/// The blocks of 256 bytes of `raw`, each read as 64 big-endian words of 32
/// bits, as far as whole blocks go.
pub fn blocks_u32(raw: &[u8]) -> (r: Vec<[u32; 64]>)
    ensures
        r@.len() == raw@.len() / 256,
        forall|k: int, j: int|
            0 <= k < r@.len() && 0 <= j < 64 ==> (#[trigger] r@[k][j]) as nat == be_u32(
                raw@,
                256 * k + 4 * j,
            ),
{
    let n: usize = raw.len() / 256;
    let mut blocks: Vec<[u32; 64]> = Vec::new();
    let mut k: usize = 0;
    while k < n
        invariant
            n == raw@.len() / 256,
            256 * n <= raw@.len() <= usize::MAX,
            k <= n,
            blocks@.len() == k,
            forall|b: int, j: int|
                0 <= b < k && 0 <= j < 64 ==> (#[trigger] blocks@[b][j]) as nat == be_u32(
                    raw@,
                    256 * b + 4 * j,
                ),
        decreases n - k,
    {
        let chunk: &[u8] = slice_subrange(raw, 256 * k, 256 * k + 256);
        let words: Vec<u32> = words_u32(chunk);
        let mut block: [u32; 64] = [0;64];
        let mut j: usize = 0;
        while j < 64
            invariant
                j <= 64,
                words@.len() == 64,
                forall|i: int| 0 <= i < j ==> block[i] == words@[i],
            decreases 64 - j,
        {
            block[j] = words[j];
            j = j + 1;
        }
        proof {
            assert forall|i: int| 0 <= i < 64 implies block[i] as nat == be_u32(
                raw@,
                256 * k + 4 * i,
            ) by {
                assert(words@[i] as nat == be_u32(chunk@, 4 * i));
            }
        }
        blocks.push(block);
        k = k + 1;
    }
    blocks
}

/// The blocks of 256 bytes of `raw`, each read as 32 big-endian words of 64
/// bits, as far as whole blocks go.
pub fn blocks_u64(raw: &[u8]) -> (r: Vec<[u64; 32]>)
    ensures
        r@.len() == raw@.len() / 256,
        forall|k: int, j: int|
            0 <= k < r@.len() && 0 <= j < 32 ==> (#[trigger] r@[k][j]) as nat == be_u64(
                raw@,
                256 * k + 8 * j,
            ),
{
    let n: usize = raw.len() / 256;
    let mut blocks: Vec<[u64; 32]> = Vec::new();
    let mut k: usize = 0;
    while k < n
        invariant
            n == raw@.len() / 256,
            256 * n <= raw@.len() <= usize::MAX,
            k <= n,
            blocks@.len() == k,
            forall|b: int, j: int|
                0 <= b < k && 0 <= j < 32 ==> (#[trigger] blocks@[b][j]) as nat == be_u64(
                    raw@,
                    256 * b + 8 * j,
                ),
        decreases n - k,
    {
        let chunk: &[u8] = slice_subrange(raw, 256 * k, 256 * k + 256);
        let words: Vec<u64> = words_u64(chunk);
        let mut block: [u64; 32] = [0;32];
        let mut j: usize = 0;
        while j < 32
            invariant
                j <= 32,
                words@.len() == 32,
                forall|i: int| 0 <= i < j ==> block[i] == words@[i],
            decreases 32 - j,
        {
            block[j] = words[j];
            j = j + 1;
        }
        proof {
            assert forall|i: int| 0 <= i < 32 implies block[i] as nat == be_u64(
                raw@,
                256 * k + 8 * i,
            ) by {
                assert(words@[i] as nat == be_u64(chunk@, 8 * i));
            }
        }
        blocks.push(block);
        k = k + 1;
    }
    blocks
}

/// How often a data set of `num_values` values is passed over so that at
/// least `target_reps` values are hashed, and how many values that makes.
pub fn repetitions(target_reps: u32, num_values: u32) -> (r: (u32, u32))
    requires
        num_values > 0,
        target_reps + num_values <= u32::MAX,
    ensures
        r.0 == (target_reps + num_values - 1) / (num_values as int),
        r.1 == r.0 * num_values,
        r.1 >= target_reps,
        r.1 < target_reps + num_values,
{
    let n: u32 = (target_reps + num_values - 1) / num_values;
    proof {
        let t = (target_reps + num_values - 1) as int;
        vstd::arithmetic::div_mod::lemma_fundamental_div_mod(t, num_values as int);
        vstd::arithmetic::div_mod::lemma_mod_bound(t, num_values as int);
        vstd::arithmetic::mul::lemma_mul_is_commutative(n as int, num_values as int);
    }
    let actual_reps: u32 = n * num_values;
    (n, actual_reps)
}

/// The dot-product hash of one block of 64 words at `l` bits, with the keys
/// `a`: a fresh filter takes every word and finishes.
pub fn vector_shift_block(a: [u64; 65], block: &[u32; 64], l: usize) -> (r: u32)
    requires
        l <= 32,
    ensures
        r as nat == vector_digest(vector_run(filter_fresh(a@), block@), l as nat),
        (r as nat) < pow2(l as nat),
{
    let mut h = VectorShiftU32D64::new(a);
    let mut i: usize = 0;
    while i < 64
        invariant
            i <= 64,
            h@ == vector_run(filter_fresh(a@), block@.take(i as int)),
            h@.count == i,
        decreases 64 - i,
    {
        h.write_u32(block[i]);
        proof {
            assert(block@.take(i + 1).drop_last() =~= block@.take(i as int));
        }
        i = i + 1;
    }
    proof {
        assert(block@.take(64) =~= block@);
    }
    h.finish(l)
}

/// The pair hash of one block of 32 words at `l` bits, with the keys `a`: a
/// fresh filter takes every word and finishes.
pub fn pair_shift_block(a: [u64; 65], block: &[u64; 32], l: usize) -> (r: u32)
    requires
        l <= 32,
    ensures
        r as nat == pair_digest(pair_run(filter_fresh(a@), block@), l as nat),
        (r as nat) < pow2(l as nat),
{
    let mut h = PairShiftU64D32::new(a);
    let mut i: usize = 0;
    while i < 32
        invariant
            i <= 32,
            h@ == pair_run(filter_fresh(a@), block@.take(i as int)),
            h@.count == i,
        decreases 32 - i,
    {
        h.write_u64(block[i]);
        proof {
            assert(block@.take(i + 1).drop_last() =~= block@.take(i as int));
        }
        i = i + 1;
    }
    proof {
        assert(block@.take(32) =~= block@);
    }
    h.finish(l)
}

/// The polynomial hash of a string of words at `l` bits: a fresh hasher
/// takes every word and finishes. The coefficients are residues.
pub fn poly_words(a: [u32; 3], b: [u32; 3], c: [u32; 3], words: &[u64], l: usize) -> (r: u64)
    requires
        l <= 64,
        limbs3(a) < p89(),
        limbs3(b) < p89(),
        limbs3(c) < p89(),
    ensures
        r as nat == poly_digest(
            poly_run(poly_fresh(limbs3(a), limbs3(b), limbs3(c)), words@),
            l as nat,
        ),
        (r as nat) < pow2(l as nat),
{
    let mut h = PolyU64::new(a, b, c);
    let mut i: usize = 0;
    while i < words.len()
        invariant
            i <= words@.len(),
            poly_wf(h@),
            h@ == poly_run(poly_fresh(limbs3(a), limbs3(b), limbs3(c)), words@.take(i as int)),
        decreases words@.len() - i,
    {
        h.write_u64(words[i]);
        proof {
            assert(words@.take(i + 1).drop_last() =~= words@.take(i as int));
        }
        i = i + 1;
    }
    proof {
        assert(words@.take(words@.len() as int) =~= words@);
    }
    h.finish(l)
}

/// The hash that the pipeline gives of a string of words at `l` bits: a
/// fresh pipeline takes every word and finishes. It is the polynomial hash
/// of the packed string, one combined word for each block of 32.
pub fn preproc_poly_words(
    prep1: [u64; 65],
    prep2: [u64; 65],
    a: [u32; 3],
    b: [u32; 3],
    c: [u32; 3],
    words: &[u64],
    l: usize,
) -> (r: u64)
    requires
        l <= 64,
        limbs3(a) < p89(),
        limbs3(b) < p89(),
        limbs3(c) < p89(),
    ensures
        r as nat == poly_digest(
            poly_run(
                poly_fresh(limbs3(a), limbs3(b), limbs3(c)),
                packed(prep1@, prep2@, words@),
            ),
            l as nat,
        ),
        (r as nat) < pow2(l as nat),
{
    let ghost fresh = pipeline_fresh(prep1@, prep2@, limbs3(a), limbs3(b), limbs3(c));
    let mut h = PreprocPolyU64D32::new(prep1, prep2, a, b, c);
    let mut i: usize = 0;
    while i < words.len()
        invariant
            i <= words@.len(),
            pipeline_wf(h@),
            h@ == pipeline_run(fresh, words@.take(i as int)),
        decreases words@.len() - i,
    {
        h.write_u64(words[i]);
        proof {
            assert(words@.take(i + 1).drop_last() =~= words@.take(i as int));
        }
        i = i + 1;
    }
    proof {
        assert(words@.take(words@.len() as int) =~= words@);
        law_pipeline_agrees_with_poly(
            prep1@,
            prep2@,
            limbs3(a),
            limbs3(b),
            limbs3(c),
            words@,
            l as nat,
        );
    }
    h.finish(l)
}

} // verus!
