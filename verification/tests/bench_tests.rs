use modprime::bench::{
    blocks_u32, blocks_u64, inputs_u30, pair_shift_block, poly_words, preproc_poly_words,
    repetitions, vector_shift_block, widen_u128, widen_u64, words_u32, words_u64,
};
use modprime::fold::{
    xor_mmp_p31_u30, xor_mmp_p31_u64, xor_mmp_p61, xor_mmp_p89, xor_pair_shift_blocks,
    xor_shift_strong_u32, xor_shift_strong_u64, xor_shift_u128, xor_shift_u32, xor_shift_u64,
    xor_vector_shift_blocks,
};
use modprime::imp::{
    mmp_p31_u30, mmp_p31_u64, mmp_p61_u60_128, mmp_p89_u64, shift_strong_u32,
    shift_strong_u64_128, shift_u128_128, shift_u32, shift_u64, PairShiftU64D32, PolyU64,
    PreprocPolyU64D32, VectorShiftU32D64,
};
use modprime::output::OutputMode;

const A: [u32; 3] = [0xc543be39, 0xf663c8a4, 0x017193ad];
const B: [u32; 3] = [0x180375ec, 0xd6fbb57d, 0x0010c0af];
const C: [u32; 3] = [0x55347e64, 0xb12fef1f, 0x0085951a];

fn keys(step: u64, first: u64) -> [u64; 65] {
    let mut k = [0u64; 65];
    for i in 0..65 {
        k[i] = step.wrapping_mul(i as u64 + first);
    }
    k
}

fn word(i: u64) -> u64 {
    0xc2b2ae3d27d4eb4fu64.wrapping_mul(i + 5)
}

#[test]
fn words_are_read_big_endian() {
    let raw = [0x01, 0x02, 0x03, 0x04, 0xff, 0xfe, 0xfd, 0xfc];
    assert_eq!(vec![0x01020304, 0xfffefdfc], words_u32(&raw));
    assert_eq!(vec![0x01020304fffefdfc], words_u64(&raw));
}

#[test]
fn bytes_that_fill_no_word_are_left_out() {
    let raw = [0x01, 0x02, 0x03, 0x04, 0x05, 0x06, 0x07, 0x08, 0x09, 0x0a, 0x0b];
    assert_eq!(vec![0x01020304, 0x05060708], words_u32(&raw));
    assert_eq!(vec![0x0102030405060708], words_u64(&raw));
    assert_eq!(Vec::<u32>::new(), words_u32(&raw[..3]));
    assert_eq!(Vec::<u64>::new(), words_u64(&raw[..7]));
    assert_eq!(Vec::<u32>::new(), words_u32(&[]));
}

#[test]
fn inputs_keep_their_low_30_bits() {
    let raw = [0xff, 0xff, 0xff, 0xff, 0x40, 0x00, 0x00, 0x01, 0x3f, 0xff, 0xff, 0xfe, 0x99];
    assert_eq!(vec![0x3fffffff, 0x00000001, 0x3ffffffe], inputs_u30(&raw));
    assert_eq!(Vec::<u32>::new(), inputs_u30(&raw[..2]));
}

#[test]
fn widening_keeps_the_values() {
    let words = [0, 1, 0x3fffffff, 0xffffffff];
    assert_eq!(vec![0u64, 1, 0x3fffffff, 0xffffffff], widen_u64(&words));
    assert_eq!(vec![0u128, 1, 0x3fffffff, 0xffffffff], widen_u128(&words));
    assert_eq!(Vec::<u64>::new(), widen_u64(&[]));
    assert_eq!(Vec::<u128>::new(), widen_u128(&[]));
}

#[test]
fn blocks_of_256_bytes() {
    let mut raw = Vec::new();
    for i in 0..600u32 {
        raw.push((i % 251) as u8);
    }
    let b32 = blocks_u32(&raw);
    let b64 = blocks_u64(&raw);
    assert_eq!(2, b32.len());
    assert_eq!(2, b64.len());
    assert_eq!(0x00010203, b32[0][0]);
    assert_eq!(0x04050607, b32[0][1]);
    assert_eq!(0x0001020304050607, b64[0][0]);
    // Byte 256 is 256 % 251 = 5.
    assert_eq!(0x05060708, b32[1][0]);
    assert_eq!(0x05060708090a0b0c, b64[1][0]);
    for k in 0..2 {
        for j in 0..32 {
            let hi = b32[k][2 * j] as u64;
            let lo = b32[k][2 * j + 1] as u64;
            assert_eq!((hi << 32) | lo, b64[k][j]);
        }
        assert_eq!(words_u32(&raw[256 * k..256 * k + 256]), b32[k].to_vec());
    }
    assert_eq!(0, blocks_u32(&raw[..255]).len());
    assert_eq!(1, blocks_u64(&raw[..256]).len());
}

#[test]
fn repetitions_round_up() {
    assert_eq!((1, 7), repetitions(1, 7));
    assert_eq!((1, 7), repetitions(7, 7));
    assert_eq!((2, 14), repetitions(8, 7));
    assert_eq!((0, 0), repetitions(0, 7));
    assert_eq!((100_000_000, 100_000_000), repetitions(100_000_000, 1));
    assert_eq!((3, 3_000_000), repetitions(2_000_001, 1_000_000));
}

#[test]
fn one_block_through_the_vector_filter() {
    let a = keys(0x9e3779b97f4a7c15, 1);
    let mut block = [0u32; 64];
    for i in 0..64 {
        block[i] = 0x85ebca6bu32.wrapping_mul(i as u32 + 3);
    }
    assert_eq!(0x08e2a, vector_shift_block(a, &block, 20));
    let mut h = VectorShiftU32D64::new(a);
    for &v in &block {
        h.write_u32(v);
    }
    assert_eq!(h.finish(32), vector_shift_block(a, &block, 32));
}

#[test]
fn one_block_through_the_pair_filter() {
    let a = keys(0x9e3779b97f4a7c15, 1);
    let mut block = [0u64; 32];
    for i in 0..32 {
        block[i] = word(i as u64);
    }
    assert_eq!(0xf1c10, pair_shift_block(a, &block, 20));
    let mut h = PairShiftU64D32::new(a);
    for &w in &block {
        h.write_u64(w);
    }
    assert_eq!(h.finish(32), pair_shift_block(a, &block, 32));
}

#[test]
fn a_string_through_the_polynomial_hasher() {
    let words: Vec<u64> = (0..10).map(word).collect();
    assert_eq!(0x534cd, poly_words(A, B, C, &words, 20));
    assert_eq!(0x89c468de02b534cd, poly_words(A, B, C, &words, 64));
    assert_eq!(0xd6fbb57d180375ec, poly_words(A, B, C, &[], 64));
    let mut h = PolyU64::new(A, B, C);
    for &w in &words {
        h.write_u64(w);
    }
    assert_eq!(h.finish(33), poly_words(A, B, C, &words, 33));
}

#[test]
fn a_string_through_the_pipeline() {
    let k1 = keys(0x9e3779b97f4a7c15, 1);
    let k2 = keys(0xd6e8feb86659fd93, 2);
    let words: Vec<u64> = (0..70).map(word).collect();
    assert_eq!(
        0x54fd979d14fa2cb2,
        preproc_poly_words(k1, k2, A, B, C, &words, 64)
    );
    assert_eq!(
        0x6bb64eb2bee3d14e,
        preproc_poly_words(k1, k2, A, B, C, &[], 64)
    );
    let mut h = PreprocPolyU64D32::new(k1, k2, A, B, C);
    for &w in &words {
        h.write_u64(w);
    }
    assert_eq!(h.finish(20), preproc_poly_words(k1, k2, A, B, C, &words, 20));
}

#[test]
fn the_pipeline_is_the_polynomial_hash_of_the_packed_string() {
    let k1 = keys(0x9e3779b97f4a7c15, 1);
    let k2 = keys(0xd6e8feb86659fd93, 2);
    for n in [0usize, 1, 32, 33, 64, 100] {
        let words: Vec<u64> = (0..n as u64).map(word).collect();
        let mut packed = Vec::new();
        let mut at = 0;
        loop {
            let end = if n - at > 32 { at + 32 } else { n };
            let mut f1 = PairShiftU64D32::new(k1);
            let mut f2 = PairShiftU64D32::new(k2);
            for &w in &words[at..end] {
                f1.write_u64(w);
                f2.write_u64(w);
            }
            packed.push((f1.finish(32) as u64) | ((f2.finish(32) as u64) << 32));
            at = end;
            if at == n {
                break;
            }
        }
        assert_eq!(
            poly_words(A, B, C, &packed, 64),
            preproc_poly_words(k1, k2, A, B, C, &words, 64),
            "{} words",
            n
        );
    }
}

#[test]
fn output_modes() {
    assert!(OutputMode::Csv.is_csv());
    assert!(!OutputMode::Pretty.is_csv());
    assert!(OutputMode::Pretty.is_pretty());
    assert!(OutputMode::Csv.is_pretty());
}

#[test]
fn folds_are_the_exclusive_or_of_the_hashes() {
    let raw: Vec<u8> = (0..41u32).map(|i| (i * 37 + 11) as u8).collect();
    let in32 = inputs_u30(&raw);
    let in64 = widen_u64(&in32);
    let in128 = widen_u128(&in32);
    assert_eq!(10, in32.len());
    let start = 0x000abcde;

    let mut tmp = start;
    xor_shift_u32(0x3bca40c7, &in32, &mut tmp);
    assert_eq!(in32.iter().fold(start, |t, &x| t ^ shift_u32(20, 0x3bca40c7, x)), tmp);

    let mut tmp = start;
    xor_shift_u64(0xa570f20b9bd5adfb, &in64, &mut tmp);
    let want = in64.iter().fold(start, |t, &x| t ^ shift_u64(20, 0xa570f20b9bd5adfb, x) as u32);
    assert_eq!(want, tmp);

    let a128 = 0x2cb56e50f9538749b4a1648382ba0d59;
    let mut tmp = start;
    xor_shift_u128(a128, &in128, &mut tmp);
    assert_eq!(in128.iter().fold(start, |t, &x| t ^ shift_u128_128(20, a128, x) as u32), tmp);

    let mut tmp = start;
    xor_shift_strong_u32(0x9cb37f1a, 0x2d8b1736, &in32, &mut tmp);
    let want = in32.iter().fold(start, |t, &x| t ^ shift_strong_u32(20, 0x9cb37f1a, 0x2d8b1736, x));
    assert_eq!(want, tmp);

    let (sa, sb) = (0x6865db19e3d1b464u128, 0x583bc159d427a991u128);
    let mut tmp = start;
    xor_shift_strong_u64(sa, sb, &in64, &mut tmp);
    let want = in64.iter().fold(start, |t, &x| t ^ shift_strong_u64_128(20, sa, sb, x) as u32);
    assert_eq!(want, tmp);

    let mut tmp = start;
    xor_mmp_p31_u30(0x40ed8147, 0x64b07a26, &in32, &mut tmp);
    let want = in32.iter().fold(start, |t, &x| t ^ mmp_p31_u30(20, 0x40ed8147, 0x64b07a26, x));
    assert_eq!(want, tmp);

    let a3 = [0x68dc5b2d, 0x29ad0bce, 0x278a331a];
    let b3 = [0x3e4f5b23, 0x2e47ea16, 0x3c665bad];
    let mut tmp = start;
    xor_mmp_p31_u64(a3, b3, &in64, &mut tmp);
    assert_eq!(in64.iter().fold(start, |t, &x| t ^ mmp_p31_u64(20, a3, b3, x)), tmp);

    let (ma, mb) = (0x02f52fcd0b6474c3u64, 0x0cb11e6766f6e421u64);
    let mut tmp = start;
    xor_mmp_p61(ma, mb, &in32, &mut tmp);
    let want = in32.iter().fold(start, |t, &x| t ^ mmp_p61_u60_128(20, ma, mb, x as u64) as u32);
    assert_eq!(want, tmp);

    let mut tmp = start;
    xor_mmp_p89(A, B, &in64, &mut tmp);
    assert_eq!(in64.iter().fold(start, |t, &x| t ^ mmp_p89_u64(20, A, B, x) as u32), tmp);

    // Nothing to fold leaves `tmp` as it is.
    let mut tmp = start;
    xor_shift_u32(0x3bca40c7, &[], &mut tmp);
    assert_eq!(start, tmp);
}

#[test]
fn fold_of_two_known_hashes() {
    // 0xd99a5 is the hash of the first word; the second word hashes to 0.
    let mut tmp = 0;
    xor_shift_u64(0xa570f20b9bd5adfb, &[0x0123456789abcdef, 0], &mut tmp);
    assert_eq!(0xd99a5, tmp);
    xor_shift_u64(0xa570f20b9bd5adfb, &[0x0123456789abcdef], &mut tmp);
    assert_eq!(0, tmp);
}

#[test]
fn folds_over_blocks() {
    let mut raw = Vec::new();
    for i in 0..768u32 {
        raw.push((i * 13 % 251) as u8);
    }
    let a = keys(0x9e3779b97f4a7c15, 1);
    let b32 = blocks_u32(&raw);
    let b64 = blocks_u64(&raw);
    assert_eq!(3, b32.len());
    let mut tmp = 7;
    xor_vector_shift_blocks(a, &b32, &mut tmp);
    assert_eq!(b32.iter().fold(7, |t, blk| t ^ vector_shift_block(a, blk, 20)), tmp);
    let mut tmp = 7;
    xor_pair_shift_blocks(a, &b64, &mut tmp);
    assert_eq!(b64.iter().fold(7, |t, blk| t ^ pair_shift_block(a, blk, 20)), tmp);
}
