use modprime::imp::{
    mmp_p31_u30, mmp_p31_u64, mmp_p61_u60_128, mmp_p89_u64, shift_strong_u32,
    shift_strong_u64_128, shift_u128_128, shift_u32, shift_u64,
};
use modprime::shift::{modprime_shift_no_inline, shift, HASH_WIDTH};

const A89: [u32; 3] = [0xc543be39, 0xf663c8a4, 0x017193ad];
const B89: [u32; 3] = [0x180375ec, 0xd6fbb57d, 0x0010c0af];
const X: u64 = 0x0123456789abcdef;

#[test]
fn mmp_p89_values() {
    assert_eq!(0x9a3b5, mmp_p89_u64(20, A89, B89, X));
    assert_eq!(0x559523cc95b9a3b5, mmp_p89_u64(63, A89, B89, X));
    assert_eq!(0xd59523cc95b9a3b5, mmp_p89_u64(64, A89, B89, X));
    assert_eq!(0, mmp_p89_u64(0, A89, B89, X));
}

#[test]
fn mmp_p89_of_small_values_is_linear() {
    assert_eq!(3 * 7 + 5, mmp_p89_u64(64, [3, 0, 0], [5, 0, 0], 7));
    assert_eq!((3 * 7 + 5) % 16, mmp_p89_u64(4, [3, 0, 0], [5, 0, 0], 7));
}

#[test]
fn mmp_p89_with_the_largest_residues() {
    let pm1 = [0xfffffffe, 0xffffffff, 0x01ffffff];
    // (p - 1) * (2^64 - 1) + (p - 1) = (p - 1) * 2^64, which leaves p - 2^64.
    assert_eq!(
        0xffffffffffffffff,
        mmp_p89_u64(64, pm1, pm1, 0xffffffffffffffff)
    );
}

#[test]
fn mmp_p31_values() {
    assert_eq!(0xadff5, mmp_p31_u30(20, 0x40ed8147, 0x64b07a26, 0x12345678));
    assert_eq!(0, mmp_p31_u30(0, 1, 2, 3));
    assert_eq!(5, mmp_p31_u30(30, 1, 2, 3));
    // (p - 1)^2 + (p - 1) is a multiple of p.
    assert_eq!(0, mmp_p31_u30(30, 0x7ffffffe, 0x7ffffffe, 0x7ffffffe));
    // (p - 1) * 1 + 1 = p leaves 0; one less leaves p - 1.
    assert_eq!(0, mmp_p31_u30(30, 0x7ffffffe, 1, 1));
    assert_eq!(0x3ffffffe, mmp_p31_u30(30, 0x7ffffffe, 0, 1));
}

#[test]
fn mmp_p31_triple_values() {
    let a = [0x68dc5b2d, 0x29ad0bce, 0x278a331a];
    let b = [0x3e4f5b23, 0x2e47ea16, 0x3c665bad];
    assert_eq!(0xeea4a, mmp_p31_u64(20, a, b, X));
    assert_eq!(0x1def139b, mmp_p31_u64(30, a, b, 0xffffffffffffffff));
    assert_eq!(0, mmp_p31_u64(0, a, b, X));
}

#[test]
fn mmp_p31_triple_is_three_hashes() {
    let a = [0x68dc5b2d, 0x29ad0bce, 0x278a331a];
    let b = [0x3e4f5b23, 0x2e47ea16, 0x3c665bad];
    let q0 = mmp_p31_u30(20, a[0], b[0], (X & 0x3fffffff) as u32);
    let q1 = mmp_p31_u30(20, a[1], b[1], ((X >> 30) & 0x3fffffff) as u32);
    let q2 = mmp_p31_u30(20, a[2], b[2], (X >> 60) as u32);
    assert_eq!(q0 ^ q1 ^ q2, mmp_p31_u64(20, a, b, X));
}

#[test]
fn mmp_p61_values() {
    assert_eq!(
        0xe3927,
        mmp_p61_u60_128(20, 0x02f52fcd0b6474c3, 0x0cb11e6766f6e421, X)
    );
    let pm1 = 0x1ffffffffffffffe;
    assert_eq!(0, mmp_p61_u60_128(60, pm1, pm1, pm1));
    assert_eq!(3 * 7 + 5, mmp_p61_u60_128(60, 3, 5, 7));
    assert_eq!(0, mmp_p61_u60_128(0, 3, 5, 7));
}

#[test]
fn shift_values() {
    assert_eq!(0x1efd3, shift_u32(20, 0x3bca40c7, 0x12345678));
    assert_eq!(0x1efd3748, shift_u32(32, 0x3bca40c7, 0x12345678));
    assert_eq!(0xd99a5, shift_u64(20, 0xa570f20b9bd5adfb, X));
    assert_eq!(0xd99a5d7422786c55, shift_u64(64, 0xa570f20b9bd5adfb, X));
    let a = 0x2cb56e50f9538749b4a1648382ba0d59;
    let x = 0x0123456789abcdef0fedcba987654321;
    assert_eq!(0x2d84a, shift_u128_128(20, a, x));
    assert_eq!(0x2d84a9dfce00660cefbc735cbe970379, shift_u128_128(128, a, x));
}

#[test]
fn shift_to_no_bits_is_zero() {
    assert_eq!(0, shift_u32(0, 0xffffffff, 0xffffffff));
    assert_eq!(0, shift_u64(0, 0xffffffffffffffff, 0xffffffffffffffff));
    assert_eq!(0, shift_u128_128(0, u128::MAX, u128::MAX));
    assert_eq!(0, shift_strong_u32(0, u64::MAX, u64::MAX, u32::MAX));
    assert_eq!(0, shift_strong_u64_128(0, u128::MAX, u128::MAX, u64::MAX));
}

#[test]
fn shift_strong_values() {
    assert_eq!(
        0x9ece0,
        shift_strong_u32(20, 0x9cb37f1a9cb37f1a, 0x2d8b17362d8b1736, 0x12345678)
    );
    assert_eq!(
        0x9ece0fb9,
        shift_strong_u32(32, 0x9cb37f1a9cb37f1a, 0x2d8b17362d8b1736, 0x12345678)
    );
    let a = 0x6865db19e3d1b4646865db19e3d1b464;
    let b = 0x583bc159d427a991583bc159d427a991;
    assert_eq!(0xd21ec, shift_strong_u64_128(20, a, b, X));
    assert_eq!(0xd21ec0e330cad264, shift_strong_u64_128(64, a, b, X));
}

#[test]
fn shift_strong_adds_the_offset() {
    // With the multiplier zero the hash is the top of the offset.
    assert_eq!(0xabcde, shift_strong_u32(20, 0, 0xabcde00000000000, 77));
    assert_eq!(
        0xabcde,
        shift_strong_u64_128(20, 0, 0xabcde000000000000000000000000000, 77)
    );
}

#[test]
fn shift_to_twenty_bits() {
    assert_eq!(20, HASH_WIDTH);
    assert_eq!(0xa9876, shift(0x7777777777777777, 0xdddddddddddddddd));
    assert_eq!(
        0xa9876,
        modprime_shift_no_inline(0x7777777777777777, 0xdddddddddddddddd)
    );
    assert_eq!(
        shift_u64(20, 0xa570f20b9bd5adfb, X) as u32,
        shift(0xa570f20b9bd5adfb, X)
    );
}

#[test]
fn every_hash_is_below_two_to_the_l() {
    let a31 = [0x68dc5b2d, 0x29ad0bce, 0x278a331a];
    let b31 = [0x3e4f5b23, 0x2e47ea16, 0x3c665bad];
    let mut x: u64 = X;
    for _ in 0..200 {
        x = x.wrapping_mul(0x9e3779b97f4a7c15).wrapping_add(1);
        for l in 0..=30usize {
            let bound = 1u64 << l;
            assert!((mmp_p31_u30(l, a31[0], b31[0], (x & 0x3fffffff) as u32) as u64) < bound);
            assert!((mmp_p31_u64(l, a31, b31, x) as u64) < bound);
            assert!(mmp_p61_u60_128(l, 0x02f52fcd0b6474c3, 0x0cb11e6766f6e421, x >> 4) < bound);
            assert!(mmp_p89_u64(l, A89, B89, x) < bound);
            assert!((shift_u32(l, 0x3bca40c7, x as u32) as u64) < bound);
            assert!(shift_u64(l, 0xa570f20b9bd5adfb, x) < bound);
            let wide = shift_u128_128(l, 0x2cb56e50f9538749b4a1648382ba0d59, x as u128);
            assert!(wide < bound as u128);
            assert!((shift_strong_u32(l, x, !x, x as u32) as u64) < bound);
            assert!(shift_strong_u64_128(l, x as u128, !x as u128, x) < bound);
        }
    }
}
