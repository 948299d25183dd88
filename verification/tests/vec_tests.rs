use modprime::imp::{PairShiftU64D32, VectorShiftU32D64};
use modprime::string::prefix64x32_pair;
use modprime::vec::{
    vec64x32, vec64x32_pair, vec_vec64x32_no_inline, vec_vec64x32_pair_no_inline, D, L,
};

fn keys() -> [u64; 64] {
    let mut k = [0u64; 64];
    for i in 0..64 {
        k[i] = 0x9e3779b97f4a7c15u64.wrapping_mul(i as u64 + 1);
    }
    k
}

fn lanes() -> [u32; 64] {
    let mut x = [0u32; 64];
    for i in 0..64 {
        x[i] = 0x85ebca6bu32.wrapping_mul(i as u32 + 3);
    }
    x
}

#[test]
fn block_constants() {
    assert_eq!(20, L);
    assert_eq!(64, D);
}

#[test]
fn vec64x32_values() {
    assert_eq!(0xddf00, vec64x32(&keys(), 0x0123456789abcdef, &lanes()));
    assert_eq!(0xddf00, vec_vec64x32_no_inline(&keys(), 0x0123456789abcdef, &lanes()));
    // Without input the hash is the top of the offset.
    assert_eq!(0xabcde, vec64x32(&keys(), 0xabcde00000000000, &[0; 64]));
}

#[test]
fn vec64x32_pair_values() {
    assert_eq!(0x7ef00, vec64x32_pair(&keys(), 0x0123456789abcdef, &lanes()));
    assert_eq!(
        0x7ef00,
        vec_vec64x32_pair_no_inline(&keys(), 0x0123456789abcdef, &lanes())
    );
}

#[test]
fn vec64x32_of_a_single_product() {
    let mut a = [0u64; 64];
    let mut x = [0u32; 64];
    a[5] = 3 << 44;
    x[5] = 7;
    assert_eq!(3 * 7 + 5, vec64x32(&a, 5 << 44, &x));
}

#[test]
fn vec64x32_pair_of_a_single_pair() {
    // Keys 2^22 * 2 and 2^22 * 3 on the first pair; every other pair adds 0.
    let mut a = [0u64; 64];
    let x = [0u32; 64];
    a[0] = 2 << 22;
    a[1] = 3 << 22;
    assert_eq!(2 * 3 + 9, vec64x32_pair(&a, 9 << 44, &x));
}

#[test]
fn vec64x32_wraps() {
    let a = [0xffffffffffffffff; 64];
    let x = [0xffffffff; 64];
    let r = vec64x32(&a, 0xffffffffffffffff, &x);
    // 64 * (2^64 - 1) * (2^32 - 1) + 2^64 - 1, modulo 2^64, is 2^64 - 2^38 + 63.
    assert_eq!(0xfffff, r);
    let r = vec64x32_pair(&a, 0xffffffffffffffff, &x);
    // Each pair adds (2^32 - 2)^2, so the sum is 2^69 - 2^39 + 127 modulo 2^64.
    assert_eq!(((0u64.wrapping_sub(1 << 39).wrapping_add(127)) >> 44) as u32, r);
}

#[test]
fn vector_filter_agrees_with_vec64x32() {
    let k = keys();
    let mut with_offset = [0u64; 65];
    with_offset[..64].copy_from_slice(&k);
    with_offset[64] = 0x0123456789abcdef;
    let mut f = VectorShiftU32D64::new(with_offset);
    for v in lanes() {
        f.write_u32(v);
    }
    assert_eq!(vec64x32(&k, 0x0123456789abcdef, &lanes()), f.finish(20));
}

#[test]
fn pair_filter_agrees_with_vec64x32_pair() {
    let k = keys();
    let x = lanes();
    let mut with_offset = [0u64; 65];
    with_offset[..64].copy_from_slice(&k);
    with_offset[64] = 0x0123456789abcdef;
    let mut f = PairShiftU64D32::new(with_offset);
    for i in 0..32 {
        f.write_u64((x[2 * i] as u64) | ((x[2 * i + 1] as u64) << 32));
    }
    assert_eq!(vec64x32_pair(&k, 0x0123456789abcdef, &x), f.finish(20));
    assert_eq!(
        vec64x32_pair(&k, 0x0123456789abcdef, &x),
        prefix64x32_pair(&with_offset, &x)
    );
}
