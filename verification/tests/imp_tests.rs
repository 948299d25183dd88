use modprime::imp::{mmp_p31_u30, PreprocPolyU64D32};
use modprime::modprime::{modulo, multiply_add};

#[test]
fn imp_test_multiply_small() {
    let r = multiply_add([1, 0, 0], [0, 0, 0], [5, 0]);
    assert_eq!([5, 0, 0, 0, 0], r);
}

#[test]
fn imp_test_multiply_big() {
    let r = multiply_add(
        [0x77777777, 0xdddddddd, 0x22222222],
        [0, 0, 0],
        [0xeeeeeeee, 0x33333333],
    );
    assert_eq!(
        [0xd4c3b2a2, 0xcccccccc, 0x56789abb, 0x789abcdf, 0x6d3a06d],
        r
    );
}

#[test]
fn imp_test_multiply_max() {
    let r = multiply_add(
        [0xffffffff, 0xffffffff, 0xffffffff],
        [0, 0, 0],
        [0xffffffff, 0xffffffff],
    );
    assert_eq!([1, 0, 4294967295, 4294967294, 4294967295], r);
}

#[test]
fn imp_test_multiply_add_small() {
    let r = multiply_add([1, 0, 0], [3, 0, 0], [5, 0]);
    assert_eq!([8, 0, 0, 0, 0], r);
}

#[test]
fn imp_test_multiply_add_big() {
    let r = multiply_add(
        [0x77777777, 0xdddddddd, 0x22222222],
        [0x55555555, 0xcccccccc, 0xffffffff],
        [0xeeeeeeee, 0x33333333],
    );
    assert_eq!(
        [706283511, 2576980377, 1450744507, 2023406816, 114532461],
        r
    );
}

#[test]
fn imp_test_multiply_add_max() {
    let r = multiply_add(
        [0xffffffff, 0xffffffff, 0xffffffff],
        [0xffffffff, 0xffffffff, 0xffffffff],
        [0xffffffff, 0xffffffff],
    );
    assert_eq!([0, 0, 0xffffffff, 0xffffffff, 0xffffffff], r);
}

#[test]
fn imp_test_modulo_small() {
    let r = modulo([273, 0, 0, 0, 0]);
    assert_eq!(273, r);
}

#[test]
fn imp_test_modulo_big() {
    let r = modulo([0x77777777, 0x11111111, 0xdddddddd, 0xbbbbbbbb, 0x22222222]);
    assert_eq!(0x55565, r);
}

#[test]
fn imp_test_modulo_max1() {
    let r = modulo([0xffffffff, 0xffffffff, 0xffffffff, 0xffffffff, 0xffffffff]);
    assert_eq!(0xfffff, r);
}

#[test]
fn imp_test_modulo_max2() {
    // p mod p = 0, so (p mod p) mod m = 0.
    let r = modulo([0xffffffff, 0xffffffff, 0x1ffffff, 0, 0]);
    assert_eq!(0, r);
}

#[test]
fn imp_test_modulo_max3() {
    // (p - 1 mod p) mod m
    let r = modulo([0xfffffffe, 0xffffffff, 0x1ffffff, 0, 0]);
    assert_eq!(0xffffe, r);
}

#[test]
fn test_mmp31() {
    assert_eq!(11_126_486, mmp_p31_u30(30, 1234, 5678, 9012));
    assert_eq!(
        0x095df80d,
        mmp_p31_u30(30, 0x6d9e78c5, 0x4019affa, 0x770e288c)
    );
}

#[test]
fn imp_test_poly_speedup_64() {
    let mut h = PreprocPolyU64D32::new(
        [0xffffffffffffffff; 65],
        [0xffffffffffffffff; 65],
        [0xfffffffe, 0xffffffff, 0x01ffffff],
        [0xfffffffe, 0xffffffff, 0x01ffffff],
        [0xfffffffe, 0xffffffff, 0x01ffffff],
    );
    for &x in &[0xffffffffffffffff; 1024][..] {
        h.write_u64(x);
    }
    assert_eq!(0xfffffffffffffffe, h.finish(64));
}
