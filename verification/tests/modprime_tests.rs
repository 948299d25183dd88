use modprime::modprime::{mod_prime, modprime_mod_prime_no_inline, modulo, multiply_add};

#[test]
fn modprime_test_multiply_small() {
    let r = multiply_add([1, 0, 0], [0, 0, 0], [5, 0]);
    assert_eq!([5, 0, 0, 0, 0], r);
}

#[test]
fn modprime_test_multiply_big() {
    let r = multiply_add(
        [0x77777777, 0xdddddddd, 0x22222222],
        [0, 0, 0],
        [0xeeeeeeee, 0x33333333],
    );
    assert_eq!(
        [0xd4c3b2a2, 0xcccccccc, 0x56789abb, 0x789abcdf, 0x6d3a06d],
        r
    );
}

#[test]
fn modprime_test_multiply_max() {
    let r = multiply_add(
        [0xffffffff, 0xffffffff, 0xffffffff],
        [0, 0, 0],
        [0xffffffff, 0xffffffff],
    );
    assert_eq!([1, 0, 4294967295, 4294967294, 4294967295], r);
}

#[test]
fn modprime_test_multiply_add_small() {
    let r = multiply_add([1, 0, 0], [3, 0, 0], [5, 0]);
    assert_eq!([8, 0, 0, 0, 0], r);
}

#[test]
fn modprime_test_multiply_add_big() {
    let r = multiply_add(
        [0x77777777, 0xdddddddd, 0x22222222],
        [0x55555555, 0xcccccccc, 0xffffffff],
        [0xeeeeeeee, 0x33333333],
    );
    assert_eq!(
        [706283511, 2576980377, 1450744507, 2023406816, 114532461],
        r
    );
}

#[test]
fn modprime_test_multiply_add_max() {
    let r = multiply_add(
        [0xffffffff, 0xffffffff, 0xffffffff],
        [0xffffffff, 0xffffffff, 0xffffffff],
        [0xffffffff, 0xffffffff],
    );
    assert_eq!([0, 0, 0xffffffff, 0xffffffff, 0xffffffff], r);
}

#[test]
fn modprime_test_modulo_small() {
    let r = modulo([273, 0, 0, 0, 0]);
    assert_eq!(273, r);
}

#[test]
fn modprime_test_modulo_big() {
    let r = modulo([0x77777777, 0x11111111, 0xdddddddd, 0xbbbbbbbb, 0x22222222]);
    assert_eq!(0x55565, r);
}

#[test]
fn modprime_test_modulo_max1() {
    let r = modulo([0xffffffff, 0xffffffff, 0xffffffff, 0xffffffff, 0xffffffff]);
    assert_eq!(0xfffff, r);
}

#[test]
fn modprime_test_modulo_max2() {
    // p mod p = 0, so (p mod p) mod m = 0.
    let r = modulo([0xffffffff, 0xffffffff, 0x1ffffff, 0, 0]);
    assert_eq!(0, r);
}

#[test]
fn modprime_test_modulo_max3() {
    // (p - 1 mod p) mod m
    let r = modulo([0xfffffffe, 0xffffffff, 0x1ffffff, 0, 0]);
    assert_eq!(0xffffe, r);
}

#[test]
fn modulo_carries_across_limbs() {
    // 2^89 + 1 leaves 2, and p + 2^89 leaves 1: the low limb overflows into
    // the next on the way.
    assert_eq!(2, modulo([1, 0, 0x2000000, 0, 0]));
    assert_eq!(1, modulo([0xffffffff, 0xffffffff, 0x3ffffff, 0, 0]));
}

#[test]
fn modulo_stays_below_twenty_bits() {
    let inputs = [
        [0, 0, 0, 0, 0],
        [0xffffffff, 0xffffffff, 0xffffffff, 0xffffffff, 0xffffffff],
        [0x89abcdef, 0x01234567, 0xfedcba98, 0x76543210, 0x0f1e2d3c],
    ];
    for e in inputs {
        assert!(modulo(e) < (1 << 20));
    }
    assert_eq!(0, modulo([0, 0, 0, 0, 0]));
}

#[test]
fn mod_prime_is_multiply_add_then_modulo() {
    let a = [0x77777777, 0xdddddddd, 0x22222222];
    let b = [0x55555555, 0xcccccccc, 0xffffffff];
    let x = [0xffffffff, 0xffffffff];
    assert_eq!(0xccd08, mod_prime(a, b, x));
    assert_eq!(modulo(multiply_add(a, b, x)), mod_prime(a, b, x));
    assert_eq!(0xccd08, modprime_mod_prime_no_inline(a, b, x));
}
