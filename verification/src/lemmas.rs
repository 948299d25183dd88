//! Arithmetic facts behind the limb routines: how shifts, masks and casts
//! read as division and remainder, and why two conditional subtractions
//! complete a reduction modulo `2^89 - 1`.
use crate::model::{fold89, limb, limbs3, p89, pow89, radix, radix2, radix3, reduce89};
use vstd::arithmetic::div_mod::{
    lemma_div_basics_1, lemma_fundamental_div_mod, lemma_fundamental_div_mod_converse,
    lemma_multiply_divide_lt, lemma_small_mod,
};
use vstd::arithmetic::power2::{
    lemma2_to64, lemma2_to64_rest, lemma_pow2_adds, lemma_pow2_pos, pow2,
};
use vstd::bits::{
    lemma_u128_shr_is_div, lemma_u32_low_bits_mask_is_mod, lemma_u32_shl_is_mul,
    lemma_u32_shr_is_div, lemma_u64_low_bits_mask_is_mod, lemma_u64_shl_is_mul,
    lemma_u64_shr_is_div,
};
use vstd::prelude::*;

verus! {

/// The product of two limbs fits in 64 bits with room for two more limbs.
pub proof fn lemma_limb_product(a: u32, x: u32)
    ensures
        a * x <= 0xffff_fffe_0000_0001,
{
    assert(a * x <= 0xffff_fffe_0000_0001) by (nonlinear_arith)
        requires
            a <= 0xffff_ffff,
            x <= 0xffff_ffff,
    ;
}

/// A 64-bit value splits into its low limb and its carry.
pub proof fn lemma_split64(c: u64)
    ensures
        (c >> 32) == c / 0x1_0000_0000,
        (c as u32) == c % 0x1_0000_0000,
        (c & 0xffff_ffff) == c % 0x1_0000_0000,
        c == (c >> 32) * 0x1_0000_0000 + (c as u32),
        (c >> 32) <= 0xffff_ffff,
{
    assert((c >> 32) == c / 0x1_0000_0000) by (bit_vector);
    assert((c as u32) == c % 0x1_0000_0000) by (bit_vector);
    assert((c & 0xffff_ffff) == c % 0x1_0000_0000) by (bit_vector);
}

/// A signed difference of limbs splits into its low limb and its borrow.
pub proof fn lemma_split_signed(c: i64)
    requires
        -0x2_0000_0000 <= c < 0x2_0000_0000,
    ensures
        (c >> 32) == c / 0x1_0000_0000,
        (c as u32) == c % 0x1_0000_0000,
        c == (c >> 32) * 0x1_0000_0000 + (c as u32),
{
    assert((c >> 32) == c / 0x1_0000_0000) by (bit_vector)
        requires
            -0x2_0000_0000 <= c < 0x2_0000_0000,
    ;
    assert((c as u32) == c % 0x1_0000_0000) by (bit_vector)
        requires
            -0x2_0000_0000 <= c < 0x2_0000_0000,
    ;
}

/// The limb that straddles bit 25 of two neighbouring limbs.
pub proof fn lemma_straddle(lo: u32, hi: u32)
    ensures
        (lo >> 25 | hi << 7) == lo / 0x200_0000 + (hi % 0x200_0000) * 0x80,
        (lo & 0x01ff_ffff) == lo % 0x200_0000,
        (lo >> 25) == lo / 0x200_0000,
{
    assert((lo >> 25 | hi << 7) == lo / 0x200_0000 + (hi % 0x200_0000) * 0x80) by (bit_vector);
    assert((lo & 0x01ff_ffff) == lo % 0x200_0000) by (bit_vector);
    assert((lo >> 25) == lo / 0x200_0000) by (bit_vector);
}

/// Two conditional subtractions complete the reduction: where the folded
/// value plus the addend stays below three times the prime, what is left is
/// the residue of `v + extra`.
pub proof fn lemma_reduce89(v: nat, extra: nat)
    requires
        v % pow89() + v / pow89() + extra < 3 * p89(),
    ensures
        fold89(v) == v % pow89() + v / pow89(),
        reduce89(v, extra) == (v + extra) % p89(),
        reduce89(v, extra) < p89(),
{
    let c = v % pow89();
    let d = v / pow89();
    lemma_fundamental_div_mod(v as int, pow89() as int);
    lemma_small_mod(d, radix3());
    let s = c + d + extra;
    let k: nat = if s >= 2 * p89() {
        2
    } else if s >= p89() {
        1
    } else {
        0
    };
    assert(reduce89(v, extra) == s - k * p89());
    lemma_fundamental_div_mod_converse(
        (v + extra) as int,
        p89() as int,
        (d + k) as int,
        (s - k * p89()) as int,
    );
}

/// A value below `2^w` has fewer than `2^l` as its top `l` bits.
pub proof fn lemma_top_bits(v: nat, w: nat, l: nat)
    requires
        l <= w,
        v < pow2(w),
    ensures
        v / pow2((w - l) as nat) < pow2(l),
{
    lemma_pow2_adds((w - l) as nat, l);
    lemma_pow2_pos((w - l) as nat);
    lemma_multiply_divide_lt(v as int, pow2((w - l) as nat) as int, pow2(l) as int);
}

/// The top `l` bits of a 32-bit word, by a shift.
pub proof fn lemma_top_bits_u32(v: u32, l: usize)
    requires
        0 < l <= 32,
    ensures
        (v >> ((32 - l) as u32)) as nat == v as nat / pow2((32 - l) as nat),
        ((v >> ((32 - l) as u32)) as nat) < pow2(l as nat),
{
    lemma2_to64();
    lemma_u32_shr_is_div(v, (32 - l) as u32);
    lemma_top_bits(v as nat, 32, l as nat);
}

/// The top `l` bits of a 64-bit word, by a shift.
pub proof fn lemma_top_bits_u64(v: u64, l: usize)
    requires
        0 < l <= 64,
    ensures
        (v >> ((64 - l) as u64)) as nat == v as nat / pow2((64 - l) as nat),
        ((v >> ((64 - l) as u64)) as nat) < pow2(l as nat),
{
    lemma2_to64();
    lemma_u64_shr_is_div(v, (64 - l) as u64);
    lemma_top_bits(v as nat, 64, l as nat);
}

/// `2^128` as a power of two.
pub proof fn lemma_pow2_128()
    ensures
        pow2(128) == 0x1_0000_0000_0000_0000_0000_0000_0000_0000nat,
        pow2(64) == 0x1_0000_0000_0000_0000,
        pow2(32) == 0x1_0000_0000,
{
    lemma2_to64();
    lemma_pow2_adds(64, 64);
    assert(0x1_0000_0000_0000_0000 * 0x1_0000_0000_0000_0000
        == 0x1_0000_0000_0000_0000_0000_0000_0000_0000nat) by (nonlinear_arith);
}

/// The top `l` bits of a 128-bit word, by a shift.
pub proof fn lemma_top_bits_u128(v: u128, l: usize)
    requires
        0 < l <= 128,
    ensures
        (v >> ((128 - l) as u128)) as nat == v as nat / pow2((128 - l) as nat),
        ((v >> ((128 - l) as u128)) as nat) < pow2(l as nat),
{
    lemma_pow2_128();
    lemma_u128_shr_is_div(v, (128 - l) as u128);
    lemma_top_bits(v as nat, 128, l as nat);
}

/// Asking for no bits at all leaves nothing of a value below `2^w`.
pub proof fn lemma_no_bits(v: nat, w: nat)
    requires
        v < pow2(w),
    ensures
        v / pow2(w) == 0,
        pow2(0) == 1,
{
    lemma2_to64();
    lemma_top_bits(v, w, 0);
}

/// Masking a 32-bit word to its low `l` bits is the remainder modulo `2^l`.
pub proof fn lemma_low_bits_u32(q: u32, l: usize)
    requires
        l < 32,
    ensures
        (1u32 << l) == pow2(l as nat),
        pow2(l as nat) <= 0x8000_0000,
        q & (((1u32 << l) - 1) as u32) == q as nat % pow2(l as nat),
        ((q & (((1u32 << l) - 1) as u32)) as nat) < pow2(l as nat),
{
    lemma2_to64();
    lemma_pow2_pos(l as nat);
    if l < 31 {
        vstd::arithmetic::power2::lemma_pow2_strictly_increases(l as nat, 31);
    }
    lemma_u32_shl_is_mul(1, l as u32);
    assert((1u32 << l) == (1u32 << (l as u32)));
    lemma_u32_low_bits_mask_is_mod(q, l as nat);
    vstd::arithmetic::div_mod::lemma_mod_bound(q as int, pow2(l as nat) as int);
}

/// Masking a 64-bit word to its low `l` bits is the remainder modulo `2^l`.
pub proof fn lemma_low_bits_u64(q: u64, l: usize)
    requires
        l < 64,
    ensures
        (1u64 << l) == pow2(l as nat),
        pow2(l as nat) <= 0x8000_0000_0000_0000,
        q & (((1u64 << l) - 1) as u64) == q as nat % pow2(l as nat),
        ((q & (((1u64 << l) - 1) as u64)) as nat) < pow2(l as nat),
{
    lemma2_to64();
    lemma2_to64_rest();
    lemma_pow2_pos(l as nat);
    if l < 63 {
        vstd::arithmetic::power2::lemma_pow2_strictly_increases(l as nat, 63);
    }
    lemma_u64_shl_is_mul(1, l as u64);
    assert((1u64 << l) == (1u64 << (l as u64)));
    lemma_u64_low_bits_mask_is_mod(q, l as nat);
    vstd::arithmetic::div_mod::lemma_mod_bound(q as int, pow2(l as nat) as int);
}

/// A wrapping multiplication followed by a wrapping addition computes
/// `a * x + b` modulo `2^64`.
pub proof fn lemma_wrapping_mul_add_u64(a: u64, x: u64, b: u64)
    ensures
        vstd::wrapping::u64_specs::wrapping_add(vstd::wrapping::u64_specs::wrapping_mul(a, x), b)
            as nat == (a as nat * x as nat + b as nat) % 0x1_0000_0000_0000_0000,
{
    let r: nat = 0x1_0000_0000_0000_0000;
    let prod = a as nat * x as nat;
    let m = prod % r;
    lemma_fundamental_div_mod(prod as int, r as int);
    let q = prod / r;
    let k: nat = if m + b >= r {
        1
    } else {
        0
    };
    lemma_fundamental_div_mod_converse(
        (prod + b) as int,
        r as int,
        (q + k) as int,
        (m + b - k * r) as int,
    );
}

/// A wrapping multiplication followed by a wrapping addition computes
/// `a * x + b` modulo `2^128`.
pub proof fn lemma_wrapping_mul_add_u128(a: u128, x: u128, b: u128)
    ensures
        vstd::wrapping::u128_specs::wrapping_add(
            vstd::wrapping::u128_specs::wrapping_mul(a, x),
            b,
        ) as nat == (a as nat * x as nat + b as nat)
            % 0x1_0000_0000_0000_0000_0000_0000_0000_0000nat,
{
    let r: nat = 0x1_0000_0000_0000_0000_0000_0000_0000_0000nat;
    let prod = a as nat * x as nat;
    let m = prod % r;
    lemma_fundamental_div_mod(prod as int, r as int);
    let q = prod / r;
    let k: nat = if m + b >= r {
        1
    } else {
        0
    };
    lemma_fundamental_div_mod_converse(
        (prod + b) as int,
        r as int,
        (q + k) as int,
        (m + b - k * r) as int,
    );
}

/// One step of the pair filter in wrapping arithmetic computes the sum plus
/// the product of the two keyed halves, modulo `2^64`.
pub proof fn lemma_pair_step(sum: u64, k0: u64, k1: u64, lo: u64, hi: u64)
    ensures
        vstd::wrapping::u64_specs::wrapping_add(
            sum,
            vstd::wrapping::u64_specs::wrapping_mul(
                vstd::wrapping::u64_specs::wrapping_add(k0, hi),
                vstd::wrapping::u64_specs::wrapping_add(k1, lo),
            ),
        ) as nat == (sum as nat + (k0 as nat + hi as nat) * (k1 as nat + lo as nat))
            % 0x1_0000_0000_0000_0000,
{
    let r: int = 0x1_0000_0000_0000_0000;
    let f0 = vstd::wrapping::u64_specs::wrapping_add(k0, hi);
    let f1 = vstd::wrapping::u64_specs::wrapping_add(k1, lo);
    let u = k0 as int + hi as int;
    let v = k1 as int + lo as int;
    assert(f0 as int == u % r) by {
        let k: int = if u >= r {
            1
        } else {
            0
        };
        lemma_fundamental_div_mod_converse(u, r, k, u - k * r);
    }
    assert(f1 as int == v % r) by {
        let k: int = if v >= r {
            1
        } else {
            0
        };
        lemma_fundamental_div_mod_converse(v, r, k, v - k * r);
    }
    lemma_wrapping_mul_add_u64(f0, f1, sum);
    vstd::arithmetic::div_mod::lemma_mul_mod_noop(u, v, r);
    vstd::arithmetic::div_mod::lemma_add_mod_noop_right(sum as int, (u % r) * (v % r), r);
    vstd::arithmetic::div_mod::lemma_add_mod_noop_right(sum as int, u * v, r);
    assert(f0 as nat * f1 as nat == (u % r) * (v % r)) by (nonlinear_arith)
        requires
            f0 as int == u % r,
            f1 as int == v % r,
    ;
    assert((k0 as nat + hi as nat) * (k1 as nat + lo as nat) == u * v) by (nonlinear_arith)
        requires
            u == k0 as int + hi as int,
            v == k1 as int + lo as int,
    ;
}

/// The product of two values that are at most the prime folds to less than
/// twice the prime, so that a residue or a 64-bit word can still be added.
pub proof fn lemma_product_folds(x: nat, y: nat)
    requires
        x <= p89(),
        y <= p89(),
    ensures
        (x * y) % pow89() + (x * y) / pow89() < 2 * p89(),
        fold89(x * y) == (x * y) % pow89() + (x * y) / pow89(),
{
    let v = x * y;
    assert(v <= p89() * p89()) by (nonlinear_arith)
        requires
            v == x * y,
            x <= p89(),
            y <= p89(),
    ;
    assert(p89() * p89() < pow89() * p89()) by (nonlinear_arith);
    lemma_multiply_divide_lt(v as int, pow89() as int, p89() as int);
    lemma_small_mod(v / pow89(), radix3());
}

/// Three limbs are the three limbs of the number that they denote.
pub proof fn lemma_limbs3_parts(a: [u32; 3])
    ensures
        limb(limbs3(a), 0) == a[0],
        limb(limbs3(a), 1) == a[1],
        limb(limbs3(a), 2) == a[2],
{
    let v = limbs3(a) as int;
    lemma_fundamental_div_mod_converse(v, radix() as int, a[1] + a[2] * radix(), a[0] as int);
    lemma_fundamental_div_mod_converse(
        v / (radix() as int),
        radix() as int,
        a[2] as int,
        a[1] as int,
    );
    lemma_fundamental_div_mod_converse(v, radix2() as int, a[2] as int, a[0] + a[1] * radix());
}

/// The exclusive or of two values below `2^l` is below `2^l`.
pub proof fn lemma_xor_bound(a: u32, b: u32, l: usize)
    requires
        l <= 32,
        (a as nat) < pow2(l as nat),
        (b as nat) < pow2(l as nat),
    ensures
        ((a ^ b) as nat) < pow2(l as nat),
{
    if l == 32 {
        lemma2_to64();
        return ;
    }
    let s: u32 = l as u32;
    lemma_u32_shr_is_div(a, s);
    lemma_u32_shr_is_div(b, s);
    lemma_u32_shr_is_div(a ^ b, s);
    lemma_pow2_pos(l as nat);
    lemma_div_basics_1(pow2(l as nat) as int);
    vstd::arithmetic::div_mod::lemma_basic_div(a as int, pow2(l as nat) as int);
    vstd::arithmetic::div_mod::lemma_basic_div(b as int, pow2(l as nat) as int);
    assert(((a ^ b) >> s) == 0u32) by (bit_vector)
        requires
            s < 32,
            a >> s == 0u32,
            b >> s == 0u32,
    ;
    let c = (a ^ b) as int;
    let d = pow2(l as nat) as int;
    lemma_fundamental_div_mod(c, d);
    vstd::arithmetic::div_mod::lemma_mod_bound(c, d);
}

/// The three 30-bit slices of a 64-bit word, by shifts and masks.
pub proof fn lemma_slices30(x: u64)
    ensures
        (x & 0x3fff_ffff) == x % 0x4000_0000,
        ((x >> 30) & 0x3fff_ffff) == (x / 0x4000_0000) % 0x4000_0000,
        ((x >> 60) & 0x3fff_ffff) == x / 0x1000_0000_0000_0000,
{
    assert((x & 0x3fff_ffff) == x % 0x4000_0000) by (bit_vector);
    assert(((x >> 30) & 0x3fff_ffff) == (x / 0x4000_0000) % 0x4000_0000) by (bit_vector);
    assert(((x >> 60) & 0x3fff_ffff) == x / 0x1000_0000_0000_0000) by (bit_vector);
}

/// The top twenty bits of a 64-bit word, by a shift and a mask.
pub proof fn lemma_top20(v: u64)
    ensures
        (((v >> 44) as u32) & 0xf_ffff) as nat == v as nat / pow2(44),
        (((v >> 44) as u32) & 0xf_ffff) < 0x10_0000,
        pow2(20) == 0x10_0000,
        pow2(44) == 0x1000_0000_0000,
        (v >> 44) < 0x10_0000,
{
    lemma2_to64();
    lemma2_to64_rest();
    lemma_u64_shr_is_div(v, 44);
    assert((((v >> 44) as u32) & 0xf_ffff) == (v >> 44) && (v >> 44) < 0x10_0000) by (bit_vector);
}

/// Two limbs joined into a 64-bit word.
pub proof fn lemma_join64(lo: u32, hi: u32)
    ensures
        ((lo as u64) | (hi as u64) << 32) == lo + hi * 0x1_0000_0000,
{
    assert(((lo as u64) | (hi as u64) << 32) == lo + hi * 0x1_0000_0000) by (bit_vector);
}

} // verus!
