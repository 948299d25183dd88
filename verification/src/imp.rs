//! The hash families and the limb arithmetic beneath them.
use crate::lemmas::{
    lemma_join64, lemma_limb_product, lemma_limbs3_parts, lemma_low_bits_u32,
    lemma_low_bits_u64, lemma_no_bits, lemma_pair_step, lemma_pow2_128, lemma_product_folds,
    lemma_reduce89, lemma_slices30, lemma_split64, lemma_split_signed, lemma_straddle,
    lemma_top_bits_u128, lemma_top_bits_u32, lemma_top_bits_u64, lemma_wrapping_mul_add_u128,
    lemma_wrapping_mul_add_u64, lemma_xor_bound,
};
use crate::model::{
    filter_fresh, fold89, limb, limbs2, limbs3, limbs4, limbs5, limbs6, mmp, mmp31_triple,
    multiply_shift, multiply_shift_strong, p31, p61, p89, pair_digest, pair_write,
    pipeline_digest, pipeline_flush, pipeline_fresh, pipeline_wf, pipeline_write, poly_digest,
    poly_fresh, poly_shift_digest, poly_shift_write, poly_wf, poly_write, pow89, radix, radix2,
    radix3, reduce89, sub_p89, vector_digest, vector_write, FilterState, PipelineState,
    PolyShiftState, PolyState,
};
use vstd::arithmetic::div_mod::{
    lemma_fundamental_div_mod, lemma_fundamental_div_mod_converse, lemma_mod_mod,
    lemma_multiply_divide_lt, lemma_small_mod,
};
use vstd::arithmetic::power2::{lemma2_to64, lemma_pow2_adds, lemma_pow2_pos, pow2};
use vstd::prelude::*;

verus! {

/// The prime `2^31 - 1`.
pub const M31: u32 = 0x7fffffff;

/// The prime `2^61 - 1`.
pub const M61: u64 = 0x1fffffff_ffffffff;

/// The prime `2^89 - 1` as three limbs, least significant first.
pub const M89: [u32; 3] = [0xffffffff, 0xffffffff, 0x01ffffff];

/// Whether three limbs denote a residue modulo `2^89 - 1`, a value below
/// the prime.
pub fn is_residue(a: [u32; 3]) -> (r: bool)
    ensures
        r == (limbs3(a) < p89()),
{
    a[2] < M89[2] || (a[2] == M89[2] && (a[1] < M89[1] || (a[1] == M89[1] && a[0] < M89[0])))
}

/// Multiply-mod-prime hashing of a 64-bit word modulo `2^89 - 1`, to `l`
/// bits. The coefficients are residues: both lie below the prime.
pub fn mmp_p89_u64(l: usize, a: [u32; 3], b: [u32; 3], x: u64) -> (r: u64)
    requires
        l <= 64,
        limbs3(a) < p89(),
        limbs3(b) < p89(),
    ensures
        r as nat == mmp(p89(), l as nat, limbs3(a), limbs3(b), x as nat),
        (r as nat) < pow2(l as nat),
{
    proof {
        lemma_split64(x);
    }
    let x: [u32; 2] = [#[verifier::truncate] (x as u32), (x >> 32) as u32];
    let c: [u32; 5] = mul3x2(a, x);
    let wide: [u32; 6] = [c[0], c[1], c[2], c[3], c[4], 0];
    proof {
        let v = limbs6(wide);
        assert(v == limbs3(a) * limbs2(x));
        assert(v < pow89() * radix2()) by (nonlinear_arith)
            requires
                v == limbs3(a) * limbs2(x),
                limbs3(a) < pow89(),
                limbs2(x) < radix2(),
        ;
        lemma_multiply_divide_lt(v as int, pow89() as int, radix2() as int);
        lemma_small_mod(v / pow89(), radix3());
    }
    let d: [u32; 3] = add6x3modp(wide, b);
    let q: u64 = (d[0] as u64) | ((d[1] as u64) << 32);
    low_bits_of_residue(d, q, l)
}

/// Multiply-mod-prime hashing modulo `2^31 - 1`, to `l` bits. Coefficients
/// and input are residues: all three lie below the prime.
pub fn mmp_p31_u30(l: usize, a: u32, b: u32, x: u32) -> (r: u32)
    requires
        l <= 30,
        a < M31,
        b < M31,
        x < M31,
    ensures
        r as nat == mmp(p31(), l as nat, a as nat, b as nat, x as nat),
        (r as nat) < pow2(l as nat),
{
    proof {
        assert(a * x <= 0x7fff_fffe * 0x7fff_fffe) by (nonlinear_arith)
            requires
                a <= 0x7fff_fffe,
                x <= 0x7fff_fffe,
        ;
    }
    let r: u64 = (a as u64) * (x as u64) + (b as u64);
    proof {
        assert((#[verifier::truncate] (r as u32)) & 0x7fff_ffffu32 == r % 0x8000_0000)
            by (bit_vector);
        assert((r >> 31) == r / 0x8000_0000) by (bit_vector);
        lemma_fundamental_div_mod(r as int, 0x8000_0000);
    }
    let s: u32 = ((#[verifier::truncate] (r as u32)) & M31) + ((r >> 31) as u32);
    let q: u32 = if s >= M31 {
        s - M31
    } else {
        s
    };
    proof {
        let k: int = if s >= M31 {
            1
        } else {
            0
        };
        lemma_fundamental_div_mod_converse(
            r as int,
            p31() as int,
            (r as int) / 0x8000_0000 + k,
            q as int,
        );
        lemma_low_bits_u32(q, l);
    }
    q & ((1 << l) - 1)
}

/// Three independent hashes modulo `2^31 - 1` combined by exclusive or: one
/// coefficient pair for each 30-bit slice of the 64-bit input.
pub fn mmp_p31_u64(l: usize, a: [u32; 3], b: [u32; 3], x: u64) -> (r: u32)
    requires
        l <= 30,
        forall|i: int| 0 <= i < 3 ==> a[i] < M31 && b[i] < M31,
    ensures
        r == mmp31_triple(l as nat, a, b, x),
        (r as nat) < pow2(l as nat),
{
    proof {
        lemma_slices30(x);
    }
    let x0: u32 = (x & 0x3fffffff) as u32;
    let x1: u32 = ((x >> 30) & 0x3fffffff) as u32;
    let x2: u32 = ((x >> 60) & 0x3fffffff) as u32;

    let q0: u32 = mmp_p31_u30(l, a[0], b[0], x0);
    let q1: u32 = mmp_p31_u30(l, a[1], b[1], x1);
    let q2: u32 = mmp_p31_u30(l, a[2], b[2], x2);
    proof {
        lemma_xor_bound(q0, q1, l);
        lemma_xor_bound(q0 ^ q1, q2, l);
    }
    q0 ^ q1 ^ q2
}

/// Multiply-mod-prime hashing modulo `2^61 - 1`, to `l` bits, with a
/// 128-bit product. Coefficients and input lie below the prime.
pub fn mmp_p61_u60_128(l: usize, a: u64, b: u64, x: u64) -> (r: u64)
    requires
        l <= 60,
        a < M61,
        b < M61,
        x < M61,
    ensures
        r as nat == mmp(p61(), l as nat, a as nat, b as nat, x as nat),
        (r as nat) < pow2(l as nat),
{
    proof {
        assert(a * x <= 0x1fff_ffff_ffff_fffe * 0x1fff_ffff_ffff_fffe) by (nonlinear_arith)
            requires
                a <= 0x1fff_ffff_ffff_fffe,
                x <= 0x1fff_ffff_ffff_fffe,
        ;
    }
    let r: u128 = (a as u128) * (x as u128) + (b as u128);
    proof {
        assert((#[verifier::truncate] (r as u64)) & 0x1fff_ffff_ffff_ffffu64
            == r % 0x2000_0000_0000_0000) by (bit_vector);
        assert((r >> 61) == r / 0x2000_0000_0000_0000) by (bit_vector);
        lemma_fundamental_div_mod(r as int, 0x2000_0000_0000_0000);
    }
    let s: u64 = ((#[verifier::truncate] (r as u64)) & M61) + ((r >> 61) as u64);
    let q: u64 = if s >= M61 {
        s - M61
    } else {
        s
    };
    proof {
        let k: int = if s >= M61 {
            1
        } else {
            0
        };
        lemma_fundamental_div_mod_converse(
            r as int,
            p61() as int,
            (r as int) / 0x2000_0000_0000_0000 + k,
            q as int,
        );
        lemma_low_bits_u64(q, l);
    }
    q & ((1 << l) - 1)
}

/// Multiply-shift hashing of a 32-bit word to `l` bits.
pub fn shift_u32(l: usize, a: u32, x: u32) -> (r: u32)
    requires
        l <= 32,
    ensures
        r as nat == multiply_shift(32, l as nat, a as nat, x as nat),
        (r as nat) < pow2(l as nat),
{
    let product: u32 = a.wrapping_mul(x);
    proof {
        lemma2_to64();
    }
    if l == 0 {
        proof {
            lemma_no_bits(product as nat, 32);
        }
        0
    } else {
        proof {
            lemma_top_bits_u32(product, l);
        }
        product >> ((32 - l) as u32)
    }
}

/// Multiply-shift hashing of a 64-bit word to `l` bits.
pub fn shift_u64(l: usize, a: u64, x: u64) -> (r: u64)
    requires
        l <= 64,
    ensures
        r as nat == multiply_shift(64, l as nat, a as nat, x as nat),
        (r as nat) < pow2(l as nat),
{
    let product: u64 = a.wrapping_mul(x);
    proof {
        lemma2_to64();
    }
    if l == 0 {
        proof {
            lemma_no_bits(product as nat, 64);
        }
        0
    } else {
        proof {
            lemma_top_bits_u64(product, l);
        }
        product >> ((64 - l) as u64)
    }
}

/// Multiply-shift hashing of a 128-bit word to `l` bits.
pub fn shift_u128_128(l: usize, a: u128, x: u128) -> (r: u128)
    requires
        l <= 128,
    ensures
        r as nat == multiply_shift(128, l as nat, a as nat, x as nat),
        (r as nat) < pow2(l as nat),
{
    let product: u128 = a.wrapping_mul(x);
    proof {
        lemma_pow2_128();
    }
    if l == 0 {
        proof {
            lemma_no_bits(product as nat, 128);
        }
        0
    } else {
        proof {
            lemma_top_bits_u128(product, l);
        }
        product >> ((128 - l) as u128)
    }
}

/// Strong multiply-shift hashing of a 32-bit word to `l` bits, with a
/// working width of 64 bits.
pub fn shift_strong_u32(l: usize, a: u64, b: u64, x: u32) -> (r: u32)
    requires
        l <= 32,
    ensures
        r as nat == multiply_shift_strong(64, l as nat, a as nat, b as nat, x as nat),
        (r as nat) < pow2(l as nat),
{
    let sum: u64 = a.wrapping_mul(x as u64).wrapping_add(b);
    proof {
        lemma2_to64();
        lemma_wrapping_mul_add_u64(a, x as u64, b);
    }
    top_bits(sum, l)
}

/// Strong multiply-shift hashing of a 64-bit word to `l` bits, with a
/// working width of 128 bits.
pub fn shift_strong_u64_128(l: usize, a: u128, b: u128, x: u64) -> (r: u64)
    requires
        l <= 64,
    ensures
        r as nat == multiply_shift_strong(128, l as nat, a as nat, b as nat, x as nat),
        (r as nat) < pow2(l as nat),
{
    let sum: u128 = a.wrapping_mul(x as u128).wrapping_add(b);
    proof {
        lemma_pow2_128();
        lemma_wrapping_mul_add_u128(a, x as u128, b);
    }
    if l == 0 {
        proof {
            lemma_no_bits(sum as nat, 128);
        }
        0
    } else {
        proof {
            lemma_top_bits_u128(sum, l);
            if l < 64 {
                vstd::arithmetic::power2::lemma_pow2_strictly_increases(l as nat, 64);
            }
        }
        (sum >> ((128 - l) as u128)) as u64
    }
}

/// The top `l` bits of a 64-bit sum, for `l` up to 32.
fn top_bits(sum: u64, l: usize) -> (r: u32)
    requires
        l <= 32,
    ensures
        r as nat == sum as nat / pow2((64 - l) as nat),
        (r as nat) < pow2(l as nat),
{
    proof {
        lemma2_to64();
    }
    if l == 0 {
        proof {
            lemma_no_bits(sum as nat, 64);
        }
        0
    } else {
        proof {
            lemma_top_bits_u64(sum, l);
            if l < 32 {
                vstd::arithmetic::power2::lemma_pow2_strictly_increases(l as nat, 32);
            }
        }
        (sum >> ((64 - l) as u64)) as u32
    }
}

/// The dot-product hash of up to 64 words of 32 bits, taken one word at a
/// time. It holds 65 keys: one for each word and one for the finish.
pub struct VectorShiftU32D64 {
    a: [u64; 65],
    i: usize,
    state: u64,
}

impl View for VectorShiftU32D64 {
    type V = FilterState;

    closed spec fn view(&self) -> FilterState {
        FilterState { keys: self.a@, count: self.i as nat, sum: self.state as nat }
    }
}

impl VectorShiftU32D64 {
    /// An empty filter with the keys `a`.
    pub fn new(a: [u64; 65]) -> (r: Self)
        ensures
            r@ == filter_fresh(a@),
    {
        Self { a, i: 0, state: 0 }
    }

    /// Takes one word. The filter has room for 64.
    pub fn write_u32(&mut self, x: u32)
        requires
            old(self)@.count < 64,
        ensures
            final(self)@ == vector_write(old(self)@, x),
    {
        let key: u64 = self.a[self.i];
        proof {
            lemma_wrapping_mul_add_u64(key, x as u64, self.state);
        }
        let prod: u64 = key.wrapping_mul(x as u64);
        self.state = self.state.wrapping_add(prod);
        self.i = self.i + 1;
    }

    /// Whether the filter has taken all 64 words.
    pub fn is_done(&self) -> (r: bool)
        ensures
            r == (self@.count == 64),
    {
        self.i == 64
    }

    /// The hash of what was taken, at `l` bits; the filter is empty again.
    pub fn finish(&mut self, l: usize) -> (r: u32)
        requires
            l <= 32,
            old(self)@.count <= 64,
        ensures
            r as nat == vector_digest(old(self)@, l as nat),
            (r as nat) < pow2(l as nat),
            final(self)@ == filter_fresh(old(self)@.keys),
    {
        let value: u32 = top_bits(self.state.wrapping_add(self.a[self.i]), l);
        self.i = 0;
        self.state = 0;
        value
    }
}

/// The pair hash of up to 32 words of 64 bits, taken one word at a time. It
/// holds 65 keys: two for each word and one for the finish.
pub struct PairShiftU64D32 {
    a: [u64; 65],
    i: usize,
    state: u64,
}

impl View for PairShiftU64D32 {
    type V = FilterState;

    closed spec fn view(&self) -> FilterState {
        FilterState { keys: self.a@, count: self.i as nat, sum: self.state as nat }
    }
}

impl PairShiftU64D32 {
    /// An empty filter with the keys `a`.
    pub fn new(a: [u64; 65]) -> (r: Self)
        ensures
            r@ == filter_fresh(a@),
    {
        Self { a, i: 0, state: 0 }
    }

    /// Takes one word. The filter has room for 32.
    pub fn write_u64(&mut self, x: u64)
        requires
            old(self)@.count < 32,
        ensures
            final(self)@ == pair_write(old(self)@, x),
    {
        let x0: u64 = x & 0xffffffff;
        let x1: u64 = x >> 32;
        let key0: u64 = self.a[2 * self.i];
        let key1: u64 = self.a[2 * self.i + 1];
        proof {
            lemma_split64(x);
            lemma_pair_step(self.state, key0, key1, x0, x1);
        }
        let factor0: u64 = key0.wrapping_add(x1);
        let factor1: u64 = key1.wrapping_add(x0);
        let prod: u64 = factor0.wrapping_mul(factor1);
        self.state = self.state.wrapping_add(prod);
        self.i = self.i + 1;
    }

    /// Whether the filter has taken all 32 words.
    pub fn is_done(&self) -> (r: bool)
        ensures
            r == (self@.count == 32),
    {
        self.i == 32
    }

    /// The hash of what was taken, at `l` bits; the filter is empty again.
    /// A filter that is not full yet can be finished too.
    pub fn finish(&mut self, l: usize) -> (r: u32)
        requires
            l <= 32,
            old(self)@.count <= 32,
        ensures
            r as nat == pair_digest(old(self)@, l as nat),
            (r as nat) < pow2(l as nat),
            final(self)@ == filter_fresh(old(self)@.keys),
    {
        let ad: u64 = self.a[2 * self.i];
        let value: u32 = top_bits(self.state.wrapping_add(ad), l);
        self.i = 0;
        self.state = 0;
        value
    }
}

/// One step of Horner's rule on three-limb residues: `(c * state + x) mod
/// (2^89 - 1)`.
fn horner_step(c: [u32; 3], state: [u32; 3], x: u64) -> (r: [u32; 3])
    requires
        limbs3(c) < p89(),
        limbs3(state) < p89(),
    ensures
        limbs3(r) == (limbs3(c) * limbs3(state) + x as nat) % p89(),
        limbs3(r) < p89(),
{
    proof {
        lemma_split64(x);
    }
    let x0: u32 = #[verifier::truncate] (x as u32);
    let x1: u32 = (x >> 32) as u32;
    let s: [u32; 6] = mul3x3(c, state);
    proof {
        lemma_product_folds(limbs3(c), limbs3(state));
    }
    add6x3modp(s, [x0, x1, 0])
}

/// The polynomial hash over the field of `2^89 - 1` elements, taken one
/// 64-bit word at a time by Horner's rule.
pub struct PolyU64 {
    a: [u32; 3],
    b: [u32; 3],
    c: [u32; 3],
    state: [u32; 3],
}

impl View for PolyU64 {
    type V = PolyState;

    closed spec fn view(&self) -> PolyState {
        PolyState {
            a: limbs3(self.a),
            b: limbs3(self.b),
            c: limbs3(self.c),
            state: limbs3(self.state),
        }
    }
}

impl PolyU64 {
    /// Whether this hasher is the one that `new` makes of `a`, `b` and `c`.
    pub closed spec fn is_fresh(&self, a: [u32; 3], b: [u32; 3], c: [u32; 3]) -> bool {
        *self == (PolyU64 { a, b, c, state: [0, 0, 0] })
    }

    /// The coefficients as they were handed to `new`.
    pub closed spec fn coefficients(&self) -> ([u32; 3], [u32; 3], [u32; 3]) {
        (self.a, self.b, self.c)
    }

    /// A hasher with the finishing coefficients `a` and `b` and the
    /// evaluation point `c`, all three residues.
    pub fn new(a: [u32; 3], b: [u32; 3], c: [u32; 3]) -> (r: Self)
        requires
            limbs3(a) < p89(),
            limbs3(b) < p89(),
            limbs3(c) < p89(),
        ensures
            r@ == poly_fresh(limbs3(a), limbs3(b), limbs3(c)),
            poly_wf(r@),
            r.is_fresh(a, b, c),
            r.coefficients() == (a, b, c),
    {
        let state: [u32; 3] = [0, 0, 0];
        Self { a, b, c, state }
    }

    /// Takes one word: the accumulator becomes `(c * state + x) mod p`.
    pub fn write_u64(&mut self, x: u64)
        requires
            poly_wf(old(self)@),
        ensures
            final(self)@ == poly_write(old(self)@, x),
            poly_wf(final(self)@),
            final(self).coefficients() == old(self).coefficients(),
    {
        self.state = horner_step(self.c, self.state, x);
    }

    /// The hash of what was taken, at `l` bits: `(a * state + b) mod p`,
    /// masked. The hasher is then as `new` made it.
    pub fn finish(&mut self, l: usize) -> (r: u64)
        requires
            l <= 64,
            poly_wf(old(self)@),
        ensures
            r as nat == poly_digest(old(self)@, l as nat),
            (r as nat) < pow2(l as nat),
            final(self)@ == poly_fresh(old(self)@.a, old(self)@.b, old(self)@.c),
            poly_wf(final(self)@),
            final(self).coefficients() == old(self).coefficients(),
            final(self).is_fresh(
                old(self).coefficients().0,
                old(self).coefficients().1,
                old(self).coefficients().2,
            ),
    {
        let s: [u32; 6] = mul3x3(self.a, self.state);
        proof {
            lemma_product_folds(limbs3(self.a), limbs3(self.state));
        }
        let t: [u32; 3] = add6x3modp(s, self.b);
        let value: u64 = (t[0] as u64) | ((t[1] as u64) << 32);
        self.state = [0, 0, 0];
        low_bits_of_residue(t, value, l)
    }
}

/// The low `l` bits of a residue whose two low limbs are joined in `value`.
fn low_bits_of_residue(t: [u32; 3], value: u64, l: usize) -> (r: u64)
    requires
        l <= 64,
        value == ((t[0] as u64) | ((t[1] as u64) << 32)),
    ensures
        r as nat == limbs3(t) % pow2(l as nat),
        (r as nat) < pow2(l as nat),
{
    proof {
        lemma_join64(t[0], t[1]);
        lemma2_to64();
        lemma_fundamental_div_mod_converse(
            limbs3(t) as int,
            radix2() as int,
            t[2] as int,
            value as int,
        );
    }
    if l >= 64 {
        proof {
            lemma_small_mod(value as nat, pow2(64));
        }
        value
    } else {
        proof {
            lemma_low_bits_u64(value, l);
            lemma_pow2_adds(l as nat, (64 - l) as nat);
            lemma_pow2_pos(l as nat);
            lemma_pow2_pos((64 - l) as nat);
            lemma_mod_mod(limbs3(t) as int, pow2(l as nat) as int, pow2((64 - l) as nat) as int);
        }
        value & ((1 << l) - 1)
    }
}

/// The polynomial hash over the field of `2^89 - 1` elements with a
/// multiply-shift finish: each limb of the accumulator is hashed with a
/// coefficient pair of its own.
pub struct PolyShiftU64 {
    a: [u64; 3],
    b: [u64; 3],
    c: [u32; 3],
    state: [u32; 3],
}

impl View for PolyShiftU64 {
    type V = PolyShiftState;

    closed spec fn view(&self) -> PolyShiftState {
        PolyShiftState { a: self.a@, b: self.b@, c: limbs3(self.c), state: limbs3(self.state) }
    }
}

impl PolyShiftU64 {
    /// Whether this hasher is the one that `new` makes of `a`, `b` and `c`.
    pub closed spec fn is_fresh(&self, a: [u64; 3], b: [u64; 3], c: [u32; 3]) -> bool {
        *self == (PolyShiftU64 { a, b, c, state: [0, 0, 0] })
    }

    /// The coefficients as they were handed to `new`.
    pub closed spec fn coefficients(&self) -> ([u64; 3], [u64; 3], [u32; 3]) {
        (self.a, self.b, self.c)
    }

    /// A hasher with the finishing coefficients `a` and `b`, any 64-bit
    /// words, and the evaluation point `c`, a residue.
    pub fn new(a: [u64; 3], b: [u64; 3], c: [u32; 3]) -> (r: Self)
        requires
            limbs3(c) < p89(),
        ensures
            r@ == (PolyShiftState { a: a@, b: b@, c: limbs3(c), state: 0 }),
            r.is_fresh(a, b, c),
            r.coefficients() == (a, b, c),
    {
        let state: [u32; 3] = [0, 0, 0];
        Self { a, b, c, state }
    }

    /// Takes one word: the accumulator becomes `(c * state + x) mod p`.
    pub fn write_u64(&mut self, x: u64)
        requires
            old(self)@.c < p89(),
            old(self)@.state < p89(),
        ensures
            final(self)@ == poly_shift_write(old(self)@, x),
            final(self)@.state < p89(),
            final(self).coefficients() == old(self).coefficients(),
    {
        self.state = horner_step(self.c, self.state, x);
    }

    /// The hash of what was taken, at `l` bits. The hasher is then as `new`
    /// made it.
    pub fn finish(&mut self, l: usize) -> (r: u32)
        requires
            l <= 32,
        ensures
            r == poly_shift_digest(old(self)@, l as nat),
            (r as nat) < pow2(l as nat),
            final(self)@ == (PolyShiftState { state: 0, ..old(self)@ }),
            final(self).coefficients() == old(self).coefficients(),
            final(self).is_fresh(
                old(self).coefficients().0,
                old(self).coefficients().1,
                old(self).coefficients().2,
            ),
    {
        proof {
            lemma_limbs3_parts(self.state);
        }
        let q0: u32 = shift_strong_u32(l, self.a[0], self.b[0], self.state[0]);
        let q1: u32 = shift_strong_u32(l, self.a[1], self.b[1], self.state[1]);
        let q2: u32 = shift_strong_u32(l, self.a[2], self.b[2], self.state[2]);

        self.state = [0, 0, 0];
        proof {
            lemma_xor_bound(q0, q1, l);
            lemma_xor_bound(q0 ^ q1, q2, l);
        }
        q0 ^ q1 ^ q2
    }
}

/// The polynomial hasher behind two pair filters: every block of 32 words
/// is hashed by both filters to 32 bits each, and the 64-bit word that the
/// two hashes make goes into the polynomial hasher.
pub struct PreprocPolyU64D32 {
    prep1: PairShiftU64D32,
    prep2: PairShiftU64D32,
    poly: PolyU64,
}

impl View for PreprocPolyU64D32 {
    type V = PipelineState;

    closed spec fn view(&self) -> PipelineState {
        PipelineState { prep1: self.prep1@, prep2: self.prep2@, poly: self.poly@ }
    }
}

impl PreprocPolyU64D32 {
    /// An empty pipeline with the filter keys `prep1` and `prep2` and the
    /// coefficients `a`, `b` and `c` of the polynomial hasher, residues all
    /// three.
    pub fn new(prep1: [u64; 65], prep2: [u64; 65], a: [u32; 3], b: [u32; 3], c: [u32; 3]) -> (r:
        Self)
        requires
            limbs3(a) < p89(),
            limbs3(b) < p89(),
            limbs3(c) < p89(),
        ensures
            r@ == pipeline_fresh(prep1@, prep2@, limbs3(a), limbs3(b), limbs3(c)),
            pipeline_wf(r@),
    {
        Self {
            prep1: PairShiftU64D32::new(prep1),
            prep2: PairShiftU64D32::new(prep2),
            poly: PolyU64::new(a, b, c),
        }
    }

    /// A pipeline made of a polynomial hasher and two filters that stand at
    /// the same fill level.
    pub(crate) fn from_parts(poly: PolyU64, prep1: PairShiftU64D32, prep2: PairShiftU64D32) -> (r:
        Self)
        requires
            poly_wf(poly@),
            prep1@.count == prep2@.count,
            prep1@.count <= 32,
        ensures
            r@ == (PipelineState { prep1: prep1@, prep2: prep2@, poly: poly@ }),
            pipeline_wf(r@),
    {
        Self { prep1, prep2, poly }
    }

    /// Takes one word. A full block is flushed first.
    pub fn write_u64(&mut self, x: u64)
        requires
            pipeline_wf(old(self)@),
        ensures
            final(self)@ == pipeline_write(old(self)@, x),
            pipeline_wf(final(self)@),
    {
        if self.prep1.is_done() {
            self.flush();
        }
        self.prep1.write_u64(x);
        self.prep2.write_u64(x);
    }

    /// The hash of what was taken, at `l` bits. What is buffered is flushed
    /// first, whether or not it is a full block. The pipeline is then empty.
    pub fn finish(&mut self, l: usize) -> (r: u64)
        requires
            l <= 64,
            pipeline_wf(old(self)@),
        ensures
            r as nat == pipeline_digest(old(self)@, l as nat),
            (r as nat) < pow2(l as nat),
            final(self)@ == pipeline_fresh(
                old(self)@.prep1.keys,
                old(self)@.prep2.keys,
                old(self)@.poly.a,
                old(self)@.poly.b,
                old(self)@.poly.c,
            ),
            pipeline_wf(final(self)@),
    {
        self.flush();
        self.poly.finish(l)
    }

    /// Hands the block that is buffered to the polynomial hasher, as one
    /// word, and empties both filters.
    fn flush(&mut self)
        requires
            pipeline_wf(old(self)@),
        ensures
            final(self)@ == pipeline_flush(old(self)@),
            pipeline_wf(final(self)@),
    {
        let q1: u32 = self.prep1.finish(32);
        let q2: u32 = self.prep2.finish(32);
        proof {
            lemma_join64(q1, q2);
        }
        let q: u64 = (q1 as u64) | (q2 as u64) << 32;
        self.poly.write_u64(q);
    }
}

/// Multiplies three limbs by one limb.
pub fn mul3x1(a: [u32; 3], x: u32) -> (r: [u32; 4])
    ensures
        limbs4(r) == limbs3(a) * x as nat,
{
    proof {
        lemma_limb_product(a[0], x);
        lemma_limb_product(a[1], x);
        lemma_limb_product(a[2], x);
    }
    let c0: u64 = (a[0] as u64) * (x as u64);
    proof {
        lemma_split64(c0);
    }
    let c1: u64 = (a[1] as u64) * (x as u64) + (c0 >> 32);
    proof {
        lemma_split64(c1);
    }
    let c2: u64 = (a[2] as u64) * (x as u64) + (c1 >> 32);
    let c3: u64 = c2 >> 32;
    let r: [u32; 4] = [
        #[verifier::truncate] (c0 as u32),
        #[verifier::truncate] (c1 as u32),
        #[verifier::truncate] (c2 as u32),
        c3 as u32,
    ];
    proof {
        lemma_split64(c2);
        let (a0, a1, a2, xn) = (a[0] as nat, a[1] as nat, a[2] as nat, x as nat);
        assert((a0 + a1 * radix() + a2 * radix2()) * xn == a0 * xn + (a1 * xn) * radix() + (a2
            * xn) * radix2()) by (nonlinear_arith);
    }
    r
}

/// Multiplies three limbs by one limb and adds three limbs.
pub fn mul3x1add3(a: [u32; 3], x: u32, b: [u32; 3]) -> (r: [u32; 4])
    ensures
        limbs4(r) == limbs3(a) * x as nat + limbs3(b),
{
    proof {
        lemma_limb_product(a[0], x);
        lemma_limb_product(a[1], x);
        lemma_limb_product(a[2], x);
    }
    let c0: u64 = (a[0] as u64) * (x as u64) + (b[0] as u64);
    proof {
        lemma_split64(c0);
    }
    let c1: u64 = (a[1] as u64) * (x as u64) + (b[1] as u64) + (c0 >> 32);
    proof {
        lemma_split64(c1);
    }
    let c2: u64 = (a[2] as u64) * (x as u64) + (b[2] as u64) + (c1 >> 32);
    let c3: u64 = c2 >> 32;
    let r: [u32; 4] = [
        #[verifier::truncate] (c0 as u32),
        #[verifier::truncate] (c1 as u32),
        #[verifier::truncate] (c2 as u32),
        c3 as u32,
    ];
    proof {
        lemma_split64(c2);
        let (a0, a1, a2, xn) = (a[0] as nat, a[1] as nat, a[2] as nat, x as nat);
        assert((a0 + a1 * radix() + a2 * radix2()) * xn == a0 * xn + (a1 * xn) * radix() + (a2
            * xn) * radix2()) by (nonlinear_arith);
    }
    r
}

/// Multiplies three limbs by three limbs.
pub fn mul3x3(a: [u32; 3], x: [u32; 3]) -> (r: [u32; 6])
    ensures
        limbs6(r) == limbs3(a) * limbs3(x),
{
    let s: [u32; 4] = mul3x1(a, x[0]);
    let t: [u32; 4] = mul3x1add3(a, x[1], [s[1], s[2], s[3]]);
    let u: [u32; 4] = mul3x1add3(a, x[2], [t[1], t[2], t[3]]);
    let r: [u32; 6] = [s[0], t[0], u[0], u[1], u[2], u[3]];
    proof {
        let an = limbs3(a);
        let (x0, x1, x2) = (x[0] as nat, x[1] as nat, x[2] as nat);
        assert(an * (x0 + x1 * radix() + x2 * radix2()) == an * x0 + (an * x1) * radix() + (an
            * x2) * radix2()) by (nonlinear_arith);
    }
    r
}

/// Multiplies three limbs by two limbs.
pub fn mul3x2(a: [u32; 3], x: [u32; 2]) -> (r: [u32; 5])
    ensures
        limbs5(r) == limbs3(a) * limbs2(x),
{
    let s: [u32; 4] = mul3x1(a, x[0]);
    let t: [u32; 4] = mul3x1add3(a, x[1], [s[1], s[2], s[3]]);
    let r: [u32; 5] = [s[0], t[0], t[1], t[2], t[3]];
    proof {
        let an = limbs3(a);
        let (x0, x1) = (x[0] as nat, x[1] as nat);
        assert(an * (x0 + x1 * radix()) == an * x0 + (an * x1) * radix()) by (nonlinear_arith);
    }
    r
}

/// Splits six limbs at bit 89 into the low 89 bits and the 96 bits above
/// them. Nothing is lost when the top limb is below `2^25`.
pub fn splitp6(a: [u32; 6]) -> (r: ([u32; 3], [u32; 3]))
    ensures
        limbs3(r.0) == limbs6(a) % pow89(),
        limbs3(r.1) == (limbs6(a) / pow89()) % radix3(),
        limbs3(r.0) + limbs3(r.1) == fold89(limbs6(a)),
        a[5] < 0x200_0000 ==> limbs3(r.1) == limbs6(a) / pow89(),
{
    let c: [u32; 3] = [a[0], a[1], a[2] & 0x01ffffff];
    let d: [u32; 3] = [a[2] >> 25 | a[3] << 7, a[3] >> 25 | a[4] << 7, a[4] >> 25 | a[5] << 7];
    proof {
        lemma_straddle(a[2], a[3]);
        lemma_straddle(a[3], a[4]);
        lemma_straddle(a[4], a[5]);
        let lost = (a[5] / 0x200_0000) as nat;
        let high = limbs3(d) + lost * radix3();
        lemma_fundamental_div_mod_converse(
            limbs6(a) as int,
            pow89() as int,
            high as int,
            limbs3(c) as int,
        );
        lemma_fundamental_div_mod_converse(
            high as int,
            radix3() as int,
            lost as int,
            limbs3(d) as int,
        );
    }
    (c, d)
}

/// Adds three three-limb values whose sum fits in three limbs.
pub fn add3x3x3_no_overflow(a: [u32; 3], b: [u32; 3], c: [u32; 3]) -> (r: [u32; 3])
    requires
        limbs3(a) + limbs3(b) + limbs3(c) < radix3(),
    ensures
        limbs3(r) == limbs3(a) + limbs3(b) + limbs3(c),
{
    let d0: u64 = (a[0] as u64) + (b[0] as u64) + (c[0] as u64);
    proof {
        lemma_split64(d0);
    }
    let d1: u64 = (a[1] as u64) + (b[1] as u64) + (c[1] as u64) + (d0 >> 32);
    proof {
        lemma_split64(d1);
    }
    let d2: u64 = (a[2] as u64) + (b[2] as u64) + (c[2] as u64) + (d1 >> 32);
    [#[verifier::truncate] (d0 as u32), #[verifier::truncate] (d1 as u32), d2 as u32]
}

/// Subtracts `2^89 - 1` where that leaves no negative number, and returns
/// the operand unchanged where it would.
pub fn trysubp3(a: [u32; 3]) -> (r: [u32; 3])
    ensures
        limbs3(r) == sub_p89(limbs3(a)),
        limbs3(a) < p89() ==> r == a,
{
    let c0: i64 = (a[0] as i64) - (M89[0] as i64);
    proof {
        lemma_split_signed(c0);
    }
    let c1: i64 = (a[1] as i64) - (M89[1] as i64) + (c0 >> 32);
    proof {
        lemma_split_signed(c1);
    }
    let c2: i64 = (a[2] as i64) - (M89[2] as i64) + (c1 >> 32);
    if c2 >= 0 {
        [#[verifier::truncate] (c0 as u32), #[verifier::truncate] (c1 as u32), c2 as u32]
    } else {
        a
    }
}

/// Reduces six limbs plus three limbs modulo `2^89 - 1`: the wide value is
/// folded at bit 89, the addend is added, and the prime is subtracted
/// conditionally, twice. Where the folded sum is below three times the
/// prime, the result is the residue.
pub fn add6x3modp(a: [u32; 6], b: [u32; 3]) -> (r: [u32; 3])
    requires
        fold89(limbs6(a)) + limbs3(b) < radix3(),
    ensures
        limbs3(r) == reduce89(limbs6(a), limbs3(b)),
        limbs6(a) % pow89() + limbs6(a) / pow89() + limbs3(b) < 3 * p89() ==> limbs3(r) == (
        limbs6(a) + limbs3(b)) % p89() && limbs3(r) < p89(),
{
    let (c, d) = splitp6(a);
    let e: [u32; 3] = add3x3x3_no_overflow(c, d, b);
    let f: [u32; 3] = trysubp3(e);
    let g: [u32; 3] = trysubp3(f);
    proof {
        if limbs6(a) % pow89() + limbs6(a) / pow89() + limbs3(b) < 3 * p89() {
            lemma_reduce89(limbs6(a), limbs3(b));
        }
    }
    g
}

} // verus!
