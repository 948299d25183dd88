//! Hashing of strings of words: the pair hash of a prefix of a block, a
//! polynomial hash of 16-bit words modulo `2^17 - 1`, and the polynomial
//! hasher over the field of `2^89 - 1` elements with its block filters.
use crate::imp::{mmp_p89_u64, shift_strong_u64_128, PairShiftU64D32, PolyU64, PreprocPolyU64D32};
use crate::lemmas::{lemma_pair_step, lemma_split64, lemma_top20};
use crate::model::{
    filter_fresh, limbs3, limbs4, limbs5, mmp, multiply_shift_strong, offset_hash, p89,
    radix, radix3, radix4,
    pair_digest, pair_dot, pair_write, pipeline_digest, pipeline_fresh, pipeline_wf,
    pipeline_write, poly_digest, poly_fresh, poly_wf, poly_write, radix2, FilterState,
    PipelineState, PolyState,
};
use vstd::arithmetic::div_mod::{lemma_add_mod_noop, lemma_fundamental_div_mod_converse};
use vstd::arithmetic::power2::pow2;
use vstd::prelude::*;

pub use crate::imp::{
    add3x3x3_no_overflow, add6x3modp, mul3x1, mul3x1add3, mul3x2, mul3x3, splitp6, trysubp3,
};

verus! {

/// Number of bits in a hash value.
pub const L: usize = 20;

/// Number of words in a block.
pub const D: usize = 64;

/// The pair hash of a prefix of a block: an even number of words, at most
/// 64. The key that follows the last one used is the offset.
pub fn prefix64x32_pair(a: &[u64; 65], x: &[u32]) -> (r: u32)
    requires
        x.len() % 2 == 0,
        x.len() <= 64,
    ensures
        r as nat == offset_hash(20, a[x.len() as int], pair_dot(a@, x@, (x.len() / 2) as nat)),
        (r as nat) < pow2(20),
{
    let n: usize = x.len();
    let mut sum: u64 = a[n];
    let mut i: usize = 0;
    proof {
        vstd::arithmetic::div_mod::lemma_small_mod(sum as nat, radix2());
    }
    while i < n / 2
        invariant
            n == x.len(),
            n <= 64,
            n % 2 == 0,
            i <= n / 2,
            sum as nat == (a[n as int] as nat + pair_dot(a@, x@, i as nat)) % radix2(),
        decreases n / 2 - i,
    {
        proof {
            let (k0, k1) = (a[2 * i as int], a[2 * i as int + 1]);
            let (lo, hi) = (x[2 * i as int] as u64, x[2 * i as int + 1] as u64);
            lemma_pair_step(sum, k0, k1, lo, hi);
            let before = a[n as int] as int + pair_dot(a@, x@, i as nat);
            let term = (k0 as int + hi as int) * (k1 as int + lo as int);
            lemma_add_mod_noop(before, term, radix2() as int);
            vstd::arithmetic::div_mod::lemma_add_mod_noop_right(sum as int, term, radix2() as int);
        }
        let c: u64 = a[2 * i].wrapping_add(x[2 * i + 1] as u64);
        let d: u64 = a[2 * i + 1].wrapping_add(x[2 * i] as u64);
        sum = sum.wrapping_add(c.wrapping_mul(d));
        i = i + 1;
    }
    proof {
        lemma_top20(sum);
    }
    ((sum >> (64 - L)) as u32) & 0xfffff
}

/// The prime `2^17 - 1`.
const P16: u64 = 0x1ffff;

/// The prime `2^17 - 1`.
pub open spec fn p17() -> nat {
    0x1ffff
}

/// Horner's rule modulo `2^17 - 1` on the first `n` words of `xs`, at the
/// point `c`.
pub open spec fn horner16(c: nat, xs: Seq<u16>, n: nat) -> nat
    decreases n,
{
    if n == 0 {
        0
    } else {
        (c * horner16(c, xs, (n - 1) as nat) + xs[n - 1] as nat) % p17()
    }
}

/// The polynomial hash of `xs` modulo `2^17 - 1`: the value of Horner's rule
/// at `c`, times `a`, plus `b`.
pub open spec fn poly16_spec(a: nat, b: nat, c: nat, xs: Seq<u16>) -> nat {
    (a * horner16(c, xs, xs.len()) + b) % p17()
}

/// The residue modulo `2^17 - 1` of a residue times a residue plus a
/// residue, by one fold at bit 17 and one conditional subtraction.
fn fold17(m: u64, h: u64, v: u64) -> (r: u64)
    requires
        m < P16,
        h < P16,
        v < P16,
    ensures
        r as nat == (m as nat * h as nat + v as nat) % p17(),
        r < P16,
{
    proof {
        assert(m * h <= 0x1fffe * 0x1fffe) by (nonlinear_arith)
            requires
                m <= 0x1fffe,
                h <= 0x1fffe,
        ;
    }
    let t: u64 = m * h + v;
    proof {
        assert((t & 0x1ffff) == t % 0x2_0000 && (t >> 17) == t / 0x2_0000) by (bit_vector);
    }
    let s: u64 = (t & 0x1ffff) + (t >> 17);
    proof {
        let k: int = if s >= P16 {
            1
        } else {
            0
        };
        lemma_fundamental_div_mod_converse(t as int, p17() as int, t / 0x2_0000 + k, s - k * p17());
    }
    if s >= P16 {
        s - P16
    } else {
        s
    }
}

/// The polynomial hash of a string of 16-bit words modulo `2^17 - 1`. The
/// three coefficients are residues.
pub fn poly16(a: u32, b: u32, c: u32, x: &[u16]) -> (r: u32)
    requires
        a < 0x1ffff,
        b < 0x1ffff,
        c < 0x1ffff,
    ensures
        r as nat == poly16_spec(a as nat, b as nat, c as nat, x@),
        r < 0x1ffff,
{
    if x.len() == 0 {
        proof {
            assert(b & 0xf_ffff == b) by (bit_vector)
                requires
                    b < 0x1ffff,
            ;
        }
        proof {
            assert(a as nat * 0 == 0) by (nonlinear_arith);
        }
        return b & 0xfffff;
    }
    let mut h: u64 = x[0] as u64;
    let mut i: usize = 1;
    proof {
        reveal_with_fuel(horner16, 2);
        assert(c as nat * 0 == 0) by (nonlinear_arith);
    }
    while i < x.len()
        invariant
            1 <= i <= x.len(),
            c < 0x1ffff,
            h < P16,
            h as nat == horner16(c as nat, x@, i as nat),
        decreases x.len() - i,
    {
        h = fold17(c as u64, h, x[i] as u64);
        i = i + 1;
    }

    h = fold17(a as u64, h, b as u64);
    proof {
        let w: u32 = h as u32;
        assert(w & 0xf_ffff == w) by (bit_vector)
            requires
                w < 0x1ffff,
        ;
    }
    (h as u32) & 0xfffff
}

/// Adds two four-limb values.
pub fn add4x4(a: [u32; 4], b: [u32; 4]) -> (r: [u32; 5])
    ensures
        limbs5(r) == limbs4(a) + limbs4(b),
{
    let c0: u64 = (a[0] as u64) + (b[0] as u64);
    proof {
        lemma_split64(c0);
    }
    let c1: u64 = (a[1] as u64) + (b[1] as u64) + (c0 >> 32);
    proof {
        lemma_split64(c1);
    }
    let c2: u64 = (a[2] as u64) + (b[2] as u64) + (c1 >> 32);
    proof {
        lemma_split64(c2);
    }
    let c3: u64 = (a[3] as u64) + (b[3] as u64) + (c2 >> 32);
    proof {
        lemma_split64(c3);
    }
    let c4: u64 = c3 >> 32;
    let r: [u32; 5] = [
        #[verifier::truncate] (c0 as u32),
        #[verifier::truncate] (c1 as u32),
        #[verifier::truncate] (c2 as u32),
        #[verifier::truncate] (c3 as u32),
        c4 as u32,
    ];
    proof {
        // The limbs of the result are the sums without what they carry on.
        let carried = (c0 >> 32) * radix() + (c1 >> 32) * radix2() + (c2 >> 32) * radix3() + c4
            * radix4();
        assert(limbs5(r) + carried == c0 + c1 * radix() + c2 * radix2() + c3 * radix3() + c4
            * radix4());
    }
    r
}

/// The polynomial hash over the field of `2^89 - 1` elements, with a hash of
/// 64 bits.
pub struct Poly64 {
    inner: PolyU64,
}

impl View for Poly64 {
    type V = PolyState;

    closed spec fn view(&self) -> PolyState {
        self.inner@
    }
}

impl Poly64 {
    /// A hasher with the finishing coefficients `a` and `b` and the
    /// evaluation point `c`, all three residues.
    pub fn new(a: [u32; 3], b: [u32; 3], c: [u32; 3]) -> (r: Self)
        requires
            limbs3(a) < p89(),
            limbs3(b) < p89(),
            limbs3(c) < p89(),
        ensures
            r@ == poly_fresh(limbs3(a), limbs3(b), limbs3(c)),
            poly_wf(r@),
    {
        Self { inner: PolyU64::new(a, b, c) }
    }

    /// Takes one word: the accumulator becomes `(c * state + x) mod p`.
    pub fn write_u64(&mut self, x: u64)
        requires
            poly_wf(old(self)@),
        ensures
            final(self)@ == poly_write(old(self)@, x),
            poly_wf(final(self)@),
    {
        self.inner.write_u64(x);
    }

    /// The low 64 bits of `(a * state + b) mod p`. The hasher is then as
    /// `new` made it.
    pub fn finish(&mut self) -> (r: u64)
        requires
            poly_wf(old(self)@),
        ensures
            r as nat == poly_digest(old(self)@, 64),
            final(self)@ == poly_fresh(old(self)@.a, old(self)@.b, old(self)@.c),
            poly_wf(final(self)@),
    {
        self.inner.finish(64)
    }
}

/// The pair hash of up to 32 words of 64 bits, with a hash of 32 bits.
pub struct PairPrefixShift32x64 {
    inner: PairShiftU64D32,
}

impl View for PairPrefixShift32x64 {
    type V = FilterState;

    closed spec fn view(&self) -> FilterState {
        self.inner@
    }
}

impl PairPrefixShift32x64 {
    /// An empty filter with the keys `a`.
    pub fn new(a: [u64; 65]) -> (r: Self)
        ensures
            r@ == filter_fresh(a@),
    {
        Self { inner: PairShiftU64D32::new(a) }
    }

    /// Takes one word. The filter has room for 32.
    pub fn write_u64(&mut self, x: u64)
        requires
            old(self)@.count < 32,
        ensures
            final(self)@ == pair_write(old(self)@, x),
    {
        self.inner.write_u64(x);
    }

    /// Whether the filter has taken all 32 words.
    pub fn is_done(&self) -> (r: bool)
        ensures
            r == (self@.count == 32),
    {
        self.inner.is_done()
    }

    /// The hash of what was taken, 32 bits; the filter is empty again.
    pub fn finish(&mut self) -> (r: u32)
        requires
            old(self)@.count <= 32,
        ensures
            r as nat == pair_digest(old(self)@, 32),
            final(self)@ == filter_fresh(old(self)@.keys),
    {
        self.inner.finish(32)
    }
}

/// The polynomial hasher behind two pair filters, with a hash of 64 bits.
pub struct PolySpeedup64 {
    inner: PreprocPolyU64D32,
}

impl View for PolySpeedup64 {
    type V = PipelineState;

    closed spec fn view(&self) -> PipelineState {
        self.inner@
    }
}

impl PolySpeedup64 {
    /// A pipeline made of a polynomial hasher and two filters that stand at
    /// the same fill level.
    pub fn new(poly: Poly64, prep0: PairPrefixShift32x64, prep1: PairPrefixShift32x64) -> (r:
        Self)
        requires
            poly_wf(poly@),
            prep0@.count == prep1@.count,
            prep0@.count <= 32,
        ensures
            r@ == (PipelineState { prep1: prep0@, prep2: prep1@, poly: poly@ }),
            pipeline_wf(r@),
    {
        Self { inner: PreprocPolyU64D32::from_parts(poly.inner, prep0.inner, prep1.inner) }
    }

    /// Takes one word. A full block is flushed first.
    pub fn write_u64(&mut self, x: u64)
        requires
            pipeline_wf(old(self)@),
        ensures
            final(self)@ == pipeline_write(old(self)@, x),
            pipeline_wf(final(self)@),
    {
        self.inner.write_u64(x);
    }

    /// The hash of what was taken, 64 bits. What is buffered is flushed
    /// first, whether or not it is a full block. The pipeline is then empty.
    pub fn finish(&mut self) -> (r: u64)
        requires
            pipeline_wf(old(self)@),
        ensures
            r as nat == pipeline_digest(old(self)@, 64),
            final(self)@ == pipeline_fresh(
                old(self)@.prep1.keys,
                old(self)@.prep2.keys,
                old(self)@.poly.a,
                old(self)@.poly.b,
                old(self)@.poly.c,
            ),
            pipeline_wf(final(self)@),
    {
        self.inner.finish(64)
    }
}

/// Multiply-mod-prime hashing of a 64-bit word modulo `2^89 - 1`: the low 64
/// bits of the residue. The coefficients are residues.
pub fn mmp89(a: [u32; 3], b: [u32; 3], x: u64) -> (r: u64)
    requires
        limbs3(a) < p89(),
        limbs3(b) < p89(),
    ensures
        r as nat == mmp(p89(), 64, limbs3(a), limbs3(b), x as nat),
{
    mmp_p89_u64(64, a, b, x)
}

/// Strong multiply-shift hashing of a 64-bit word to 64 bits, with a
/// working width of 128 bits.
pub fn shift64(a: u128, b: u128, x: u64) -> (r: u64)
    ensures
        r as nat == multiply_shift_strong(128, 64, a as nat, b as nat, x as nat),
{
    shift_strong_u64_128(64, a, b, x)
}

} // verus!
