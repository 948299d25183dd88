//! The mathematical model: what a limb array denotes, the three Mersenne
//! primes, the reduction modulo `2^89 - 1` and the hash families as
//! functions on naturals, and the accumulators as state machines.
use vstd::arithmetic::power2::pow2;
use vstd::prelude::*;

verus! {

/// `2^32`, the radix of a limb.
pub open spec fn radix() -> nat {
    0x1_0000_0000
}

/// `2^64`.
pub open spec fn radix2() -> nat {
    0x1_0000_0000_0000_0000
}

/// `2^96`, one more than the largest value of three limbs.
pub open spec fn radix3() -> nat {
    0x1_0000_0000_0000_0000_0000_0000
}

/// `2^128`.
pub open spec fn radix4() -> nat {
    0x1_0000_0000_0000_0000_0000_0000_0000_0000nat
}

/// `2^160`.
pub open spec fn radix5() -> nat {
    0x1_0000_0000_0000_0000_0000_0000_0000_0000_0000_0000nat
}

/// `2^89`, the point at which a wide value is split for reduction.
pub open spec fn pow89() -> nat {
    0x200_0000_0000_0000_0000_0000
}

/// The prime `2^31 - 1`.
pub open spec fn p31() -> nat {
    0x7fff_ffff
}

/// The prime `2^61 - 1`.
pub open spec fn p61() -> nat {
    0x1fff_ffff_ffff_ffff
}

/// The prime `2^89 - 1`.
pub open spec fn p89() -> nat {
    0x1ff_ffff_ffff_ffff_ffff_ffff
}

/// The number that two limbs denote, least significant limb first.
pub open spec fn limbs2(a: [u32; 2]) -> nat {
    a[0] as nat + a[1] as nat * radix()
}

/// The number that three limbs denote, least significant limb first.
pub open spec fn limbs3(a: [u32; 3]) -> nat {
    a[0] as nat + a[1] as nat * radix() + a[2] as nat * radix2()
}

/// The number that four limbs denote, least significant limb first.
pub open spec fn limbs4(a: [u32; 4]) -> nat {
    a[0] as nat + a[1] as nat * radix() + a[2] as nat * radix2() + a[3] as nat * radix3()
}

/// The number that five limbs denote, least significant limb first.
pub open spec fn limbs5(a: [u32; 5]) -> nat {
    a[0] as nat + a[1] as nat * radix() + a[2] as nat * radix2() + a[3] as nat * radix3()
        + a[4] as nat * radix4()
}

/// The number that six limbs denote, least significant limb first.
pub open spec fn limbs6(a: [u32; 6]) -> nat {
    a[0] as nat + a[1] as nat * radix() + a[2] as nat * radix2() + a[3] as nat * radix3()
        + a[4] as nat * radix4() + a[5] as nat * radix5()
}

/// The low part of `v` below bit 89 plus the 96 bits above it. Since
/// `2^89` is congruent to one modulo `2^89 - 1`, the sum is congruent to `v`
/// whenever `v` lies below `2^185`.
pub open spec fn fold89(v: nat) -> nat {
    v % pow89() + (v / pow89()) % radix3()
}

/// One conditional subtraction of `2^89 - 1`.
pub open spec fn sub_p89(v: nat) -> nat {
    if v >= p89() {
        (v - p89()) as nat
    } else {
        v
    }
}

/// The reduction of a wide value `v` plus an addend: fold at bit 89, add,
/// then subtract the prime conditionally, twice.
pub open spec fn reduce89(v: nat, extra: nat) -> nat {
    sub_p89(sub_p89(fold89(v) + extra))
}

/// Multiply-mod-prime hashing: `((a * x + b) mod p) mod 2^l`.
pub open spec fn mmp(p: nat, l: nat, a: nat, b: nat, x: nat) -> nat {
    ((a * x + b) % p) % pow2(l)
}

/// Multiply-shift hashing on words of `w` bits: the top `l` bits of
/// `a * x mod 2^w`.
pub open spec fn multiply_shift(w: nat, l: nat, a: nat, x: nat) -> nat {
    ((a * x) % pow2(w)) / pow2((w - l) as nat)
}

/// Strong multiply-shift hashing with a working width of `w` bits: the top
/// `l` bits of `(a * x + b) mod 2^w`.
pub open spec fn multiply_shift_strong(w: nat, l: nat, a: nat, b: nat, x: nat) -> nat {
    ((a * x + b) % pow2(w)) / pow2((w - l) as nat)
}

/// The three 30-bit slices of a 64-bit word, lowest first; the last holds
/// the four bits that are left.
pub open spec fn slice30(x: u64, i: int) -> nat {
    if i == 0 {
        x as nat % 0x4000_0000
    } else if i == 1 {
        (x as nat / 0x4000_0000) % 0x4000_0000
    } else {
        x as nat / 0x1000_0000_0000_0000
    }
}

/// Three independent hashes modulo `2^31 - 1`, one for each 30-bit slice of
/// `x`, combined by exclusive or.
pub open spec fn mmp31_triple(l: nat, a: [u32; 3], b: [u32; 3], x: u64) -> u32 {
    (mmp(p31(), l, a[0] as nat, b[0] as nat, slice30(x, 0)) as u32) ^ (mmp(
        p31(),
        l,
        a[1] as nat,
        b[1] as nat,
        slice30(x, 1),
    ) as u32) ^ (mmp(p31(), l, a[2] as nat, b[2] as nat, slice30(x, 2)) as u32)
}

/// The dot product of the first `n` keys with the first `n` inputs.
pub open spec fn dot(keys: Seq<u64>, xs: Seq<u32>, n: nat) -> nat
    decreases n,
{
    if n == 0 {
        0
    } else {
        dot(keys, xs, (n - 1) as nat) + keys[n - 1] as nat * xs[n - 1] as nat
    }
}

/// The paired product of the first `n` input pairs: each input joins the
/// key of its partner, and the two sums are multiplied.
pub open spec fn pair_dot(keys: Seq<u64>, xs: Seq<u32>, n: nat) -> nat
    decreases n,
{
    if n == 0 {
        0
    } else {
        pair_dot(keys, xs, (n - 1) as nat) + (keys[2 * (n - 1)] as nat + xs[2 * (n - 1)
            + 1] as nat) * (keys[2 * (n - 1) + 1] as nat + xs[2 * (n - 1)] as nat)
    }
}

/// The top `l` bits of an offset plus a total, taken modulo `2^64`.
pub open spec fn offset_hash(l: nat, offset: u64, total: nat) -> nat {
    ((offset as nat + total) % radix2()) / pow2((64 - l) as nat)
}

/// What a block filter holds: its keys, how many inputs it has taken since
/// it was last emptied, and their running sum modulo `2^64`.
pub struct FilterState {
    pub keys: Seq<u64>,
    pub count: nat,
    pub sum: nat,
}

/// A filter that has taken no input.
pub open spec fn filter_fresh(keys: Seq<u64>) -> FilterState {
    FilterState { keys, count: 0, sum: 0 }
}

/// The dot-product filter after one more 32-bit input: the input times the
/// next key joins the sum.
pub open spec fn vector_write(s: FilterState, x: u32) -> FilterState {
    FilterState {
        keys: s.keys,
        count: s.count + 1,
        sum: (s.sum + s.keys[s.count as int] as nat * x as nat) % radix2(),
    }
}

/// The hash that the dot-product filter gives at width `l`: one more key is
/// added and the top `l` bits are kept.
pub open spec fn vector_digest(s: FilterState, l: nat) -> nat {
    ((s.sum + s.keys[s.count as int] as nat) % radix2()) / pow2((64 - l) as nat)
}

/// The pair filter after one more 64-bit input: the high half joins one key,
/// the low half the next, and the product of the two joins the sum.
pub open spec fn pair_write(s: FilterState, x: u64) -> FilterState {
    FilterState {
        keys: s.keys,
        count: s.count + 1,
        sum: (s.sum + (s.keys[2 * s.count as int] as nat + x as nat / radix()) * (s.keys[2
            * s.count as int + 1] as nat + x as nat % radix())) % radix2(),
    }
}

/// The hash that the pair filter gives at width `l`: one more key is added
/// and the top `l` bits are kept.
pub open spec fn pair_digest(s: FilterState, l: nat) -> nat {
    ((s.sum + s.keys[2 * s.count as int] as nat) % radix2()) / pow2((64 - l) as nat)
}

/// What a polynomial hasher over the field of `2^89 - 1` elements holds: its
/// three coefficients and the accumulator.
pub struct PolyState {
    pub a: nat,
    pub b: nat,
    pub c: nat,
    pub state: nat,
}

/// A polynomial hasher that has taken no input.
pub open spec fn poly_fresh(a: nat, b: nat, c: nat) -> PolyState {
    PolyState { a, b, c, state: 0 }
}

/// Every component of a polynomial hasher is a residue.
pub open spec fn poly_wf(s: PolyState) -> bool {
    s.a < p89() && s.b < p89() && s.c < p89() && s.state < p89()
}

/// One step of Horner's rule: the accumulator times `c`, plus the input.
pub open spec fn poly_write(s: PolyState, x: u64) -> PolyState {
    PolyState { a: s.a, b: s.b, c: s.c, state: (s.c * s.state + x as nat) % p89() }
}

/// The hash that a polynomial hasher gives at width `l`.
pub open spec fn poly_digest(s: PolyState, l: nat) -> nat {
    mmp(p89(), l, s.a, s.b, s.state)
}

/// The limb of index `i` of a value below `2^96`.
pub open spec fn limb(v: nat, i: int) -> nat {
    if i == 0 {
        v % radix()
    } else if i == 1 {
        (v / radix()) % radix()
    } else {
        v / radix2()
    }
}

/// What the polynomial hasher with a multiply-shift finish holds: three
/// pairs of 64-bit coefficients, the evaluation point and the accumulator.
pub struct PolyShiftState {
    pub a: Seq<u64>,
    pub b: Seq<u64>,
    pub c: nat,
    pub state: nat,
}

/// One step of Horner's rule on a hasher with a multiply-shift finish.
pub open spec fn poly_shift_write(s: PolyShiftState, x: u64) -> PolyShiftState {
    PolyShiftState { a: s.a, b: s.b, c: s.c, state: (s.c * s.state + x as nat) % p89() }
}

/// The hash that the multiply-shift finish gives at width `l`: each limb of
/// the accumulator is hashed with its own coefficient pair, and the three
/// results are combined by exclusive or.
pub open spec fn poly_shift_digest(s: PolyShiftState, l: nat) -> u32 {
    (multiply_shift_strong(64, l, s.a[0] as nat, s.b[0] as nat, limb(s.state, 0)) as u32) ^ (
    multiply_shift_strong(64, l, s.a[1] as nat, s.b[1] as nat, limb(s.state, 1)) as u32) ^ (
    multiply_shift_strong(64, l, s.a[2] as nat, s.b[2] as nat, limb(s.state, 2)) as u32)
}

/// What the preprocessing pipeline holds: two pair filters that advance
/// together and the polynomial hasher that they feed.
pub struct PipelineState {
    pub prep1: FilterState,
    pub prep2: FilterState,
    pub poly: PolyState,
}

/// The combined word of a block: the 32-bit hash of the first filter in the
/// low half, that of the second in the high half.
pub open spec fn packed_word(prep1: FilterState, prep2: FilterState) -> nat {
    pair_digest(prep1, 32) + pair_digest(prep2, 32) * radix()
}

/// The pipeline after a flush: the combined word of the block goes into the
/// polynomial hasher and both filters are empty again.
pub open spec fn pipeline_flush(s: PipelineState) -> PipelineState {
    PipelineState {
        prep1: filter_fresh(s.prep1.keys),
        prep2: filter_fresh(s.prep2.keys),
        poly: poly_write(s.poly, packed_word(s.prep1, s.prep2) as u64),
    }
}

/// The pipeline after one more input: a full block is flushed first, then
/// both filters take the input.
pub open spec fn pipeline_write(s: PipelineState, x: u64) -> PipelineState {
    let t = if s.prep1.count == 32 {
        pipeline_flush(s)
    } else {
        s
    };
    PipelineState { prep1: pair_write(t.prep1, x), prep2: pair_write(t.prep2, x), poly: t.poly }
}

/// The hash that the pipeline gives at width `l`: whatever is buffered is
/// flushed, then the polynomial hasher finishes.
pub open spec fn pipeline_digest(s: PipelineState, l: nat) -> nat {
    poly_digest(pipeline_flush(s).poly, l)
}

/// A pipeline that has taken no input.
pub open spec fn pipeline_fresh(
    keys1: Seq<u64>,
    keys2: Seq<u64>,
    a: nat,
    b: nat,
    c: nat,
) -> PipelineState {
    PipelineState {
        prep1: filter_fresh(keys1),
        prep2: filter_fresh(keys2),
        poly: poly_fresh(a, b, c),
    }
}

/// Both filters hold 65 keys and stand at the same fill level, at most a
/// full block, and the polynomial hasher holds residues.
pub open spec fn pipeline_wf(s: PipelineState) -> bool {
    &&& s.prep1.keys.len() == 65
    &&& s.prep2.keys.len() == 65
    &&& s.prep1.count == s.prep2.count
    &&& s.prep1.count <= 32
    &&& s.prep1.sum < radix2()
    &&& s.prep2.sum < radix2()
    &&& poly_wf(s.poly)
}

/// The dot-product filter after the inputs `xs`, in their order.
pub open spec fn vector_run(s: FilterState, xs: Seq<u32>) -> FilterState
    decreases xs.len(),
{
    if xs.len() == 0 {
        s
    } else {
        vector_write(vector_run(s, xs.drop_last()), xs.last())
    }
}

/// The pair filter after the inputs `xs`, in their order.
pub open spec fn pair_run(s: FilterState, xs: Seq<u64>) -> FilterState
    decreases xs.len(),
{
    if xs.len() == 0 {
        s
    } else {
        pair_write(pair_run(s, xs.drop_last()), xs.last())
    }
}

/// The polynomial hasher after the inputs `xs`, in their order.
pub open spec fn poly_run(s: PolyState, xs: Seq<u64>) -> PolyState
    decreases xs.len(),
{
    if xs.len() == 0 {
        s
    } else {
        poly_write(poly_run(s, xs.drop_last()), xs.last())
    }
}

/// The pipeline after the inputs `xs`, in their order.
pub open spec fn pipeline_run(s: PipelineState, xs: Seq<u64>) -> PipelineState
    decreases xs.len(),
{
    if xs.len() == 0 {
        s
    } else {
        pipeline_write(pipeline_run(s, xs.drop_last()), xs.last())
    }
}

/// The value at `c` of the polynomial whose coefficients are the inputs,
/// the first input at the highest power, modulo `2^89 - 1`.
pub open spec fn poly_value(c: nat, xs: Seq<u64>) -> nat
    decreases xs.len(),
{
    if xs.len() == 0 {
        0
    } else {
        (c * poly_value(c, xs.drop_last()) + xs.last() as nat) % p89()
    }
}

/// Into how many blocks of at most 32 words an input of `n` words falls. An
/// empty input makes one empty block.
pub open spec fn block_count(n: nat) -> nat {
    if n == 0 {
        1
    } else {
        (n + 31) / 32
    }
}

/// The block of index `j` of the input `xs`.
pub open spec fn block(xs: Seq<u64>, j: int) -> Seq<u64> {
    xs.subrange(32 * j, if 32 * j + 32 <= xs.len() {
        32 * j + 32
    } else {
        xs.len() as int
    })
}

/// The combined word of a block: what two fresh pair filters make of it,
/// packed into 64 bits.
pub open spec fn block_word(keys1: Seq<u64>, keys2: Seq<u64>, words: Seq<u64>) -> u64 {
    packed_word(pair_run(filter_fresh(keys1), words), pair_run(filter_fresh(keys2), words)) as u64
}

/// The input as the polynomial hasher behind the filters sees it: one
/// combined word for each block.
pub open spec fn packed(keys1: Seq<u64>, keys2: Seq<u64>, xs: Seq<u64>) -> Seq<u64> {
    Seq::new(block_count(xs.len()), |j: int| block_word(keys1, keys2, block(xs, j)))
}

} // verus!
