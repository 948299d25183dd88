//! What holds of the library as a whole: laws that relate several of its
//! functions, stated over the model that their contracts use.
use crate::lemmas::{lemma_product_folds, lemma_reduce89};
use crate::model::{
    block, block_count, block_word, dot, filter_fresh, limbs2, limbs3, offset_hash, p89, packed,
    pair_digest, pair_dot, pair_run, pair_write, pipeline_digest, pipeline_flush,
    pipeline_fresh, pipeline_run, pipeline_wf, pipeline_write, poly_digest, poly_fresh,
    poly_run, poly_value, poly_write, pow89, radix, radix2, radix3, reduce89, sub_p89,
    vector_digest, vector_run, FilterState, PipelineState, PolyState,
};
use vstd::arithmetic::div_mod::{
    lemma_add_mod_noop, lemma_add_mod_noop_right, lemma_fundamental_div_mod_converse,
    lemma_multiply_divide_lt,
};
use vstd::prelude::*;

verus! {

/// Reduction is correct on every product of three limbs by two: the
/// reduction of the product without an addend is its residue.
pub proof fn law_reduction_of_mul3x2(a: [u32; 3], x: [u32; 2])
    ensures
        reduce89(limbs3(a) * limbs2(x), 0) == (limbs3(a) * limbs2(x)) % p89(),
        reduce89(limbs3(a) * limbs2(x), 0) < p89(),
{
    let v = limbs3(a) * limbs2(x);
    assert(v < radix3() * radix2()) by (nonlinear_arith)
        requires
            v == limbs3(a) * limbs2(x),
            limbs3(a) < radix3(),
            limbs2(x) < radix2(),
    ;
    assert(radix3() * radix2() == pow89() * 0x80_0000_0000_0000_0000) by (nonlinear_arith);
    lemma_multiply_divide_lt(v as int, pow89() as int, 0x80_0000_0000_0000_0000);
    lemma_reduce89(v, 0);
}

/// Reduction is correct on every product of three limbs by three whose two
/// parts, below and above bit 89, add up to less than three times the
/// prime: the reduction of the product without an addend is its residue.
pub proof fn law_reduction_of_mul3x3(a: [u32; 3], x: [u32; 3])
    requires
        (limbs3(a) * limbs3(x)) % pow89() + (limbs3(a) * limbs3(x)) / pow89() < 3 * p89(),
    ensures
        reduce89(limbs3(a) * limbs3(x), 0) == (limbs3(a) * limbs3(x)) % p89(),
        reduce89(limbs3(a) * limbs3(x), 0) < p89(),
{
    lemma_reduce89(limbs3(a) * limbs3(x), 0);
}

/// The products of two values that are at most the prime, residues among
/// them, are products on which reduction is correct, with room for an
/// addend that is at most the prime.
pub proof fn law_reduction_of_residues(a: [u32; 3], x: [u32; 3], b: [u32; 3])
    requires
        limbs3(a) <= p89(),
        limbs3(x) <= p89(),
        limbs3(b) <= p89(),
    ensures
        (limbs3(a) * limbs3(x)) % pow89() + (limbs3(a) * limbs3(x)) / pow89() + limbs3(b) < 3
            * p89(),
        reduce89(limbs3(a) * limbs3(x), limbs3(b)) == (limbs3(a) * limbs3(x) + limbs3(b)) % p89(),
        reduce89(limbs3(a) * limbs3(x), limbs3(b)) < p89(),
{
    lemma_product_folds(limbs3(a), limbs3(x));
    lemma_reduce89(limbs3(a) * limbs3(x), limbs3(b));
}

/// Two conditional subtractions suffice: of three terms that are at most
/// the prime, and not all three the prime itself, the sum comes down to its
/// residue.
pub proof fn law_double_subtraction(x: nat, y: nat, z: nat)
    requires
        x <= p89(),
        y <= p89(),
        z <= p89(),
        !(x == p89() && y == p89() && z == p89()),
    ensures
        sub_p89(sub_p89(x + y + z)) == (x + y + z) % p89(),
        sub_p89(sub_p89(x + y + z)) < p89(),
{
    let s = x + y + z;
    let k: nat = if s >= 2 * p89() {
        2
    } else if s >= p89() {
        1
    } else {
        0
    };
    lemma_fundamental_div_mod_converse(s as int, p89() as int, k as int, s - k * p89());
}

/// Where all three terms are the prime, two subtractions leave the prime.
pub proof fn law_double_subtraction_limit()
    ensures
        sub_p89(sub_p89(p89() + p89() + p89())) == p89(),
{
}

/// A filter that starts empty has taken as many inputs as it was given,
/// and keeps its keys.
pub proof fn law_pair_run_counts(keys: Seq<u64>, xs: Seq<u64>)
    ensures
        pair_run(filter_fresh(keys), xs).count == xs.len(),
        pair_run(filter_fresh(keys), xs).keys == keys,
        pair_run(filter_fresh(keys), xs).sum < radix2(),
    decreases xs.len(),
{
    if xs.len() > 0 {
        law_pair_run_counts(keys, xs.drop_last());
    }
}

/// Horner's rule: the accumulator of a polynomial hasher that starts empty
/// is the value at `c` of the polynomial that the inputs make, and its
/// coefficients stay what they were.
pub proof fn law_poly_run_is_horner(a: nat, b: nat, c: nat, xs: Seq<u64>)
    ensures
        poly_run(poly_fresh(a, b, c), xs) == (PolyState { a, b, c, state: poly_value(c, xs) }),
    decreases xs.len(),
{
    if xs.len() > 0 {
        law_poly_run_is_horner(a, b, c, xs.drop_last());
    }
}

/// One more input to a filter is one more step.
proof fn lemma_pair_run_push(s: FilterState, ws: Seq<u64>, x: u64)
    ensures
        pair_run(s, ws.push(x)) == pair_write(pair_run(s, ws), x),
{
    assert(ws.push(x).drop_last() =~= ws);
}

/// One more input to a polynomial hasher is one more step.
proof fn lemma_poly_run_push(s: PolyState, ws: Seq<u64>, x: u64)
    ensures
        poly_run(s, ws.push(x)) == poly_write(poly_run(s, ws), x),
{
    assert(ws.push(x).drop_last() =~= ws);
}

/// The state of a pipeline that holds the last block of `xs` in its
/// filters and has handed every block before it to the polynomial hasher.
pub open spec fn holds_last_block(
    keys1: Seq<u64>,
    keys2: Seq<u64>,
    a: nat,
    b: nat,
    c: nat,
    xs: Seq<u64>,
    st: PipelineState,
) -> bool {
    let last = block_count(xs.len()) - 1;
    &&& st.prep1 == pair_run(filter_fresh(keys1), block(xs, last))
    &&& st.prep2 == pair_run(filter_fresh(keys2), block(xs, last))
    &&& st.poly == poly_run(poly_fresh(a, b, c), packed(keys1, keys2, xs).drop_last())
    &&& block(xs, last).len() == xs.len() - 32 * last
    &&& block(xs, last).len() <= 32
}

/// An input that follows a full block opens a new block: the blocks so far
/// stay as they are and become the blocks but the last.
proof fn lemma_new_block(keys1: Seq<u64>, keys2: Seq<u64>, ys: Seq<u64>, x: u64)
    requires
        ys.len() > 0,
        ys.len() % 32 == 0,
    ensures
        block_count(ys.len() + 1) == block_count(ys.len()) + 1,
        block(ys.push(x), block_count(ys.len()) as int) == seq![x],
        packed(keys1, keys2, ys.push(x)).drop_last() == packed(keys1, keys2, ys),
        packed(keys1, keys2, ys).len() == block_count(ys.len()),
        packed(keys1, keys2, ys).last() == block_word(
            keys1,
            keys2,
            block(ys, block_count(ys.len()) - 1),
        ),
{
    let xs = ys.push(x);
    let count = block_count(ys.len()) as int;
    assert(block(xs, count) =~= seq![x]);
    assert forall|j: int| 0 <= j < count implies block(xs, j) == block(ys, j) by {
        assert(block(xs, j) =~= block(ys, j));
    }
    assert(packed(keys1, keys2, xs).drop_last() =~= packed(keys1, keys2, ys));
}

/// An input that follows a block with room left joins that block: the
/// blocks before it stay as they are.
proof fn lemma_same_block(keys1: Seq<u64>, keys2: Seq<u64>, ys: Seq<u64>, x: u64)
    requires
        ys.len() == 0 || ys.len() % 32 != 0,
    ensures
        block_count(ys.len() + 1) == block_count(ys.len()),
        block(ys.push(x), block_count(ys.len()) - 1) == block(
            ys,
            block_count(ys.len()) - 1,
        ).push(x),
        packed(keys1, keys2, ys.push(x)).drop_last() == packed(keys1, keys2, ys).drop_last(),
{
    let xs = ys.push(x);
    let last = block_count(ys.len()) - 1;
    assert(block(xs, last) =~= block(ys, last).push(x));
    assert forall|j: int| 0 <= j < last implies block(xs, j) == block(ys, j) by {
        assert(block(xs, j) =~= block(ys, j));
    }
    assert(packed(keys1, keys2, xs).drop_last() =~= packed(keys1, keys2, ys).drop_last());
}

/// The step of a pipeline whose filters are full: the block goes to the
/// polynomial hasher, and the input opens the next block.
proof fn lemma_step_after_full_block(
    keys1: Seq<u64>,
    keys2: Seq<u64>,
    a: nat,
    b: nat,
    c: nat,
    ys: Seq<u64>,
    x: u64,
    before: PipelineState,
)
    requires
        holds_last_block(keys1, keys2, a, b, c, ys, before),
        block(ys, block_count(ys.len()) - 1).len() == 32,
    ensures
        holds_last_block(keys1, keys2, a, b, c, ys.push(x), pipeline_write(before, x)),
{
    let held = block(ys, block_count(ys.len()) - 1);
    law_pair_run_counts(keys1, held);
    law_pair_run_counts(keys2, held);
    lemma_new_block(keys1, keys2, ys, x);
    let words = packed(keys1, keys2, ys);
    assert(words =~= words.drop_last().push(words.last()));
    lemma_poly_run_push(poly_fresh(a, b, c), words.drop_last(), words.last());
    lemma_pair_run_push(filter_fresh(keys1), Seq::<u64>::empty(), x);
    lemma_pair_run_push(filter_fresh(keys2), Seq::<u64>::empty(), x);
    assert(Seq::<u64>::empty().push(x) =~= seq![x]);
}

/// The step of a pipeline whose filters have room: the input joins the
/// block that they hold.
proof fn lemma_step_within_block(
    keys1: Seq<u64>,
    keys2: Seq<u64>,
    a: nat,
    b: nat,
    c: nat,
    ys: Seq<u64>,
    x: u64,
    before: PipelineState,
)
    requires
        holds_last_block(keys1, keys2, a, b, c, ys, before),
        block(ys, block_count(ys.len()) - 1).len() < 32,
    ensures
        holds_last_block(keys1, keys2, a, b, c, ys.push(x), pipeline_write(before, x)),
{
    let held = block(ys, block_count(ys.len()) - 1);
    law_pair_run_counts(keys1, held);
    law_pair_run_counts(keys2, held);
    lemma_same_block(keys1, keys2, ys, x);
    lemma_pair_run_push(filter_fresh(keys1), held, x);
    lemma_pair_run_push(filter_fresh(keys2), held, x);
}

/// What the pipeline holds after the inputs `xs`: the filters hold the last
/// block, and the polynomial hasher has taken the combined word of every
/// block before it.
pub proof fn law_pipeline_state(
    keys1: Seq<u64>,
    keys2: Seq<u64>,
    a: nat,
    b: nat,
    c: nat,
    xs: Seq<u64>,
)
    ensures
        holds_last_block(
            keys1,
            keys2,
            a,
            b,
            c,
            xs,
            pipeline_run(pipeline_fresh(keys1, keys2, a, b, c), xs),
        ),
    decreases xs.len(),
{
    let fresh = pipeline_fresh(keys1, keys2, a, b, c);
    if xs.len() == 0 {
        assert(block(xs, 0) =~= Seq::<u64>::empty());
        assert(packed(keys1, keys2, xs).drop_last() =~= Seq::<u64>::empty());
    } else {
        let ys = xs.drop_last();
        let x = xs.last();
        assert(xs =~= ys.push(x));
        let before = pipeline_run(fresh, ys);
        law_pipeline_state(keys1, keys2, a, b, c, ys);
        if block(ys, block_count(ys.len()) - 1).len() == 32 {
            lemma_step_after_full_block(keys1, keys2, a, b, c, ys, x, before);
        } else {
            lemma_step_within_block(keys1, keys2, a, b, c, ys, x, before);
        }
    }
}

/// The pipeline and the polynomial hasher agree: on the inputs `xs` the
/// pipeline gives the hash that the polynomial hasher with the same
/// coefficients gives on the packed input, one combined word for each block
/// of 32.
pub proof fn law_pipeline_agrees_with_poly(
    keys1: Seq<u64>,
    keys2: Seq<u64>,
    a: nat,
    b: nat,
    c: nat,
    xs: Seq<u64>,
    l: nat,
)
    ensures
        pipeline_digest(pipeline_run(pipeline_fresh(keys1, keys2, a, b, c), xs), l) == poly_digest(
            poly_run(poly_fresh(a, b, c), packed(keys1, keys2, xs)),
            l,
        ),
{
    law_pipeline_state(keys1, keys2, a, b, c, xs);
    let words = packed(keys1, keys2, xs);
    assert(words =~= words.drop_last().push(words.last()));
    lemma_poly_run_push(poly_fresh(a, b, c), words.drop_last(), words.last());
}

/// The pipeline stays well formed under every input, so that it can take
/// any number of words.
pub proof fn law_pipeline_stays_wf(s: PipelineState, x: u64)
    requires
        pipeline_wf(s),
    ensures
        pipeline_wf(pipeline_write(s, x)),
        pipeline_wf(pipeline_flush(s)),
{
}

/// The dot-product filter computes the dot product: after the inputs `xs`
/// a filter that started empty holds the sum of key times input, modulo
/// `2^64`.
pub proof fn law_vector_run_is_dot(keys: Seq<u64>, xs: Seq<u32>)
    ensures
        vector_run(filter_fresh(keys), xs).count == xs.len(),
        vector_run(filter_fresh(keys), xs).keys == keys,
        vector_run(filter_fresh(keys), xs).sum == dot(keys, xs, xs.len()) % radix2(),
    decreases xs.len(),
{
    if xs.len() == 0 {
    } else {
        let ys = xs.drop_last();
        law_vector_run_is_dot(keys, ys);
        lemma_dot_prefix(keys, ys, xs, ys.len());
        let n = ys.len();
        lemma_add_mod_noop(
            dot(keys, ys, n) as int,
            keys[n as int] as int * xs.last() as int,
            radix2() as int,
        );
        lemma_add_mod_noop_right(
            dot(keys, ys, n) as int % (radix2() as int),
            keys[n as int] as int * xs.last() as int,
            radix2() as int,
        );
    }
}

/// The dot-product filter on a whole block agrees with the dot-product hash
/// of the block: the key that follows the last one used is the offset.
pub proof fn law_vector_filter_is_dot_hash(keys: Seq<u64>, xs: Seq<u32>, l: nat)
    ensures
        vector_digest(vector_run(filter_fresh(keys), xs), l) == offset_hash(
            l,
            keys[xs.len() as int],
            dot(keys, xs, xs.len()),
        ),
{
    law_vector_run_is_dot(keys, xs);
    lemma_add_mod_noop_right(
        keys[xs.len() as int] as int,
        dot(keys, xs, xs.len()) as int,
        radix2() as int,
    );
}

/// The pair filter computes the paired product: after the words `ws` a
/// filter that started empty holds the paired product of their halves, the
/// low half of each word before its high half, modulo `2^64`.
pub proof fn law_pair_run_is_pair_dot(keys: Seq<u64>, ws: Seq<u64>, xs: Seq<u32>)
    requires
        xs.len() == 2 * ws.len(),
        forall|i: int|
            0 <= i < ws.len() ==> xs[2 * i] as nat == ws[i] as nat % radix() && xs[2 * i
                + 1] as nat == ws[i] as nat / radix(),
    ensures
        pair_run(filter_fresh(keys), ws).sum == pair_dot(keys, xs, ws.len()) % radix2(),
    decreases ws.len(),
{
    if ws.len() == 0 {
    } else {
        let vs = ws.drop_last();
        let n = vs.len() as int;
        let ys = xs.subrange(0, 2 * n);
        law_pair_run_is_pair_dot(keys, vs, ys);
        law_pair_run_counts(keys, vs);
        lemma_pair_dot_prefix(keys, ys, xs, n as nat);
        let term = (keys[2 * n] as int + xs[2 * n + 1] as int) * (keys[2 * n + 1] as int + xs[2
            * n] as int);
        lemma_add_mod_noop_right(term, pair_dot(keys, xs, n as nat) as int, radix2() as int);
        assert(xs[2 * n] as nat == ws[n] as nat % radix());
        assert(xs[2 * n + 1] as nat == ws[n] as nat / radix());
    }
}

/// The pair filter on a whole block agrees with the pair hash of the
/// halves of its words.
pub proof fn law_pair_filter_is_pair_hash(keys: Seq<u64>, ws: Seq<u64>, xs: Seq<u32>, l: nat)
    requires
        xs.len() == 2 * ws.len(),
        forall|i: int|
            0 <= i < ws.len() ==> xs[2 * i] as nat == ws[i] as nat % radix() && xs[2 * i
                + 1] as nat == ws[i] as nat / radix(),
    ensures
        pair_digest(pair_run(filter_fresh(keys), ws), l) == offset_hash(
            l,
            keys[xs.len() as int],
            pair_dot(keys, xs, ws.len()),
        ),
{
    law_pair_run_is_pair_dot(keys, ws, xs);
    law_pair_run_counts(keys, ws);
    lemma_add_mod_noop_right(
        keys[xs.len() as int] as int,
        pair_dot(keys, xs, ws.len()) as int,
        radix2() as int,
    );
}

/// The paired product of the first `n` pairs depends on these pairs alone.
proof fn lemma_pair_dot_prefix(keys: Seq<u64>, ys: Seq<u32>, xs: Seq<u32>, n: nat)
    requires
        2 * n <= ys.len() <= xs.len(),
        forall|i: int| 0 <= i < 2 * n ==> ys[i] == xs[i],
    ensures
        pair_dot(keys, ys, n) == pair_dot(keys, xs, n),
    decreases n,
{
    if n > 0 {
        lemma_pair_dot_prefix(keys, ys, xs, (n - 1) as nat);
    }
}

/// The dot product of the first `n` inputs depends on these inputs alone.
proof fn lemma_dot_prefix(keys: Seq<u64>, ys: Seq<u32>, xs: Seq<u32>, n: nat)
    requires
        n <= ys.len() <= xs.len(),
        forall|i: int| 0 <= i < n ==> ys[i] == xs[i],
    ensures
        dot(keys, ys, n) == dot(keys, xs, n),
    decreases n,
{
    if n > 0 {
        lemma_dot_prefix(keys, ys, xs, (n - 1) as nat);
    }
}

} // verus!
