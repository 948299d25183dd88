//! Multiply-mod-prime hashing of a 64-bit word modulo `2^89 - 1` down to 20
//! bits, in two steps: a multiply-add on limbs, then the reduction.
use crate::lemmas::{lemma_limb_product, lemma_split64, lemma_split_signed, lemma_straddle};
use crate::model::{limbs2, limbs3, limbs5, mmp, p89, pow89, radix, radix2, radix3, radix4};
use vstd::arithmetic::div_mod::lemma_fundamental_div_mod_converse;
use vstd::arithmetic::power2::lemma2_to64;
use vstd::prelude::*;

verus! {

/// The hash of the five-limb value `e`: its residue modulo `2^89 - 1`,
/// reduced to 20 bits.
pub open spec fn modulo_spec(e: nat) -> nat {
    (e % p89()) % 0x10_0000
}

/// Computes `a * x + b` on limbs. The result always fits in five limbs.
pub fn multiply_add(a: [u32; 3], b: [u32; 3], x: [u32; 2]) -> (r: [u32; 5])
    ensures
        limbs5(r) == limbs3(a) * limbs2(x) + limbs3(b),
{
    proof {
        lemma_limb_product(a[0], x[0]);
        lemma_limb_product(a[1], x[0]);
        lemma_limb_product(a[2], x[0]);
        lemma_limb_product(a[0], x[1]);
        lemma_limb_product(a[1], x[1]);
        lemma_limb_product(a[2], x[1]);
    }
    // The product of `a` and the low limb of `x`.
    let alpha0: u64 = (a[0] as u64) * (x[0] as u64);
    let alpha1: u64 = (a[1] as u64) * (x[0] as u64);
    let alpha2: u64 = (a[2] as u64) * (x[0] as u64);

    let gamma0: u64 = alpha0;
    proof {
        lemma_split64(gamma0);
    }
    let gamma1: u64 = (gamma0 >> 32) + alpha1;
    proof {
        lemma_split64(gamma1);
    }
    let gamma2: u64 = (gamma1 >> 32) + alpha2;
    proof {
        lemma_split64(gamma2);
    }

    let c0: u64 = gamma0 & 0xffffffff;
    let c1: u64 = gamma1 & 0xffffffff;
    let c2: u64 = gamma2 & 0xffffffff;
    let c3: u64 = gamma2 >> 32;
    assert(c0 + c1 * 0x1_0000_0000 + c2 * 0x1_0000_0000_0000_0000 + c3
        * 0x1_0000_0000_0000_0000_0000_0000 == alpha0 + alpha1 * 0x1_0000_0000 + alpha2
        * 0x1_0000_0000_0000_0000);

    // The product of `a` and the high limb of `x` joins it, one limb up.
    let alpha0: u64 = c0;
    let alpha1: u64 = c1 + (a[0] as u64) * (x[1] as u64);
    let alpha2: u64 = c2 + (a[1] as u64) * (x[1] as u64);
    let alpha3: u64 = c3 + (a[2] as u64) * (x[1] as u64);

    let gamma0: u64 = alpha0;
    proof {
        lemma_split64(gamma0);
    }
    let gamma1: u64 = (gamma0 >> 32) + alpha1;
    proof {
        lemma_split64(gamma1);
    }
    let gamma2: u64 = (gamma1 >> 32) + alpha2;
    proof {
        lemma_split64(gamma2);
    }
    let gamma3: u64 = (gamma2 >> 32) + alpha3;
    proof {
        lemma_split64(gamma3);
    }

    let d0: u64 = gamma0 & 0xffffffff;
    let d1: u64 = gamma1 & 0xffffffff;
    let d2: u64 = gamma2 & 0xffffffff;
    let d3: u64 = gamma3 & 0xffffffff;
    let d4: u64 = gamma3 >> 32;
    let ghost product = d0 + d1 * radix() + d2 * radix2() + d3 * radix3() + d4 * radix4();
    proof {
        let an = limbs3(a);
        let (x0, x1) = (x[0] as nat, x[1] as nat);
        let (a0, a1, a2) = (a[0] as nat, a[1] as nat, a[2] as nat);
        assert(an * (x0 + x1 * radix()) == (a0 * x0 + (a1 * x0) * radix() + (a2 * x0) * radix2())
            + (a0 * x1 + (a1 * x1) * radix() + (a2 * x1) * radix2()) * radix())
            by (nonlinear_arith)
            requires
                an == a0 + a1 * radix() + a2 * radix2(),
        ;
        assert(product == an * limbs2(x));
        assert(an * limbs2(x) <= 0xffff_ffff_ffff_ffff_ffff_ffff * 0xffff_ffff_ffff_ffff)
            by (nonlinear_arith)
            requires
                an <= 0xffff_ffff_ffff_ffff_ffff_ffff,
                limbs2(x) <= 0xffff_ffff_ffff_ffff,
        ;
    }

    // The addend joins the product.
    let alpha0: u64 = d0 + (b[0] as u64);
    let alpha1: u64 = d1 + (b[1] as u64);
    let alpha2: u64 = d2 + (b[2] as u64);
    let alpha3: u64 = d3;
    let alpha4: u64 = d4;

    let gamma0: u64 = alpha0;
    proof {
        lemma_split64(gamma0);
    }
    let gamma1: u64 = (gamma0 >> 32) + alpha1;
    proof {
        lemma_split64(gamma1);
    }
    let gamma2: u64 = (gamma1 >> 32) + alpha2;
    proof {
        lemma_split64(gamma2);
    }
    let gamma3: u64 = (gamma2 >> 32) + alpha3;
    proof {
        lemma_split64(gamma3);
    }
    let gamma4: u64 = (gamma3 >> 32) + alpha4;
    proof {
        lemma_split64(gamma4);
    }

    let e0: u64 = gamma0 & 0xffffffff;
    let e1: u64 = gamma1 & 0xffffffff;
    let e2: u64 = gamma2 & 0xffffffff;
    let e3: u64 = gamma3 & 0xffffffff;
    let e4: u64 = gamma4 & 0xffffffff;
    // The sum is below 2^160, so that nothing is carried out of the top limb.
    assert(e0 + e1 * radix() + e2 * radix2() + e3 * radix3() + gamma4 * radix4() == product
        + limbs3(b));
    assert(gamma4 < radix());

    [e0 as u32, e1 as u32, e2 as u32, e3 as u32, e4 as u32]
}

/// Reduces five limbs modulo `2^89 - 1` and keeps the low 20 bits of the
/// residue.
pub fn modulo(e: [u32; 5]) -> (r: u32)
    ensures
        r as nat == modulo_spec(limbs5(e)),
        r < 0x10_0000,
{
    // The 89 bits below the split.
    let l0: u32 = e[0];
    let l1: u32 = e[1];
    let l2: u32 = e[2] & 0x1ffffff;

    // The 71 bits above it.
    let h0: u32 = (e[2] >> 25) | (e[3] << 7);
    let h1: u32 = (e[3] >> 25) | (e[4] << 7);
    let h2: u32 = e[4] >> 25;
    proof {
        lemma_straddle(e[2], e[3]);
        lemma_straddle(e[3], e[4]);
        lemma_straddle(e[4], 0);
    }
    let ghost low = l0 + l1 * radix() + l2 * radix2();
    let ghost high = h0 + h1 * radix() + h2 * radix2();
    assert(limbs5(e) == low + high * pow89());

    // Their sum, with the carries.
    let alpha0: u64 = (l0 as u64) + (h0 as u64);
    let alpha1: u64 = (l1 as u64) + (h1 as u64);
    let alpha2: u64 = (l2 as u64) + (h2 as u64);

    let gamma0: u64 = alpha0;
    proof {
        lemma_split64(gamma0);
    }
    let gamma1: u64 = (gamma0 >> 32) + alpha1;
    proof {
        lemma_split64(gamma1);
    }
    let gamma2: u64 = (gamma1 >> 32) + alpha2;

    let s0: u64 = gamma0 & 0xffffffff;
    let s1: u64 = gamma1 & 0xffffffff;
    let s2: u64 = gamma2;
    assert(s0 + s1 * radix() + s2 * radix2() == low + high);

    // One subtraction of the prime, kept where nothing is borrowed at the top.
    let alpha0: i64 = (s0 as i64) - 0xffffffff;
    let alpha1: i64 = (s1 as i64) - 0xffffffff;
    let alpha2: i64 = (s2 as i64) - 0x01ffffff;

    let gamma0: i64 = alpha0;
    proof {
        lemma_split_signed(gamma0);
    }
    let gamma1: i64 = (gamma0 >> 32) + alpha1;
    proof {
        lemma_split_signed(gamma1);
    }
    let gamma2: i64 = (gamma1 >> 32) + alpha2;

    let t0: u64 = (#[verifier::truncate] (gamma0 as u64)) & 0xffffffff;
    let tnonneg: bool = gamma2 >= 0;
    proof {
        assert((#[verifier::truncate] (gamma0 as u64)) & 0xffff_ffffu64 == (
        #[verifier::truncate] (gamma0 as u32))) by (bit_vector);
    }

    let q0: u64 = if tnonneg {
        t0
    } else {
        s0
    };
    proof {
        let sum = low + high;
        let t1 = (#[verifier::truncate] (gamma1 as u32)) as int;
        if tnonneg {
            assert(sum - p89() == t0 + t1 * radix() + gamma2 * radix2());
            lemma_fundamental_div_mod_converse(
                limbs5(e) as int,
                p89() as int,
                high + 1,
                sum - p89(),
            );
            lemma_fundamental_div_mod_converse(
                sum - p89(),
                radix() as int,
                t1 + gamma2 * radix(),
                t0 as int,
            );
        } else {
            assert(sum < p89());
            lemma_fundamental_div_mod_converse(
                limbs5(e) as int,
                p89() as int,
                high as int,
                sum as int,
            );
            lemma_fundamental_div_mod_converse(
                sum as int,
                radix() as int,
                s1 + s2 * radix(),
                s0 as int,
            );
        }
        assert(q0 as nat == (limbs5(e) % p89()) % radix());
        vstd::arithmetic::div_mod::lemma_mod_mod((limbs5(e) % p89()) as int, 0x10_0000, 0x1000);
        assert(q0 & 0x000f_ffff == q0 % 0x10_0000) by (bit_vector);
    }

    (q0 & 0x000fffff) as u32
}

/// Hashes the two-limb word `x` to 20 bits by multiply-mod-prime hashing
/// modulo `2^89 - 1`: `((a * x + b) mod (2^89 - 1)) mod 2^20`.
pub fn mod_prime(a: [u32; 3], b: [u32; 3], x: [u32; 2]) -> (r: u32)
    ensures
        r as nat == mmp(p89(), 20, limbs3(a), limbs3(b), limbs2(x)),
        r < 0x10_0000,
{
    proof {
        lemma2_to64();
    }
    // Calculate a x + b.
    let y: [u32; 5] = multiply_add(a, b, x);
    // Calculate ((a x + b) mod p) mod m.
    let r: u32 = modulo(y);
    r
}

/// The same hash as [`mod_prime`], kept out of line.
#[inline(never)]
pub fn modprime_mod_prime_no_inline(a: [u32; 3], b: [u32; 3], x: [u32; 2]) -> (r: u32)
    ensures
        r as nat == mmp(p89(), 20, limbs3(a), limbs3(b), limbs2(x)),
        r < 0x10_0000,
{
    mod_prime(a, b, x)
}

} // verus!
