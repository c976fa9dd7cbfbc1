//! Power-of-two arithmetic underlying the triangle bintree: the grid side
//! must be a power of two, and tree levels are addressed through powers of two.

use vstd::prelude::*;
use vstd::arithmetic::power2::{
    pow2, is_pow2, is_pow2_exists, is_pow2_equiv, lemma_pow2_pos,
    lemma_pow2_strictly_increases, lemma_pow2_unfold, lemma2_to64,
};
use vstd::bits::lemma_u32_shl_is_mul;

verus! {

/// The bit trick `x & (x - 1) == 0` clears the lowest set bit, so for a
/// non-zero `x` it holds exactly when `x` is a power of two.
proof fn lemma_bit_trick_is_pow2(x: u32)
    requires
        x != 0,
    ensures
        (x & ((x - 1) as u32)) == 0 <==> is_pow2(x as int),
    decreases x,
{
    reveal(vstd::arithmetic::power2::is_pow2);
    if x == 1 {
        assert((1u32 & 0u32) == 0) by (bit_vector);
    } else if x % 2 == 1 {
        assert(x % 2 == 1 && x > 1 ==> (x & ((x - 1) as u32)) != 0) by (bit_vector);
    } else {
        let h = x / 2;
        assert(x % 2 == 0 && x != 0 ==> x / 2 != 0
            && ((x & ((x - 1) as u32)) == 0 <==> ((x / 2) & ((x / 2 - 1) as u32)) == 0))
            by (bit_vector);
        lemma_bit_trick_is_pow2(h);
    }
}

/// Whether `x` is a power of two.
pub fn is_power_of_2(x: u32) -> (r: bool)
    ensures
        r == is_pow2(x as int),
{
    proof {
        reveal(vstd::arithmetic::power2::is_pow2);
    }
    if x == 0 {
        false
    } else {
        proof {
            lemma_bit_trick_is_pow2(x);
        }
        x & (x - 1) == 0
    }
}

/// A `u32` power of two has an exponent below 32.
pub proof fn lemma_pow2_exponent_in_range(w: u32, k: nat)
    requires
        w == pow2(k),
    ensures
        k < 32,
{
    if k >= 32 {
        lemma2_to64();
        if k > 32 {
            lemma_pow2_strictly_increases(32, k);
        }
        assert(pow2(k) >= 0x1_0000_0000);
    }
}

/// A width is a power of two exactly when it has a single set bit.
pub proof fn lemma_power_of_2_iff_single_bit(w: u32)
    ensures
        is_pow2(w as int) <==> exists|k: u32| k < 32 && w == (1u32 << k),
{
    if is_pow2(w as int) {
        is_pow2_equiv(w as int);
        let i = choose|i: nat| vstd::arithmetic::power::pow(2, i) == w;
        assert(pow2(i) == w);
        lemma_pow2_exponent_in_range(w, i);
        lemma_u32_shl_is_mul(1u32, i as u32);
        assert(w == (1u32 << (i as u32)));
        assert((i as u32) < 32 && w == (1u32 << (i as u32)));
    }
    if exists|k: u32| k < 32 && w == (1u32 << k) {
        let k = choose|k: u32| k < 32 && w == (1u32 << k);
        lemma_u32_pow2_fits(k);
        lemma_u32_shl_is_mul(1u32, k);
        assert(w == pow2(k as nat));
        vstd::arithmetic::power::lemma_pow_positive(2, k as nat);
        assert(vstd::arithmetic::power::pow(2, k as nat) == w);
        assert(is_pow2_exists(w as int));
        is_pow2_equiv(w as int);
    }
}

/// For an exponent below 32, `2^k` fits in a `u32`.
pub proof fn lemma_u32_pow2_fits(k: u32)
    requires
        k < 32,
    ensures
        pow2(k as nat) <= u32::MAX,
{
    lemma2_to64();
    if (k as nat) < 31 {
        lemma_pow2_strictly_increases(k as nat, 31);
    }
}

/// Floor of the base-two logarithm: the result `r` satisfies
/// `2^r <= x < 2^(r+1)`; on a power of two it is the exact exponent.
pub fn log_2(x: u32) -> (r: u32)
    requires
        x >= 1,
    ensures
        r < 32,
        pow2(r as nat) <= x < pow2((r + 1) as nat),
        is_pow2(x as int) ==> x == pow2(r as nat),
{
    let mut v = x;
    let mut r: u32 = 0;
    proof {
        lemma2_to64();
    }
    while v >= 2
        invariant
            v >= 1,
            r < 32,
            pow2(r as nat) * v <= x,
            x < pow2(r as nat) * (v + 1),
        decreases v,
    {
        proof {
            lemma_pow2_unfold((r + 1) as nat);
            lemma_pow2_pos(r as nat);
            assert(pow2((r + 1) as nat) * (v / 2) <= pow2(r as nat) * v) by (nonlinear_arith)
                requires
                    v >= 2,
                    pow2((r + 1) as nat) == 2 * pow2(r as nat),
                    pow2(r as nat) >= 1,
            ;
            assert(pow2(r as nat) * (v + 1) <= pow2((r + 1) as nat) * (v / 2 + 1))
                by (nonlinear_arith)
                requires
                    v >= 2,
                    pow2((r + 1) as nat) == 2 * pow2(r as nat),
                    pow2(r as nat) >= 1,
            ;
            assert(pow2((r + 1) as nat) * (v / 2) >= pow2((r + 1) as nat)) by (nonlinear_arith)
                requires
                    v >= 2,
                    pow2((r + 1) as nat) >= 1,
            ;
            if r + 1 >= 32 {
                lemma2_to64();
                if r + 1 > 32 {
                    lemma_pow2_strictly_increases(32, (r + 1) as nat);
                }
                assert(pow2((r + 1) as nat) >= 0x1_0000_0000);
                assert(pow2((r + 1) as nat) * (v / 2) >= 0x1_0000_0000);
                assert(false);
            }
        }
        v = v / 2;
        r = r + 1;
    }
    proof {
        lemma_pow2_pos(r as nat);
        assert(pow2(r as nat) * 1 == pow2(r as nat));
        lemma_pow2_unfold((r + 1) as nat);
        assert((((r + 1) as nat) - 1) as nat == r as nat);
        assert(pow2((r + 1) as nat) == 2 * pow2(r as nat));
        assert(v == 1);
        assert(pow2(r as nat) * (v + 1) == 2 * pow2(r as nat)) by (nonlinear_arith)
            requires
                v == 1,
        ;
        if is_pow2(x as int) {
            is_pow2_equiv(x as int);
            let i = choose|i: nat| vstd::arithmetic::power::pow(2, i) == x;
            assert(pow2(i) == x);
            if i < r as nat {
                lemma_pow2_strictly_increases(i, r as nat);
                assert(false);
            }
            if i > r as nat {
                lemma_pow2_strictly_increases(r as nat, i);
                assert(pow2(r as nat) < pow2(i));
                if i > (r + 1) as nat {
                    lemma_pow2_strictly_increases((r + 1) as nat, i);
                }
                assert(pow2(i) >= pow2((r + 1) as nat));
                assert(false);
            }
        }
    }
    r
}

} // verus!
