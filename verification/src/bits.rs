//! Power-of-two arithmetic and the bit-reversal permutation.
//!
//! The transform only accepts sequences whose length is an exact power of
//! two; everything in this module supports that precondition: recognising a
//! power of two, recovering its exponent, and the bit-reversal permutation
//! that the fused first butterfly stage reads its input through.

use vstd::prelude::*;

verus! {

use vstd::arithmetic::power2::{
    pow2,
    is_pow2,
    lemma_pow2_pos,
    lemma_pow2_unfold,
};

/// The exponent is always strictly smaller than the power itself.
proof fn lemma_exp_lt_pow2(e: nat)
    ensures
        e < pow2(e),
    decreases e,
{
    if e == 0 {
        assert(pow2(0) == 1) by {
            vstd::arithmetic::power2::lemma2_to64();
        }
    } else {
        lemma_exp_lt_pow2((e - 1) as nat);
        lemma_pow2_unfold(e);
        lemma_pow2_pos((e - 1) as nat);
    }
}

/// Decides whether `n` is an exact power of two (`n` has exactly one set
/// bit); zero is not one.
pub fn is_power_of_two(n: usize) -> (b: bool)
    ensures
        b == is_pow2(n as int),
{
    proof {
        reveal(is_pow2);
    }
    if n == 0 {
        return false;
    }
    let mut m: usize = n;
    while m % 2 == 0
        invariant
            1 <= m <= n,
            is_pow2(n as int) == is_pow2(m as int),
        decreases m,
    {
        proof {
            reveal(is_pow2);
        }
        m = m / 2;
    }
    proof {
        reveal(is_pow2);
    }
    m == 1
}

/// For a power of two, returns its exponent: `pow2(e) == n`.
pub fn log2_exact(n: usize) -> (e: usize)
    requires
        is_pow2(n as int),
    ensures
        pow2(e as nat) == n,
{
    proof {
        reveal(is_pow2);
        assert(pow2(0) == 1) by {
            vstd::arithmetic::power2::lemma2_to64();
        }
    }
    let mut m: usize = n;
    let mut e: usize = 0;
    while m > 1
        invariant
            1 <= m <= n,
            is_pow2(m as int),
            m * pow2(e as nat) == n,
            pow2(e as nat) <= n,
        decreases m,
    {
        proof {
            reveal(is_pow2);
            lemma_pow2_unfold((e + 1) as nat);
            lemma_pow2_pos(e as nat);
            assert((m / 2) * pow2((e + 1) as nat) == n) by (nonlinear_arith)
                requires
                    m % 2 == 0,
                    m >= 2,
                    m * pow2(e as nat) == n,
                    pow2((e + 1) as nat) == 2 * pow2(e as nat),
            ;
            assert(pow2((e + 1) as nat) <= n) by (nonlinear_arith)
                requires
                    m / 2 >= 1,
                    (m / 2) * pow2((e + 1) as nat) == n,
            ;
            lemma_exp_lt_pow2((e + 1) as nat);
        }
        m = m / 2;
        e = e + 1;
    }
    proof {
        lemma_pow2_pos(e as nat);
    }
    e
}

/// The value of `i`'s lowest `bits` bits, read in reverse order: bit `j` of
/// the input contributes to bit `bits - 1 - j` of the result.
pub open spec fn rev_bits(i: nat, bits: nat) -> nat
    decreases bits,
{
    if bits == 0 {
        0
    } else {
        (i % 2) * pow2((bits - 1) as nat) + rev_bits(i / 2, (bits - 1) as nat)
    }
}

/// A reversed `bits`-bit value again fits in `bits` bits.
proof fn lemma_rev_bits_bound(i: nat, bits: nat)
    ensures
        rev_bits(i, bits) < pow2(bits),
    decreases bits,
{
    if bits == 0 {
        assert(pow2(0) == 1) by {
            vstd::arithmetic::power2::lemma2_to64();
        }
    } else {
        lemma_rev_bits_bound(i / 2, (bits - 1) as nat);
        lemma_pow2_unfold(bits);
        lemma_pow2_pos((bits - 1) as nat);
        assert((i % 2) * pow2((bits - 1) as nat) <= pow2((bits - 1) as nat)) by (nonlinear_arith)
            requires
                0 <= i % 2 <= 1,
                pow2((bits - 1) as nat) > 0,
        ;
    }
}

/// Reversing `c` with a single bit `t` prepended above it drops that bit to
/// the bottom: the reversal of `c + t * 2^(bits-1)` is `2 * rev(c) + t`.
proof fn lemma_rev_bits_high(c: nat, t: nat, bits: nat)
    requires
        1 <= bits,
        t <= 1,
        c < pow2((bits - 1) as nat),
    ensures
        rev_bits(c + t * pow2((bits - 1) as nat), bits) == 2 * rev_bits(
            c,
            (bits - 1) as nat,
        ) + t,
    decreases bits,
{
    let h = pow2((bits - 1) as nat);
    let i = c + t * h;
    lemma_pow2_pos((bits - 1) as nat);
    if bits == 1 {
        assert(pow2(0) == 1) by {
            vstd::arithmetic::power2::lemma2_to64();
        }
        assert(rev_bits(i, 1) == (i % 2) * 1 + rev_bits(i / 2, 0));
        assert(c == 0);
        assert(i == t) by (nonlinear_arith)
            requires
                i == c + t * h,
                c == 0,
                h == 1,
        ;
        assert(t % 2 == t && t / 2 == 0);
    } else {
        let h2 = pow2((bits - 2) as nat);
        lemma_pow2_unfold((bits - 1) as nat);
        assert(h == 2 * h2);
        assert(i % 2 == c % 2 && i / 2 == c / 2 + t * h2) by (nonlinear_arith)
            requires
                i == c + t * h,
                h == 2 * h2,
                t <= 1,
                h2 > 0,
        ;
        assert(c / 2 < h2) by (nonlinear_arith)
            requires
                c < 2 * h2,
        ;
        lemma_rev_bits_high(c / 2, t, (bits - 1) as nat);
        assert(rev_bits(i, bits) == (c % 2) * h + rev_bits(c / 2 + t * h2, (bits - 1) as nat));
        assert(rev_bits(c / 2 + t * h2, (bits - 1) as nat) == 2 * rev_bits(
            c / 2,
            (bits - 2) as nat,
        ) + t);
        assert(rev_bits(c, (bits - 1) as nat) == (c % 2) * h2 + rev_bits(c / 2, (bits - 2) as nat));
        assert((c % 2) * h == 2 * ((c % 2) * h2)) by (nonlinear_arith)
            requires
                h == 2 * h2,
        ;
    }
}

/// Bit reversal is an involution on `bits`-bit values, hence a permutation
/// of `[0, 2^bits)`: reversing twice gives the index back.
pub proof fn lemma_rev_bits_involution(i: nat, bits: nat)
    requires
        i < pow2(bits),
    ensures
        rev_bits(rev_bits(i, bits), bits) == i,
    decreases bits,
{
    if bits == 0 {
        assert(pow2(0) == 1) by {
            vstd::arithmetic::power2::lemma2_to64();
        }
    } else {
        let h = pow2((bits - 1) as nat);
        lemma_pow2_unfold(bits);
        lemma_pow2_pos((bits - 1) as nat);
        assert(i / 2 < h) by (nonlinear_arith)
            requires
                i < 2 * h,
        ;
        lemma_rev_bits_involution(i / 2, (bits - 1) as nat);
        lemma_rev_bits_bound(i / 2, (bits - 1) as nat);
        lemma_rev_bits_high(rev_bits(i / 2, (bits - 1) as nat), i % 2, bits);
        assert(rev_bits(i, bits) == (i % 2) * h + rev_bits(i / 2, (bits - 1) as nat));
        assert(rev_bits(rev_bits(i, bits), bits) == 2 * rev_bits(
            rev_bits(i / 2, (bits - 1) as nat),
            (bits - 1) as nat,
        ) + i % 2);
        assert(2 * (i / 2) + i % 2 == i);
    }
}

/// Computes the bit-reversal permutation position of `i` within a
/// `bits`-bit index space.
pub fn bit_rev(i: usize, bits: usize) -> (r: usize)
    requires
        i < pow2(bits as nat),
        pow2(bits as nat) <= usize::MAX,
    ensures
        r as nat == rev_bits(i as nat, bits as nat),
        r < pow2(bits as nat),
{
    let mut r: usize = 0;
    let mut v: usize = i;
    let mut k: usize = 0;
    proof {
        lemma_rev_bits_bound(i as nat, bits as nat);
        lemma_pow2_pos(bits as nat);
        assert(pow2(0) == 1) by {
            vstd::arithmetic::power2::lemma2_to64();
        }
    }
    while k < bits
        invariant
            k <= bits,
            pow2(bits as nat) <= usize::MAX,
            r < pow2(k as nat),
            pow2(k as nat) <= pow2(bits as nat),
            rev_bits(i as nat, bits as nat) == r * pow2((bits - k) as nat) + rev_bits(
                v as nat,
                (bits - k) as nat,
            ),
        decreases bits - k,
    {
        proof {
            let bk = (bits - k) as nat;
            lemma_pow2_unfold(bk);
            lemma_pow2_unfold((k + 1) as nat);
            lemma_pow2_pos((bk - 1) as nat);
            assert(rev_bits(v as nat, bk) == (v as nat % 2) * pow2((bk - 1) as nat) + rev_bits(
                v as nat / 2,
                (bk - 1) as nat,
            ));
            assert(r * pow2(bk) + (v as nat % 2) * pow2((bk - 1) as nat) == (2 * r + v as nat % 2)
                * pow2((bk - 1) as nat)) by (nonlinear_arith)
                requires
                    pow2(bk) == 2 * pow2((bk - 1) as nat),
            ;
            assert(2 * r + v as nat % 2 < pow2((k + 1) as nat)) by (nonlinear_arith)
                requires
                    r < pow2(k as nat),
                    pow2((k + 1) as nat) == 2 * pow2(k as nat),
                    v as nat % 2 <= 1,
            ;
            if k + 1 < bits {
                vstd::arithmetic::power2::lemma_pow2_strictly_increases((k + 1) as nat, bits as nat);
            }
        }
        r = r * 2 + v % 2;
        v = v / 2;
        k = k + 1;
    }
    proof {
        assert(pow2(0) == 1) by {
            vstd::arithmetic::power2::lemma2_to64();
        }
        assert(rev_bits(v as nat, 0) == 0);
        assert(rev_bits(i as nat, bits as nat) == r * pow2(0) + rev_bits(v as nat, 0));
        assert(r * pow2(0) == r) by (nonlinear_arith)
            requires
                pow2(0) == 1,
        ;
    }
    r
}

} // verus!
