//! The transform engine: twiddle table, fused bit-reversal/first-butterfly
//! pass, and the iterative butterfly stages.
//!
//! Every index computed here — bit-reversal lookups, twiddle strides,
//! butterfly partners — is proved to stay inside the sequence, so the hot
//! loops never read or write out of bounds for any power-of-two length.

use vstd::prelude::*;

verus! {

use num::Complex;
use num::Float;
use num::traits::float::FloatConst;
use vstd::arithmetic::power2::{pow2, is_pow2, lemma_pow2_pos, lemma_pow2_unfold, lemma_pow2_adds};
use crate::bits::{is_power_of_two, log2_exact, bit_rev};
use crate::cpx::{c_add, c_sub, c_mul, twiddle_factor};
use crate::par::par_map;

/// Builds the twiddle table `W[k] = exp(-2*pi*i*k/n)`, one rotation factor
/// per index, in parallel.
fn build_twiddles<T: Float + FloatConst + Send + Sync>(n: usize) -> (w: Vec<Complex<T>>)
    requires
        1 <= n,
    ensures
        w@.len() == n,
{
    par_map(n, |k: usize| -> Complex<T>
        requires
            k < n,
            1 <= n,
        {
            twiddle_factor(k, n)
        })
}

/// The fused bit-reversal and width-2 butterfly pass: slot `i` reads the two
/// inputs at the bit-reversed positions of its pair `{i, i XOR 1}` and holds
/// their sum (even `i`) or difference (odd `i`).
fn first_stage<T: Float + Send + Sync>(array: &[Complex<T>], ltz: usize) -> (r: Vec<Complex<T>>)
    requires
        1 <= ltz,
        array@.len() == pow2(ltz as nat),
    ensures
        r@.len() == array@.len(),
{
    let n = array.len();
    proof {
        lemma_pow2_unfold(ltz as nat);
    }
    par_map(n, |i: usize| -> Complex<T>
        requires
            i < n,
            n == pow2(ltz as nat),
            n % 2 == 0,
        {
            if i % 2 == 0 {
                let fi = bit_rev(i, ltz);
                let fi1 = bit_rev(i + 1, ltz);
                c_add(&array[fi], &array[fi1])
            } else {
                let fi_1 = bit_rev(i - 1, ltz);
                let fi = bit_rev(i, ltz);
                c_sub(&array[fi_1], &array[fi])
            }
        })
}

/// The twiddle application half of one iterative stage: each element in the
/// upper half of its width-`2l` butterfly group is rotated by the table
/// entry at stride `tmp`, the lower half passes through unchanged.
fn apply_twiddles<T: Float + Send + Sync>(
    current: &Vec<Complex<T>>,
    w: &Vec<Complex<T>>,
    l: usize,
    tmp: usize,
) -> (r: Vec<Complex<T>>)
    requires
        1 <= l,
        1 <= tmp,
        2 * l * tmp == current@.len(),
        w@.len() == current@.len(),
    ensures
        r@.len() == current@.len(),
{
    let n = current.len();
    par_map(n, |i: usize| -> Complex<T>
        requires
            i < n,
            n == current@.len(),
            1 <= l,
            1 <= tmp,
            2 * l * tmp == n,
            w@.len() == n,
        {
            if (i / l) % 2 == 1 {
                proof {
                    assert((i % l) * tmp < n) by (nonlinear_arith)
                        requires
                            0 <= i % l < l,
                            1 <= tmp,
                            2 * l * tmp == n,
                    ;
                }
                let idx = (i % l) * tmp;
                c_mul(&current[i], &w[idx])
            } else {
                current[i]
            }
        })
}

/// The butterfly combination half of one iterative stage: slot `i` combines
/// the twiddle-adjusted elements `i` and its partner at distance `l`, as a
/// sum for the lower half of each group and a difference for the upper.
fn butterfly_stage<T: Float + Send + Sync>(current: &Vec<Complex<T>>, l: usize) -> (r: Vec<
    Complex<T>,
>)
    requires
        1 <= l,
        current@.len() as int % (2 * l as int) == 0,
    ensures
        r@.len() == current@.len(),
{
    let n = current.len();
    par_map(n, |i: usize| -> Complex<T>
        requires
            i < n,
            n == current@.len(),
            1 <= l,
            n as int % (2 * l as int) == 0,
        {
            if (i / l) % 2 == 0 {
                proof {
                    lemma_upper_partner_in_bounds(i as int, l as int, n as int);
                }
                c_add(&current[i], &current[i + l])
            } else {
                proof {
                    assert(i / l >= 1);
                    assert(l * 1 <= l * (i / l)) by (nonlinear_arith)
                        requires
                            1 <= l,
                            1 <= i / l,
                    ;
                    vstd::arithmetic::div_mod::lemma_fundamental_div_mod(i as int, l as int);
                }
                c_sub(&current[i - l], &current[i])
            }
        })
}

/// An element of the lower half of its butterfly group always has its upper
/// partner inside the sequence: group membership plus the group width
/// dividing the length bound the partner's index.
proof fn lemma_upper_partner_in_bounds(i: int, l: int, n: int)
    requires
        1 <= l,
        0 <= i < n,
        n % (2 * l) == 0,
        (i / l) % 2 == 0,
    ensures
        i + l < n,
{
    let q = i / l;
    let r = i % l;
    let m = n / (2 * l);
    vstd::arithmetic::div_mod::lemma_fundamental_div_mod(i, l);
    vstd::arithmetic::div_mod::lemma_fundamental_div_mod(n, 2 * l);
    assert(0 <= r < l);
    assert(n == 2 * l * m);
    assert(q < 2 * m) by (nonlinear_arith)
        requires
            i == l * q + r,
            0 <= r < l,
            n == 2 * l * m,
            i < n,
            1 <= l,
    ;
    assert(q <= 2 * m - 2);
    assert(i + l < n) by (nonlinear_arith)
        requires
            i == l * q + r,
            0 <= r < l,
            n == 2 * l * m,
            q <= 2 * m - 2,
            1 <= l,
    ;
}

/// The forward unnormalized discrete Fourier transform of `array`, computed
/// out of place with the iterative radix-2 decimation-in-time butterfly
/// network: the twiddle table is built first, then the fused bit-reversal
/// and width-2 butterfly pass, then one butterfly stage per remaining bit of
/// the length, each stage a parallel map over all indices.
pub fn fft<T: Float + FloatConst + Send + Sync>(array: &[Complex<T>]) -> (out: Vec<Complex<T>>)
    requires
        is_pow2(array@.len() as int),
    ensures
        out@.len() == array@.len(),
{
    let n = array.len();
    proof {
        reveal(is_pow2);
    }
    let ltz = log2_exact(n);
    let w: Vec<Complex<T>> = build_twiddles(n);
    if n == 1 {
        let mut out: Vec<Complex<T>> = Vec::new();
        out.push(array[0]);
        return out;
    }
    proof {
        if ltz == 0 {
            assert(pow2(0) == 1) by {
                vstd::arithmetic::power2::lemma2_to64();
            }
        }
    }
    let mut current = first_stage(array, ltz);
    let mut x: usize = 1;
    let mut l: usize = 2;
    let mut tmp: usize = n / 4;
    proof {
        assert(pow2(1) == 2 && pow2(2) == 4) by {
            vstd::arithmetic::power2::lemma2_to64();
        }
        if 1 < ltz {
            lemma_pow2_adds(2, (ltz - 2) as nat);
            lemma_pow2_pos((ltz - 2) as nat);
            vstd::arithmetic::div_mod::lemma_div_multiples_vanish(pow2((ltz - 2) as nat) as int, 4);
        }
    }
    while x < ltz
        invariant
            1 <= x <= ltz,
            n == pow2(ltz as nat),
            current@.len() == n,
            w@.len() == n,
            l == pow2(x as nat),
            x < ltz ==> tmp == pow2((ltz - x - 1) as nat),
        decreases ltz - x,
    {
        proof {
            lemma_pow2_pos(x as nat);
            lemma_pow2_pos((ltz - x - 1) as nat);
            lemma_pow2_unfold(ltz as nat);
            lemma_pow2_adds(x as nat, (ltz - x - 1) as nat);
            assert(2 * l * tmp == n) by (nonlinear_arith)
                requires
                    l == pow2(x as nat),
                    tmp == pow2((ltz - x - 1) as nat),
                    pow2(x as nat) * pow2((ltz - x - 1) as nat) == pow2((ltz - 1) as nat),
                    n == pow2(ltz as nat),
                    pow2(ltz as nat) == 2 * pow2((ltz - 1) as nat),
            ;
            lemma_pow2_unfold((x + 1) as nat);
            lemma_pow2_adds((x + 1) as nat, (ltz - x - 1) as nat);
            assert(n == (2 * l) * pow2((ltz - x - 1) as nat));
            vstd::arithmetic::div_mod::lemma_mod_multiples_basic(
                pow2((ltz - x - 1) as nat) as int,
                2 * l as int,
            );
        }
        let tw = apply_twiddles(&current, &w, l, tmp);
        let next = butterfly_stage(&tw, l);
        current = next;
        proof {
            lemma_pow2_unfold((x + 1) as nat);
            if x + 2 <= ltz {
                vstd::arithmetic::power2::lemma_pow2_strictly_increases((x + 1) as nat, ltz as nat);
            }
            if x + 1 < ltz {
                lemma_pow2_unfold((ltz - x - 1) as nat);
                vstd::arithmetic::div_mod::lemma_div_multiples_vanish(
                    pow2((ltz - x - 2) as nat) as int,
                    2,
                );
            }
        }
        x = x + 1;
        l = l * 2;
        tmp = tmp / 2;
    }
    current
}

/// The checked entry point: computes the transform when the length is an
/// exact power of two and returns `None` on any other length — including
/// zero — before any working buffer is allocated.
pub fn try_fft<T: Float + FloatConst + Send + Sync>(array: &[Complex<T>]) -> (out: Option<
    Vec<Complex<T>>,
>)
    ensures
        out is Some <==> is_pow2(array@.len() as int),
        out matches Some(v) ==> v@.len() == array@.len(),
{
    if is_power_of_two(array.len()) {
        Some(fft(array))
    } else {
        None
    }
}

} // verus!
