//! Fixed-point base-2 logarithms.
//!
//! Entropy scores are kept in Q16 fixed point: a score of `n` bits is the
//! integer `n * Q_ONE`. The logarithm of an integer is computed exactly
//! per this module's definition: the integer part by halving, and sixteen
//! fraction bits by repeated squaring of the normalized mantissa. The
//! result is within one sixteenth-of-a-bit step of the real logarithm,
//! is monotone, and is exact on powers of two — the properties the
//! scoring and selection contracts rely on.

use vstd::arithmetic::div_mod::lemma_div_denominator;
use vstd::arithmetic::div_mod::lemma_div_is_ordered;
use vstd::arithmetic::div_mod::lemma_div_multiples_vanish;
use vstd::arithmetic::div_mod::lemma_fundamental_div_mod;
use vstd::arithmetic::div_mod::lemma_multiply_divide_lt;
use vstd::arithmetic::mul::lemma_mul_inequality;
use vstd::arithmetic::power2::lemma2_to64;
use vstd::arithmetic::power2::lemma2_to64_rest;
use vstd::arithmetic::power2::lemma_pow2_pos;
use vstd::arithmetic::power2::lemma_pow2_strictly_increases;
use vstd::arithmetic::power2::lemma_pow2_unfold;
use vstd::arithmetic::power2::pow2;
use vstd::prelude::*;

verus! {

/// One whole bit in Q16 fixed point.
pub const Q_ONE: u64 = 65536;

/// The integer part of the base-2 logarithm.
pub open spec fn floor_log2(x: nat) -> nat
    decreases x,
{
    if x < 2 {
        0
    } else {
        1 + floor_log2(x / 2)
    }
}

/// The mantissa of `x` normalized into `[Q_ONE, 2 * Q_ONE)`, in Q16.
pub open spec fn norm_mantissa(x: nat) -> nat {
    (x * 65536) / pow2(floor_log2(x))
}

/// The `n` fraction bits of the logarithm of a normalized mantissa `m`,
/// read off by repeated squaring: each squaring doubles the logarithm,
/// and the bit records whether the square crossed 2.
pub open spec fn frac_bits(m: nat, n: nat) -> nat
    decreases n,
{
    if n == 0 {
        0
    } else {
        let m2 = (m * m) / 65536;
        if m2 >= 131072 {
            pow2((n - 1) as nat) + frac_bits(m2 / 2, (n - 1) as nat)
        } else {
            frac_bits(m2, (n - 1) as nat)
        }
    }
}

/// The Q16 base-2 logarithm of a positive integer.
pub open spec fn log2_q16(x: nat) -> nat {
    floor_log2(x) * 65536 + frac_bits(norm_mantissa(x), 16)
}

/// `pow2(floor_log2(x)) <= x < 2 * pow2(floor_log2(x))` for positive `x`.
pub proof fn lemma_floor_log2_bounds(x: nat)
    requires
        x >= 1,
    ensures
        pow2(floor_log2(x)) <= x < 2 * pow2(floor_log2(x)),
    decreases x,
{
    if x < 2 {
        assert(pow2(0) == 1) by {
            lemma2_to64();
        }
    } else {
        lemma_floor_log2_bounds(x / 2);
        lemma_pow2_unfold(floor_log2(x));
    }
}

/// The integer part of the logarithm is monotone.
pub proof fn lemma_floor_log2_mono(x: nat, y: nat)
    requires
        x <= y,
    ensures
        floor_log2(x) <= floor_log2(y),
    decreases y,
{
    if x >= 2 {
        lemma_floor_log2_mono(x / 2, y / 2);
    }
}

/// `floor_log2` of anything below `pow2(e)` is below `e`.
pub proof fn lemma_floor_log2_lt(x: nat, e: nat)
    requires
        1 <= x,
        x < pow2(e),
    ensures
        floor_log2(x) < e,
{
    lemma_floor_log2_bounds(x);
    if floor_log2(x) >= e {
        if floor_log2(x) == e {
        } else {
            lemma_pow2_strictly_increases(e, floor_log2(x));
        }
    }
}

/// Fraction bits always fit in `n` bits.
pub proof fn lemma_frac_bits_lt(m: nat, n: nat)
    ensures
        frac_bits(m, n) < pow2(n),
    decreases n,
{
    lemma_pow2_pos(n);
    if n > 0 {
        let m2 = (m * m) / 65536;
        lemma_pow2_unfold(n);
        if m2 >= 131072 {
            lemma_frac_bits_lt(m2 / 2, (n - 1) as nat);
        } else {
            lemma_frac_bits_lt(m2, (n - 1) as nat);
        }
    }
}

/// Squaring and renormalizing keeps a mantissa in `[Q_ONE, 2 * Q_ONE)`.
proof fn lemma_mantissa_step(m: nat)
    requires
        65536 <= m < 131072,
    ensures
        65536 <= (m * m) / 65536 < 4 * 65536,
{
    assert(m * m >= 65536 * 65536) by (nonlinear_arith)
        requires
            m >= 65536,
    ;
    assert(m * m < 131072 * 131072) by (nonlinear_arith)
        requires
            0 <= m < 131072,
    ;
    lemma_div_is_ordered(65536int * 65536, (m * m) as int, 65536);
    lemma_div_multiples_vanish(65536, 65536);
    lemma_multiply_divide_lt((m * m) as int, 65536, 4int * 65536);
}

/// Fraction bits are monotone in the mantissa.
pub proof fn lemma_frac_bits_mono(m1: nat, m2: nat, n: nat)
    requires
        65536 <= m1 <= m2 < 131072,
    ensures
        frac_bits(m1, n) <= frac_bits(m2, n),
    decreases n,
{
    if n > 0 {
        let s1 = (m1 * m1) / 65536;
        let s2 = (m2 * m2) / 65536;
        lemma_mantissa_step(m1);
        lemma_mantissa_step(m2);
        assert(m1 * m1 <= m2 * m2) by (nonlinear_arith)
            requires
                0 <= m1 <= m2,
        ;
        lemma_div_is_ordered((m1 * m1) as int, (m2 * m2) as int, 65536);
        if s1 >= 131072 {
            // s2 >= s1, so both renormalize.
            lemma_div_is_ordered(s1 as int, s2 as int, 2);
            lemma_frac_bits_mono(s1 / 2, s2 / 2, (n - 1) as nat);
        } else if s2 >= 131072 {
            // Only the larger square crossed 2: its bit is set, and the
            // smaller side's remaining bits cannot reach that bit.
            lemma_frac_bits_lt(s1, (n - 1) as nat);
        } else {
            lemma_frac_bits_mono(s1, s2, (n - 1) as nat);
        }
    }
}

/// The fraction bits of an exact power of two are all zero.
pub proof fn lemma_frac_bits_one(n: nat)
    ensures
        frac_bits(65536, n) == 0,
    decreases n,
{
    if n > 0 {
        lemma_div_multiples_vanish(65536, 65536);
        assert(65536 * 65536int == 65536int * 65536) by (nonlinear_arith);
        lemma_frac_bits_one((n - 1) as nat);
    }
}

/// The Q16 logarithm of `pow2(e)` is exactly `e` whole bits.
pub proof fn lemma_log2_q16_pow2(e: nat)
    ensures
        log2_q16(pow2(e)) == e * 65536,
{
    lemma_pow2_pos(e);
    lemma_floor_log2_pow2(e);
    lemma_div_multiples_vanish(65536, pow2(e) as int);
    assert(pow2(e) * 65536 == pow2(e) as int * 65536) by (nonlinear_arith);
    lemma_frac_bits_one(16);
}

/// `floor_log2(pow2(e)) == e`.
pub proof fn lemma_floor_log2_pow2(e: nat)
    ensures
        floor_log2(pow2(e)) == e,
    decreases e,
{
    lemma_pow2_pos(e);
    if e == 0 {
        assert(pow2(0) == 1) by {
            lemma2_to64();
        }
    } else {
        lemma_floor_log2_pow2((e - 1) as nat);
        lemma_pow2_unfold(e);
        lemma_pow2_pos((e - 1) as nat);
        assert(pow2(e) / 2 == pow2((e - 1) as nat)) by {
            lemma_div_multiples_vanish(pow2((e - 1) as nat) as int, 2);
        }
    }
}

/// The Q16 logarithm is monotone.
pub proof fn lemma_log2_q16_mono(x: nat, y: nat)
    requires
        1 <= x <= y,
    ensures
        log2_q16(x) <= log2_q16(y),
{
    lemma_floor_log2_mono(x, y);
    lemma_norm_mantissa_range(x);
    lemma_norm_mantissa_range(y);
    if floor_log2(x) == floor_log2(y) {
        lemma_pow2_pos(floor_log2(x));
        lemma_mul_inequality(x as int, y as int, 65536);
        lemma_div_is_ordered((x * 65536) as int, (y * 65536) as int, pow2(floor_log2(x)) as int);
        lemma_frac_bits_mono(norm_mantissa(x), norm_mantissa(y), 16);
    } else {
        lemma_frac_bits_lt(norm_mantissa(x), 16);
        assert(pow2(16) == 65536) by {
            lemma2_to64();
        }
        assert(floor_log2(x) * 65536 + 65536 <= floor_log2(y) * 65536) by (nonlinear_arith)
            requires
                floor_log2(x) < floor_log2(y),
        ;
    }
}

/// A normalized mantissa lies in `[Q_ONE, Q_TWO)`.
pub proof fn lemma_norm_mantissa_range(x: nat)
    requires
        x >= 1,
    ensures
        65536 <= norm_mantissa(x) < 131072,
{
    let k = floor_log2(x);
    lemma_floor_log2_bounds(x);
    lemma_pow2_pos(k);
    lemma_mul_inequality(pow2(k) as int, x as int, 65536);
    lemma_div_is_ordered((pow2(k) * 65536) as int, (x * 65536) as int, pow2(k) as int);
    assert(pow2(k) * 65536 == 65536 * pow2(k)) by (nonlinear_arith);
    lemma_div_multiples_vanish(65536, pow2(k) as int);
    assert(x * 65536 < 131072 * pow2(k)) by (nonlinear_arith)
        requires
            x < 2 * pow2(k),
    ;
    lemma_multiply_divide_lt((x * 65536) as int, pow2(k) as int, 131072);
}

/// A Q16 logarithm of a 64-bit value is below 64 whole bits.
pub proof fn lemma_log2_q16_u64_bound(x: nat)
    requires
        1 <= x < 0x1_0000_0000_0000_0000,
    ensures
        log2_q16(x) < 64 * 65536,
{
    assert(pow2(64) == 0x1_0000_0000_0000_0000) by {
        lemma2_to64();
        lemma2_to64_rest();
    }
    lemma_floor_log2_lt(x, 64);
    lemma_frac_bits_lt(norm_mantissa(x), 16);
    assert(pow2(16) == 65536) by {
        lemma2_to64();
    }
    assert(floor_log2(x) * 65536 + 65536 <= 64 * 65536) by (nonlinear_arith)
        requires
            floor_log2(x) < 64,
    ;
}

/// Compute the Q16 base-2 logarithm of a positive integer.
pub fn log2q16(x: u64) -> (r: u64)
    requires
        x >= 1,
    ensures
        r == log2_q16(x as nat),
        r < 64 * 65536,
{
    proof {
        lemma_log2_q16_u64_bound(x as nat);
    }
    // Integer part: halve until the value reaches 1.
    let mut k: u64 = 0;
    let mut y: u64 = x;
    let mut p: u128 = 1;
    proof {
        lemma2_to64();
    }
    while y >= 2
        invariant
            1 <= x,
            1 <= y,
            p == pow2(k as nat),
            y as int == x as int / p as int,
            floor_log2(x as nat) == k + floor_log2(y as nat),
            k <= 63,
        decreases y,
    {
        proof {
            lemma_pow2_pos(k as nat);
            lemma_div_denominator(x as int, p as int, 2);
            lemma_pow2_unfold((k + 1) as nat);
            lemma2_to64();
            lemma2_to64_rest();
            if k + 1 < 64 {
                lemma_pow2_strictly_increases((k + 1) as nat, 64);
            }
            if k == 63 {
                // y >= 2 would put x at 2^64 or above.
                lemma_floor_log2_bounds(x as nat);
                lemma_floor_log2_mono(2, y as nat);
                assert(pow2(64) == 0x1_0000_0000_0000_0000) by {
                    lemma2_to64();
                    lemma2_to64_rest();
                }
                lemma_floor_log2_lt(x as nat, 64);
            }
        }
        y = y / 2;
        k = k + 1;
        p = p * 2;
    }
    proof {
        lemma_pow2_pos(k as nat);
        lemma_fundamental_div_mod(x as int, p as int);
    }
    // Normalized mantissa in Q16: x * Q_ONE / 2^k, in [Q_ONE, Q_TWO).
    let mut m: u128 = ((x as u128) * 65536) / p;
    proof {
        lemma_norm_mantissa_range(x as nat);
        assert(m == norm_mantissa(x as nat));
    }
    // Fraction bits, most significant first, by repeated squaring.
    let ghost m0 = m as nat;
    let mut frac: u64 = 0;
    let mut j: u64 = 0;
    proof {
        lemma2_to64();
    }
    while j < 16
        invariant
            1 <= x,
            k <= 63,
            k as nat == floor_log2(x as nat),
            m0 == norm_mantissa(x as nat),
            0 <= j <= 16,
            65536 <= m < 131072,
            frac < pow2(j as nat),
            frac_bits(m0, 16) == frac * pow2((16 - j) as nat) + frac_bits(
                m as nat,
                (16 - j) as nat,
            ),
        decreases 16 - j,
    {
        proof {
            lemma_mantissa_step(m as nat);
            lemma_pow2_unfold((16 - j) as nat);
            lemma_pow2_unfold((j + 1) as nat);
            lemma2_to64();
            if j < 15 {
                lemma_pow2_strictly_increases(j as nat, 15);
            }
            assert(frac < 32768);
            lemma_pow2_pos((15 - j) as nat);
            assert(frac * (2 * pow2((15 - j) as nat)) == (2 * frac) * pow2((15 - j) as nat))
                by (nonlinear_arith);
            assert((2 * frac + 1) * pow2((15 - j) as nat) == 2 * frac * pow2((15 - j) as nat)
                + pow2((15 - j) as nat)) by (nonlinear_arith);
        }
        m = (m * m) / 65536;
        if m >= 131072 {
            frac = frac * 2 + 1;
            m = m / 2;
        } else {
            frac = frac * 2;
        }
        j += 1;
    }
    proof {
        assert(pow2(0) == 1) by {
            lemma2_to64();
        }
        assert(frac_bits(m as nat, 0) == 0);
        assert(frac_bits(m0, 16) == frac * pow2((16 - j) as nat) + frac_bits(
            m as nat,
            (16 - j) as nat,
        ));
        assert((16 - j) as nat == 0);
        assert(frac_bits(m0, 16) == frac * pow2(0) + frac_bits(m as nat, 0));
        assert(frac == frac_bits(m0, 16));
    }
    k * 65536 + frac
}

} // verus!
