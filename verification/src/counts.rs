//! Pass-count derivations.
//!
//! The JFA runs `ceil(log2(max(width, height)))` propagation passes; the RC
//! solver runs `ceil(log_b(diagonal)) + 1` cascade passes, where `b` is the
//! base ray count. Both are computed exactly over integers: the logarithms
//! are characterised by the powers that bracket the argument, which avoids
//! floating point entirely (for the cascade count the comparison
//! `b^k >= diagonal` is squared into `b^(2k) >= width^2 + height^2`).

use vstd::prelude::*;
use vstd::arithmetic::power::{
    pow, lemma_pow_adds, lemma_pow_strictly_increases, lemma_pow_positive,
};
use vstd::arithmetic::power2::{pow2, lemma_pow2_unfold, lemma_pow2_strictly_increases, lemma2_to64};
use crate::limits::MAX_DIM;

verus! {

/// `r == ceil(log2(n))` for `n >= 1`: `r` is the smallest exponent with
/// `2^r >= n`.
pub open spec fn is_ceil_log2(n: int, r: nat) -> bool {
    &&& pow2(r) >= n
    &&& (r == 0 || pow2((r - 1) as nat) < n)
}

/// The bracketing characterisation pins down a single value, so
/// `is_ceil_log2(n, r)` names one well-defined number.
pub proof fn lemma_ceil_log2_unique(n: int, r1: nat, r2: nat)
    requires
        is_ceil_log2(n, r1),
        is_ceil_log2(n, r2),
    ensures
        r1 == r2,
{
    if r1 < r2 {
        if r1 < r2 - 1 {
            lemma_pow2_strictly_increases(r1, (r2 - 1) as nat);
        }
        assert(pow2(r1) <= pow2((r2 - 1) as nat));
        assert(false);
    }
    if r2 < r1 {
        if r2 < r1 - 1 {
            lemma_pow2_strictly_increases(r2, (r1 - 1) as nat);
        }
        assert(pow2(r2) <= pow2((r1 - 1) as nat));
        assert(false);
    }
}

/// The pass count is zero exactly for degenerate one-pixel extents:
/// `ceil(log2(n)) == 0` iff `n <= 1`.
pub proof fn lemma_ceil_log2_zero_iff(n: int, r: nat)
    requires
        n >= 1,
        is_ceil_log2(n, r),
    ensures
        (r == 0) <==> (n <= 1),
{
    lemma2_to64();
    if r > 0 {
        assert(pow2((r - 1) as nat) >= 1) by {
            vstd::arithmetic::power2::lemma_pow2_pos((r - 1) as nat);
        }
    }
}

/// Smallest `r` with `2^r >= n`, i.e. `ceil(log2(n))`.
pub fn ceil_log2(n: usize) -> (r: usize)
    requires
        1 <= n <= MAX_DIM,
    ensures
        is_ceil_log2(n as int, r as nat),
        r <= 15,
{
    let mut r: usize = 0;
    let mut v: usize = 1;
    proof {
        lemma2_to64();
    }
    while v < n
        invariant
            1 <= n <= MAX_DIM,
            v == pow2(r as nat),
            r == 0 || pow2((r - 1) as nat) < n,
            1 <= v,
            r <= 15,
        decreases 15 - r,
    {
        proof {
            // v = 2^r < n <= 2^15 bounds the exponent, so r stays below 15.
            lemma2_to64();
            if r >= 15 {
                if r > 15 {
                    lemma_pow2_strictly_increases(15, r as nat);
                }
                assert(pow2(15) <= pow2(r as nat));
                assert(false);
            }
            lemma_pow2_unfold((r + 1) as nat);
        }
        v = v * 2;
        r = r + 1;
    }
    r
}

/// `2^e` as a machine word, for the JFA pass offsets.
pub fn pow2_usize(e: usize) -> (r: usize)
    requires
        e < 31,
    ensures
        r == pow2(e as nat),
        1 <= r <= 0x4000_0000,
{
    let mut r: usize = 1;
    let mut i: usize = 0;
    proof {
        lemma2_to64();
    }
    while i < e
        invariant
            i <= e,
            e < 31,
            r == pow2(i as nat),
        decreases e - i,
    {
        proof {
            lemma2_to64();
            if i < 30 {
                lemma_pow2_strictly_increases(i as nat, 30);
            }
            lemma_pow2_unfold((i + 1) as nat);
        }
        r = r * 2;
        i = i + 1;
    }
    proof {
        lemma2_to64();
        if (e as nat) < 30 {
            lemma_pow2_strictly_increases(e as nat, 30);
        }
    }
    r
}

/// Number of JFA propagation passes for a viewport:
/// `ceil(log2(max(width, height)))`.
pub fn derive_pass_count(width: usize, height: usize) -> (r: usize)
    requires
        1 <= width <= MAX_DIM,
        1 <= height <= MAX_DIM,
    ensures
        is_ceil_log2(vstd::math::max(width as int, height as int), r as nat),
        r <= 15,
{
    if width >= height {
        ceil_log2(width)
    } else {
        ceil_log2(height)
    }
}

/// `c` is the cascade count for squared diagonal `d2` and base `base`:
/// `c == ceil(log_base(diagonal)) + 1`, expressed over squares as the
/// smallest `k` with `base^(2k) >= d2`, plus one.
pub open spec fn is_cascade_count(base: int, d2: int, c: nat) -> bool {
    &&& c >= 2
    &&& pow(base, (2 * (c - 1)) as nat) >= d2
    &&& pow(base, (2 * (c - 2)) as nat) < d2
}

/// The bracketing characterisation pins down a single cascade count.
pub proof fn lemma_cascade_count_unique(base: int, d2: int, c1: nat, c2: nat)
    requires
        base >= 2,
        is_cascade_count(base, d2, c1),
        is_cascade_count(base, d2, c2),
    ensures
        c1 == c2,
{
    if c1 < c2 {
        if 2 * (c1 - 1) < 2 * (c2 - 2) {
            lemma_pow_strictly_increases(base as nat, (2 * (c1 - 1)) as nat, (2 * (c2 - 2)) as nat);
        }
        assert(pow(base, (2 * (c1 - 1)) as nat) <= pow(base, (2 * (c2 - 2)) as nat));
        assert(false);
    }
    if c2 < c1 {
        if 2 * (c2 - 1) < 2 * (c1 - 2) {
            lemma_pow_strictly_increases(base as nat, (2 * (c2 - 1)) as nat, (2 * (c1 - 2)) as nat);
        }
        assert(pow(base, (2 * (c2 - 1)) as nat) <= pow(base, (2 * (c1 - 2)) as nat));
        assert(false);
    }
}

/// Cascade count for a viewport: `ceil(log_b(sqrt(w^2 + h^2))) + 1` with
/// `b = max(base_ray_count, 2)`. A base below 2 has no geometric series, so
/// it is clamped before the derivation, and the result is always at least 2.
pub fn derive_cascade_count(base_ray_count: u32, width: usize, height: usize) -> (c: u32)
    requires
        1 <= base_ray_count <= 65536,
        1 <= width <= MAX_DIM,
        1 <= height <= MAX_DIM,
    ensures
        is_cascade_count(
            vstd::math::max(base_ray_count as int, 2),
            width * width + height * height,
            c as nat,
        ),
        2 <= c <= 17,
{
    let b: u64 = if base_ray_count < 2 { 2 } else { base_ray_count as u64 };
    proof {
        assert(width * width <= 0x4000_0000 && width * width >= 1) by (nonlinear_arith)
            requires 1 <= width <= 32768;
        assert(height * height <= 0x4000_0000 && height * height >= 1) by (nonlinear_arith)
            requires 1 <= height <= 32768;
    }
    let d2: u64 = (width as u64) * (width as u64) + (height as u64) * (height as u64);
    proof {
        assert(4 <= b * b <= 0x1_0000_0000u64) by (nonlinear_arith)
            requires 2 <= b <= 65536;
    }
    let bsq: u128 = (b as u128) * (b as u128);
    let mut k: u32 = 0;
    let mut v: u128 = 1;
    proof {
        assert(pow(b as int, 0) == 1) by {
            vstd::arithmetic::power::lemma_pow0(b as int);
        }
    }
    while v < d2 as u128
        invariant
            2 <= b <= 65536,
            bsq == b * b,
            4 <= bsq <= 0x1_0000_0000u128,
            2 <= d2 <= 0x8000_0000u64,
            v == pow(b as int, (2 * k) as nat),
            k == 0 || pow(b as int, (2 * (k - 1)) as nat) < d2,
            1 <= v,
            k <= 16,
        decreases 16 - k,
    {
        proof {
            // v = b^(2k) < d2 <= 2^31 bounds the exponent, so k stays below 16.
            if k >= 16 {
                lemma_pow_ge_two(b as int, (2 * k) as nat);
                lemma_pow2_strictly_increases(31, (2 * k) as nat);
                lemma_pow2_31();
                assert(false);
            }
            lemma_pow_adds(b as int, (2 * k) as nat, 2);
            assert(pow(b as int, 2) == b * b) by {
                lemma_pow_adds(b as int, 1, 1);
                vstd::arithmetic::power::lemma_pow1(b as int);
            }
            assert(v * bsq < 0x8000_0000u128 * 0x1_0000_0000u128) by (nonlinear_arith)
                requires 1 <= v < 0x8000_0000u128, 1 <= bsq <= 0x1_0000_0000u128;
            assert(v * bsq >= v * 4) by (nonlinear_arith)
                requires bsq >= 4, v >= 1;
        }
        v = v * bsq;
        k = k + 1;
    }
    proof {
        // d2 >= 2 forces at least one squaring, so k >= 1 and the count is >= 2.
        if k == 0 {
            assert(v == 1);
            assert(false);
        }
    }
    k + 1
}

/// `b^e >= 2^e` for bases of at least 2.
proof fn lemma_pow_ge_two(b: int, e: nat)
    requires
        b >= 2,
    ensures
        pow(b, e) >= pow2(e),
    decreases e,
{
    vstd::arithmetic::power2::lemma_pow2(e);
    if e == 0 {
        assert(pow(b, 0) == 1) by {
            vstd::arithmetic::power::lemma_pow0(b);
        }
        assert(pow(2, 0) == 1) by {
            vstd::arithmetic::power::lemma_pow0(2);
        }
    } else {
        lemma_pow_ge_two(b, (e - 1) as nat);
        vstd::arithmetic::power2::lemma_pow2((e - 1) as nat);
        assert(pow(b, e) == b * pow(b, (e - 1) as nat)) by {
            lemma_pow_adds(b, 1, (e - 1) as nat);
            vstd::arithmetic::power::lemma_pow1(b);
        }
        assert(pow(2, e) == 2 * pow(2, (e - 1) as nat)) by {
            lemma_pow_adds(2, 1, (e - 1) as nat);
            vstd::arithmetic::power::lemma_pow1(2);
        }
        lemma_pow_positive(2, (e - 1) as nat);
        assert(b * pow(b, (e - 1) as nat) >= 2 * pow(2, (e - 1) as nat)) by (nonlinear_arith)
            requires b >= 2, pow(b, (e - 1) as nat) >= pow(2, (e - 1) as nat), pow(2, (e - 1) as nat) >= 1;
    }
}

/// `2^31` written out, for the cascade-count bound.
proof fn lemma_pow2_31()
    ensures
        pow2(31) == 0x8000_0000,
{
    lemma2_to64();
}

} // verus!
