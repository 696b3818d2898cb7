//! Fixed-point scalars: integers that count 65536ths.

use vstd::prelude::*;

verus! {

/// The fixed-point representation of 1.
pub const ONE: i64 = 65536;

/// The fixed-point representation of one half.
pub const HALF: i64 = 32768;

/// `r` is the integer square root of `n`: the largest integer whose square
/// does not exceed `n`.
pub open spec fn is_floor_sqrt(n: int, r: int) -> bool {
    0 <= r && r * r <= n && n < (r + 1) * (r + 1)
}

/// The integer square root of `n`.
pub open spec fn floor_sqrt(n: int) -> int {
    choose|r: int| is_floor_sqrt(n, r)
}

/// The product of two fixed-point numbers, rounded to the nearest 65536th,
/// a half upward.
pub open spec fn fixed_mul(a: int, b: int) -> int {
    (a * b + HALF) / (ONE as int)
}

/// `v` held between `lo` and `hi`.
pub open spec fn clamp(v: int, lo: int, hi: int) -> int {
    if v < lo {
        lo
    } else if v > hi {
        hi
    } else {
        v
    }
}

/// A product is bounded by the product of the bounds of its factors.
pub proof fn lemma_product_bound(a: int, b: int, ma: int, mb: int)
    requires
        -ma <= a <= ma,
        -mb <= b <= mb,
    ensures
        -(ma * mb) <= a * b <= ma * mb,
{
    assert(-(ma * mb) <= a * b <= ma * mb) by (nonlinear_arith)
        requires
            -ma <= a <= ma,
            -mb <= b <= mb,
    ;
}

/// A fixed-point product lies within the rounded product of the bounds of
/// its factors, and one more for the rounding.
pub proof fn lemma_fixed_mul_bound(a: int, b: int, ma: int, mb: int)
    requires
        -ma <= a <= ma,
        -mb <= b <= mb,
    ensures
        -((ma * mb) / (ONE as int)) - 1 <= fixed_mul(a, b) <= (ma * mb) / (ONE as int) + 1,
{
    lemma_product_bound(a, b, ma, mb);
    lemma_rounded_bound(a * b, ma * mb);
}

/// A number within `m` of zero, divided by 65536 and rounded to the nearest
/// integer, lies within `m / 65536 + 1` of zero.
pub proof fn lemma_rounded_bound(p: int, m: int)
    requires
        -m <= p <= m,
    ensures
        -(m / 65536) - 1 <= (p + 32768) / 65536 <= m / 65536 + 1,
{
    assert(-(m / 65536) - 1 <= (p + 32768) / 65536 <= m / 65536 + 1) by (nonlinear_arith)
        requires
            -m <= p <= m,
    ;
}

/// Any two integer square roots of one number are equal.
pub proof fn lemma_floor_sqrt_unique(n: int, r: int, s: int)
    requires
        is_floor_sqrt(n, r),
        is_floor_sqrt(n, s),
    ensures
        r == s,
{
    if r < s {
        assert((r + 1) * (r + 1) <= s * s) by (nonlinear_arith)
            requires
                0 <= r,
                r + 1 <= s,
        ;
    } else if s < r {
        assert((s + 1) * (s + 1) <= r * r) by (nonlinear_arith)
            requires
                0 <= s,
                s + 1 <= r,
        ;
    }
}

/// Every natural number has an integer square root.
pub proof fn lemma_floor_sqrt_exists(n: int)
    requires
        0 <= n,
    ensures
        is_floor_sqrt(n, floor_sqrt(n)),
    decreases n,
{
    if n == 0 {
        assert(is_floor_sqrt(0, 0));
    } else {
        lemma_floor_sqrt_exists(n - 1);
        let r = floor_sqrt(n - 1);
        if (r + 1) * (r + 1) <= n {
            assert(n < (r + 2) * (r + 2)) by (nonlinear_arith)
                requires
                    0 <= r,
                    n - 1 < (r + 1) * (r + 1),
            ;
            assert(is_floor_sqrt(n, r + 1));
        } else {
            assert(is_floor_sqrt(n, r));
        }
    }
}

/// `a` divided by the positive `d`, rounded down.
pub fn floor_div(a: i64, d: i64) -> (q: i64)
    requires
        d > 0,
    ensures
        q == a / d,
{
    if a >= 0 {
        a / d
    } else {
        let m: i64 = -(a + 1);
        let k: i64 = m / d;
        proof {
            let r = (m as int) % (d as int);
            assert(m == d * (m / d) + r && 0 <= r < d) by (nonlinear_arith)
                requires
                    d > 0,
                    r == (m as int) % (d as int),
            ;
            assert(a == d * (-(k as int) - 1) + (d - r - 1)) by (nonlinear_arith)
                requires
                    m == d * k + r,
                    a == -m - 1,
            ;
            assert(a / d == -(k as int) - 1) by (nonlinear_arith)
                requires
                    d > 0,
                    a == d * (-(k as int) - 1) + (d - r - 1),
                    0 <= d - r - 1 < d,
            ;
        }
        -1 - k
    }
}

/// The product of two fixed-point numbers, rounded to the nearest 65536th.
pub fn scale(a: i64, b: i64) -> (r: i64)
    requires
        i64::MIN <= a * b <= i64::MAX - HALF,
    ensures
        r == fixed_mul(a as int, b as int),
{
    floor_div(a * b + HALF, ONE)
}

/// The integer square root of `n`.
pub fn isqrt(n: u128) -> (r: u128)
    ensures
        r == floor_sqrt(n as int),
        is_floor_sqrt(n as int, r as int),
{
    let mut lo: u128 = 0;
    let mut hi: u128 = 0x1_0000_0000_0000_0000;
    assert(n < hi * hi) by (nonlinear_arith)
        requires
            n <= u128::MAX,
            hi == 0x1_0000_0000_0000_0000,
    ;
    while hi - lo > 1
        invariant
            lo < hi <= 0x1_0000_0000_0000_0000,
            lo * lo <= n,
            n < hi * hi,
        decreases hi - lo,
    {
        let mid: u128 = lo + (hi - lo) / 2;
        assert(mid * mid <= u128::MAX) by (nonlinear_arith)
            requires
                mid < 0x1_0000_0000_0000_0000,
        ;
        if mid * mid <= n {
            lo = mid;
        } else {
            hi = mid;
        }
    }
    proof {
        lemma_floor_sqrt_exists(n as int);
        lemma_floor_sqrt_unique(n as int, lo as int, floor_sqrt(n as int));
    }
    lo
}

} // verus!
