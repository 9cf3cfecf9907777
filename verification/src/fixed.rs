//! Fixed-point scalars.
//!
//! Every length, speed, force and time span of the simulation is an `i64`
//! that counts millionths: the scalar `s` stands for the real number
//! `s / ONE`. The functions here are the integer arithmetic that the vector
//! operations are built from: division rounded toward zero and the integer
//! square root, each with its mathematical definition.

use vstd::prelude::*;

verus! {

/// The scalar that stands for the real number 1.
pub const ONE: i64 = 1_000_000;

/// The absolute value of `a`.
pub open spec fn magnitude(a: int) -> int {
    if a < 0 {
        -a
    } else {
        a
    }
}

/// The quotient `a / b` rounded toward zero, for a positive divisor.
pub open spec fn div_toward_zero(a: int, b: int) -> int {
    if a >= 0 {
        a / b
    } else {
        -((-a) / b)
    }
}

/// `r` is the integer square root of `n`: the largest integer whose square
/// does not exceed `n`.
pub open spec fn is_sqrt_floor(n: int, r: int) -> bool {
    0 <= r && r * r <= n && n < (r + 1) * (r + 1)
}

/// The integer square root of a non-negative `n`.
pub open spec fn sqrt_floor(n: int) -> int {
    choose|r: int| is_sqrt_floor(n, r)
}

/// The product of the scalars `a` and `k`, as a scalar.
pub open spec fn scale(a: int, k: int) -> int {
    div_toward_zero(a * k, ONE as int)
}

/// The quotient of the scalars `a` and `d`, as a scalar.
pub open spec fn ratio(a: int, d: int) -> int {
    div_toward_zero(a * ONE, d)
}

/// At most one integer is the integer square root of `n`.
pub proof fn lemma_sqrt_floor_unique(n: int, r: int)
    requires
        is_sqrt_floor(n, r),
    ensures
        sqrt_floor(n) == r,
{
    let s = sqrt_floor(n);
    assert(is_sqrt_floor(n, s));
    if s < r {
        assert((s + 1) * (s + 1) <= r * r) by (nonlinear_arith)
            requires
                0 <= s,
                s + 1 <= r,
        ;
    } else if r < s {
        assert((r + 1) * (r + 1) <= s * s) by (nonlinear_arith)
            requires
                0 <= r,
                r + 1 <= s,
        ;
    }
}

/// Every non-negative integer has an integer square root.
pub proof fn lemma_sqrt_floor_exists(n: int)
    requires
        0 <= n,
    ensures
        is_sqrt_floor(n, sqrt_floor(n)),
    decreases n,
{
    if n == 0 {
        assert(is_sqrt_floor(0, 0));
    } else {
        lemma_sqrt_floor_exists(n - 1);
        let r = sqrt_floor(n - 1);
        if (r + 1) * (r + 1) <= n {
            assert(n < (r + 2) * (r + 2)) by (nonlinear_arith)
                requires
                    0 <= r,
                    n - 1 < (r + 1) * (r + 1),
            ;
            assert(is_sqrt_floor(n, r + 1));
        } else {
            assert(is_sqrt_floor(n, r));
        }
    }
}

/// The integer square root is monotone, and it is zero only at zero.
pub proof fn lemma_sqrt_floor_ordered(a: int, b: int)
    requires
        0 <= a <= b,
    ensures
        0 <= sqrt_floor(a) <= sqrt_floor(b),
        a > 0 ==> sqrt_floor(a) > 0,
{
    lemma_sqrt_floor_exists(a);
    lemma_sqrt_floor_exists(b);
    let r = sqrt_floor(a);
    let s = sqrt_floor(b);
    if s < r {
        assert((s + 1) * (s + 1) <= r * r) by (nonlinear_arith)
            requires
                0 <= s,
                s + 1 <= r,
        ;
    }
    if r == 0 {
        assert((r + 1) * (r + 1) == 1) by (nonlinear_arith)
            requires
                r == 0,
        ;
    }
}

/// Division toward zero never grows a number, keeps its sign, and is
/// bounded by `m` when the dividend is bounded by `m * b`.
pub proof fn lemma_div_toward_zero_bound(a: int, b: int, m: int)
    requires
        b > 0,
        magnitude(a) <= m * b,
    ensures
        magnitude(div_toward_zero(a, b)) <= m,
        magnitude(div_toward_zero(a, b)) <= magnitude(a),
        a >= 0 ==> div_toward_zero(a, b) >= 0,
        a <= 0 ==> div_toward_zero(a, b) <= 0,
{
    let p = magnitude(a);
    assert(0 <= p / b <= p && p / b <= m) by (nonlinear_arith)
        requires
            b > 0,
            0 <= p <= m * b,
    ;
    if a == 0 {
        assert(0int / b == 0) by (nonlinear_arith)
            requires
                b > 0,
        ;
    }
}

/// A product of bounded scalars is bounded.
pub proof fn lemma_scale_bound(a: int, k: int, m: int, n: int, bound: int)
    requires
        magnitude(a) <= m,
        magnitude(k) <= n,
        m * n <= bound * ONE,
    ensures
        magnitude(scale(a, k)) <= bound,
        a == 0 || k == 0 ==> scale(a, k) == 0,
{
    let one = ONE as int;
    assert(magnitude(a * k) <= m * n && (a == 0 || k == 0 ==> a * k == 0)) by (nonlinear_arith)
        requires
            magnitude(a) <= m,
            magnitude(k) <= n,
    ;
    lemma_div_toward_zero_bound(a * k, one, bound);
}

/// A quotient of a bounded scalar by a scalar that is at least `least` is
/// bounded.
pub proof fn lemma_ratio_bound(a: int, d: int, m: int, least: int, bound: int)
    requires
        magnitude(a) <= m,
        0 < least <= d,
        m * ONE <= bound * least,
    ensures
        magnitude(ratio(a, d)) <= bound,
        a == 0 ==> ratio(a, d) == 0,
{
    let one = ONE as int;
    assert(magnitude(a * one) <= bound * d && (a == 0 ==> a * one == 0)) by (nonlinear_arith)
        requires
            magnitude(a) <= m,
            0 < least <= d,
            m * one <= bound * least,
            one == 1_000_000,
    ;
    lemma_div_toward_zero_bound(a * one, d, bound);
}

/// The integer square root of `n`, found by bisection.
pub fn isqrt(n: u128) -> (r: u64)
    ensures
        r == sqrt_floor(n as int),
        is_sqrt_floor(n as int, r as int),
{
    let mut low: u128 = 0;
    let mut high: u128 = 0x1_0000_0000_0000_0000;
    assert(n < high * high) by (nonlinear_arith)
        requires
            n <= u128::MAX,
            high == 0x1_0000_0000_0000_0000,
    ;
    while high - low > 1
        invariant
            low < high <= 0x1_0000_0000_0000_0000,
            low * low <= n,
            n < high * high,
        decreases high - low,
    {
        let middle: u128 = low + (high - low) / 2;
        assert(middle * middle <= u128::MAX) by (nonlinear_arith)
            requires
                middle <= 0xffff_ffff_ffff_ffff,
        ;
        if middle * middle <= n {
            low = middle;
        } else {
            high = middle;
        }
    }
    proof {
        assert(high == low + 1);
        lemma_sqrt_floor_unique(n as int, low as int);
    }
    low as u64
}

} // verus!
