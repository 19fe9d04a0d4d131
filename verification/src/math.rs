use vstd::prelude::*;
use vstd::arithmetic::div_mod::{
    lemma_div_by_multiple_is_strongly_ordered, lemma_div_is_ordered, lemma_div_multiples_vanish,
    lemma_div_pos_is_pos,
};
use vstd::arithmetic::mul::{lemma_mul_inequality, lemma_mul_nonnegative};

verus! {

/// Absolute value of a mathematical integer.
pub open spec fn sabs(x: int) -> int {
    if x < 0 {
        -x
    } else {
        x
    }
}

/// `a * m / d` with the division rounding toward zero, which is how the
/// executable code divides: the magnitude `|a| * m / d` carries the sign
/// of `a` (for `m >= 0` and `d > 0`).
pub open spec fn mul_div_trunc(a: int, m: int, d: int) -> int {
    if a >= 0 {
        a * m / d
    } else {
        -((-a) * m / d)
    }
}

/// The magnitude of a truncating scaling is the scaled magnitude, and the
/// sign is the sign of the input (or zero).
pub proof fn lemma_mul_div_trunc_magnitude(a: int, m: int, d: int)
    requires
        0 <= m,
        0 < d,
    ensures
        sabs(mul_div_trunc(a, m, d)) == sabs(a) * m / d,
        a >= 0 ==> mul_div_trunc(a, m, d) >= 0,
        a <= 0 ==> mul_div_trunc(a, m, d) <= 0,
{
    if a >= 0 {
        lemma_mul_nonnegative(a, m);
        lemma_div_pos_is_pos(a * m, d);
    } else {
        lemma_mul_nonnegative(-a, m);
        lemma_div_pos_is_pos((-a) * m, d);
    }
}

/// Scaling by a factor `m <= d` never grows the magnitude and keeps the
/// sign: the fixed-point analogue of multiplying by a number in `[0, 1]`.
pub proof fn lemma_mul_div_trunc_shrinks(a: int, m: int, d: int)
    requires
        0 <= m <= d,
        0 < d,
    ensures
        sabs(mul_div_trunc(a, m, d)) <= sabs(a),
        a >= 0 ==> 0 <= mul_div_trunc(a, m, d) <= a,
        a <= 0 ==> a <= mul_div_trunc(a, m, d) <= 0,
{
    lemma_mul_div_trunc_magnitude(a, m, d);
    lemma_mul_inequality(m, d, sabs(a));
    assert(sabs(a) * m == m * sabs(a)) by (nonlinear_arith);
    assert(sabs(a) * d == d * sabs(a)) by (nonlinear_arith);
    lemma_div_is_ordered(sabs(a) * m, sabs(a) * d, d);
    lemma_div_multiples_vanish(sabs(a), d);
}

/// Scaling a nonzero value by a factor strictly below the unit strictly
/// shrinks its magnitude.
pub proof fn lemma_mul_div_trunc_strict(a: int, m: int, d: int)
    requires
        0 <= m < d,
        a != 0,
    ensures
        sabs(mul_div_trunc(a, m, d)) < sabs(a),
{
    lemma_mul_div_trunc_magnitude(a, m, d);
    let s = sabs(a);
    assert(s * m < s * d) by (nonlinear_arith)
        requires 1 <= s, 0 <= m < d;
    lemma_div_by_multiple_is_strongly_ordered(s * m, s * d, s, d);
    assert(s * d == d * s) by (nonlinear_arith);
    lemma_div_multiples_vanish(s, d);
}

/// An upper bound on the numerator gives one on the truncating scaling.
pub proof fn lemma_mul_div_trunc_bound(a: int, m: int, d: int, cap: int)
    requires
        0 <= m,
        0 < d,
        0 <= cap,
        sabs(a) * m <= cap * d,
    ensures
        sabs(mul_div_trunc(a, m, d)) <= cap,
{
    lemma_mul_div_trunc_magnitude(a, m, d);
    lemma_div_is_ordered(sabs(a) * m, cap * d, d);
    assert(cap * d == d * cap) by (nonlinear_arith);
    lemma_div_multiples_vanish(cap, d);
}

/// Computes `a * m / d` with the division rounding toward zero, entirely in
/// 64-bit words.
pub fn scale_i64(a: i64, m: u64, d: u64) -> (r: i64)
    requires
        0 < d,
        sabs(a as int) * m < 0x8000_0000_0000_0000,
    ensures
        r as int == mul_div_trunc(a as int, m as int, d as int),
        sabs(r as int) == sabs(a as int) * m / (d as int),
{
    proof {
        lemma_mul_div_trunc_magnitude(a as int, m as int, d as int);
    }
    if m == 0 {
        proof {
            lemma_mul_div_trunc_bound(a as int, m as int, d as int, 0);
        }
        return 0;
    }
    let aa: u64 = if a >= 0 {
        a as u64
    } else {
        proof {
            assert(sabs(a as int) * 1 <= sabs(a as int) * (m as int)) by (nonlinear_arith)
                requires 1 <= m, 0 <= sabs(a as int);
        }
        (-a) as u64
    };
    proof {
        assert(aa == sabs(a as int));
    }
    let q: u64 = (aa * m) / d;
    proof {
        lemma_div_pos_is_pos(aa * m, d as int);
        lemma_div_is_ordered(0, aa * m, d as int);
        assert(q < 0x8000_0000_0000_0000) by {
            lemma_div_is_ordered(aa * m, 0x8000_0000_0000_0000 - 1, d as int);
            assert((0x8000_0000_0000_0000 - 1) / (d as int) <= 0x8000_0000_0000_0000 - 1) by (nonlinear_arith)
                requires 0 < d;
        };
    }
    if a >= 0 {
        q as i64
    } else {
        -(q as i64)
    }
}

/// The integer square root: the largest `r` with `r * r <= n`, defined by
/// counting up through the naturals.
pub open spec fn spec_sqrt(n: nat) -> nat
    decreases n,
{
    if n == 0 {
        0
    } else {
        let r = spec_sqrt((n - 1) as nat);
        if n < (r + 1) * (r + 1) {
            r
        } else {
            r + 1
        }
    }
}

/// `spec_sqrt(n)` squares to at most `n`, and the next integer squares past
/// it.
pub proof fn lemma_sqrt_bounds(n: nat)
    ensures
        spec_sqrt(n) * spec_sqrt(n) <= n,
        n < (spec_sqrt(n) + 1) * (spec_sqrt(n) + 1),
    decreases n,
{
    if n == 0 {
        assert(spec_sqrt(n) == 0);
        assert(spec_sqrt(n) * spec_sqrt(n) <= n) by (nonlinear_arith)
            requires n == 0, spec_sqrt(n) == 0;
        assert(n < (spec_sqrt(n) + 1) * (spec_sqrt(n) + 1)) by (nonlinear_arith)
            requires n == 0, spec_sqrt(n) == 0;
    } else {
        lemma_sqrt_bounds((n - 1) as nat);
        let r = spec_sqrt((n - 1) as nat);
        assert(r * r <= n - 1);
        assert(n - 1 < (r + 1) * (r + 1));
        if n < (r + 1) * (r + 1) {
            assert(spec_sqrt(n) == r);
            assert(spec_sqrt(n) * spec_sqrt(n) <= n);
            assert(n < (spec_sqrt(n) + 1) * (spec_sqrt(n) + 1));
        } else {
            assert(n == (r + 1) * (r + 1));
            assert(spec_sqrt(n) == r + 1);
            assert((r + 1) * (r + 1) < (r + 1 + 1) * (r + 1 + 1)) by (nonlinear_arith);
            assert(spec_sqrt(n) * spec_sqrt(n) <= n);
            assert(n < (spec_sqrt(n) + 1) * (spec_sqrt(n) + 1));
        }
    }
}

/// Only one natural square-roots `n`, so any witness equals `spec_sqrt(n)`.
pub proof fn lemma_sqrt_unique(n: nat, r: nat)
    requires
        r * r <= n,
        n < (r + 1) * (r + 1),
    ensures
        r == spec_sqrt(n),
{
    lemma_sqrt_bounds(n);
    let s = spec_sqrt(n);
    if r < s {
        assert((r + 1) * (r + 1) <= s * s) by (nonlinear_arith)
            requires r + 1 <= s;
    }
    if s < r {
        assert((s + 1) * (s + 1) <= r * r) by (nonlinear_arith)
            requires s + 1 <= r;
    }
}

/// Binary-search integer square root.
pub fn isqrt(n: u64) -> (r: u64)
    requires
        n < 0x4000_0000_0000_0000,
    ensures
        r == spec_sqrt(n as nat),
        r * r <= n,
        n < (r + 1) * (r + 1),
{
    let mut lo: u64 = 0;
    let mut hi: u64 = 0x8000_0000;
    while lo + 1 < hi
        invariant
            lo < hi <= 0x8000_0000,
            lo * lo <= n,
            n < hi * hi,
        decreases hi - lo,
    {
        let mid: u64 = lo + (hi - lo) / 2;
        proof {
            assert(mid * mid < 0x8000_0000u64 * 0x8000_0000u64) by (nonlinear_arith)
                requires mid < 0x8000_0000u64;
        }
        if mid * mid <= n {
            lo = mid;
        } else {
            hi = mid;
        }
    }
    proof {
        lemma_sqrt_unique(n as nat, lo as nat);
    }
    lo
}

} // verus!
