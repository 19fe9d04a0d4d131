use vstd::prelude::*;
use vstd::arithmetic::div_mod::{
    lemma_div_is_ordered, lemma_div_multiples_vanish, lemma_div_pos_is_pos,
};
use vstd::arithmetic::mul::lemma_mul_inequality;
use crate::config::{BETA, SCALE};
use crate::math::{mul_div_trunc, sabs};

verus! {

/// The tent profile of the interaction band, in `SCALE` units: zero at
/// `r == BETA` and at `r == SCALE`, peaking at `SCALE` midway between them.
pub open spec fn spec_tent(r: int) -> int {
    SCALE - sabs(2 * r - SCALE - BETA) * SCALE / ((SCALE - BETA) as int)
}

/// A coefficient `c` applied to a nonnegative profile value `t`, scaled
/// back down by `SCALE`, rounding toward zero.
pub open spec fn spec_scaled(c: int, t: int) -> int {
    mul_div_trunc(c, t, SCALE as int)
}

/// The pairwise force at normalized distance `r` (in `SCALE` units of the
/// cutoff radius) under interaction coefficient `c` (in `SCALE` units of
/// one): a universal short-range repulsion below `BETA`, a coefficient-led
/// tent between `BETA` and the cutoff, nothing beyond it.
pub open spec fn spec_force(r: int, c: int) -> int {
    if r < BETA {
        r * SCALE / (BETA as int) - SCALE
    } else if r < SCALE {
        spec_scaled(c, spec_tent(r))
    } else {
        0
    }
}

/// Inside the interaction band the tent profile lies in `[0, SCALE]`.
pub proof fn lemma_tent_range(r: int)
    requires
        BETA <= r < SCALE,
    ensures
        0 <= spec_tent(r) <= SCALE,
{
    let d = sabs(2 * r - SCALE - BETA);
    assert(d <= SCALE - BETA);
    lemma_mul_inequality(d, SCALE - BETA, SCALE as int);
    assert(d * SCALE == SCALE * d) by (nonlinear_arith);
    assert((SCALE - BETA) * (SCALE as int) == (SCALE - BETA) as int * (SCALE as int));
    lemma_div_is_ordered(d * SCALE, (SCALE - BETA) * (SCALE as int), (SCALE - BETA) as int);
    assert((SCALE - BETA) * (SCALE as int) == ((SCALE - BETA) as int) * (SCALE as int)) by (nonlinear_arith);
    lemma_div_multiples_vanish(SCALE as int, (SCALE - BETA) as int);
    assert(((SCALE - BETA) as int) * (SCALE as int) == (SCALE as int) * ((SCALE - BETA) as int)) by (nonlinear_arith);
    lemma_div_pos_is_pos(d * SCALE, (SCALE - BETA) as int);
}

/// A coefficient within `[-SCALE, SCALE]` applied to a profile value within
/// `[0, SCALE]` yields a force within `[-SCALE, SCALE]`.
pub proof fn lemma_scaled_range(c: int, t: int)
    requires
        -SCALE <= c <= SCALE,
        0 <= t <= SCALE,
    ensures
        -SCALE <= spec_scaled(c, t) <= SCALE,
        sabs(spec_scaled(c, t)) <= sabs(c),
{
    let m = if c >= 0 { c } else { -c };
    lemma_mul_inequality(t, SCALE as int, m);
    assert(m * t == t * m) by (nonlinear_arith);
    assert(m * SCALE == (SCALE as int) * m) by (nonlinear_arith);
    lemma_div_is_ordered(m * t, m * (SCALE as int), SCALE as int);
    assert(m * (SCALE as int) == (SCALE as int) * m) by (nonlinear_arith);
    lemma_div_multiples_vanish(m, SCALE as int);
    lemma_div_pos_is_pos(m * t, SCALE as int);
}

/// The force never leaves `[-SCALE, SCALE]`.
pub proof fn lemma_force_range(r: int, c: int)
    requires
        0 <= r,
        -SCALE <= c <= SCALE,
    ensures
        -SCALE <= spec_force(r, c) <= SCALE,
        sabs(spec_force(r, c)) <= SCALE,
{
    if r < BETA {
        lemma_div_pos_is_pos(r * SCALE, BETA as int);
        lemma_mul_inequality(r, BETA as int, SCALE as int);
        assert(r * SCALE == r * (SCALE as int)) by (nonlinear_arith);
        assert((BETA as int) * (SCALE as int) == (SCALE as int) * (BETA as int)) by (nonlinear_arith);
        lemma_div_is_ordered(r * SCALE, (BETA as int) * (SCALE as int), BETA as int);
        lemma_div_multiples_vanish(SCALE as int, BETA as int);
    } else if r < SCALE {
        lemma_tent_range(r);
        lemma_scaled_range(c, spec_tent(r));
    }
}

/// Beyond the cutoff radius there is no interaction at all.
pub proof fn lemma_force_zero_beyond_cutoff(r: int, c: int)
    requires
        r >= SCALE,
    ensures
        spec_force(r, c) == 0,
{
}

/// The two branches of the profile meet continuously at the seam
/// `r == BETA`: the repulsion formula and the tent formula both give zero
/// there, whatever the coefficient.
pub proof fn lemma_force_zero_at_seam(c: int)
    ensures
        spec_force(BETA as int, c) == 0,
        (BETA as int) * SCALE / (BETA as int) - SCALE == 0,
        spec_tent(BETA as int) == 0,
{
    lemma_div_multiples_vanish(SCALE as int, (SCALE - BETA) as int);
    assert(spec_tent(BETA as int) == 0);
    lemma_div_multiples_vanish(SCALE as int, BETA as int);
    assert((BETA as int) * SCALE / (BETA as int) - SCALE == 0);
    assert(spec_scaled(c, 0) == 0);
}

/// Within the interaction band the force is odd in the coefficient:
/// flipping attraction to repulsion flips the force exactly.
pub proof fn lemma_force_odd_in_coefficient(r: int, c: int)
    requires
        BETA <= r < SCALE,
    ensures
        spec_force(r, -c) == -spec_force(r, c),
{
    let t = spec_tent(r);
    if c == 0 {
        assert(spec_scaled(0, t) == 0);
    }
}

/// The pairwise force at normalized distance `r >= 0` under coefficient
/// `c`, both in `SCALE` units.
pub fn force(r: i64, c: i64) -> (f: i64)
    requires
        0 <= r,
        -SCALE <= c <= SCALE,
    ensures
        f as int == spec_force(r as int, c as int),
        -SCALE <= f <= SCALE,
{
    proof {
        lemma_force_range(r as int, c as int);
    }
    if r < BETA {
        let q: u64 = (r as u64) * (SCALE as u64) / (BETA as u64);
        proof {
            lemma_div_pos_is_pos((r as int) * (SCALE as int), BETA as int);
            lemma_mul_inequality(r as int, BETA as int, SCALE as int);
            assert((BETA as int) * (SCALE as int) == (SCALE as int) * (BETA as int)) by (nonlinear_arith);
            lemma_div_is_ordered((r as int) * (SCALE as int), (BETA as int) * (SCALE as int), BETA as int);
            lemma_div_multiples_vanish(SCALE as int, BETA as int);
        }
        (q as i64) - SCALE
    } else if r < SCALE {
        let dr: i64 = 2 * r - SCALE - BETA;
        let da: u64 = if dr >= 0 {
            dr as u64
        } else {
            (-dr) as u64
        };
        proof {
            assert(da <= SCALE - BETA);
            lemma_mul_inequality(da as int, (SCALE - BETA) as int, SCALE as int);
            assert(((SCALE - BETA) as int) * (SCALE as int) == (SCALE as int) * ((SCALE - BETA) as int)) by (nonlinear_arith);
            lemma_div_is_ordered((da as int) * (SCALE as int), ((SCALE - BETA) as int) * (SCALE as int), (SCALE - BETA) as int);
            lemma_div_multiples_vanish(SCALE as int, (SCALE - BETA) as int);
            lemma_div_pos_is_pos((da as int) * (SCALE as int), (SCALE - BETA) as int);
        }
        let t: u64 = (SCALE as u64) - da * (SCALE as u64) / ((SCALE - BETA) as u64);
        let ca: u64 = if c >= 0 {
            c as u64
        } else {
            (-c) as u64
        };
        proof {
            lemma_tent_range(r as int);
            lemma_scaled_range(c as int, t as int);
            lemma_mul_inequality(t as int, SCALE as int, ca as int);
            assert((ca as int) * (t as int) == (t as int) * (ca as int)) by (nonlinear_arith);
            assert((ca as int) * (SCALE as int) == (SCALE as int) * (ca as int)) by (nonlinear_arith);
            lemma_div_is_ordered((ca as int) * (t as int), (ca as int) * (SCALE as int), SCALE as int);
            lemma_div_multiples_vanish(ca as int, SCALE as int);
            lemma_div_pos_is_pos((ca as int) * (t as int), SCALE as int);
        }
        let m: u64 = ca * t / (SCALE as u64);
        if c >= 0 {
            m as i64
        } else {
            -(m as i64)
        }
    } else {
        0
    }
}

} // verus!
