use vstd::prelude::*;
use vstd::arithmetic::div_mod::{
    lemma_div_is_ordered, lemma_div_multiples_vanish, lemma_div_pos_is_pos,
    lemma_fundamental_div_mod, lemma_fundamental_div_mod_converse_div,
};
use vstd::arithmetic::mul::{lemma_mul_inequality, lemma_mul_nonnegative};
use crate::config::{
    ACCEL_FACTOR, DISTANCE_MAX, FRICTION_HALF_LIFE_MS, HALF_EXTENT, MAX_DT_MS, MAX_PARTICLES,
    MILLIS_PER_SECOND, PAIR_ACCEL_MAX, SCALE, VEL_CAP,
};
use crate::kernel::{force, lemma_force_range, spec_force};
use crate::math::{
    isqrt, lemma_mul_div_trunc_shrinks, lemma_sqrt_bounds,
    mul_div_trunc, sabs, scale_i64, spec_sqrt,
};
use crate::ruleset::RuleSet;
use crate::store::{all_ok, Particle, ParticleStore};

verus! {

// ---------------------------------------------------------------- damping

/// `f` halved `k` times, rounding down each time.
pub open spec fn spec_halve(f: int, k: int) -> int
    decreases k,
{
    if k <= 0 {
        f
    } else {
        spec_halve(f / 2, k - 1)
    }
}

/// Halving a nonnegative value any number of times keeps it nonnegative
/// and never grows it.
pub proof fn lemma_halve_range(f: int, k: int)
    requires
        0 <= f,
    ensures
        0 <= spec_halve(f, k) <= f,
    decreases k,
{
    if k <= 0 {
    } else {
        lemma_halve_range(f / 2, k - 1);
    }
}

/// The damping factor for a tick of `dt` milliseconds, in `SCALE` units of
/// one: one half raised to `dt / FRICTION_HALF_LIFE_MS`. The whole part of
/// the exponent is applied by repeated halving; the fractional part is
/// interpolated linearly, so the factor is exact at whole multiples of the
/// half-life.
pub open spec fn spec_damping(dt: int) -> int {
    let q = dt * SCALE / (FRICTION_HALF_LIFE_MS as int);
    spec_halve(SCALE - (q % (SCALE as int)) / 2, q / (SCALE as int))
}

/// The damping factor is a fixed-point number in `[0, 1]`.
pub proof fn lemma_damping_range(dt: int)
    requires
        0 <= dt,
    ensures
        0 <= spec_damping(dt) <= SCALE,
{
    let q = dt * SCALE / (FRICTION_HALF_LIFE_MS as int);
    lemma_mul_nonnegative(dt, SCALE as int);
    lemma_div_pos_is_pos(dt * SCALE, FRICTION_HALF_LIFE_MS as int);
    assert(0 <= q % (SCALE as int) < SCALE);
    lemma_div_pos_is_pos(q % (SCALE as int), 2);
    lemma_div_is_ordered(q % (SCALE as int), SCALE - 1, 2);
    lemma_halve_range(SCALE - (q % (SCALE as int)) / 2, q / (SCALE as int));
}

/// Any tick of at least a millisecond damps strictly: the exponent
/// `dt / FRICTION_HALF_LIFE_MS` is then at least a twentieth, so the
/// factor is at most 975 of `SCALE`.
pub proof fn lemma_damping_below_one(dt: int)
    requires
        1 <= dt,
    ensures
        spec_damping(dt) <= 975,
{
    let q = dt * SCALE / (FRICTION_HALF_LIFE_MS as int);
    assert(dt * SCALE == (FRICTION_HALF_LIFE_MS as int) * (50 * dt)) by (nonlinear_arith)
        requires SCALE == 1000, FRICTION_HALF_LIFE_MS == 20;
    lemma_div_multiples_vanish(50 * dt, FRICTION_HALF_LIFE_MS as int);
    assert(q == 50 * dt);
    let k = q / (SCALE as int);
    let frac = q % (SCALE as int);
    let g0 = SCALE - frac / 2;
    lemma_fundamental_div_mod(q, SCALE as int);
    if k == 0 {
        assert(frac == q);
        lemma_div_is_ordered(50, frac, 2);
        lemma_fundamental_div_mod_converse_div(50, 2, 25, 0);
        assert(spec_halve(g0, 0) == g0);
    } else {
        lemma_div_pos_is_pos(frac, 2);
        lemma_div_is_ordered(frac, SCALE - 1, 2);
        lemma_fundamental_div_mod_converse_div(SCALE - 1, 2, 499, 1);
        lemma_div_pos_is_pos(g0, 2);
        lemma_div_is_ordered(g0, SCALE as int, 2);
        lemma_fundamental_div_mod_converse_div(SCALE as int, 2, 500, 0);
        lemma_halve_range(g0 / 2, k - 1);
        assert(spec_halve(g0, k) == spec_halve(g0 / 2, k - 1));
    }
}

/// Computes the damping factor for a tick of `dt_ms` milliseconds.
pub fn damping_factor(dt_ms: u64) -> (g: u64)
    requires
        dt_ms <= MAX_DT_MS,
    ensures
        g as int == spec_damping(dt_ms as int),
        g <= SCALE,
{
    proof {
        assert(dt_ms * (SCALE as u64) <= 1_000_000) by (nonlinear_arith)
            requires dt_ms <= 1000, SCALE == 1000;
    }
    let q: u64 = dt_ms * (SCALE as u64) / FRICTION_HALF_LIFE_MS;
    let frac: u64 = q % (SCALE as u64);
    let mut k: u64 = q / (SCALE as u64);
    let mut g: u64 = (SCALE as u64) - frac / 2;
    proof {
        lemma_div_pos_is_pos(frac as int, 2);
        lemma_div_is_ordered(frac as int, SCALE - 1, 2);
    }
    while k > 0
        invariant
            g <= SCALE,
            spec_halve(g as int, k as int) == spec_damping(dt_ms as int),
        decreases k,
    {
        g = g / 2;
        k = k - 1;
    }
    g
}

// ------------------------------------------------------- velocity clamp

/// A velocity component saturated at the cap.
pub open spec fn clamp_vel(v: int) -> int {
    if v > VEL_CAP {
        VEL_CAP as int
    } else if v < -VEL_CAP {
        -(VEL_CAP as int)
    } else {
        v
    }
}

// ------------------------------------------------- pairwise acceleration

/// Squared distance between two particles, in squared thousandths of a
/// world unit.
pub open spec fn spec_dist2(p: Particle, q: Particle) -> int {
    (q.x - p.x) * (q.x - p.x) + (q.y - p.y) * (q.y - p.y)
}

/// Distance between two particles: the integer square root of the squared
/// distance.
pub open spec fn spec_dist(p: Particle, q: Particle) -> int {
    spec_sqrt(spec_dist2(p, q) as nat) as int
}

/// The distance dominates the magnitude of each coordinate difference.
pub proof fn lemma_dist_bounds_delta(p: Particle, q: Particle)
    ensures
        0 <= spec_dist(p, q),
        sabs(q.x - p.x) <= spec_dist(p, q),
        sabs(q.y - p.y) <= spec_dist(p, q),
{
    let dx = q.x - p.x;
    let dy = q.y - p.y;
    assert(dx * dx >= 0) by (nonlinear_arith);
    assert(dy * dy >= 0) by (nonlinear_arith);
    let n = spec_dist2(p, q) as nat;
    lemma_sqrt_bounds(n);
    let s = spec_sqrt(n) as int;
    assert(sabs(dx) * sabs(dx) == dx * dx) by (nonlinear_arith);
    assert(sabs(dy) * sabs(dy) == dy * dy) by (nonlinear_arith);
    if sabs(dx) > s {
        assert((s + 1) * (s + 1) <= sabs(dx) * sabs(dx)) by (nonlinear_arith)
            requires s + 1 <= sabs(dx), 0 <= s;
    }
    if sabs(dy) > s {
        assert((s + 1) * (s + 1) <= sabs(dy) * sabs(dy)) by (nonlinear_arith)
            requires s + 1 <= sabs(dy), 0 <= s;
    }
}

/// The acceleration a force `f` at distance `dist` imparts along one axis
/// whose coordinate difference is `delta`: the unit-direction component
/// `delta / dist` times the force times `ACCEL_FACTOR`, truncated, in
/// thousandths of a world unit per second squared.
pub open spec fn spec_axis_accel(delta: int, dist: int, f: int) -> int {
    let mag = sabs(delta) * sabs(f) * ACCEL_FACTOR / dist;
    if delta * f >= 0 {
        mag
    } else {
        -mag
    }
}

/// Along one axis the acceleration is bounded by a full-strength force at
/// unit direction.
pub proof fn lemma_axis_accel_bound(delta: int, dist: int, f: int)
    requires
        0 < dist,
        sabs(delta) <= dist,
        sabs(f) <= SCALE,
    ensures
        sabs(spec_axis_accel(delta, dist, f)) <= PAIR_ACCEL_MAX,
{
    let da = sabs(delta);
    let fa = sabs(f);
    let num = da * fa * ACCEL_FACTOR;
    assert(0 <= num && num <= dist * (PAIR_ACCEL_MAX as int)) by (nonlinear_arith)
        requires
            num == da * fa * ACCEL_FACTOR,
            0 <= da <= dist,
            0 <= fa <= SCALE,
            0 < dist,
            ACCEL_FACTOR == 5000,
            SCALE == 1000,
            PAIR_ACCEL_MAX == 5_000_000,
    ;
    lemma_div_pos_is_pos(num, dist);
    lemma_div_is_ordered(num, dist * (PAIR_ACCEL_MAX as int), dist);
    lemma_div_multiples_vanish(PAIR_ACCEL_MAX as int, dist);
}

/// The acceleration particle `p` receives along the x axis from particle
/// `q` under coefficient `c`: zero when they coincide or are beyond the
/// cutoff, else directed toward `q` when the force is positive.
pub open spec fn spec_pair_accel_x(p: Particle, q: Particle, c: int) -> int {
    let dist = spec_dist(p, q);
    if 0 < dist && dist < DISTANCE_MAX {
        spec_axis_accel(q.x - p.x, dist, spec_force(dist * SCALE / (DISTANCE_MAX as int), c))
    } else {
        0
    }
}

/// The same along the y axis.
pub open spec fn spec_pair_accel_y(p: Particle, q: Particle, c: int) -> int {
    let dist = spec_dist(p, q);
    if 0 < dist && dist < DISTANCE_MAX {
        spec_axis_accel(q.y - p.y, dist, spec_force(dist * SCALE / (DISTANCE_MAX as int), c))
    } else {
        0
    }
}

/// The normalized distance handed to the force profile is nonnegative, and
/// below `SCALE` whenever the distance is below the cutoff.
pub proof fn lemma_normalized_distance(dist: int)
    requires
        0 < dist < DISTANCE_MAX,
    ensures
        0 <= dist * SCALE / (DISTANCE_MAX as int) < SCALE,
{
    lemma_mul_nonnegative(dist, SCALE as int);
    lemma_div_pos_is_pos(dist * SCALE, DISTANCE_MAX as int);
    lemma_mul_inequality(dist, DISTANCE_MAX - 1, SCALE as int);
    lemma_div_is_ordered(dist * SCALE, (DISTANCE_MAX - 1) * (SCALE as int), DISTANCE_MAX as int);
    assert((DISTANCE_MAX - 1) * (SCALE as int) == 999 * (DISTANCE_MAX as int) + 99_000) by (nonlinear_arith);
    lemma_fundamental_div_mod_converse_div(
        (DISTANCE_MAX - 1) * (SCALE as int),
        DISTANCE_MAX as int,
        999,
        99_000,
    );
}

/// Either pairwise acceleration component is bounded by `PAIR_ACCEL_MAX`.
pub proof fn lemma_pair_accel_bound(p: Particle, q: Particle, c: int)
    requires
        -SCALE <= c <= SCALE,
    ensures
        sabs(spec_pair_accel_x(p, q, c)) <= PAIR_ACCEL_MAX,
        sabs(spec_pair_accel_y(p, q, c)) <= PAIR_ACCEL_MAX,
{
    let dist = spec_dist(p, q);
    if 0 < dist && dist < DISTANCE_MAX {
        lemma_dist_bounds_delta(p, q);
        lemma_normalized_distance(dist);
        let r = dist * SCALE / (DISTANCE_MAX as int);
        lemma_force_range(r, c);
        lemma_axis_accel_bound(q.x - p.x, dist, spec_force(r, c));
        lemma_axis_accel_bound(q.y - p.y, dist, spec_force(r, c));
    }
}

/// Computes the axis component of the pairwise acceleration.
fn axis_accel(delta: i64, du: u64, f: i64) -> (a: i64)
    requires
        0 < du < DISTANCE_MAX,
        sabs(delta as int) <= du,
        -SCALE <= f <= SCALE,
    ensures
        a as int == spec_axis_accel(delta as int, du as int, f as int),
        sabs(a as int) <= PAIR_ACCEL_MAX,
{
    proof {
        lemma_axis_accel_bound(delta as int, du as int, f as int);
    }
    let da: u64 = if delta >= 0 {
        delta as u64
    } else {
        (-delta) as u64
    };
    let fa: u64 = if f >= 0 {
        f as u64
    } else {
        (-f) as u64
    };
    proof {
        assert(da == sabs(delta as int));
        assert(fa == sabs(f as int));
        assert(da * fa <= (DISTANCE_MAX as int) * (SCALE as int)) by (nonlinear_arith)
            requires da <= DISTANCE_MAX, fa <= SCALE, 0 <= da, 0 <= fa;
        assert(da * fa * ACCEL_FACTOR <= (DISTANCE_MAX as int) * (SCALE as int) * (ACCEL_FACTOR as int)) by (nonlinear_arith)
            requires da * fa <= (DISTANCE_MAX as int) * (SCALE as int), 0 <= da * fa;
        lemma_mul_nonnegative(da as int, fa as int);
        lemma_mul_nonnegative((da * fa) as int, ACCEL_FACTOR as int);
        lemma_div_pos_is_pos((da * fa * ACCEL_FACTOR) as int, du as int);
    }
    let mag: u64 = da * fa * (ACCEL_FACTOR as u64) / du;
    if mag == 0 {
        proof {
            assert(spec_axis_accel(delta as int, du as int, f as int) == 0 || spec_axis_accel(
                delta as int,
                du as int,
                f as int,
            ) == -0);
        }
        0
    } else {
        proof {
            assert(da != 0 && fa != 0) by {
                if da == 0 || fa == 0 {
                    assert(da * fa * ACCEL_FACTOR == 0) by (nonlinear_arith)
                        requires da == 0 || fa == 0;
                    assert(0int / (du as int) == 0) by {
                        lemma_div_multiples_vanish(0, du as int);
                    };
                }
            };
            if delta > 0 && f > 0 {
                assert((delta as int) * (f as int) > 0) by (nonlinear_arith)
                    requires delta > 0, f > 0;
            }
            if delta < 0 && f < 0 {
                assert((delta as int) * (f as int) > 0) by (nonlinear_arith)
                    requires delta < 0, f < 0;
            }
            if delta > 0 && f < 0 {
                assert((delta as int) * (f as int) < 0) by (nonlinear_arith)
                    requires delta > 0, f < 0;
            }
            if delta < 0 && f > 0 {
                assert((delta as int) * (f as int) < 0) by (nonlinear_arith)
                    requires delta < 0, f > 0;
            }
        }
        if (delta < 0) == (f < 0) {
            mag as i64
        } else {
            -(mag as i64)
        }
    }
}

/// Computes both components of the acceleration `p` receives from `q`
/// under coefficient `c`.
pub fn pair_accel(p: &Particle, q: &Particle, c: i64) -> (a: (i64, i64))
    requires
        p.ok(),
        q.ok(),
        -SCALE <= c <= SCALE,
    ensures
        a.0 as int == spec_pair_accel_x(*p, *q, c as int),
        a.1 as int == spec_pair_accel_y(*p, *q, c as int),
        sabs(a.0 as int) <= PAIR_ACCEL_MAX,
        sabs(a.1 as int) <= PAIR_ACCEL_MAX,
{
    proof {
        lemma_pair_accel_bound(*p, *q, c as int);
    }
    let dx: i64 = q.x - p.x;
    let dy: i64 = q.y - p.y;
    proof {
        assert(dx * dx <= 900_000int * 900_000int) by (nonlinear_arith)
            requires -900_000 <= dx <= 900_000;
        assert(dy * dy <= 900_000int * 900_000int) by (nonlinear_arith)
            requires -900_000 <= dy <= 900_000;
        assert(dx * dx >= 0) by (nonlinear_arith);
        assert(dy * dy >= 0) by (nonlinear_arith);
    }
    let d2: i64 = dx * dx + dy * dy;
    let du: u64 = isqrt(d2 as u64);
    proof {
        lemma_dist_bounds_delta(*p, *q);
        assert(du == spec_dist(*p, *q));
    }
    if 0 < du && du < (DISTANCE_MAX as u64) {
        let r: u64 = du * (SCALE as u64) / (DISTANCE_MAX as u64);
        proof {
            lemma_normalized_distance(du as int);
        }
        let f = force(r as i64, c);
        let ax = axis_accel(dx, du, f);
        let ay = axis_accel(dy, du, f);
        (ax, ay)
    } else {
        (0, 0)
    }
}

// ------------------------------------------------ per-tick velocity pass

/// The coefficient the matrix applies to `p` reacting to `q`.
pub open spec fn coeff_of(rs: RuleSet, p: Particle, q: Particle) -> int {
    rs.coeff(p.ptype.as_index(), q.ptype.as_index())
}

/// In a well-formed matrix every looked-up coefficient is in range.
pub proof fn lemma_coeff_of_range(rs: RuleSet, p: Particle, q: Particle)
    requires
        rs.wf(),
    ensures
        -SCALE <= coeff_of(rs, p, q) <= SCALE,
{
    let i = p.ptype.as_index();
    let j = q.ptype.as_index();
    assert(0 <= i < 3);
    assert(0 <= j < 3);
    assert(0 <= i * 3 + j < 9);
}

/// The change of `p`'s x velocity from one pair over a tick of `dt`
/// milliseconds.
pub open spec fn spec_pair_dv_x(p: Particle, q: Particle, c: int, dt: int) -> int {
    mul_div_trunc(spec_pair_accel_x(p, q, c), dt, MILLIS_PER_SECOND as int)
}

/// The same along the y axis.
pub open spec fn spec_pair_dv_y(p: Particle, q: Particle, c: int, dt: int) -> int {
    mul_div_trunc(spec_pair_accel_y(p, q, c), dt, MILLIS_PER_SECOND as int)
}

/// Sum of the x velocity changes particle `i` receives from the particles
/// before index `n` (itself excluded), each pair looked up in the matrix
/// in the order `(i, j)`.
pub open spec fn spec_dv_sum_x(s: Seq<Particle>, rs: RuleSet, i: int, n: int, dt: int) -> int
    decreases n,
{
    if n <= 0 {
        0
    } else {
        spec_dv_sum_x(s, rs, i, n - 1, dt) + if n - 1 == i {
            0
        } else {
            spec_pair_dv_x(s[i], s[n - 1], coeff_of(rs, s[i], s[n - 1]), dt)
        }
    }
}

/// The same along the y axis.
pub open spec fn spec_dv_sum_y(s: Seq<Particle>, rs: RuleSet, i: int, n: int, dt: int) -> int
    decreases n,
{
    if n <= 0 {
        0
    } else {
        spec_dv_sum_y(s, rs, i, n - 1, dt) + if n - 1 == i {
            0
        } else {
            spec_pair_dv_y(s[i], s[n - 1], coeff_of(rs, s[i], s[n - 1]), dt)
        }
    }
}

/// Each accumulated sum is bounded by one maximal pair contribution per
/// partner.
pub proof fn lemma_dv_sum_bound(s: Seq<Particle>, rs: RuleSet, i: int, n: int, dt: int)
    requires
        rs.wf(),
        0 <= dt <= MILLIS_PER_SECOND,
        0 <= n,
    ensures
        sabs(spec_dv_sum_x(s, rs, i, n, dt)) <= n * PAIR_ACCEL_MAX,
        sabs(spec_dv_sum_y(s, rs, i, n, dt)) <= n * PAIR_ACCEL_MAX,
    decreases n,
{
    if n <= 0 {
    } else {
        lemma_dv_sum_bound(s, rs, i, n - 1, dt);
        if n - 1 != i {
            let c = coeff_of(rs, s[i], s[n - 1]);
            lemma_coeff_of_range(rs, s[i], s[n - 1]);
            lemma_pair_accel_bound(s[i], s[n - 1], c);
            lemma_mul_div_trunc_shrinks(
                spec_pair_accel_x(s[i], s[n - 1], c),
                dt,
                MILLIS_PER_SECOND as int,
            );
            lemma_mul_div_trunc_shrinks(
                spec_pair_accel_y(s[i], s[n - 1], c),
                dt,
                MILLIS_PER_SECOND as int,
            );
        }
    }
}

/// The x velocity of particle `i` after one force pass: the old velocity
/// damped by friction, plus every pair contribution, saturated at the cap.
pub open spec fn spec_new_vel_x(s: Seq<Particle>, rs: RuleSet, i: int, dt: int) -> int {
    clamp_vel(
        mul_div_trunc(s[i].vx as int, spec_damping(dt), SCALE as int) + spec_dv_sum_x(
            s,
            rs,
            i,
            s.len() as int,
            dt,
        ),
    )
}

/// The same along the y axis.
pub open spec fn spec_new_vel_y(s: Seq<Particle>, rs: RuleSet, i: int, dt: int) -> int {
    clamp_vel(
        mul_div_trunc(s[i].vy as int, spec_damping(dt), SCALE as int) + spec_dv_sum_y(
            s,
            rs,
            i,
            s.len() as int,
            dt,
        ),
    )
}

/// Particle `i` after the force pass: position and type untouched, both
/// velocity components replaced.
pub open spec fn spec_forces_one(s: Seq<Particle>, rs: RuleSet, dt: int, i: int) -> Particle {
    Particle {
        vx: spec_new_vel_x(s, rs, i, dt) as i64,
        vy: spec_new_vel_y(s, rs, i, dt) as i64,
        ..s[i]
    }
}

/// The whole population after the force pass; every pair contribution is
/// computed from the pre-tick positions.
pub open spec fn spec_apply_forces(s: Seq<Particle>, rs: RuleSet, dt: int) -> Seq<Particle> {
    Seq::new(s.len(), |i: int| spec_forces_one(s, rs, dt, i))
}

/// One force pass: damps every velocity by friction, accumulates the
/// pairwise force of every ordered pair of distinct particles, and applies
/// the accumulated change, saturating at the velocity cap. Positions and
/// types are untouched; all forces are computed from the pre-tick
/// positions.
pub fn apply_forces_between_particles(store: &mut ParticleStore, rs: &RuleSet, dt_ms: u64)
    requires
        old(store).wf(),
        old(store)@.len() <= MAX_PARTICLES,
        rs.wf(),
        dt_ms <= MAX_DT_MS,
    ensures
        final(store)@ == spec_apply_forces(old(store)@, *rs, dt_ms as int),
        final(store).wf(),
        final(store)@.len() == old(store)@.len(),
{
    let ghost s0 = store@;
    let n = store.len();
    let g = damping_factor(dt_ms);
    proof {
        lemma_damping_range(dt_ms as int);
    }
    let mut out: Vec<Particle> = Vec::new();
    let mut i: usize = 0;
    while i < n
        invariant
            store@ == s0,
            s0.len() == n,
            n <= MAX_PARTICLES,
            rs.wf(),
            all_ok(s0),
            dt_ms <= MAX_DT_MS,
            g as int == spec_damping(dt_ms as int),
            g <= SCALE,
            i <= n,
            out@.len() == i,
            forall|k: int| 0 <= k < i ==> out@[k] == spec_forces_one(s0, *rs, dt_ms as int, k),
            forall|k: int| 0 <= k < i ==> (#[trigger] out@[k]).ok(),
        decreases n - i,
    {
        let p = store.get(i);
        proof {
            assert(s0[i as int].ok());
            assert(sabs(p.vx as int) * g < 0x8000_0000_0000_0000) by (nonlinear_arith)
                requires
                    sabs(p.vx as int) <= 1_000_000_000_000_000,
                    0 <= sabs(p.vx as int),
                    g <= 1000,
            ;
            assert(sabs(p.vy as int) * g < 0x8000_0000_0000_0000) by (nonlinear_arith)
                requires
                    sabs(p.vy as int) <= 1_000_000_000_000_000,
                    0 <= sabs(p.vy as int),
                    g <= 1000,
            ;
        }
        let damped_x = scale_i64(p.vx, g, SCALE as u64);
        let damped_y = scale_i64(p.vy, g, SCALE as u64);
        proof {
            lemma_mul_div_trunc_shrinks(p.vx as int, g as int, SCALE as int);
            lemma_mul_div_trunc_shrinks(p.vy as int, g as int, SCALE as int);
        }
        let mut accx: i64 = 0;
        let mut accy: i64 = 0;
        let mut j: usize = 0;
        while j < n
            invariant
                store@ == s0,
                s0.len() == n,
                n <= MAX_PARTICLES,
                rs.wf(),
                all_ok(s0),
                dt_ms <= MAX_DT_MS,
                i < n,
                j <= n,
                p == s0[i as int],
                accx as int == spec_dv_sum_x(s0, *rs, i as int, j as int, dt_ms as int),
                accy as int == spec_dv_sum_y(s0, *rs, i as int, j as int, dt_ms as int),
                sabs(accx as int) <= j * PAIR_ACCEL_MAX,
                sabs(accy as int) <= j * PAIR_ACCEL_MAX,
            decreases n - j,
        {
            if j != i {
                let q = store.get(j);
                let c = rs.get(p.ptype, q.ptype);
                proof {
                    assert(s0[j as int].ok());
                }
                let (ax, ay) = pair_accel(&p, &q, c);
                proof {
                    assert(sabs(ax as int) * dt_ms < 0x8000_0000_0000_0000) by (nonlinear_arith)
                        requires
                            sabs(ax as int) <= 5_000_000,
                            0 <= sabs(ax as int),
                            dt_ms <= 1000,
                    ;
                    assert(sabs(ay as int) * dt_ms < 0x8000_0000_0000_0000) by (nonlinear_arith)
                        requires
                            sabs(ay as int) <= 5_000_000,
                            0 <= sabs(ay as int),
                            dt_ms <= 1000,
                    ;
                }
                let dvx = scale_i64(ax, dt_ms, MILLIS_PER_SECOND);
                let dvy = scale_i64(ay, dt_ms, MILLIS_PER_SECOND);
                proof {
                    lemma_mul_div_trunc_shrinks(ax as int, dt_ms as int, MILLIS_PER_SECOND as int);
                    lemma_mul_div_trunc_shrinks(ay as int, dt_ms as int, MILLIS_PER_SECOND as int);
                }
                accx = accx + dvx;
                accy = accy + dvy;
            }
            j = j + 1;
        }
        let sum_x: i64 = damped_x + accx;
        let sum_y: i64 = damped_y + accy;
        let nvx: i64 = if sum_x > VEL_CAP {
            VEL_CAP
        } else if sum_x < -VEL_CAP {
            -VEL_CAP
        } else {
            sum_x
        };
        let nvy: i64 = if sum_y > VEL_CAP {
            VEL_CAP
        } else if sum_y < -VEL_CAP {
            -VEL_CAP
        } else {
            sum_y
        };
        let pnew = Particle { ptype: p.ptype, x: p.x, y: p.y, vx: nvx, vy: nvy };
        proof {
            assert(pnew == spec_forces_one(s0, *rs, dt_ms as int, i as int));
            assert(pnew.ok());
        }
        out.push(pnew);
        i = i + 1;
    }
    store.particles = out;
    proof {
        assert(store@ =~= spec_apply_forces(s0, *rs, dt_ms as int));
        assert forall|k: int| 0 <= k < store@.len() implies (#[trigger] store@[k]).ok() by {
        }
    }
}

// ------------------------------------------- integration and reflection

/// One axis of the movement pass: the position advanced by the velocity
/// over the tick, then reflected at the arena edge, where the position is
/// clamped and the velocity component flips sign. Returns the new
/// position and the new velocity component.
pub open spec fn spec_move_axis(pos: int, v: int, dt: int) -> (int, int) {
    let np = pos + mul_div_trunc(v, dt, MILLIS_PER_SECOND as int);
    if np > HALF_EXTENT {
        (HALF_EXTENT as int, -v)
    } else if np < -HALF_EXTENT {
        (-(HALF_EXTENT as int), -v)
    } else {
        (np, v)
    }
}

/// One particle after the movement pass, each axis integrated and
/// reflected independently.
pub open spec fn spec_move_one(p: Particle, dt: int) -> Particle {
    let my = spec_move_axis(p.y as int, p.vy as int, dt);
    let mx = spec_move_axis(p.x as int, p.vx as int, dt);
    Particle { ptype: p.ptype, x: mx.0 as i64, y: my.0 as i64, vx: mx.1 as i64, vy: my.1 as i64 }
}

/// The whole population after the movement pass.
pub open spec fn spec_apply_movement(s: Seq<Particle>, dt: int) -> Seq<Particle> {
    Seq::new(s.len(), |i: int| spec_move_one(s[i], dt))
}

/// Integrates and reflects one axis.
fn move_axis(pos: i64, v: i64, dt_ms: u64) -> (r: (i64, i64))
    requires
        -HALF_EXTENT <= pos <= HALF_EXTENT,
        -VEL_CAP <= v <= VEL_CAP,
        dt_ms <= MAX_DT_MS,
    ensures
        r.0 as int == spec_move_axis(pos as int, v as int, dt_ms as int).0,
        r.1 as int == spec_move_axis(pos as int, v as int, dt_ms as int).1,
        -HALF_EXTENT <= r.0 <= HALF_EXTENT,
        -VEL_CAP <= r.1 <= VEL_CAP,
{
    proof {
        assert(sabs(v as int) * dt_ms < 0x8000_0000_0000_0000) by (nonlinear_arith)
            requires
                sabs(v as int) <= 1_000_000_000_000_000,
                0 <= sabs(v as int),
                dt_ms <= 1000,
        ;
    }
    let dp = scale_i64(v, dt_ms, MILLIS_PER_SECOND);
    proof {
        lemma_mul_div_trunc_shrinks(v as int, dt_ms as int, MILLIS_PER_SECOND as int);
    }
    let np = pos + dp;
    if np > HALF_EXTENT {
        (HALF_EXTENT, -v)
    } else if np < -HALF_EXTENT {
        (-HALF_EXTENT, -v)
    } else {
        (np, v)
    }
}

/// One movement pass: advances every position by its velocity over the
/// tick and reflects at the arena boundary, clamping the position to the
/// edge and flipping the sign of that axis's velocity component.
pub fn apply_movement(store: &mut ParticleStore, dt_ms: u64)
    requires
        old(store).wf(),
        dt_ms <= MAX_DT_MS,
    ensures
        final(store)@ == spec_apply_movement(old(store)@, dt_ms as int),
        final(store).wf(),
        final(store)@.len() == old(store)@.len(),
{
    let ghost s0 = store@;
    let n = store.len();
    let mut out: Vec<Particle> = Vec::new();
    let mut i: usize = 0;
    while i < n
        invariant
            store@ == s0,
            s0.len() == n,
            all_ok(s0),
            dt_ms <= MAX_DT_MS,
            i <= n,
            out@.len() == i,
            forall|k: int| 0 <= k < i ==> out@[k] == spec_move_one(s0[k], dt_ms as int),
            forall|k: int| 0 <= k < i ==> (#[trigger] out@[k]).ok(),
        decreases n - i,
    {
        let p = store.get(i);
        proof {
            assert(s0[i as int].ok());
        }
        let my = move_axis(p.y, p.vy, dt_ms);
        let mx = move_axis(p.x, p.vx, dt_ms);
        let pnew = Particle { ptype: p.ptype, x: mx.0, y: my.0, vx: mx.1, vy: my.1 };
        proof {
            assert(pnew == spec_move_one(s0[i as int], dt_ms as int));
            assert(pnew.ok());
        }
        out.push(pnew);
        i = i + 1;
    }
    store.particles = out;
    proof {
        assert(store@ =~= spec_apply_movement(s0, dt_ms as int));
        assert forall|k: int| 0 <= k < store@.len() implies (#[trigger] store@[k]).ok() by {
        }
    }
}

// --------------------------------------------------------- one full tick

/// One full tick: the force pass over the pre-tick positions, then the
/// movement pass.
pub open spec fn spec_step(s: Seq<Particle>, rs: RuleSet, dt: int) -> Seq<Particle> {
    spec_apply_movement(spec_apply_forces(s, rs, dt), dt)
}

/// Runs one full tick of `dt_ms` milliseconds: pairwise force
/// accumulation with friction damping, then Euler integration with
/// boundary reflection. Cost is quadratic in the number of particles.
pub fn step(store: &mut ParticleStore, rs: &RuleSet, dt_ms: u64)
    requires
        old(store).wf(),
        old(store)@.len() <= MAX_PARTICLES,
        rs.wf(),
        dt_ms <= MAX_DT_MS,
    ensures
        final(store)@ == spec_step(old(store)@, *rs, dt_ms as int),
        final(store).wf(),
        final(store)@.len() == old(store)@.len(),
{
    apply_forces_between_particles(store, rs, dt_ms);
    apply_movement(store, dt_ms);
}

} // verus!
