use vstd::prelude::*;
use vstd::arithmetic::div_mod::{
    lemma_div_is_ordered, lemma_div_of0, lemma_fundamental_div_mod_converse_div,
};
use vstd::arithmetic::mul::lemma_mul_inequality;
use crate::config::{
    DISTANCE_MAX, HALF_EXTENT, MAX_DT_MS, MILLIS_PER_SECOND, NUM_PARTICLE_TYPES, REPULSION_RANGE,
    SCALE, VEL_CAP,
};
use crate::kernel::spec_force;
use crate::math::{lemma_mul_div_trunc_shrinks, lemma_mul_div_trunc_strict, mul_div_trunc, sabs};
use crate::ruleset::RuleSet;
use crate::sim::{
    clamp_vel, coeff_of, lemma_damping_below_one, lemma_damping_range, lemma_normalized_distance,
    spec_apply_forces,
    spec_apply_movement, spec_damping, spec_dist, spec_dv_sum_x, spec_dv_sum_y, spec_forces_one,
    spec_move_one, spec_new_vel_x, spec_new_vel_y, spec_pair_accel_x, spec_pair_accel_y,
    spec_pair_dv_x, spec_pair_dv_y, spec_step,
};
use crate::store::{all_ok, Particle};

verus! {

// --------------------------------- the arena holds the population forever

/// The population after a whole sequence of ticks, one tick per entry of
/// `dts`.
pub open spec fn spec_run(s: Seq<Particle>, rs: RuleSet, dts: Seq<int>) -> Seq<Particle>
    decreases dts.len(),
{
    if dts.len() == 0 {
        s
    } else {
        spec_run(spec_step(s, rs, dts[0]), rs, dts.subrange(1, dts.len() as int))
    }
}

/// The force pass keeps every particle in bounds: positions and types are
/// untouched and the new velocities are saturated at the cap.
pub proof fn lemma_apply_forces_ok(s: Seq<Particle>, rs: RuleSet, dt: int)
    requires
        all_ok(s),
    ensures
        all_ok(spec_apply_forces(s, rs, dt)),
        spec_apply_forces(s, rs, dt).len() == s.len(),
{
    let r = spec_apply_forces(s, rs, dt);
    assert forall|k: int| 0 <= k < r.len() implies (#[trigger] r[k]).ok() by {
        assert(s[k].ok());
        assert(r[k] == spec_forces_one(s, rs, dt, k));
        assert(-VEL_CAP <= clamp_vel(
            mul_div_trunc(s[k].vx as int, spec_damping(dt), SCALE as int) + spec_dv_sum_x(
                s,
                rs,
                k,
                s.len() as int,
                dt,
            ),
        ) <= VEL_CAP);
        assert(-VEL_CAP <= clamp_vel(
            mul_div_trunc(s[k].vy as int, spec_damping(dt), SCALE as int) + spec_dv_sum_y(
                s,
                rs,
                k,
                s.len() as int,
                dt,
            ),
        ) <= VEL_CAP);
    }
}

/// The movement pass keeps every particle in bounds: positions are
/// reflected back into the arena and velocity components at most flip
/// sign.
pub proof fn lemma_apply_movement_ok(s: Seq<Particle>, dt: int)
    requires
        all_ok(s),
    ensures
        all_ok(spec_apply_movement(s, dt)),
        spec_apply_movement(s, dt).len() == s.len(),
{
    let r = spec_apply_movement(s, dt);
    assert forall|k: int| 0 <= k < r.len() implies (#[trigger] r[k]).ok() by {
        assert(s[k].ok());
        assert(r[k] == spec_move_one(s[k], dt));
    }
}

/// One full tick keeps every particle in bounds.
pub proof fn lemma_step_ok(s: Seq<Particle>, rs: RuleSet, dt: int)
    requires
        all_ok(s),
    ensures
        all_ok(spec_step(s, rs, dt)),
        spec_step(s, rs, dt).len() == s.len(),
{
    lemma_apply_forces_ok(s, rs, dt);
    lemma_apply_movement_ok(spec_apply_forces(s, rs, dt), dt);
}

/// Stability under reflection: starting from a population inside the
/// arena, after any sequence of ticks — unboundedly many — every particle
/// position still lies within `[-HALF_EXTENT, HALF_EXTENT]` on both axes.
pub proof fn lemma_run_in_bounds(s: Seq<Particle>, rs: RuleSet, dts: Seq<int>)
    requires
        all_ok(s),
    ensures
        all_ok(spec_run(s, rs, dts)),
        spec_run(s, rs, dts).len() == s.len(),
        forall|i: int|
            0 <= i < s.len() ==> -HALF_EXTENT <= (#[trigger] spec_run(s, rs, dts)[i]).x
                <= HALF_EXTENT && -HALF_EXTENT <= spec_run(s, rs, dts)[i].y <= HALF_EXTENT,
    decreases dts.len(),
{
    if dts.len() == 0 {
    } else {
        lemma_step_ok(s, rs, dts[0]);
        lemma_run_in_bounds(spec_step(s, rs, dts[0]), rs, dts.subrange(1, dts.len() as int));
    }
}

// ------------------------------------------------------------ determinism

/// Determinism: two runs from equal populations, under equal matrices and
/// equal tick sequences, end in equal populations. All randomness enters
/// the simulation through the explicitly drawn spawn values and matrix
/// entries; the stepping itself is a pure function of its inputs.
pub proof fn lemma_run_deterministic(
    s1: Seq<Particle>,
    rs1: RuleSet,
    dts1: Seq<int>,
    s2: Seq<Particle>,
    rs2: RuleSet,
    dts2: Seq<int>,
)
    requires
        s1 == s2,
        rs1 == rs2,
        dts1 == dts2,
    ensures
        spec_run(s1, rs1, dts1) == spec_run(s2, rs2, dts2),
{
}

// ------------------------------------- free motion only loses speed

/// Every entry of the matrix is zero.
pub open spec fn all_zero(rs: RuleSet) -> bool {
    forall|i: int, j: int|
        0 <= i < NUM_PARTICLE_TYPES && 0 <= j < NUM_PARTICLE_TYPES ==> #[trigger] rs.coeff(i, j)
            == 0
}

/// No two distinct particles sit inside the universal short-range
/// repulsion band (which acts whatever the matrix says).
pub open spec fn no_close_pairs(s: Seq<Particle>) -> bool {
    forall|i: int, j: int|
        0 <= i < s.len() && 0 <= j < s.len() && i != j ==> #[trigger] spec_dist(s[i], s[j]) == 0
            || spec_dist(s[i], s[j]) >= REPULSION_RANGE
}

/// A pair under a zero coefficient, outside the repulsion band, exerts no
/// acceleration at all.
pub proof fn lemma_pair_accel_zero(p: Particle, q: Particle, c: int)
    requires
        c == 0,
        spec_dist(p, q) == 0 || spec_dist(p, q) >= REPULSION_RANGE,
    ensures
        spec_pair_accel_x(p, q, c) == 0,
        spec_pair_accel_y(p, q, c) == 0,
{
    let dist = spec_dist(p, q);
    if 0 < dist && dist < DISTANCE_MAX {
        lemma_normalized_distance(dist);
        let r = dist * SCALE / (DISTANCE_MAX as int);
        assert(r >= 300) by {
            lemma_mul_inequality(REPULSION_RANGE as int, dist, SCALE as int);
            lemma_div_is_ordered(
                (REPULSION_RANGE as int) * (SCALE as int),
                dist * SCALE,
                DISTANCE_MAX as int,
            );
            assert((REPULSION_RANGE as int) * (SCALE as int) == 300 * (DISTANCE_MAX as int) + 0)
                by (nonlinear_arith)
                requires REPULSION_RANGE == 30_000, SCALE == 1000, DISTANCE_MAX == 100_000;
            lemma_fundamental_div_mod_converse_div(
                (REPULSION_RANGE as int) * (SCALE as int),
                DISTANCE_MAX as int,
                300,
                0,
            );
        };
        let f = spec_force(r, c);
        assert(f == 0) by {
            lemma_div_of0(SCALE as int);
        };
        assert(sabs(f) == 0);
        assert(sabs(q.x - p.x) * sabs(f) * 5000 == 0) by (nonlinear_arith)
            requires sabs(f) == 0;
        assert(sabs(q.y - p.y) * sabs(f) * 5000 == 0) by (nonlinear_arith)
            requires sabs(f) == 0;
        lemma_div_of0(dist);
        assert((q.x - p.x) * f >= 0) by (nonlinear_arith)
            requires f == 0;
        assert((q.y - p.y) * f >= 0) by (nonlinear_arith)
            requires f == 0;
    }
}

/// With a zero coefficient every pair contribution to the velocity
/// vanishes, so the whole accumulated sum does.
pub proof fn lemma_dv_sum_zero(s: Seq<Particle>, rs: RuleSet, i: int, n: int, dt: int)
    requires
        rs.wf(),
        all_zero(rs),
        no_close_pairs(s),
        0 <= i < s.len(),
        n <= s.len(),
    ensures
        spec_dv_sum_x(s, rs, i, n, dt) == 0,
        spec_dv_sum_y(s, rs, i, n, dt) == 0,
    decreases n,
{
    if n <= 0 {
    } else {
        lemma_dv_sum_zero(s, rs, i, n - 1, dt);
        if n - 1 != i {
            let c = coeff_of(rs, s[i], s[n - 1]);
            assert(0 <= s[i].ptype.as_index() < 3);
            assert(0 <= s[n - 1].ptype.as_index() < 3);
            assert(c == 0);
            lemma_pair_accel_zero(s[i], s[n - 1], c);
            assert(spec_pair_dv_x(s[i], s[n - 1], c, dt) == 0) by {
                lemma_div_of0(MILLIS_PER_SECOND as int);
            };
            assert(spec_pair_dv_y(s[i], s[n - 1], c, dt) == 0) by {
                lemma_div_of0(MILLIS_PER_SECOND as int);
            };
        }
    }
}

/// Free motion only loses speed: with an all-zero matrix, and no pair
/// inside the universal repulsion band, one force pass leaves each
/// velocity component with the same sign and a magnitude no larger than
/// before — and strictly smaller, once the tick lasts at least a
/// millisecond and the component is not already at rest. Particles
/// decelerate under friction and never reverse without a boundary
/// bounce.
pub proof fn lemma_zero_matrix_decelerates(s: Seq<Particle>, rs: RuleSet, dt: int, i: int)
    requires
        rs.wf(),
        all_zero(rs),
        no_close_pairs(s),
        all_ok(s),
        0 <= dt <= MAX_DT_MS,
        0 <= i < s.len(),
    ensures
        sabs(spec_apply_forces(s, rs, dt)[i].vx as int) <= sabs(s[i].vx as int),
        sabs(spec_apply_forces(s, rs, dt)[i].vy as int) <= sabs(s[i].vy as int),
        (spec_apply_forces(s, rs, dt)[i].vx as int) * (s[i].vx as int) >= 0,
        (spec_apply_forces(s, rs, dt)[i].vy as int) * (s[i].vy as int) >= 0,
        1 <= dt && s[i].vx != 0 ==> sabs(spec_apply_forces(s, rs, dt)[i].vx as int) < sabs(
            s[i].vx as int,
        ),
        1 <= dt && s[i].vy != 0 ==> sabs(spec_apply_forces(s, rs, dt)[i].vy as int) < sabs(
            s[i].vy as int,
        ),
{
    assert(s[i].ok());
    lemma_dv_sum_zero(s, rs, i, s.len() as int, dt);
    lemma_damping_range(dt);
    let g = spec_damping(dt);
    if 1 <= dt {
        lemma_damping_below_one(dt);
        if s[i].vx != 0 {
            lemma_mul_div_trunc_strict(s[i].vx as int, g, SCALE as int);
        }
        if s[i].vy != 0 {
            lemma_mul_div_trunc_strict(s[i].vy as int, g, SCALE as int);
        }
    }
    lemma_mul_div_trunc_shrinks(s[i].vx as int, g, SCALE as int);
    lemma_mul_div_trunc_shrinks(s[i].vy as int, g, SCALE as int);
    let dx = mul_div_trunc(s[i].vx as int, g, SCALE as int);
    let dy = mul_div_trunc(s[i].vy as int, g, SCALE as int);
    assert(spec_apply_forces(s, rs, dt)[i] == spec_forces_one(s, rs, dt, i));
    assert(spec_new_vel_x(s, rs, i, dt) == clamp_vel(dx + 0));
    assert(spec_new_vel_y(s, rs, i, dt) == clamp_vel(dy + 0));
    assert(dx * (s[i].vx as int) >= 0) by (nonlinear_arith)
        requires
            s[i].vx as int >= 0 ==> 0 <= dx,
            s[i].vx as int <= 0 ==> dx <= 0,
    ;
    assert(dy * (s[i].vy as int) >= 0) by (nonlinear_arith)
        requires
            s[i].vy as int >= 0 ==> 0 <= dy,
            s[i].vy as int <= 0 ==> dy <= 0,
    ;
}

/// Reflection preserves speed: the movement pass never changes the
/// magnitude of a velocity component; at a boundary it only flips the
/// sign.
pub proof fn lemma_reflection_preserves_speed(p: Particle, dt: int)
    requires
        p.ok(),
    ensures
        sabs(spec_move_one(p, dt).vx as int) == sabs(p.vx as int),
        sabs(spec_move_one(p, dt).vy as int) == sabs(p.vy as int),
{
}

/// Over a whole tick with an all-zero matrix (and no pair inside the
/// universal repulsion band) no particle gains speed — and every moving
/// component strictly loses some, once the tick lasts at least a
/// millisecond: friction only damps, and a boundary bounce only flips a
/// sign.
pub proof fn lemma_zero_matrix_tick_loses_speed(s: Seq<Particle>, rs: RuleSet, dt: int, i: int)
    requires
        rs.wf(),
        all_zero(rs),
        no_close_pairs(s),
        all_ok(s),
        0 <= dt <= MAX_DT_MS,
        0 <= i < s.len(),
    ensures
        sabs(spec_step(s, rs, dt)[i].vx as int) <= sabs(s[i].vx as int),
        sabs(spec_step(s, rs, dt)[i].vy as int) <= sabs(s[i].vy as int),
        1 <= dt && s[i].vx != 0 ==> sabs(spec_step(s, rs, dt)[i].vx as int) < sabs(
            s[i].vx as int,
        ),
        1 <= dt && s[i].vy != 0 ==> sabs(spec_step(s, rs, dt)[i].vy as int) < sabs(
            s[i].vy as int,
        ),
{
    lemma_zero_matrix_decelerates(s, rs, dt, i);
    lemma_apply_forces_ok(s, rs, dt);
    let mid = spec_apply_forces(s, rs, dt);
    assert(mid[i].ok());
    lemma_reflection_preserves_speed(mid[i], dt);
    assert(spec_step(s, rs, dt)[i] == spec_move_one(mid[i], dt));
}

} // verus!
