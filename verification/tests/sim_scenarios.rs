use particle_life::config::HALF_EXTENT;
use particle_life::ruleset::{randomized_with_override, ParticleType, RuleSet};
use particle_life::sim::{apply_forces_between_particles, apply_movement, step};
use particle_life::store::{spawn_particles, Particle, ParticleStore};

fn seeded(seed: u64) -> rand::rngs::StdRng {
    <rand::rngs::StdRng as rand::SeedableRng>::seed_from_u64(seed)
}

fn resting(ptype: ParticleType, x: i64, y: i64) -> Particle {
    Particle { ptype, x, y, vx: 0, vy: 0 }
}

#[test]
fn attracting_pair_draws_closer() {
    // two particles of types with coefficient +1.0, half a cutoff radius
    // apart, at rest: after one tick their distance strictly decreases
    let mut rs = RuleSet::default();
    rs.add_rule_symmetrical(ParticleType::Red, ParticleType::Blue, 1000);
    let mut s = ParticleStore {
        particles: vec![resting(ParticleType::Red, 0, 0), resting(ParticleType::Blue, 50_000, 0)],
    };
    step(&mut s, &rs, 20);
    // force 572 at the band midpoint, acceleration 2_860_000, velocity
    // change 57_200 over 20 ms, position change 1_144
    assert_eq!(s.particles[0].vx, 57_200);
    assert_eq!(s.particles[1].vx, -57_200);
    assert_eq!(s.particles[0].x, 1_144);
    assert_eq!(s.particles[1].x, 48_856);
    assert_eq!(s.particles[0].y, 0);
    assert_eq!(s.particles[1].y, 0);
    let dist_after = s.particles[1].x - s.particles[0].x;
    assert!(dist_after < 50_000);
}

#[test]
fn close_pair_repels_whatever_the_matrix_says() {
    // inside a third of the cutoff the universal repulsion acts even at
    // full attraction
    let mut rs = RuleSet::default();
    rs.add_rule_symmetrical(ParticleType::Red, ParticleType::Blue, 1000);
    let mut s = ParticleStore {
        particles: vec![resting(ParticleType::Red, 0, 0), resting(ParticleType::Blue, 10_000, 0)],
    };
    step(&mut s, &rs, 20);
    assert_eq!(s.particles[0].vx, -66_700);
    assert_eq!(s.particles[1].vx, 66_700);
    assert_eq!(s.particles[0].x, -1_334);
    assert_eq!(s.particles[1].x, 11_334);
}

#[test]
fn boundary_reflection_clamps_and_flips() {
    // a single particle heading for the wall: the next tick clamps the
    // position to the edge and flips the velocity component's sign
    let rs = RuleSet::default();
    let mut s = ParticleStore {
        particles: vec![Particle {
            ptype: ParticleType::Green,
            x: HALF_EXTENT - 1000,
            y: 0,
            vx: 1_000_000_000,
            vy: 0,
        }],
    };
    step(&mut s, &rs, 20);
    // friction halves the velocity over one half-life before integration
    assert_eq!(s.particles[0].x, HALF_EXTENT);
    assert_eq!(s.particles[0].vx, -500_000_000);
    assert_eq!(s.particles[0].y, 0);
    assert_eq!(s.particles[0].vy, 0);
}

#[test]
fn reflection_holds_on_the_low_edge_too() {
    let rs = RuleSet::default();
    let mut s = ParticleStore {
        particles: vec![Particle {
            ptype: ParticleType::Blue,
            x: -(HALF_EXTENT - 1000),
            y: 0,
            vx: -1_000_000_000,
            vy: 0,
        }],
    };
    step(&mut s, &rs, 20);
    assert_eq!(s.particles[0].x, -HALF_EXTENT);
    assert_eq!(s.particles[0].vx, 500_000_000);
}

#[test]
fn free_particle_decelerates_monotonically() {
    // zero matrix: speed halves every half-life, sign never flips away
    // from a boundary
    let rs = RuleSet::default();
    let mut s = ParticleStore {
        particles: vec![Particle { ptype: ParticleType::Red, x: 0, y: 0, vx: 1_000_000, vy: 0 }],
    };
    let mut last = s.particles[0].vx;
    for _ in 0..6 {
        step(&mut s, &rs, 20);
        let v = s.particles[0].vx;
        assert!(v >= 0);
        // strictly slower every tick until at rest
        assert!(v < last || last == 0);
        last = v;
    }
    assert_eq!(s.particles[0].vx, 15_625);
}

#[test]
fn coincident_particles_exert_no_force() {
    let mut rs = RuleSet::default();
    rs.add_rule_symmetrical(ParticleType::Red, ParticleType::Red, 1000);
    let mut s = ParticleStore {
        particles: vec![resting(ParticleType::Red, 5_000, 5_000), resting(
            ParticleType::Red,
            5_000,
            5_000,
        )],
    };
    step(&mut s, &rs, 20);
    assert_eq!(s.particles[0].vx, 0);
    assert_eq!(s.particles[0].vy, 0);
    assert_eq!(s.particles[0].x, 5_000);
    assert_eq!(s.particles[1].x, 5_000);
}

#[test]
fn pairs_beyond_the_cutoff_do_not_interact() {
    let mut rs = RuleSet::default();
    rs.add_rule_symmetrical(ParticleType::Red, ParticleType::Blue, 1000);
    let mut s = ParticleStore {
        particles: vec![resting(ParticleType::Red, 0, 0), resting(ParticleType::Blue, 150_000, 0)],
    };
    step(&mut s, &rs, 20);
    assert_eq!(s.particles[0].vx, 0);
    assert_eq!(s.particles[1].vx, 0);
    assert_eq!(s.particles[0].x, 0);
    assert_eq!(s.particles[1].x, 150_000);
}

#[test]
fn asymmetric_coefficients_act_one_sidedly() {
    // Red is attracted to Blue, Blue ignores Red: only Red moves
    let mut rs = RuleSet::default();
    rs.set(ParticleType::Red, ParticleType::Blue, 1000);
    let mut s = ParticleStore {
        particles: vec![resting(ParticleType::Red, 0, 0), resting(ParticleType::Blue, 50_000, 0)],
    };
    step(&mut s, &rs, 20);
    assert_eq!(s.particles[0].vx, 57_200);
    assert_eq!(s.particles[1].vx, 0);
    assert_eq!(s.particles[0].x, 1_144);
    assert_eq!(s.particles[1].x, 50_000);
}

#[test]
fn two_seeded_runs_agree_exactly() {
    // determinism: a fixed seed for spawn and matrix randomization and a
    // fixed timestep sequence give identical runs
    let run = || {
        let mut rng = seeded(123);
        let rs = randomized_with_override(&mut rng, ParticleType::Blue, ParticleType::Red, 1000);
        let mut s = spawn_particles(&mut rng, 50);
        for dt in [16u64, 16, 17, 16, 20, 16, 16, 5, 16, 16] {
            step(&mut s, &rs, dt);
        }
        s.particles
    };
    let a = run();
    let b = run();
    assert_eq!(a.len(), b.len());
    for (pa, pb) in a.iter().zip(b.iter()) {
        assert_eq!(pa, pb);
    }
}

#[test]
fn passes_compose_like_a_step() {
    // one step is exactly the force pass followed by the movement pass
    let mut rng = seeded(31);
    let rs = randomized_with_override(&mut rng, ParticleType::Green, ParticleType::Red, -1000);
    let mut a = spawn_particles(&mut rng, 30);
    let mut b = ParticleStore { particles: a.particles.clone() };
    step(&mut a, &rs, 16);
    apply_forces_between_particles(&mut b, &rs, 16);
    apply_movement(&mut b, 16);
    assert_eq!(a.particles, b.particles);
}

#[test]
fn positions_stay_inside_the_arena() {
    // stability under reflection across many ticks of a lively system
    let mut rng = seeded(77);
    let rs = randomized_with_override(&mut rng, ParticleType::Blue, ParticleType::Red, 1000);
    let mut s = spawn_particles(&mut rng, 40);
    for _ in 0..50 {
        step(&mut s, &rs, 16);
        for p in &s.particles {
            assert!(-HALF_EXTENT <= p.x && p.x <= HALF_EXTENT);
            assert!(-HALF_EXTENT <= p.y && p.y <= HALF_EXTENT);
        }
    }
}
