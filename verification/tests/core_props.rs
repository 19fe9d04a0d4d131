use particle_life::config::{NUM_PARTICLE_TYPES, SCALE, SPAWN_EXTENT};
use particle_life::kernel::force;
use particle_life::math::isqrt;
use particle_life::ruleset::{randomized_with_override, ParticleType, RuleSet};
use particle_life::sim::damping_factor;
use particle_life::store::{particle_from_draws, spawn_particles};

fn seeded(seed: u64) -> rand::rngs::StdRng {
    <rand::rngs::StdRng as rand::SeedableRng>::seed_from_u64(seed)
}

const TYPES: [ParticleType; 3] = [ParticleType::Red, ParticleType::Green, ParticleType::Blue];

#[test]
fn force_is_zero_at_and_beyond_cutoff() {
    assert_eq!(force(SCALE, 777), 0);
    assert_eq!(force(SCALE, -SCALE), 0);
    assert_eq!(force(1500, SCALE), 0);
    assert_eq!(force(123_456, -42), 0);
}

#[test]
fn force_is_zero_at_the_seam() {
    // both branches of the profile meet at zero at r == BETA
    assert_eq!(force(300, 0), 0);
    assert_eq!(force(300, SCALE), 0);
    assert_eq!(force(300, -SCALE), 0);
}

#[test]
fn force_repulsion_branch_values() {
    // r < BETA: r / BETA - 1, independent of the coefficient
    assert_eq!(force(0, 500), -SCALE);
    assert_eq!(force(0, -500), -SCALE);
    assert_eq!(force(150, 900), -500);
    assert_eq!(force(150, -900), -500);
    assert_eq!(force(100, 0), -667);
}

#[test]
fn force_tent_branch_values() {
    // midpoint of the band: the tent peaks at the full coefficient
    assert_eq!(force(650, SCALE), SCALE);
    assert_eq!(force(650, -SCALE), -SCALE);
    assert_eq!(force(650, 250), 250);
    // halfway into the band
    assert_eq!(force(500, SCALE), 572);
    assert_eq!(force(500, 700), 400);
}

#[test]
fn force_is_odd_in_the_coefficient() {
    for r in [300i64, 301, 400, 500, 650, 800, 999] {
        for c in [0i64, 1, 77, 250, 500, 999, 1000] {
            assert_eq!(force(r, -c), -force(r, c));
        }
    }
}

#[test]
fn damping_factor_halves_at_half_life_multiples() {
    assert_eq!(damping_factor(0), 1000);
    assert_eq!(damping_factor(20), 500);
    assert_eq!(damping_factor(40), 250);
    assert_eq!(damping_factor(80), 62);
    // between multiples the factor is interpolated linearly
    assert_eq!(damping_factor(10), 750);
    assert_eq!(damping_factor(5), 875);
}

#[test]
fn isqrt_exact_values() {
    assert_eq!(isqrt(0), 0);
    assert_eq!(isqrt(1), 1);
    assert_eq!(isqrt(3), 1);
    assert_eq!(isqrt(4), 2);
    assert_eq!(isqrt(99), 9);
    assert_eq!(isqrt(100), 10);
    assert_eq!(isqrt(2_500_000_000), 50_000);
    assert_eq!(isqrt(2_499_999_999), 49_999);
}

#[test]
fn default_ruleset_is_all_zero() {
    let rs = RuleSet::default();
    for a in TYPES {
        for b in TYPES {
            assert_eq!(rs.get(a, b), 0);
        }
    }
}

#[test]
fn set_clamps_out_of_range_values() {
    let mut rs = RuleSet::default();
    rs.set(ParticleType::Red, ParticleType::Blue, 5000);
    assert_eq!(rs.get(ParticleType::Red, ParticleType::Blue), SCALE);
    rs.set(ParticleType::Red, ParticleType::Blue, -2000);
    assert_eq!(rs.get(ParticleType::Red, ParticleType::Blue), -SCALE);
    rs.set(ParticleType::Red, ParticleType::Blue, 417);
    assert_eq!(rs.get(ParticleType::Red, ParticleType::Blue), 417);
}

#[test]
fn matrix_need_not_be_symmetric() {
    let mut rs = RuleSet::default();
    rs.set(ParticleType::Red, ParticleType::Blue, 800);
    rs.set(ParticleType::Blue, ParticleType::Red, -300);
    assert_eq!(rs.get(ParticleType::Red, ParticleType::Blue), 800);
    assert_eq!(rs.get(ParticleType::Blue, ParticleType::Red), -300);
    // other entries untouched
    assert_eq!(rs.get(ParticleType::Green, ParticleType::Green), 0);
}

#[test]
fn add_rule_symmetrical_sets_both_directions() {
    let mut rs = RuleSet::default();
    rs.add_rule_symmetrical(ParticleType::Blue, ParticleType::Red, 1000);
    assert_eq!(rs.get(ParticleType::Blue, ParticleType::Red), 1000);
    assert_eq!(rs.get(ParticleType::Red, ParticleType::Blue), 1000);
    assert_eq!(rs.get(ParticleType::Blue, ParticleType::Blue), 0);
}

#[test]
fn fill_from_writes_and_clamps_every_cell() {
    let mut rs = RuleSet::default();
    rs.set(ParticleType::Red, ParticleType::Red, 333);
    let draws = vec![5000, -5000, 0, 1, -1, 999, -999, 1000, -1000];
    rs.fill_from(&draws);
    // the old entries are gone; every cell is the clamped draw
    assert_eq!(rs.coeffs, vec![1000, -1000, 0, 1, -1, 999, -999, 1000, -1000]);
}

#[test]
fn spawn_draw_selects_the_three_types() {
    assert_eq!(particle_from_draws(0, 5, 6).ptype, ParticleType::Red);
    assert_eq!(particle_from_draws(1, 5, 6).ptype, ParticleType::Green);
    assert_eq!(particle_from_draws(2, -5, -6).ptype, ParticleType::Blue);
    let p = particle_from_draws(2, -5, -6);
    assert_eq!((p.x, p.y, p.vx, p.vy), (-5, -6, 0, 0));
}

#[test]
fn randomize_fills_every_cell_in_range() {
    let mut rs = RuleSet::default();
    let mut rng = seeded(7);
    rs.randomize(&mut rng);
    for a in TYPES {
        for b in TYPES {
            let c = rs.get(a, b);
            assert!(-SCALE <= c && c <= SCALE);
        }
    }
    assert_eq!(rs.coeffs.len(), NUM_PARTICLE_TYPES * NUM_PARTICLE_TYPES);
}

#[test]
fn randomize_actually_changes_entries() {
    // a generator-backed fill leaves at least one of the nine cells nonzero
    let mut rs = RuleSet::default();
    let mut rng = seeded(12345);
    rs.randomize(&mut rng);
    let mut nonzero = 0;
    for a in TYPES {
        for b in TYPES {
            if rs.get(a, b) != 0 {
                nonzero += 1;
            }
        }
    }
    assert!(nonzero > 0);
}

#[test]
fn override_survives_randomization() {
    let mut rng = seeded(99);
    let rs = randomized_with_override(&mut rng, ParticleType::Blue, ParticleType::Red, 1000);
    assert_eq!(rs.get(ParticleType::Blue, ParticleType::Red), 1000);
    assert_eq!(rs.get(ParticleType::Red, ParticleType::Blue), 1000);
}

#[test]
fn spawn_gives_resting_particles_inside_the_square() {
    let mut rng = seeded(4);
    let s = spawn_particles(&mut rng, 200);
    assert_eq!(s.particles.len(), 200);
    for p in &s.particles {
        assert_eq!(p.vx, 0);
        assert_eq!(p.vy, 0);
        assert!(-SPAWN_EXTENT <= p.x && p.x <= SPAWN_EXTENT);
        assert!(-SPAWN_EXTENT <= p.y && p.y <= SPAWN_EXTENT);
    }
}

#[test]
fn spawn_spreads_positions() {
    // the draws come from the generator: not every particle can sit on one spot
    let mut rng = seeded(4);
    let s = spawn_particles(&mut rng, 50);
    let first = (s.particles[0].x, s.particles[0].y);
    assert!(s.particles.iter().any(|p| (p.x, p.y) != first));
}
