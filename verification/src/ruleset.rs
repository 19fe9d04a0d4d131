use vstd::prelude::*;
use crate::config::{NUM_PARTICLE_TYPES, SCALE};
use crate::rng::rand_in_range;

verus! {

/// The tag of a particle, fixed at spawn time; it indexes the interaction
/// matrix.
#[derive(Clone, Copy, PartialEq, Eq, Structural, Debug)]
pub enum ParticleType {
    Red,
    Green,
    Blue,
}

impl ParticleType {
    /// The row (or column) of this type in the interaction matrix.
    pub open spec fn as_index(self) -> int {
        match self {
            ParticleType::Red => 0,
            ParticleType::Green => 1,
            ParticleType::Blue => 2,
        }
    }

    /// Maps the type to its matrix index.
    pub fn index(self) -> (i: usize)
        ensures
            i == self.as_index(),
            i < NUM_PARTICLE_TYPES,
    {
        match self {
            ParticleType::Red => 0,
            ParticleType::Green => 1,
            ParticleType::Blue => 2,
        }
    }
}

/// A coefficient forced into the legal range `[-SCALE, SCALE]`.
pub open spec fn clamp_coeff(v: int) -> int {
    if v > SCALE {
        SCALE as int
    } else if v < -SCALE {
        -(SCALE as int)
    } else {
        v
    }
}

/// The interaction-coefficient matrix: entry `(i, j)` is the coefficient
/// applied to a particle of type-index `i` when it reacts to one of
/// type-index `j`, in `SCALE` units of one. The matrix need not be
/// symmetric. Stored row-major in a flat vector.
pub struct RuleSet {
    pub coeffs: Vec<i64>,
}

impl RuleSet {
    /// The coefficient at row `i`, column `j`.
    pub open spec fn coeff(self, i: int, j: int) -> int {
        self.coeffs@[i * (NUM_PARTICLE_TYPES as int) + j] as int
    }

    /// Well-formed: exactly one entry per ordered pair of types, every
    /// entry within `[-SCALE, SCALE]`.
    pub open spec fn wf(self) -> bool {
        &&& self.coeffs@.len() == NUM_PARTICLE_TYPES * NUM_PARTICLE_TYPES
        &&& forall|k: int|
            0 <= k < self.coeffs@.len() ==> -SCALE <= #[trigger] self.coeffs@[k] <= SCALE
    }

    /// Reads the coefficient applied to a particle of type `a` reacting to
    /// one of type `b`.
    pub fn get(&self, a: ParticleType, b: ParticleType) -> (c: i64)
        requires
            self.wf(),
        ensures
            c == self.coeff(a.as_index(), b.as_index()),
            -SCALE <= c <= SCALE,
    {
        self.coeffs[a.index() * NUM_PARTICLE_TYPES + b.index()]
    }

    /// Writes one coefficient, forcing the value into the legal range.
    pub fn set(&mut self, a: ParticleType, b: ParticleType, v: i64)
        requires
            old(self).wf(),
        ensures
            final(self).wf(),
            final(self).coeffs@ == old(self).coeffs@.update(
                a.as_index() * (NUM_PARTICLE_TYPES as int) + b.as_index(),
                clamp_coeff(v as int) as i64,
            ),
            final(self).coeff(a.as_index(), b.as_index()) == clamp_coeff(v as int),
    {
        let w: i64 = if v > SCALE {
            SCALE
        } else if v < -SCALE {
            -SCALE
        } else {
            v
        };
        let k = a.index() * NUM_PARTICLE_TYPES + b.index();
        self.coeffs[k] = w;
    }

    /// Writes the same coefficient to `(a, b)` and `(b, a)`, forcing the
    /// value into the legal range; every other entry is untouched.
    pub fn add_rule_symmetrical(&mut self, a: ParticleType, b: ParticleType, v: i64)
        requires
            old(self).wf(),
        ensures
            final(self).wf(),
            final(self).coeffs@ == old(self).coeffs@.update(
                a.as_index() * (NUM_PARTICLE_TYPES as int) + b.as_index(),
                clamp_coeff(v as int) as i64,
            ).update(
                b.as_index() * (NUM_PARTICLE_TYPES as int) + a.as_index(),
                clamp_coeff(v as int) as i64,
            ),
            final(self).coeff(a.as_index(), b.as_index()) == clamp_coeff(v as int),
            final(self).coeff(b.as_index(), a.as_index()) == clamp_coeff(v as int),
    {
        self.set(a, b, v);
        self.set(b, a, v);
    }

    /// Replaces the whole matrix with the given drawn values, row-major,
    /// each forced into the legal range: the new state is a function of
    /// the draws alone, the old entries are gone.
    pub fn fill_from(&mut self, draws: &Vec<i64>)
        requires
            draws@.len() == NUM_PARTICLE_TYPES * NUM_PARTICLE_TYPES,
        ensures
            final(self).wf(),
            final(self).coeffs@.len() == draws@.len(),
            forall|k: int|
                0 <= k < draws@.len() ==> final(self).coeffs@[k] == clamp_coeff(
                    draws@[k] as int,
                ) as i64,
    {
        let n = draws.len();
        let mut v: Vec<i64> = Vec::new();
        let mut k: usize = 0;
        while k < n
            invariant
                k <= n,
                n == draws@.len(),
                n == NUM_PARTICLE_TYPES * NUM_PARTICLE_TYPES,
                v@.len() == k,
                forall|t: int| 0 <= t < k ==> v@[t] == clamp_coeff(draws@[t] as int) as i64,
            decreases n - k,
        {
            let d = draws[k];
            let w: i64 = if d > SCALE {
                SCALE
            } else if d < -SCALE {
                -SCALE
            } else {
                d
            };
            v.push(w);
            k = k + 1;
        }
        self.coeffs = v;
        proof {
            assert forall|k: int|
                0 <= k < self.coeffs@.len() implies -SCALE <= #[trigger] self.coeffs@[k]
                <= SCALE by {
                assert(self.coeffs@[k] == clamp_coeff(draws@[k] as int) as i64);
            }
        }
    }

    /// Redraws every entry independently: nine fresh draws, each landing
    /// in `[-SCALE, SCALE]` whatever the generator produced, written over
    /// the whole matrix by [`RuleSet::fill_from`].
    pub fn randomize(&mut self, rng: &mut rand::rngs::StdRng)
        ensures
            final(self).wf(),
    {
        let n = NUM_PARTICLE_TYPES * NUM_PARTICLE_TYPES;
        let mut draws: Vec<i64> = Vec::new();
        let mut k: usize = 0;
        while k < n
            invariant
                n == NUM_PARTICLE_TYPES * NUM_PARTICLE_TYPES,
                k <= n,
                draws@.len() == k,
            decreases n - k,
        {
            draws.push(rand_in_range(rng, -SCALE, SCALE));
            k = k + 1;
        }
        self.fill_from(&draws);
    }
}

impl Default for RuleSet {
    /// The all-zero matrix: no interaction between any pair of types.
    fn default() -> (rs: RuleSet)
        ensures
            rs.wf(),
            forall|i: int, j: int|
                0 <= i < NUM_PARTICLE_TYPES && 0 <= j < NUM_PARTICLE_TYPES ==> #[trigger] rs.coeff(
                    i,
                    j,
                ) == 0,
    {
        let n = NUM_PARTICLE_TYPES * NUM_PARTICLE_TYPES;
        let mut v: Vec<i64> = Vec::new();
        let mut k: usize = 0;
        while k < n
            invariant
                k <= n,
                v@.len() == k,
                forall|t: int| 0 <= t < k ==> #[trigger] v@[t] == 0,
            decreases n - k,
        {
            v.push(0);
            k = k + 1;
        }
        let rs = RuleSet { coeffs: v };
        proof {
            assert forall|i: int, j: int|
                0 <= i < NUM_PARTICLE_TYPES && 0 <= j < NUM_PARTICLE_TYPES implies #[trigger] rs.coeff(
                i,
                j,
            ) == 0 by {
                assert(0 <= i * (NUM_PARTICLE_TYPES as int) + j < rs.coeffs@.len()) by (nonlinear_arith)
                    requires
                        0 <= i < NUM_PARTICLE_TYPES,
                        0 <= j < NUM_PARTICLE_TYPES,
                        rs.coeffs@.len() == NUM_PARTICLE_TYPES * NUM_PARTICLE_TYPES,
                ;
            }
        }
        rs
    }
}

/// Builds a fully randomized matrix and then pins one symmetric pair to a
/// fixed value: the override is applied after randomization, so it survives
/// it.
pub fn randomized_with_override(
    rng: &mut rand::rngs::StdRng,
    a: ParticleType,
    b: ParticleType,
    v: i64,
) -> (rs: RuleSet)
    ensures
        rs.wf(),
        rs.coeff(a.as_index(), b.as_index()) == clamp_coeff(v as int),
        rs.coeff(b.as_index(), a.as_index()) == clamp_coeff(v as int),
{
    let mut rs = RuleSet::default();
    rs.randomize(rng);
    rs.add_rule_symmetrical(a, b, v);
    rs
}

} // verus!
