use vstd::prelude::*;
use crate::config::{HALF_EXTENT, SPAWN_EXTENT, VEL_CAP};
use crate::rng::rand_in_range;
use crate::ruleset::ParticleType;

verus! {

/// One particle: an immutable type tag, a position inside the arena and a
/// velocity, the latter two in thousandths of a world unit (per second for
/// the velocity).
#[derive(Clone, Copy, PartialEq, Eq, Structural, Debug)]
pub struct Particle {
    pub ptype: ParticleType,
    pub x: i64,
    pub y: i64,
    pub vx: i64,
    pub vy: i64,
}

impl Particle {
    /// In bounds: the position inside the arena, each velocity component
    /// within the saturation cap.
    pub open spec fn ok(self) -> bool {
        &&& -HALF_EXTENT <= self.x <= HALF_EXTENT
        &&& -HALF_EXTENT <= self.y <= HALF_EXTENT
        &&& -VEL_CAP <= self.vx <= VEL_CAP
        &&& -VEL_CAP <= self.vy <= VEL_CAP
    }
}

/// Every particle of the sequence is in bounds.
pub open spec fn all_ok(s: Seq<Particle>) -> bool {
    forall|i: int| 0 <= i < s.len() ==> (#[trigger] s[i]).ok()
}

/// The contiguous collection owning all particle state; the stepping
/// functions borrow it for one tick at a time.
pub struct ParticleStore {
    pub particles: Vec<Particle>,
}

impl View for ParticleStore {
    type V = Seq<Particle>;

    open spec fn view(&self) -> Seq<Particle> {
        self.particles@
    }
}

impl ParticleStore {
    /// Every particle in bounds.
    pub open spec fn wf(self) -> bool {
        all_ok(self@)
    }

    /// An empty store.
    pub fn new() -> (s: ParticleStore)
        ensures
            s@ =~= Seq::<Particle>::empty(),
            s.wf(),
    {
        ParticleStore { particles: Vec::new() }
    }

    /// How many particles the store holds.
    pub fn len(&self) -> (n: usize)
        ensures
            n == self@.len(),
    {
        self.particles.len()
    }

    /// Reads one particle.
    pub fn get(&self, i: usize) -> (p: Particle)
        requires
            i < self@.len(),
        ensures
            p == self@[i as int],
    {
        self.particles[i]
    }

    /// Appends one particle.
    pub fn push(&mut self, p: Particle)
        requires
            p.ok(),
        ensures
            final(self)@ == old(self)@.push(p),
            old(self).wf() ==> final(self).wf(),
    {
        self.particles.push(p);
        proof {
            if old(self).wf() {
                assert forall|i: int| 0 <= i < self@.len() implies (#[trigger] self@[i]).ok() by {
                    if i < old(self)@.len() {
                        assert(self@[i] == old(self)@[i]);
                    }
                }
            }
        }
    }
}

/// The particle type a three-way draw selects: `0` is red, `1` is green,
/// everything else blue.
pub open spec fn type_of_draw(d: int) -> ParticleType {
    if d == 0 {
        ParticleType::Red
    } else if d == 1 {
        ParticleType::Green
    } else {
        ParticleType::Blue
    }
}

/// Builds one spawned particle from its drawn type selector and drawn
/// position: exactly at the drawn coordinates, of the selected type, at
/// rest. The spawned state is a function of the draws alone.
pub fn particle_from_draws(d: i64, x: i64, y: i64) -> (p: Particle)
    requires
        -HALF_EXTENT <= x <= HALF_EXTENT,
        -HALF_EXTENT <= y <= HALF_EXTENT,
    ensures
        p == (Particle { ptype: type_of_draw(d as int), x, y, vx: 0, vy: 0 }),
        p.ok(),
{
    let ptype = if d == 0 {
        ParticleType::Red
    } else if d == 1 {
        ParticleType::Green
    } else {
        ParticleType::Blue
    };
    Particle { ptype, x, y, vx: 0, vy: 0 }
}

/// Draws an initial population: `count` particles, each with a uniformly
/// drawn type, a position drawn inside the spawn square and zero velocity,
/// each record built from its draws by [`particle_from_draws`].
pub fn spawn_particles(rng: &mut rand::rngs::StdRng, count: usize) -> (s: ParticleStore)
    ensures
        s.wf(),
        s@.len() == count,
        forall|i: int|
            0 <= i < count ==> (#[trigger] s@[i]).vx == 0 && s@[i].vy == 0
                && -SPAWN_EXTENT <= s@[i].x <= SPAWN_EXTENT && -SPAWN_EXTENT <= s@[i].y
                <= SPAWN_EXTENT,
{
    let mut s = ParticleStore::new();
    let mut k: usize = 0;
    while k < count
        invariant
            k <= count,
            s@.len() == k,
            s.wf(),
            forall|i: int|
                0 <= i < k ==> (#[trigger] s@[i]).vx == 0 && s@[i].vy == 0
                    && -SPAWN_EXTENT <= s@[i].x <= SPAWN_EXTENT && -SPAWN_EXTENT <= s@[i].y
                    <= SPAWN_EXTENT,
        decreases count - k,
    {
        let draw = rand_in_range(rng, 0, 2);
        let x = rand_in_range(rng, -SPAWN_EXTENT, SPAWN_EXTENT);
        let y = rand_in_range(rng, -SPAWN_EXTENT, SPAWN_EXTENT);
        let p = particle_from_draws(draw, x, y);
        s.push(p);
        k = k + 1;
    }
    s
}

} // verus!
