//! What one step does to an object, as relations between the state before
//! and the state after.
//!
//! Each relation follows the order in which the engine works: behaviours in
//! the order of the world's list, springs and constraints in the order of
//! the object's lists. The particles themselves can be taken in any order,
//! as no particle's integration reads another particle.
use vstd::prelude::*;
use crate::arithmetic::Arithmetic;
use crate::behaviors::ParticleBehaviour2D;
use crate::constraints::ParticleConstraint2D;
use crate::particle2d::{Particle2D, ParticleKey};
use crate::scalar::Scalar;
use crate::spring::Spring2D;

verus! {

/// The particles of an object, by key.
pub type Particles = Map<ParticleKey, Particle2D>;

/// `q` is the particle `p` after each of `behaviors` was applied to it, the
/// first first. A behaviour changes the force on a particle and nothing
/// else of it.
pub open spec fn gathers<M: Arithmetic, B: ParticleBehaviour2D<M>>(
    m: &M,
    behaviors: Seq<B>,
    p: Particle2D,
    q: Particle2D,
) -> bool
    decreases behaviors.len(),
{
    if behaviors.len() == 0 {
        q == p
    } else {
        exists|mid: Particle2D|
            gathers(m, behaviors.drop_last(), p, mid) && #[trigger] behaviors.last().applies(
                m,
                mid,
                q,
            ) && q == mid.with_force(q.force)
    }
}

/// `q` is the particle `p` one step on: the behaviours were applied to it,
/// and then it was integrated under `drag`.
pub open spec fn particle_steps<M: Arithmetic, B: ParticleBehaviour2D<M>>(
    m: &M,
    behaviors: Seq<B>,
    drag: Scalar,
    p: Particle2D,
    q: Particle2D,
) -> bool {
    exists|pushed: Particle2D|
        #[trigger] gathers(m, behaviors, p, pushed) && pushed.integrates(m, drag, q)
}

/// `after` holds the particles of `before`, each one step on.
pub open spec fn particles_step<M: Arithmetic, B: ParticleBehaviour2D<M>>(
    m: &M,
    behaviors: Seq<B>,
    drag: Scalar,
    before: Particles,
    after: Particles,
) -> bool {
    &&& after.dom() == before.dom()
    &&& forall|k: ParticleKey| #[trigger]
        before.dom().contains(k) ==> particle_steps(m, behaviors, drag, before[k], after[k])
}

/// Enforcing the constraint `c` on the particles `before` leaves the
/// constraint `c2` and the particles `after`. A constraint whose particle
/// is not there does nothing. One whose particle is there changes where
/// that particle is and where it was, and nothing else.
pub open spec fn enforces_one<C: ParticleConstraint2D>(
    c: C,
    before: Particles,
    c2: C,
    after: Particles,
) -> bool {
    if before.dom().contains(c.target()) {
        &&& c.enforces(before[c.target()], c2, after[c.target()])
        &&& c2.target() == c.target()
        &&& after[c.target()] == before[c.target()].placed(
            after[c.target()].position,
            after[c.target()].last_position,
        )
        &&& after == before.insert(c.target(), after[c.target()])
    } else {
        c2 == c && after == before
    }
}

/// Enforcing the constraints `cs` on the particles `before`, the first
/// first, leaves the constraints `cs2` and the particles `after`.
pub open spec fn enforces_all<C: ParticleConstraint2D>(
    cs: Seq<C>,
    before: Particles,
    cs2: Seq<C>,
    after: Particles,
) -> bool
    decreases cs.len(),
{
    &&& cs2.len() == cs.len()
    &&& if cs.len() == 0 {
        after == before
    } else {
        exists|mid: Particles|
            enforces_all(cs.drop_last(), before, cs2.drop_last(), mid) && #[trigger] enforces_one(
                cs.last(),
                mid,
                cs2.last(),
                after,
            )
    }
}

/// Whether the spring `s` finds both its endpoints among `particles`: the
/// two keys differ, and each names a particle held.
pub open spec fn spring_is_live(s: Spring2D, particles: Particles) -> bool {
    &&& s.particle_a_id != s.particle_b_id
    &&& particles.dom().contains(s.particle_a_id)
    &&& particles.dom().contains(s.particle_b_id)
}

/// Relaxing the spring `s` once on the particles `before` leaves the spring
/// `s2` and the particles `after`. A spring that does not find both its
/// endpoints does nothing. One that does first measures its rest length,
/// if that was not given, and then moves its endpoints.
pub open spec fn relaxes_one<M: Arithmetic>(
    m: &M,
    s: Spring2D,
    before: Particles,
    s2: Spring2D,
    after: Particles,
) -> bool {
    if spring_is_live(s, before) {
        &&& s.measures(m, before[s.particle_a_id], before[s.particle_b_id], s2)
        &&& s2.relaxes(
            m,
            before[s.particle_a_id],
            before[s.particle_b_id],
            after[s.particle_a_id],
            after[s.particle_b_id],
        )
        &&& after == before.insert(s.particle_a_id, after[s.particle_a_id]).insert(
            s.particle_b_id,
            after[s.particle_b_id],
        )
    } else {
        s2 == s && after == before
    }
}

/// Relaxing each of the springs `ss` once on the particles `before`, the
/// first first, leaves the springs `ss2` and the particles `after`.
pub open spec fn relaxes_pass<M: Arithmetic>(
    m: &M,
    ss: Seq<Spring2D>,
    before: Particles,
    ss2: Seq<Spring2D>,
    after: Particles,
) -> bool
    decreases ss.len(),
{
    &&& ss2.len() == ss.len()
    &&& if ss.len() == 0 {
        after == before
    } else {
        exists|mid: Particles|
            relaxes_pass(m, ss.drop_last(), before, ss2.drop_last(), mid) && #[trigger] relaxes_one(
                m,
                ss.last(),
                mid,
                ss2.last(),
                after,
            )
    }
}

/// A list of springs together with the particles they work on.
pub struct Mesh {
    pub springs: Seq<Spring2D>,
    pub particles: Particles,
}

/// `passes` passes over the springs of `before` leave `after`.
pub open spec fn relaxes_passes<M: Arithmetic>(m: &M, passes: nat, before: Mesh, after: Mesh) -> bool
    decreases passes,
{
    if passes == 0 {
        after == before
    } else {
        exists|mid: Mesh|
            relaxes_passes(m, (passes - 1) as nat, before, mid) && #[trigger] relaxes_pass(
                m,
                mid.springs,
                mid.particles,
                after.springs,
                after.particles,
            )
    }
}

/// Applying one more behaviour extends what the first `i` have gathered.
pub proof fn gathers_next<M: Arithmetic, B: ParticleBehaviour2D<M>>(
    m: &M,
    behaviors: Seq<B>,
    i: int,
    p: Particle2D,
    mid: Particle2D,
    q: Particle2D,
)
    requires
        0 <= i < behaviors.len(),
        gathers(m, behaviors.take(i), p, mid),
        behaviors[i].applies(m, mid, q),
        q == mid.with_force(q.force),
    ensures
        gathers(m, behaviors.take(i + 1), p, q),
{
    let taken = behaviors.take(i + 1);
    assert(taken.drop_last() =~= behaviors.take(i));
    assert(taken.last() == behaviors[i]);
    assert(gathers(m, taken.drop_last(), p, mid) && taken.last().applies(m, mid, q) && q
        == mid.with_force(q.force));
}

/// Enforcing one more constraint extends what the first `i` have done.
pub proof fn enforces_next<C: ParticleConstraint2D>(
    cs: Seq<C>,
    before: Particles,
    cs2: Seq<C>,
    i: int,
    mid: Particles,
    after: Particles,
)
    requires
        0 <= i < cs.len(),
        cs2.len() == cs.len(),
        enforces_all(cs.take(i), before, cs2.take(i), mid),
        enforces_one(cs[i], mid, cs2[i], after),
    ensures
        enforces_all(cs.take(i + 1), before, cs2.take(i + 1), after),
{
    let taken = cs.take(i + 1);
    let taken2 = cs2.take(i + 1);
    assert(taken.drop_last() =~= cs.take(i));
    assert(taken2.drop_last() =~= cs2.take(i));
    assert(taken.last() == cs[i] && taken2.last() == cs2[i]);
    assert(enforces_all(taken.drop_last(), before, taken2.drop_last(), mid) && enforces_one(
        taken.last(),
        mid,
        taken2.last(),
        after,
    ));
}

/// Relaxing one more spring extends the pass over the first `i`.
pub proof fn relaxes_next<M: Arithmetic>(
    m: &M,
    ss: Seq<Spring2D>,
    before: Particles,
    ss2: Seq<Spring2D>,
    i: int,
    mid: Particles,
    after: Particles,
)
    requires
        0 <= i < ss.len(),
        ss2.len() == ss.len(),
        relaxes_pass(m, ss.take(i), before, ss2.take(i), mid),
        relaxes_one(m, ss[i], mid, ss2[i], after),
    ensures
        relaxes_pass(m, ss.take(i + 1), before, ss2.take(i + 1), after),
{
    let taken = ss.take(i + 1);
    let taken2 = ss2.take(i + 1);
    assert(taken.drop_last() =~= ss.take(i));
    assert(taken2.drop_last() =~= ss2.take(i));
    assert(taken.last() == ss[i] && taken2.last() == ss2[i]);
    assert(relaxes_pass(m, taken.drop_last(), before, taken2.drop_last(), mid) && relaxes_one(
        m,
        taken.last(),
        mid,
        taken2.last(),
        after,
    ));
}

/// One more pass extends the passes made so far.
pub proof fn relaxes_another<M: Arithmetic>(
    m: &M,
    passes: nat,
    before: Mesh,
    mid: Mesh,
    after: Mesh,
)
    requires
        relaxes_passes(m, passes, before, mid),
        relaxes_pass(m, mid.springs, mid.particles, after.springs, after.particles),
    ensures
        relaxes_passes(m, passes + 1, before, after),
{
    assert(((passes + 1) - 1) as nat == passes);
    assert(relaxes_passes(m, ((passes + 1) - 1) as nat, before, mid) && relaxes_pass(
        m,
        mid.springs,
        mid.particles,
        after.springs,
        after.particles,
    ));
}

/// What an object consists of, but for its tag.
pub struct ObjectState<C> {
    pub particles: Particles,
    pub springs: Seq<Spring2D>,
    pub constraints: Seq<C>,
}

/// The states an object passes through within one step.
pub struct StepStages<C> {
    /// The particles once behaviours were applied and positions integrated.
    pub integrated: Particles,
    /// The particles once the constraints were enforced on those.
    pub held: Particles,
    /// The constraints after that first round.
    pub constraints: Seq<C>,
    /// The particles once the springs were relaxed.
    pub relaxed: Particles,
}

/// `w` holds the stages of one step that takes the object from `before`
/// to `after`: every particle is pushed by the behaviours and integrated;
/// the constraints are enforced; the springs are relaxed in `iterations`
/// passes; the constraints are enforced once more.
pub open spec fn object_steps_by<M: Arithmetic, B: ParticleBehaviour2D<M>, C: ParticleConstraint2D>(
    m: &M,
    behaviors: Seq<B>,
    iterations: nat,
    drag: Scalar,
    before: ObjectState<C>,
    w: StepStages<C>,
    after: ObjectState<C>,
) -> bool {
    &&& particles_step(m, behaviors, drag, before.particles, w.integrated)
    &&& enforces_all(before.constraints, w.integrated, w.constraints, w.held)
    &&& relaxes_passes(
        m,
        iterations,
        Mesh { springs: before.springs, particles: w.held },
        Mesh { springs: after.springs, particles: w.relaxed },
    )
    &&& enforces_all(w.constraints, w.relaxed, after.constraints, after.particles)
}

/// One step takes the object from `before` to `after`.
pub open spec fn object_steps<M: Arithmetic, B: ParticleBehaviour2D<M>, C: ParticleConstraint2D>(
    m: &M,
    behaviors: Seq<B>,
    iterations: nat,
    drag: Scalar,
    before: ObjectState<C>,
    after: ObjectState<C>,
) -> bool {
    exists|w: StepStages<C>| #[trigger]
        object_steps_by(m, behaviors, iterations, drag, before, w, after)
}

} // verus!
