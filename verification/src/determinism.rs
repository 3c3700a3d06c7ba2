//! A step is a function of what it starts from.
//!
//! The engine draws no random numbers and walks nothing in an order of its
//! own choosing. So if the arithmetic computes, and so do the behaviours
//! and the constraints, a step from one state can end in one state only.
use vstd::prelude::*;
use crate::arithmetic::{deterministic, Arithmetic};
use crate::behaviors::{ConstantForceBehavior2D, ParticleBehaviour2D};
use crate::constraints::{ParticleConstraint2D, PinConstraint2D};
use crate::objects::step::{
    enforces_all, enforces_one, gathers, object_steps, object_steps_by, particle_steps,
    particles_step, relaxes_one, relaxes_pass, relaxes_passes, spring_is_live, Mesh, ObjectState,
    Particles, StepStages,
};
use crate::particle2d::{Integration, Particle2D, ParticleKey};
use crate::scalar::Scalar;
use crate::spring::{Relaxation, Spring2D};
use crate::vector2d::Vector2D;

verus! {

/// Whether behaviours of the kind `B` compute: applying one to a particle
/// gives one result.
pub open spec fn behaviours_compute<M: Arithmetic, B: ParticleBehaviour2D<M>>(m: &M) -> bool {
    forall|b: B, p: Particle2D, q: Particle2D, r: Particle2D|
        #![trigger b.applies(m, p, q), b.applies(m, p, r)]
        b.applies(m, p, q) && b.applies(m, p, r) ==> q == r
}

/// Whether constraints of the kind `C` compute: enforcing one on a
/// particle gives one result, and leaves the constraint in one state.
pub open spec fn constraints_compute<C: ParticleConstraint2D>() -> bool {
    forall|c: C, p: Particle2D, c2: C, q: Particle2D, c3: C, r: Particle2D|
        #![trigger c.enforces(p, c2, q), c.enforces(p, c3, r)]
        c.enforces(p, c2, q) && c.enforces(p, c3, r) ==> c2 == c3 && q == r
}

/// Constant forces compute where the arithmetic does.
pub proof fn constant_forces_compute<M: Arithmetic>(m: &M)
    requires
        deterministic(m),
    ensures
        behaviours_compute::<M, ConstantForceBehavior2D>(m),
{
}

/// Pins compute.
pub proof fn pins_compute()
    ensures
        constraints_compute::<PinConstraint2D>(),
{
}

/// A dot product has one value.
pub proof fn dot_is_one<M: Arithmetic>(m: &M, a: Vector2D, b: Vector2D, r: Scalar, s: Scalar)
    requires
        deterministic(m),
        Vector2D::is_dot(m, a, b, r),
        Vector2D::is_dot(m, a, b, s),
    ensures
        r == s,
{
}

/// A length has one value.
pub proof fn magnitude_is_one<M: Arithmetic>(m: &M, a: Vector2D, r: Scalar, s: Scalar)
    requires
        deterministic(m),
        Vector2D::is_magnitude(m, a, r),
        Vector2D::is_magnitude(m, a, s),
    ensures
        r == s,
{
    let p = choose|sq: Scalar| #[trigger] Vector2D::is_magnitude_sq(m, a, sq) && crate::arithmetic::is_root(m, sq, r);
    let q = choose|sq: Scalar| #[trigger] Vector2D::is_magnitude_sq(m, a, sq) && crate::arithmetic::is_root(m, sq, s);
    dot_is_one(m, a, a, p, q);
}

/// An integration step has one result.
pub proof fn integration_is_one<M: Arithmetic>(
    m: &M,
    drag: Scalar,
    p: Particle2D,
    q: Particle2D,
    r: Particle2D,
)
    requires
        deterministic(m),
        p.integrates(m, drag, q),
        p.integrates(m, drag, r),
    ensures
        q == r,
{
    let v = choose|w: Integration| #[trigger] p.integrates_by(m, drag, w, q);
    let w = choose|w: Integration| #[trigger] p.integrates_by(m, drag, w, r);
    assert(v.velocity == w.velocity);
    assert(v.damping == w.damping);
    assert(v.damped_last == w.damped_last);
    assert(v.kept == w.kept);
    assert(v.push == w.push);
    assert(v.delta == w.delta);
    assert(q.position == r.position);
}

/// The behaviours leave one force on a particle.
pub proof fn gathering_is_one<M: Arithmetic, B: ParticleBehaviour2D<M>>(
    m: &M,
    behaviors: Seq<B>,
    p: Particle2D,
    q: Particle2D,
    r: Particle2D,
)
    requires
        behaviours_compute::<M, B>(m),
        gathers(m, behaviors, p, q),
        gathers(m, behaviors, p, r),
    ensures
        q == r,
    decreases behaviors.len(),
{
    if behaviors.len() > 0 {
        let x = choose|mid: Particle2D|
            gathers(m, behaviors.drop_last(), p, mid) && #[trigger] behaviors.last().applies(
                m,
                mid,
                q,
            ) && q == mid.with_force(q.force);
        let y = choose|mid: Particle2D|
            gathers(m, behaviors.drop_last(), p, mid) && #[trigger] behaviors.last().applies(
                m,
                mid,
                r,
            ) && r == mid.with_force(r.force);
        gathering_is_one(m, behaviors.drop_last(), p, x, y);
    }
}

/// A particle is one step on in one way.
pub proof fn particle_step_is_one<M: Arithmetic, B: ParticleBehaviour2D<M>>(
    m: &M,
    behaviors: Seq<B>,
    drag: Scalar,
    p: Particle2D,
    q: Particle2D,
    r: Particle2D,
)
    requires
        deterministic(m),
        behaviours_compute::<M, B>(m),
        particle_steps(m, behaviors, drag, p, q),
        particle_steps(m, behaviors, drag, p, r),
    ensures
        q == r,
{
    let x = choose|pushed: Particle2D|
        #[trigger] gathers(m, behaviors, p, pushed) && pushed.integrates(m, drag, q);
    let y = choose|pushed: Particle2D|
        #[trigger] gathers(m, behaviors, p, pushed) && pushed.integrates(m, drag, r);
    gathering_is_one(m, behaviors, p, x, y);
    integration_is_one(m, drag, x, q, r);
}

/// The particles are one step on in one way.
pub proof fn particles_step_is_one<M: Arithmetic, B: ParticleBehaviour2D<M>>(
    m: &M,
    behaviors: Seq<B>,
    drag: Scalar,
    before: Particles,
    first: Particles,
    second: Particles,
)
    requires
        deterministic(m),
        behaviours_compute::<M, B>(m),
        particles_step(m, behaviors, drag, before, first),
        particles_step(m, behaviors, drag, before, second),
    ensures
        first == second,
{
    assert forall|k: ParticleKey| first.dom().contains(k) implies #[trigger] first[k]
        == second[k] by {
        assert(before.dom().contains(k));
        particle_step_is_one(m, behaviors, drag, before[k], first[k], second[k]);
    }
    assert(first =~= second);
}

/// Enforcing constraints has one outcome.
pub proof fn enforcing_is_one<C: ParticleConstraint2D>(
    cs: Seq<C>,
    before: Particles,
    cs2: Seq<C>,
    first: Particles,
    cs3: Seq<C>,
    second: Particles,
)
    requires
        constraints_compute::<C>(),
        enforces_all(cs, before, cs2, first),
        enforces_all(cs, before, cs3, second),
    ensures
        cs2 == cs3,
        first == second,
    decreases cs.len(),
{
    if cs.len() > 0 {
        let x = choose|mid: Particles|
            enforces_all(cs.drop_last(), before, cs2.drop_last(), mid) && #[trigger] enforces_one(
                cs.last(),
                mid,
                cs2.last(),
                first,
            );
        let y = choose|mid: Particles|
            enforces_all(cs.drop_last(), before, cs3.drop_last(), mid) && #[trigger] enforces_one(
                cs.last(),
                mid,
                cs3.last(),
                second,
            );
        enforcing_is_one(cs.drop_last(), before, cs2.drop_last(), x, cs3.drop_last(), y);
        assert(cs2 =~= cs2.drop_last().push(cs2.last()));
        assert(cs3 =~= cs3.drop_last().push(cs3.last()));
        assert(first =~= second);
    } else {
        assert(cs2 =~= cs3);
    }
}

/// Measuring a spring has one outcome.
pub proof fn measuring_is_one<M: Arithmetic>(
    m: &M,
    s: Spring2D,
    a: Particle2D,
    b: Particle2D,
    t: Spring2D,
    u: Spring2D,
)
    requires
        deterministic(m),
        s.measures(m, a, b, t),
        s.measures(m, a, b, u),
    ensures
        t == u,
{
    if s.is_unmeasured() {
        let x = choose|gap: Vector2D|
            {
                &&& #[trigger] Vector2D::is_difference(m, a.position, b.position, gap)
                &&& Vector2D::is_magnitude(m, gap, t.rest_length)
                &&& crate::arithmetic::is_product(m, t.rest_length, t.rest_length, t.rest_length_sq)
                &&& t == s.with_rest(t.rest_length, t.rest_length_sq)
            };
        let y = choose|gap: Vector2D|
            {
                &&& #[trigger] Vector2D::is_difference(m, a.position, b.position, gap)
                &&& Vector2D::is_magnitude(m, gap, u.rest_length)
                &&& crate::arithmetic::is_product(m, u.rest_length, u.rest_length, u.rest_length_sq)
                &&& u == s.with_rest(u.rest_length, u.rest_length_sq)
            };
        assert(x == y);
        magnitude_is_one(m, x, t.rest_length, u.rest_length);
    }
}

/// One relaxation of a spring has one outcome.
pub proof fn relaxation_is_one<M: Arithmetic>(
    m: &M,
    s: Spring2D,
    a: Particle2D,
    b: Particle2D,
    a2: Particle2D,
    b2: Particle2D,
    a3: Particle2D,
    b3: Particle2D,
)
    requires
        deterministic(m),
        s.relaxes(m, a, b, a2, b2),
        s.relaxes(m, a, b, a3, b3),
    ensures
        a2 == a3,
        b2 == b3,
{
    let v = choose|w: Relaxation| #[trigger] s.relaxes_by(m, a, b, w, a2, b2);
    let w = choose|w: Relaxation| #[trigger] s.relaxes_by(m, a, b, w, a3, b3);
    if !(a.is_immovable() && b.is_immovable()) {
        assert(v.delta == w.delta);
        dot_is_one(m, v.delta, v.delta, v.dist, w.dist);
        if !v.dist.is_zero_spec() {
            assert(v.stretch == w.stretch);
            assert(v.mobility == w.mobility);
            assert(v.resistance == w.resistance);
            assert(v.ratio == w.ratio);
            assert(v.force_mag == w.force_mag);
            if !a.is_immovable() {
                assert(v.a_pull == w.a_pull);
                assert(v.a_shift == w.a_shift);
                assert(a2.position == a3.position);
            }
            if !b.is_immovable() {
                assert(v.b_pull == w.b_pull);
                assert(v.b_shift == w.b_shift);
                assert(b2.position == b3.position);
            }
        }
    }
}

/// Relaxing one spring on the particles has one outcome.
pub proof fn relaxing_one_is_one<M: Arithmetic>(
    m: &M,
    s: Spring2D,
    before: Particles,
    s2: Spring2D,
    first: Particles,
    s3: Spring2D,
    second: Particles,
)
    requires
        deterministic(m),
        relaxes_one(m, s, before, s2, first),
        relaxes_one(m, s, before, s3, second),
    ensures
        s2 == s3,
        first == second,
{
    if spring_is_live(s, before) {
        let a = s.particle_a_id;
        let b = s.particle_b_id;
        measuring_is_one(m, s, before[a], before[b], s2, s3);
        relaxation_is_one(m, s2, before[a], before[b], first[a], first[b], second[a], second[b]);
        assert(first =~= second);
    }
}

/// One pass over the springs has one outcome.
pub proof fn pass_is_one<M: Arithmetic>(
    m: &M,
    ss: Seq<Spring2D>,
    before: Particles,
    ss2: Seq<Spring2D>,
    first: Particles,
    ss3: Seq<Spring2D>,
    second: Particles,
)
    requires
        deterministic(m),
        relaxes_pass(m, ss, before, ss2, first),
        relaxes_pass(m, ss, before, ss3, second),
    ensures
        ss2 == ss3,
        first == second,
    decreases ss.len(),
{
    if ss.len() > 0 {
        let x = choose|mid: Particles|
            relaxes_pass(m, ss.drop_last(), before, ss2.drop_last(), mid) && #[trigger] relaxes_one(
                m,
                ss.last(),
                mid,
                ss2.last(),
                first,
            );
        let y = choose|mid: Particles|
            relaxes_pass(m, ss.drop_last(), before, ss3.drop_last(), mid) && #[trigger] relaxes_one(
                m,
                ss.last(),
                mid,
                ss3.last(),
                second,
            );
        pass_is_one(m, ss.drop_last(), before, ss2.drop_last(), x, ss3.drop_last(), y);
        relaxing_one_is_one(m, ss.last(), x, ss2.last(), first, ss3.last(), second);
        assert(ss2 =~= ss2.drop_last().push(ss2.last()));
        assert(ss3 =~= ss3.drop_last().push(ss3.last()));
    } else {
        assert(ss2 =~= ss3);
    }
}

/// Any number of passes over the springs has one outcome.
pub proof fn passes_are_one<M: Arithmetic>(
    m: &M,
    passes: nat,
    before: Mesh,
    first: Mesh,
    second: Mesh,
)
    requires
        deterministic(m),
        relaxes_passes(m, passes, before, first),
        relaxes_passes(m, passes, before, second),
    ensures
        first == second,
    decreases passes,
{
    if passes > 0 {
        let x = choose|mid: Mesh|
            relaxes_passes(m, (passes - 1) as nat, before, mid) && #[trigger] relaxes_pass(
                m,
                mid.springs,
                mid.particles,
                first.springs,
                first.particles,
            );
        let y = choose|mid: Mesh|
            relaxes_passes(m, (passes - 1) as nat, before, mid) && #[trigger] relaxes_pass(
                m,
                mid.springs,
                mid.particles,
                second.springs,
                second.particles,
            );
        passes_are_one(m, (passes - 1) as nat, before, x, y);
        pass_is_one(
            m,
            x.springs,
            x.particles,
            first.springs,
            first.particles,
            second.springs,
            second.particles,
        );
    }
}

/// A step is deterministic: from one state of an object, with the same
/// behaviours, the same drag and the same number of passes, it leads to
/// one state, whenever the arithmetic, the behaviours and the constraints
/// compute.
pub proof fn step_is_deterministic<
    M: Arithmetic,
    B: ParticleBehaviour2D<M>,
    C: ParticleConstraint2D,
>(
    m: &M,
    behaviors: Seq<B>,
    iterations: nat,
    drag: Scalar,
    before: ObjectState<C>,
    first: ObjectState<C>,
    second: ObjectState<C>,
)
    requires
        deterministic(m),
        behaviours_compute::<M, B>(m),
        constraints_compute::<C>(),
        object_steps(m, behaviors, iterations, drag, before, first),
        object_steps(m, behaviors, iterations, drag, before, second),
    ensures
        first == second,
{
    let v = choose|w: StepStages<C>| #[trigger]
        object_steps_by(m, behaviors, iterations, drag, before, w, first);
    let w = choose|w: StepStages<C>| #[trigger]
        object_steps_by(m, behaviors, iterations, drag, before, w, second);
    particles_step_is_one(m, behaviors, drag, before.particles, v.integrated, w.integrated);
    enforcing_is_one(
        before.constraints,
        v.integrated,
        v.constraints,
        v.held,
        w.constraints,
        w.held,
    );
    passes_are_one(
        m,
        iterations,
        Mesh { springs: before.springs, particles: v.held },
        Mesh { springs: first.springs, particles: v.relaxed },
        Mesh { springs: second.springs, particles: w.relaxed },
    );
    enforcing_is_one(
        v.constraints,
        v.relaxed,
        first.constraints,
        first.particles,
        second.constraints,
        second.particles,
    );
}

} // verus!
