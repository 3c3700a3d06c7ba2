//! What holds of the engine whatever it is run on.
//!
//! Each statement here is about the relations of [`crate::objects::step`],
//! in which the contracts of `update` and its parts are written, so each
//! holds of every step that the engine makes.
use vstd::prelude::*;
use crate::arithmetic::Arithmetic;
use crate::behaviors::ParticleBehaviour2D;
use crate::constraints::{ParticleConstraint2D, PinConstraint2D};
use crate::objects::step::{
    enforces_all, enforces_one, gathers, object_steps, object_steps_by, relaxes_one, relaxes_pass,
    relaxes_passes, spring_is_live, Mesh, ObjectState, Particles, StepStages,
};
use crate::objects::{has_spring, springs_distinct, with_spring};
use crate::particle2d::{Integration, Particle2D, ParticleKey};
use crate::scalar::Scalar;
use crate::spring::{Relaxation, Spring2D};
use crate::vector2d::Vector2D;

verus! {

/// Offering a spring keeps the springs distinct: no two of them join the
/// same two particles.
pub proof fn offered_spring_keeps_springs_distinct(springs: Seq<Spring2D>, spring: Spring2D)
    requires
        springs_distinct(springs),
    ensures
        springs_distinct(with_spring(springs, spring)),
{
    let after = with_spring(springs, spring);
    if !has_spring(springs, spring.particle_a_id, spring.particle_b_id) {
        assert forall|i: int, j: int| 0 <= i < j < after.len() implies !(#[trigger] after[i]).joins(
            (#[trigger] after[j]).particle_a_id,
            after[j].particle_b_id,
        ) by {
            if j == springs.len() {
                assert(after[i] == springs[i]);
                assert(!springs[i].joins(spring.particle_a_id, spring.particle_b_id));
            } else {
                assert(after[i] == springs[i] && after[j] == springs[j]);
            }
        }
    }
}

/// A spring offered a second time is ignored. Whatever spring is offered
/// for two particles after one was offered for the same two, in either
/// direction, changes nothing, and exactly one spring of the list joins the
/// two.
pub proof fn duplicate_spring_is_ignored(springs: Seq<Spring2D>, first: Spring2D, second: Spring2D)
    requires
        springs_distinct(springs),
        second.joins(first.particle_a_id, first.particle_b_id),
    ensures
        with_spring(with_spring(springs, first), second) == with_spring(springs, first),
        exists|i: int|
            0 <= i < with_spring(springs, first).len() && (#[trigger] with_spring(
                springs,
                first,
            )[i]).joins(first.particle_a_id, first.particle_b_id) && forall|j: int|
                0 <= j < with_spring(springs, first).len() && (#[trigger] with_spring(
                    springs,
                    first,
                )[j]).joins(first.particle_a_id, first.particle_b_id) ==> j == i,
{
    let once = with_spring(springs, first);
    let a = first.particle_a_id;
    let b = first.particle_b_id;
    offered_spring_keeps_springs_distinct(springs, first);
    let i = if has_spring(springs, a, b) {
        choose|i: int| 0 <= i < springs.len() && (#[trigger] springs[i]).joins(a, b)
    } else {
        springs.len() as int
    };
    assert(0 <= i < once.len() && once[i].joins(a, b));
    assert(has_spring(once, second.particle_a_id, second.particle_b_id)) by {
        assert(once[i].joins(second.particle_a_id, second.particle_b_id));
    }
    assert forall|j: int| 0 <= j < once.len() && (#[trigger] once[j]).joins(a, b) implies j
        == i by {
        if j < i {
            assert(!once[j].joins(once[i].particle_a_id, once[i].particle_b_id));
        } else if i < j {
            assert(!once[i].joins(once[j].particle_a_id, once[j].particle_b_id));
        }
    }
}

/// A mass of zero makes a particle immovable, if its inverse mass belongs
/// to its mass.
pub proof fn zero_mass_is_immovable<M: Arithmetic>(m: &M, p: Particle2D)
    requires
        p.weight.is_zero_spec(),
        p.mass_consistent(m),
    ensures
        p.is_immovable(),
{
}

/// One relaxation of a spring leaves an immovable endpoint as it is.
pub proof fn relaxation_spares_immovable<M: Arithmetic>(
    m: &M,
    s: Spring2D,
    a: Particle2D,
    b: Particle2D,
    a2: Particle2D,
    b2: Particle2D,
)
    requires
        s.relaxes(m, a, b, a2, b2),
    ensures
        a.is_immovable() ==> a2 == a,
        b.is_immovable() ==> b2 == b,
        a2.inv_weight == a.inv_weight,
        b2.inv_weight == b.inv_weight,
        a2.id == a.id,
        b2.id == b.id,
{
    let w = choose|w: Relaxation| #[trigger] s.relaxes_by(m, a, b, w, a2, b2);
    assert(s.relaxes_by(m, a, b, w, a2, b2));
}

/// Relaxing one spring keeps the keys of the particles, keeps every
/// particle's inverse mass, and leaves every immovable particle as it is.
pub proof fn relaxing_one_spares_immovable<M: Arithmetic>(
    m: &M,
    s: Spring2D,
    before: Particles,
    s2: Spring2D,
    after: Particles,
)
    requires
        relaxes_one(m, s, before, s2, after),
    ensures
        after.dom() == before.dom(),
        s2.particle_a_id == s.particle_a_id,
        s2.particle_b_id == s.particle_b_id,
        forall|k: ParticleKey| #[trigger]
            before.dom().contains(k) ==> after[k].inv_weight == before[k].inv_weight,
        forall|k: ParticleKey| #[trigger]
            before.dom().contains(k) && before[k].is_immovable() ==> after[k] == before[k],
{
    if spring_is_live(s, before) {
        let a = s.particle_a_id;
        let b = s.particle_b_id;
        s.measures_keeps_endpoints(m, before[a], before[b], s2);
        relaxation_spares_immovable(m, s2, before[a], before[b], after[a], after[b]);
        assert(after.dom() =~= before.dom());
    }
}

/// One pass over the springs keeps the keys of the particles, keeps every
/// particle's inverse mass, keeps every spring's endpoints, and leaves
/// every immovable particle as it is.
pub proof fn pass_spares_immovable<M: Arithmetic>(
    m: &M,
    ss: Seq<Spring2D>,
    before: Particles,
    ss2: Seq<Spring2D>,
    after: Particles,
)
    requires
        relaxes_pass(m, ss, before, ss2, after),
    ensures
        after.dom() == before.dom(),
        ss2.len() == ss.len(),
        forall|i: int|
            0 <= i < ss.len() ==> (#[trigger] ss2[i]).particle_a_id == ss[i].particle_a_id
                && ss2[i].particle_b_id == ss[i].particle_b_id,
        forall|k: ParticleKey| #[trigger]
            before.dom().contains(k) ==> after[k].inv_weight == before[k].inv_weight,
        forall|k: ParticleKey| #[trigger]
            before.dom().contains(k) && before[k].is_immovable() ==> after[k] == before[k],
    decreases ss.len(),
{
    if ss.len() > 0 {
        let mid = choose|mid: Particles|
            relaxes_pass(m, ss.drop_last(), before, ss2.drop_last(), mid) && #[trigger] relaxes_one(
                m,
                ss.last(),
                mid,
                ss2.last(),
                after,
            );
        pass_spares_immovable(m, ss.drop_last(), before, ss2.drop_last(), mid);
        relaxing_one_spares_immovable(m, ss.last(), mid, ss2.last(), after);
        assert forall|i: int| 0 <= i < ss.len() implies (#[trigger] ss2[i]).particle_a_id
            == ss[i].particle_a_id && ss2[i].particle_b_id == ss[i].particle_b_id by {
            if i < ss.len() - 1 {
                assert(ss2.drop_last()[i] == ss2[i] && ss.drop_last()[i] == ss[i]);
            }
        }
        assert forall|k: ParticleKey| #[trigger] before.dom().contains(k) implies after[k].inv_weight
            == before[k].inv_weight by {
            assert(mid.dom().contains(k));
        }
        assert forall|k: ParticleKey| #[trigger]
            before.dom().contains(k) && before[k].is_immovable() implies after[k] == before[k] by {
            assert(mid.dom().contains(k));
        }
    }
}

/// An immovable particle is never displaced by the springs: whatever the
/// number of passes, whatever springs hold it and however its partners
/// move, it comes out of the relaxation as it went in.
pub proof fn immovable_particle_stays<M: Arithmetic>(m: &M, passes: nat, before: Mesh, after: Mesh)
    requires
        relaxes_passes(m, passes, before, after),
    ensures
        after.particles.dom() == before.particles.dom(),
        after.springs.len() == before.springs.len(),
        forall|i: int|
            0 <= i < before.springs.len() ==> (#[trigger] after.springs[i]).particle_a_id
                == before.springs[i].particle_a_id && after.springs[i].particle_b_id
                == before.springs[i].particle_b_id,
        forall|k: ParticleKey| #[trigger]
            before.particles.dom().contains(k) ==> after.particles[k].inv_weight
                == before.particles[k].inv_weight,
        forall|k: ParticleKey| #[trigger]
            before.particles.dom().contains(k) && before.particles[k].is_immovable()
                ==> after.particles[k] == before.particles[k],
    decreases passes,
{
    if passes > 0 {
        let mid = choose|mid: Mesh|
            relaxes_passes(m, (passes - 1) as nat, before, mid) && #[trigger] relaxes_pass(
                m,
                mid.springs,
                mid.particles,
                after.springs,
                after.particles,
            );
        immovable_particle_stays(m, (passes - 1) as nat, before, mid);
        pass_spares_immovable(m, mid.springs, mid.particles, after.springs, after.particles);
        assert forall|k: ParticleKey| #[trigger]
            before.particles.dom().contains(k) implies after.particles[k].inv_weight
            == before.particles[k].inv_weight by {
            assert(mid.particles.dom().contains(k));
        }
        assert forall|k: ParticleKey| #[trigger]
            before.particles.dom().contains(k) && before.particles[k].is_immovable()
            implies after.particles[k] == before.particles[k] by {
            assert(mid.particles.dom().contains(k));
        }
    }
}

/// Whether the pin at place `i` is the last of `pins` on its particle.
pub open spec fn is_last_pin_on_its_particle(pins: Seq<PinConstraint2D>, i: int) -> bool {
    forall|j: int| i < j < pins.len() ==> (#[trigger] pins[j]).particle_id != pins[i].particle_id
}

/// Enforcing pins leaves the pins as they are and keeps the keys of the
/// particles. Afterwards each particle is held by the last pin on it, and
/// a particle without a pin is as it was.
pub proof fn pins_hold_once_enforced(
    pins: Seq<PinConstraint2D>,
    before: Particles,
    pins2: Seq<PinConstraint2D>,
    after: Particles,
)
    requires
        enforces_all(pins, before, pins2, after),
    ensures
        pins2 == pins,
        after.dom() == before.dom(),
        forall|i: int|
            0 <= i < pins.len() && before.dom().contains((#[trigger] pins[i]).particle_id)
                && is_last_pin_on_its_particle(pins, i) ==> pins[i].holds(
                after[pins[i].particle_id],
            ),
        forall|k: ParticleKey|
            before.dom().contains(k) && (forall|i: int|
                0 <= i < pins.len() ==> (#[trigger] pins[i]).particle_id != k) ==> #[trigger] after[k]
                == before[k],
    decreases pins.len(),
{
    if pins.len() > 0 {
        let mid = choose|mid: Particles|
            enforces_all(pins.drop_last(), before, pins2.drop_last(), mid) && #[trigger] enforces_one(
                pins.last(),
                mid,
                pins2.last(),
                after,
            );
        let front = pins.drop_last();
        pins_hold_once_enforced(front, before, pins2.drop_last(), mid);
        assert(pins2 =~= pins2.drop_last().push(pins2.last()));
        assert(pins =~= front.push(pins.last()));
        assert(after.dom() =~= before.dom());
        assert forall|i: int|
            0 <= i < pins.len() && before.dom().contains((#[trigger] pins[i]).particle_id)
                && is_last_pin_on_its_particle(pins, i) implies pins[i].holds(
            after[pins[i].particle_id],
        ) by {
            if i < pins.len() - 1 {
                assert(front[i] == pins[i]);
                assert(pins[pins.len() - 1].particle_id != pins[i].particle_id);
                assert forall|j: int| i < j < front.len() implies (#[trigger] front[j]).particle_id
                    != front[i].particle_id by {
                    assert(pins[j].particle_id != pins[i].particle_id);
                }
                assert(is_last_pin_on_its_particle(front, i));
                assert(front[i].holds(mid[front[i].particle_id]));
            }
        }
        assert forall|k: ParticleKey|
            before.dom().contains(k) && (forall|i: int|
                0 <= i < pins.len() ==> (#[trigger] pins[i]).particle_id != k) implies #[trigger] after[k]
            == before[k] by {
            assert(pins[pins.len() - 1].particle_id != k);
            assert forall|i: int| 0 <= i < front.len() implies (#[trigger] front[i]).particle_id
                != k by {
                assert(pins[i].particle_id != k);
            }
        }
    } else {
        assert(pins2 =~= pins);
    }
}

/// A pinned particle is where its pin holds it after every step. Whatever
/// the behaviours, the drag, the springs on the particle and the number
/// of passes over them: the step leaves the pins as they were, and leaves
/// each particle that the object holds at the point of the last pin on it,
/// with no motion of its own.
pub proof fn pinned_particle_is_held<M: Arithmetic, B: ParticleBehaviour2D<M>>(
    m: &M,
    behaviors: Seq<B>,
    iterations: nat,
    drag: Scalar,
    before: ObjectState<PinConstraint2D>,
    after: ObjectState<PinConstraint2D>,
    i: int,
)
    requires
        object_steps(m, behaviors, iterations, drag, before, after),
        0 <= i < before.constraints.len(),
        before.particles.dom().contains(before.constraints[i].particle_id),
        is_last_pin_on_its_particle(before.constraints, i),
    ensures
        after.constraints == before.constraints,
        after.particles.dom() == before.particles.dom(),
        after.particles[before.constraints[i].particle_id].position
            == before.constraints[i].position,
        after.particles[before.constraints[i].particle_id].last_position
            == before.constraints[i].position,
{
    let w = choose|w: StepStages<PinConstraint2D>| #[trigger]
        object_steps_by(m, behaviors, iterations, drag, before, w, after);
    pins_hold_once_enforced(before.constraints, w.integrated, w.constraints, w.held);
    immovable_particle_stays(
        m,
        iterations,
        Mesh { springs: before.springs, particles: w.held },
        Mesh { springs: after.springs, particles: w.relaxed },
    );
    pins_hold_once_enforced(w.constraints, w.relaxed, after.constraints, after.particles);
}

/// A spring that does not find both its endpoints changes nothing, and a
/// pass over the springs goes as if that spring were not among them.
pub proof fn stale_spring_does_nothing<M: Arithmetic>(
    m: &M,
    ss: Seq<Spring2D>,
    before: Particles,
    ss2: Seq<Spring2D>,
    after: Particles,
    i: int,
)
    requires
        relaxes_pass(m, ss, before, ss2, after),
        0 <= i < ss.len(),
        !spring_is_live(ss[i], before),
    ensures
        ss2[i] == ss[i],
        relaxes_pass(m, ss.remove(i), before, ss2.remove(i), after),
    decreases ss.len(),
{
    let mid = choose|mid: Particles|
        relaxes_pass(m, ss.drop_last(), before, ss2.drop_last(), mid) && #[trigger] relaxes_one(
            m,
            ss.last(),
            mid,
            ss2.last(),
            after,
        );
    pass_spares_immovable(m, ss.drop_last(), before, ss2.drop_last(), mid);
    if i == ss.len() - 1 {
        assert(!spring_is_live(ss.last(), mid));
        assert(ss.remove(i) =~= ss.drop_last());
        assert(ss2.remove(i) =~= ss2.drop_last());
    } else {
        assert(ss.drop_last()[i] == ss[i]);
        stale_spring_does_nothing(m, ss.drop_last(), before, ss2.drop_last(), mid, i);
        let shorter = ss.remove(i);
        let shorter2 = ss2.remove(i);
        assert(shorter.drop_last() =~= ss.drop_last().remove(i));
        assert(shorter2.drop_last() =~= ss2.drop_last().remove(i));
        assert(shorter.last() == ss.last() && shorter2.last() == ss2.last());
        assert(relaxes_pass(m, shorter.drop_last(), before, shorter2.drop_last(), mid)
            && relaxes_one(m, shorter.last(), mid, shorter2.last(), after));
    }
}

/// A spring on a removed particle is harmless: if a spring does not find
/// both its endpoints when the relaxation begins, every pass goes as if
/// that spring were not in the list. The particles end where they would
/// have ended without it, and the spring itself is not touched.
pub proof fn stale_spring_is_never_felt<M: Arithmetic>(
    m: &M,
    passes: nat,
    before: Mesh,
    after: Mesh,
    i: int,
)
    requires
        relaxes_passes(m, passes, before, after),
        0 <= i < before.springs.len(),
        !spring_is_live(before.springs[i], before.particles),
    ensures
        after.springs.len() == before.springs.len(),
        after.springs[i] == before.springs[i],
        relaxes_passes(
            m,
            passes,
            Mesh { springs: before.springs.remove(i), particles: before.particles },
            Mesh { springs: after.springs.remove(i), particles: after.particles },
        ),
    decreases passes,
{
    let less = Mesh { springs: before.springs.remove(i), particles: before.particles };
    if passes > 0 {
        let mid = choose|mid: Mesh|
            relaxes_passes(m, (passes - 1) as nat, before, mid) && #[trigger] relaxes_pass(
                m,
                mid.springs,
                mid.particles,
                after.springs,
                after.particles,
            );
        stale_spring_is_never_felt(m, (passes - 1) as nat, before, mid, i);
        immovable_particle_stays(m, (passes - 1) as nat, before, mid);
        stale_spring_does_nothing(m, mid.springs, mid.particles, after.springs, after.particles, i);
        let less_mid = Mesh { springs: mid.springs.remove(i), particles: mid.particles };
        let less_after = Mesh { springs: after.springs.remove(i), particles: after.particles };
        assert(relaxes_passes(m, (passes - 1) as nat, less, less_mid) && relaxes_pass(
            m,
            less_mid.springs,
            less_mid.particles,
            less_after.springs,
            less_after.particles,
        ));
    } else {
        assert(after == before);
    }
}

/// A step of an object with a spring on a removed particle is the step of
/// the same object without that spring: the particles end in the same
/// state, and so do the constraints and the other springs.
pub proof fn step_ignores_stale_spring<
    M: Arithmetic,
    B: ParticleBehaviour2D<M>,
    C: ParticleConstraint2D,
>(
    m: &M,
    behaviors: Seq<B>,
    iterations: nat,
    drag: Scalar,
    before: ObjectState<C>,
    after: ObjectState<C>,
    i: int,
)
    requires
        object_steps(m, behaviors, iterations, drag, before, after),
        0 <= i < before.springs.len(),
        !spring_is_live(before.springs[i], before.particles),
    ensures
        after.springs.len() == before.springs.len(),
        after.springs[i] == before.springs[i],
        object_steps(
            m,
            behaviors,
            iterations,
            drag,
            ObjectState { springs: before.springs.remove(i), ..before },
            ObjectState { springs: after.springs.remove(i), ..after },
        ),
{
    let w = choose|w: StepStages<C>| #[trigger]
        object_steps_by(m, behaviors, iterations, drag, before, w, after);
    enforcing_keeps_identity_and_mass(before.constraints, w.integrated, w.constraints, w.held);
    assert(!spring_is_live(before.springs[i], w.held));
    stale_spring_is_never_felt(
        m,
        iterations,
        Mesh { springs: before.springs, particles: w.held },
        Mesh { springs: after.springs, particles: w.relaxed },
        i,
    );
    assert(object_steps_by(
        m,
        behaviors,
        iterations,
        drag,
        ObjectState { springs: before.springs.remove(i), ..before },
        w,
        ObjectState { springs: after.springs.remove(i), ..after },
    ));
}

/// The behaviours leave a particle its key, its mass and its place.
pub proof fn gathering_changes_force_only<M: Arithmetic, B: ParticleBehaviour2D<M>>(
    m: &M,
    behaviors: Seq<B>,
    p: Particle2D,
    q: Particle2D,
)
    requires
        gathers(m, behaviors, p, q),
    ensures
        q == p.with_force(q.force),
    decreases behaviors.len(),
{
    if behaviors.len() > 0 {
        let mid = choose|mid: Particle2D|
            gathers(m, behaviors.drop_last(), p, mid) && #[trigger] behaviors.last().applies(
                m,
                mid,
                q,
            ) && q == mid.with_force(q.force);
        gathering_changes_force_only(m, behaviors.drop_last(), p, mid);
    }
}

/// Enforcing constraints leaves every particle its key and its mass, and
/// every constraint its particle.
pub proof fn enforcing_keeps_identity_and_mass<C: ParticleConstraint2D>(
    cs: Seq<C>,
    before: Particles,
    cs2: Seq<C>,
    after: Particles,
)
    requires
        enforces_all(cs, before, cs2, after),
    ensures
        after.dom() == before.dom(),
        cs2.len() == cs.len(),
        forall|i: int| 0 <= i < cs.len() ==> (#[trigger] cs2[i]).target() == cs[i].target(),
        forall|k: ParticleKey| #[trigger]
            before.dom().contains(k) ==> after[k] == before[k].placed(
                after[k].position,
                after[k].last_position,
            ),
    decreases cs.len(),
{
    if cs.len() > 0 {
        let mid = choose|mid: Particles|
            enforces_all(cs.drop_last(), before, cs2.drop_last(), mid) && #[trigger] enforces_one(
                cs.last(),
                mid,
                cs2.last(),
                after,
            );
        enforcing_keeps_identity_and_mass(cs.drop_last(), before, cs2.drop_last(), mid);
        assert(after.dom() =~= before.dom());
        assert forall|i: int| 0 <= i < cs.len() implies (#[trigger] cs2[i]).target()
            == cs[i].target() by {
            if i < cs.len() - 1 {
                assert(cs2.drop_last()[i] == cs2[i] && cs.drop_last()[i] == cs[i]);
            }
        }
        assert forall|k: ParticleKey| #[trigger] before.dom().contains(k) implies after[k]
            == before[k].placed(after[k].position, after[k].last_position) by {
            assert(mid.dom().contains(k));
        }
    }
}

/// Relaxing springs changes where particles are, and nothing else of them.
pub proof fn relaxing_changes_positions_only<M: Arithmetic>(
    m: &M,
    passes: nat,
    before: Mesh,
    after: Mesh,
)
    requires
        relaxes_passes(m, passes, before, after),
    ensures
        after.particles.dom() == before.particles.dom(),
        forall|k: ParticleKey| #[trigger]
            before.particles.dom().contains(k) ==> after.particles[k]
                == before.particles[k].moved_to(after.particles[k].position),
    decreases passes,
{
    if passes > 0 {
        let mid = choose|mid: Mesh|
            relaxes_passes(m, (passes - 1) as nat, before, mid) && #[trigger] relaxes_pass(
                m,
                mid.springs,
                mid.particles,
                after.springs,
                after.particles,
            );
        relaxing_changes_positions_only(m, (passes - 1) as nat, before, mid);
        pass_changes_positions_only(m, mid.springs, mid.particles, after.springs, after.particles);
        assert forall|k: ParticleKey| #[trigger]
            before.particles.dom().contains(k) implies after.particles[k]
            == before.particles[k].moved_to(after.particles[k].position) by {
            assert(mid.particles.dom().contains(k));
        }
    }
}

/// One pass over the springs changes where particles are, and nothing else
/// of them.
pub proof fn pass_changes_positions_only<M: Arithmetic>(
    m: &M,
    ss: Seq<Spring2D>,
    before: Particles,
    ss2: Seq<Spring2D>,
    after: Particles,
)
    requires
        relaxes_pass(m, ss, before, ss2, after),
    ensures
        after.dom() == before.dom(),
        forall|k: ParticleKey| #[trigger]
            before.dom().contains(k) ==> after[k] == before[k].moved_to(after[k].position),
    decreases ss.len(),
{
    if ss.len() > 0 {
        let mid = choose|mid: Particles|
            relaxes_pass(m, ss.drop_last(), before, ss2.drop_last(), mid) && #[trigger] relaxes_one(
                m,
                ss.last(),
                mid,
                ss2.last(),
                after,
            );
        pass_changes_positions_only(m, ss.drop_last(), before, ss2.drop_last(), mid);
        let s = ss.last();
        if spring_is_live(s, mid) {
            let a = s.particle_a_id;
            let b = s.particle_b_id;
            let w = choose|w: Relaxation| #[trigger]
                ss2.last().relaxes_by(m, mid[a], mid[b], w, after[a], after[b]);
            assert(after.dom() =~= mid.dom());
        }
        assert forall|k: ParticleKey| #[trigger] before.dom().contains(k) implies after[k]
            == before[k].moved_to(after[k].position) by {
            assert(mid.dom().contains(k));
        }
    }
}

/// A step never changes which particles an object holds, nor the key, the
/// mass or the inverse mass of any of them; it leaves no force behind; and
/// it keeps the endpoints of every spring and the particle of every
/// constraint.
pub proof fn step_keeps_identity_and_mass<
    M: Arithmetic,
    B: ParticleBehaviour2D<M>,
    C: ParticleConstraint2D,
>(
    m: &M,
    behaviors: Seq<B>,
    iterations: nat,
    drag: Scalar,
    before: ObjectState<C>,
    after: ObjectState<C>,
)
    requires
        object_steps(m, behaviors, iterations, drag, before, after),
    ensures
        after.particles.dom() == before.particles.dom(),
        forall|k: ParticleKey| #[trigger]
            before.particles.dom().contains(k) ==> {
                &&& after.particles[k].id == before.particles[k].id
                &&& after.particles[k].weight == before.particles[k].weight
                &&& after.particles[k].inv_weight == before.particles[k].inv_weight
                &&& after.particles[k].force == Vector2D::zero_spec()
            },
        after.springs.len() == before.springs.len(),
        forall|i: int|
            0 <= i < before.springs.len() ==> (#[trigger] after.springs[i]).particle_a_id
                == before.springs[i].particle_a_id && after.springs[i].particle_b_id
                == before.springs[i].particle_b_id,
        after.constraints.len() == before.constraints.len(),
        forall|i: int|
            0 <= i < before.constraints.len() ==> (#[trigger] after.constraints[i]).target()
                == before.constraints[i].target(),
{
    let w = choose|w: StepStages<C>| #[trigger]
        object_steps_by(m, behaviors, iterations, drag, before, w, after);
    assert forall|k: ParticleKey| #[trigger] before.particles.dom().contains(k) implies {
        &&& w.integrated[k].id == before.particles[k].id
        &&& w.integrated[k].weight == before.particles[k].weight
        &&& w.integrated[k].inv_weight == before.particles[k].inv_weight
        &&& w.integrated[k].force == Vector2D::zero_spec()
    } by {
        let pushed = choose|pushed: Particle2D|
            #[trigger] gathers(m, behaviors, before.particles[k], pushed) && pushed.integrates(
                m,
                drag,
                w.integrated[k],
            );
        gathering_changes_force_only(m, behaviors, before.particles[k], pushed);
        let v = choose|v: Integration| #[trigger]
            pushed.integrates_by(m, drag, v, w.integrated[k]);
    }
    enforcing_keeps_identity_and_mass(before.constraints, w.integrated, w.constraints, w.held);
    let held = Mesh { springs: before.springs, particles: w.held };
    let relaxed = Mesh { springs: after.springs, particles: w.relaxed };
    immovable_particle_stays(m, iterations, held, relaxed);
    relaxing_changes_positions_only(m, iterations, held, relaxed);
    enforcing_keeps_identity_and_mass(w.constraints, w.relaxed, after.constraints, after.particles);
    assert forall|k: ParticleKey| #[trigger] before.particles.dom().contains(k) implies {
        &&& after.particles[k].id == before.particles[k].id
        &&& after.particles[k].weight == before.particles[k].weight
        &&& after.particles[k].inv_weight == before.particles[k].inv_weight
        &&& after.particles[k].force == Vector2D::zero_spec()
    } by {
        assert(w.integrated.dom().contains(k));
        assert(w.held.dom().contains(k));
        assert(w.relaxed.dom().contains(k));
    }
}

} // verus!
