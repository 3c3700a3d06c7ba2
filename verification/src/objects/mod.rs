//! Objects: particles with the springs and constraints that make one body.
use vstd::prelude::*;
use crate::arithmetic::Arithmetic;
use crate::behaviors::ParticleBehaviour2D;
use crate::constraints::ParticleConstraint2D;
use crate::objects::step::{
    enforces_all, enforces_next, enforces_one, gathers, gathers_next, object_steps,
    object_steps_by, particle_steps, particles_step, relaxes_another, relaxes_next, relaxes_one,
    relaxes_pass, relaxes_passes, Mesh, ObjectState, StepStages,
};
use crate::scalar::Scalar;
use crate::particle2d::{Particle2D, ParticleKey};
use crate::spring::Spring2D;
use crate::store::{keys_match, no_entries, same_key, ParticleStore, STORE_LIMIT};
use crate::vector2d::Vector2D;

pub mod step;
pub mod utils;

pub use utils::{create_line_from_endpoints, create_line_from_points, create_sheet};

verus! {

/// Why an object refused what it was asked to take.
#[derive(Clone, Copy, Debug, PartialEq, Eq, Structural)]
pub enum ObjectError {
    /// The constraint is about a particle that the object does not hold.
    UnknownParticle,
}

/// One body in a world: a rope, a sheet of cloth. It owns its particles,
/// and its springs and constraints name them by key.
pub struct VerletObject2D<C: ParticleConstraint2D> {
    tag: &'static str,
    particles: ParticleStore,
    springs: Vec<Spring2D>,
    constraints: Vec<C>,
}

/// Whether one of `springs` joins `a` and `b`, in either direction.
pub open spec fn has_spring(springs: Seq<Spring2D>, a: ParticleKey, b: ParticleKey) -> bool {
    exists|i: int| 0 <= i < springs.len() && (#[trigger] springs[i]).joins(a, b)
}

/// `springs` after `spring` was offered to it: taken at the end, unless a
/// spring already joins the same two particles.
pub open spec fn with_spring(springs: Seq<Spring2D>, spring: Spring2D) -> Seq<Spring2D> {
    if has_spring(springs, spring.particle_a_id, spring.particle_b_id) {
        springs
    } else {
        springs.push(spring)
    }
}

/// `springs` after each of `offered` was offered to it, the last first.
pub open spec fn with_springs(springs: Seq<Spring2D>, offered: Seq<Spring2D>) -> Seq<Spring2D>
    decreases offered.len(),
{
    if offered.len() == 0 {
        springs
    } else {
        with_springs(with_spring(springs, offered.last()), offered.drop_last())
    }
}

/// No two of `springs` join the same two particles.
pub open spec fn springs_distinct(springs: Seq<Spring2D>) -> bool {
    forall|i: int, j: int|
        0 <= i < j < springs.len() ==> !(#[trigger] springs[i]).joins(
            (#[trigger] springs[j]).particle_a_id,
            springs[j].particle_b_id,
        )
}

impl<C: ParticleConstraint2D> VerletObject2D<C> {
    /// The name the object was made with.
    pub closed spec fn tag(&self) -> &'static str {
        self.tag
    }

    /// The particles of the object, by key.
    pub closed spec fn particles(&self) -> Map<ParticleKey, Particle2D> {
        self.particles.entries()
    }

    /// The keys of the particles, in the order of their creation.
    pub closed spec fn order(&self) -> Seq<ParticleKey> {
        self.particles.order()
    }

    /// The springs of the object, in the order in which they were taken.
    pub closed spec fn springs(&self) -> Seq<Spring2D> {
        self.springs@
    }

    /// The constraints of the object, in the order in which they were added.
    pub closed spec fn constraints(&self) -> Seq<C> {
        self.constraints@
    }

    /// Whether the object holds a particle under `key`.
    pub open spec fn contains(&self, key: ParticleKey) -> bool {
        self.particles().dom().contains(key)
    }

    /// The object is in order: the walk visits each particle once, every
    /// particle carries its key, and no two springs join the same two
    /// particles.
    pub open spec fn wf(&self) -> bool {
        keys_match(self.particles(), self.order()) && springs_distinct(self.springs())
    }

    /// An object with no particles, springs or constraints.
    pub fn new(tag: &'static str) -> (r: Self)
        ensures
            r.wf(),
            r.tag() == tag,
            r.particles() == no_entries(),
            r.order().len() == 0,
            r.springs().len() == 0,
            r.constraints().len() == 0,
    {
        VerletObject2D {
            tag,
            particles: ParticleStore::new(),
            springs: Vec::new(),
            constraints: Vec::new(),
        }
    }

    /// The name the object was made with.
    pub fn get_tag(&self) -> (r: &'static str)
        ensures
            r == self.tag(),
    {
        self.tag
    }

    /// The number of particles.
    pub fn particle_count(&self) -> (r: usize)
        ensures
            r == self.order().len(),
    {
        self.particles.len()
    }

    /// Creates a particle at rest at `position`, with no force on it and
    /// mass one, and returns its key: one that the object did not hold.
    /// The particle is the last in the walk. Nothing else changes.
    pub fn create_particle(&mut self, position: &Vector2D) -> (key: ParticleKey)
        requires
            old(self).wf(),
            old(self).order().len() < STORE_LIMIT,
        ensures
            final(self).wf(),
            !old(self).contains(key),
            final(self).particles() == old(self).particles().insert(
                key,
                Particle2D::new_spec(key, *position),
            ),
            final(self).order() == old(self).order().push(key),
            final(self).springs() == old(self).springs(),
            final(self).constraints() == old(self).constraints(),
            final(self).tag() == old(self).tag(),
    {
        self.particles.create(position)
    }

    /// Discards the particle under `particle_id`, if there is one. Springs
    /// and constraints that name it stay, and from now on do nothing.
    pub fn remove_particle(&mut self, particle_id: ParticleKey)
        requires
            old(self).wf(),
        ensures
            final(self).wf(),
            final(self).particles() == old(self).particles().remove(particle_id),
            !final(self).contains(particle_id),
            !old(self).contains(particle_id) ==> final(self).order() == old(self).order(),
            old(self).contains(particle_id) ==> exists|i: int|
                0 <= i < old(self).order().len() && old(self).order()[i] == particle_id
                    && #[trigger] old(self).order().remove(i) == final(self).order(),
            final(self).springs() == old(self).springs(),
            final(self).constraints() == old(self).constraints(),
            final(self).tag() == old(self).tag(),
    {
        self.particles.remove(particle_id);
        proof {
            if old(self).contains(particle_id) {
                assert(old(self).particles.contains(particle_id));
                let i = choose|i: int|
                    0 <= i < old(self).particles.order().len() && old(self).particles.order()[i]
                        == particle_id && #[trigger] old(self).particles.order().remove(i)
                        == self.particles.order();
                assert(old(self).order().remove(i) == self.order());
            }
        }
    }

    /// The particles, in the order of their creation.
    pub fn get_particles(&self) -> (r: Vec<&Particle2D>)
        requires
            self.wf(),
        ensures
            r@.len() == self.order().len(),
            forall|i: int|
                0 <= i < r@.len() ==> *#[trigger] r@[i] == self.particles()[self.order()[i]],
    {
        self.particles.get_all()
    }

    /// The particle under `key`, if the object holds one.
    pub fn get_particle(&self, key: ParticleKey) -> (r: Option<&Particle2D>)
        ensures
            r == if self.contains(key) {
                Some(&self.particles()[key])
            } else {
                None
            },
    {
        self.particles.get(key)
    }

    /// Gives the particle under `particle_id` the mass `weight`. A mass of
    /// zero makes the particle immovable. Nothing changes where the object
    /// does not hold the particle.
    pub fn set_particle_weight<M: Arithmetic>(
        &mut self,
        m: &M,
        particle_id: ParticleKey,
        weight: Scalar,
    )
        requires
            old(self).wf(),
        ensures
            final(self).wf(),
            final(self).particles().dom() == old(self).particles().dom(),
            old(self).contains(particle_id) ==> old(self).particles()[particle_id].reweighs(
                m,
                weight,
                final(self).particles()[particle_id],
            ) && final(self).particles() == old(self).particles().insert(
                particle_id,
                final(self).particles()[particle_id],
            ),
            !old(self).contains(particle_id) ==> final(self).particles() == old(
                self,
            ).particles(),
            final(self).order() == old(self).order(),
            final(self).springs() == old(self).springs(),
            final(self).constraints() == old(self).constraints(),
            final(self).tag() == old(self).tag(),
    {
        match self.particles.get(particle_id) {
            Some(found) => {
                let mut p = *found;
                assert(self.particles.contains(particle_id));
                p.set_weight(m, weight);
                self.particles.put(p);
            },
            None => {},
        }
    }

    /// Takes the spring, unless the object already has one between the same
    /// two particles, in either direction: then nothing changes.
    pub fn add_spring(&mut self, spring: Spring2D)
        requires
            old(self).wf(),
        ensures
            final(self).wf(),
            final(self).springs() == with_spring(old(self).springs(), spring),
            final(self).particles() == old(self).particles(),
            final(self).order() == old(self).order(),
            final(self).constraints() == old(self).constraints(),
            final(self).tag() == old(self).tag(),
    {
        match self.get_spring(spring.get_particle_a_id(), spring.get_particle_b_id()) {
            None => {
                self.springs.push(spring);
                proof {
                    let before = old(self).springs@;
                    let after = self.springs@;
                    assert forall|i: int, j: int| 0 <= i < j < after.len() implies !(
                    #[trigger] after[i]).joins(
                        (#[trigger] after[j]).particle_a_id,
                        after[j].particle_b_id,
                    ) by {
                        if j < before.len() {
                            assert(after[i] == before[i] && after[j] == before[j]);
                        } else {
                            assert(after[i] == before[i]);
                            assert(!before[i].joins(spring.particle_a_id, spring.particle_b_id));
                        }
                    }
                }
            },
            _ => (),
        }
    }

    /// Takes each of the springs as `add_spring` does, the last first.
    pub fn add_springs(&mut self, mut springs: Vec<Spring2D>)
        requires
            old(self).wf(),
        ensures
            final(self).wf(),
            final(self).springs() == with_springs(old(self).springs(), springs@),
            final(self).particles() == old(self).particles(),
            final(self).order() == old(self).order(),
            final(self).constraints() == old(self).constraints(),
            final(self).tag() == old(self).tag(),
    {
        let ghost offered = springs@;
        let n = springs.len();
        for _i in 0..n
            invariant
                self.wf(),
                springs@.len() == n - _i,
                with_springs(self.springs(), springs@) == with_springs(old(self).springs(), offered),
                self.particles() == old(self).particles(),
                self.order() == old(self).order(),
                self.constraints() == old(self).constraints(),
                self.tag() == old(self).tag(),
        {
            let ghost rest = springs@;
            match springs.pop() {
                Some(s) => {
                    assert(springs@ == rest.drop_last());
                    self.add_spring(s)
                },
                None => (),
            }
        }
    }

    /// The spring between the two particles, in either direction, if the
    /// object has one.
    pub fn get_spring(&self, particle_a_id: ParticleKey, particle_b_id: ParticleKey) -> (r: Option<
        &Spring2D,
    >)
        ensures
            r.is_some() == has_spring(self.springs(), particle_a_id, particle_b_id),
            match r {
                Some(s) => exists|i: int|
                    0 <= i < self.springs().len() && #[trigger] self.springs()[i] == *s && s.joins(
                        particle_a_id,
                        particle_b_id,
                    ) && forall|j: int|
                        0 <= j < i ==> !(#[trigger] self.springs()[j]).joins(
                            particle_a_id,
                            particle_b_id,
                        ),
                None => true,
            },
    {
        let n = self.springs.len();
        for i in 0..n
            invariant
                n == self.springs@.len(),
                forall|j: int|
                    0 <= j < i ==> !(#[trigger] self.springs@[j]).joins(particle_a_id, particle_b_id),
        {
            let s = &self.springs[i];
            let forward = same_key(particle_a_id, s.get_particle_a_id()) && same_key(
                particle_b_id,
                s.get_particle_b_id(),
            );
            let backward = same_key(particle_a_id, s.get_particle_b_id()) && same_key(
                particle_b_id,
                s.get_particle_a_id(),
            );
            if forward || backward {
                assert(self.springs()[i as int] == *s);
                return Some(s);
            }
        }
        None
    }

    /// The springs, in the order in which they were taken.
    pub fn get_springs(&self) -> (r: &Vec<Spring2D>)
        ensures
            r@ == self.springs(),
    {
        &self.springs
    }

    /// The constraints, in the order in which they were added.
    pub fn get_constraints(&self) -> (r: &Vec<C>)
        ensures
            r@ == self.constraints(),
    {
        &self.constraints
    }

    /// Binds the constraint to its particle as the particle is now, and adds
    /// it after the constraints the object has. A constraint on a particle
    /// that the object does not hold is refused, and nothing changes.
    pub fn add_constraint(&mut self, c: C) -> (r: Result<(), ObjectError>)
        requires
            old(self).wf(),
        ensures
            final(self).wf(),
            r.is_ok() == old(self).contains(c.target()),
            r.is_err() ==> r == Err::<(), ObjectError>(ObjectError::UnknownParticle)
                && final(self).constraints() == old(self).constraints(),
            r.is_ok() ==> final(self).constraints().len() == old(self).constraints().len() + 1
                && final(self).constraints().drop_last() == old(self).constraints() && c.binds(
                old(self).particles()[c.target()],
                final(self).constraints().last(),
            ) && final(self).constraints().last().target() == c.target(),
            final(self).particles() == old(self).particles(),
            final(self).order() == old(self).order(),
            final(self).springs() == old(self).springs(),
            final(self).tag() == old(self).tag(),
    {
        let mut c = c;
        let particle_id = c.get_particle_id();
        match self.particles.get(particle_id) {
            Some(p) => {
                c.init_internal(p);
                self.constraints.push(c);
                assert(self.constraints@.drop_last() == old(self).constraints@);
                Ok(())
            },
            None => Err(ObjectError::UnknownParticle),
        }
    }

    /// The particles, springs and constraints of the object.
    pub open spec fn state(&self) -> ObjectState<C> {
        ObjectState {
            particles: self.particles(),
            springs: self.springs(),
            constraints: self.constraints(),
        }
    }

    /// Applies every behaviour to every particle, and integrates each
    /// particle under `drag`.
    pub fn update_particles<M: Arithmetic, B: ParticleBehaviour2D<M>>(
        &mut self,
        m: &M,
        drag: Scalar,
        behaviors: &Vec<B>,
    )
        requires
            old(self).wf(),
        ensures
            final(self).wf(),
            particles_step(m, behaviors@, drag, old(self).particles(), final(self).particles()),
            final(self).order() == old(self).order(),
            final(self).springs() == old(self).springs(),
            final(self).constraints() == old(self).constraints(),
            final(self).tag() == old(self).tag(),
    {
        let keys = self.particles.keys();
        let n = keys.len();
        let ghost start = self.particles.entries();
        for i in 0..n
            invariant
                self.particles.wf(),
                n == keys@.len(),
                keys@ == self.particles.order(),
                start == old(self).particles.entries(),
                self.particles.entries().dom() == start.dom(),
                forall|j: int|
                    0 <= j < i ==> particle_steps(
                        m,
                        behaviors@,
                        drag,
                        start[#[trigger] keys@[j]],
                        self.particles.entries()[keys@[j]],
                    ),
                forall|j: int|
                    i <= j < n ==> self.particles.entries()[#[trigger] keys@[j]] == start[keys@[j]],
                self.particles.order() == old(self).particles.order(),
                self.springs == old(self).springs,
                self.constraints == old(self).constraints,
                self.tag == old(self).tag,
        {
            let k = keys[i];
            let ghost entries = self.particles.entries();
            assert(keys@.contains(keys@[i as int]));
            assert(self.particles.contains(k));
            match self.particles.get(k) {
                Some(found) => {
                    let mut p = *found;
                    let ghost p0 = p;
                    let nb = behaviors.len();
                    for b in 0..nb
                        invariant
                            nb == behaviors@.len(),
                            gathers(m, behaviors@.take(b as int), p0, p),
                            p.id == p0.id,
                    {
                        let ghost mid = p;
                        behaviors[b].apply(m, &mut p);
                        proof {
                            gathers_next(m, behaviors@, b as int, p0, mid, p);
                        }
                    }
                    assert(behaviors@.take(nb as int) == behaviors@);
                    let ghost pushed = p;
                    p.update(m, drag);
                    self.particles.put(p);
                    proof {
                        assert(gathers(m, behaviors@, p0, pushed));
                        assert(particle_steps(m, behaviors@, drag, p0, p));
                        assert forall|j: int| 0 <= j < i + 1 implies particle_steps(
                            m,
                            behaviors@,
                            drag,
                            start[#[trigger] keys@[j]],
                            self.particles.entries()[keys@[j]],
                        ) by {
                            if j < i {
                                assert(keys@[j] != keys@[i as int]);
                            }
                        }
                        assert forall|j: int| i + 1 <= j < n implies self.particles.entries()[
                        #[trigger] keys@[j]] == start[keys@[j]] by {
                            assert(keys@[j] != keys@[i as int]);
                        }
                    }
                },
                None => {},
            }
        }
        proof {
            assert forall|k: ParticleKey| #[trigger]
                start.dom().contains(k) implies particle_steps(
                m,
                behaviors@,
                drag,
                start[k],
                self.particles.entries()[k],
            ) by {
                assert(old(self).particles.contains(k));
                assert(keys@.contains(k));
                let j = choose|j: int| 0 <= j < keys@.len() && keys@[j] == k;
                assert(keys@[j] == k);
            }
        }
    }

    /// Enforces every constraint, the first first. A constraint on a
    /// particle that the object no longer holds does nothing.
    pub fn apply_constraints(&mut self)
        requires
            old(self).wf(),
        ensures
            final(self).wf(),
            enforces_all(
                old(self).constraints(),
                old(self).particles(),
                final(self).constraints(),
                final(self).particles(),
            ),
            final(self).particles().dom() == old(self).particles().dom(),
            final(self).order() == old(self).order(),
            final(self).springs() == old(self).springs(),
            final(self).tag() == old(self).tag(),
    {
        let n = self.constraints.len();
        let ghost cs = self.constraints@;
        let ghost start = self.particles.entries();
        assert(cs.take(0).len() == 0);
        for i in 0..n
            invariant
                self.particles.wf(),
                n == cs.len(),
                cs == old(self).constraints@,
                start == old(self).particles.entries(),
                self.constraints@.len() == n,
                enforces_all(cs.take(i as int), start, self.constraints@.take(i as int), self.particles.entries()),
                forall|j: int| i <= j < n ==> self.constraints@[j] == cs[j],
                self.particles.entries().dom() == start.dom(),
                self.particles.order() == old(self).particles.order(),
                self.springs == old(self).springs,
                self.tag == old(self).tag,
        {
            let ghost mid = self.particles.entries();
            let ghost mid_cs = self.constraints@;
            let particle_id = self.constraints[i].get_particle_id();
            match self.particles.get(particle_id) {
                Some(found) => {
                    let mut p = *found;
                    assert(self.particles.contains(particle_id));
                    self.constraints[i].apply(&mut p);
                    self.particles.put(p);
                },
                None => {},
            }
            proof {
                let c = cs[i as int];
                let c2 = self.constraints@[i as int];
                assert(self.constraints@.len() == n);
                assert(mid_cs[i as int] == c);
                assert(self.constraints@.take(i as int) == mid_cs.take(i as int));
                assert(enforces_one(c, mid, c2, self.particles.entries()));
                enforces_next(cs, start, self.constraints@, i as int, mid, self.particles.entries());
            }
        }
        proof {
            assert(cs.take(n as int) == cs);
            assert(self.constraints@.take(n as int) == self.constraints@);
        }
    }

    /// Relaxes every spring, the first first, and that `num_iterations`
    /// times over. A spring that does not find both its endpoints does
    /// nothing. Springs keep their endpoints.
    pub fn update_springs<M: Arithmetic>(&mut self, m: &M, num_iterations: u32)
        requires
            old(self).wf(),
        ensures
            final(self).wf(),
            relaxes_passes(
                m,
                num_iterations as nat,
                Mesh { springs: old(self).springs(), particles: old(self).particles() },
                Mesh { springs: final(self).springs(), particles: final(self).particles() },
            ),
            final(self).particles().dom() == old(self).particles().dom(),
            final(self).order() == old(self).order(),
            final(self).constraints() == old(self).constraints(),
            final(self).tag() == old(self).tag(),
    {
        let ghost first = Mesh { springs: self.springs@, particles: self.particles.entries() };
        let n = self.springs.len();
        for pass in 0..num_iterations
            invariant
                self.particles.wf(),
                first == (Mesh {
                    springs: old(self).springs@,
                    particles: old(self).particles.entries(),
                }),
                n == first.springs.len(),
                self.springs@.len() == n,
                forall|j: int|
                    0 <= j < n ==> (#[trigger] self.springs@[j]).particle_a_id
                        == first.springs[j].particle_a_id && self.springs@[j].particle_b_id
                        == first.springs[j].particle_b_id,
                relaxes_passes(
                    m,
                    pass as nat,
                    first,
                    Mesh { springs: self.springs@, particles: self.particles.entries() },
                ),
                self.particles.entries().dom() == first.particles.dom(),
                self.particles.order() == old(self).particles.order(),
                self.constraints == old(self).constraints,
                self.tag == old(self).tag,
        {
            let ghost begun = Mesh { springs: self.springs@, particles: self.particles.entries() };
            assert(begun.springs.take(0).len() == 0);
            for i in 0..n
                invariant
                    self.particles.wf(),
                    n == begun.springs.len(),
                    self.springs@.len() == n,
                    forall|j: int|
                        0 <= j < n ==> (#[trigger] self.springs@[j]).particle_a_id
                            == begun.springs[j].particle_a_id && self.springs@[j].particle_b_id
                            == begun.springs[j].particle_b_id,
                    forall|j: int| i <= j < n ==> self.springs@[j] == begun.springs[j],
                    relaxes_pass(
                        m,
                        begun.springs.take(i as int),
                        begun.particles,
                        self.springs@.take(i as int),
                        self.particles.entries(),
                    ),
                    self.particles.entries().dom() == begun.particles.dom(),
                    self.particles.order() == old(self).particles.order(),
                    self.constraints == old(self).constraints,
                    self.tag == old(self).tag,
            {
                let ghost mid = self.particles.entries();
                let ghost mid_springs = self.springs@;
                let s = self.springs[i];
                let found = self.particles.pair(s.get_particle_a_id(), s.get_particle_b_id());
                match found {
                    Some((found_a, found_b)) => {
                        let mut a = found_a;
                        let mut b = found_b;
                        let mut s2 = s;
                        assert(self.particles.contains(s.particle_a_id));
                        assert(self.particles.contains(s.particle_b_id));
                        s2.init_internal(m, &a, &b);
                        s2.update(m, &mut a, &mut b);
                        self.particles.put(a);
                        self.particles.put(b);
                        self.springs[i] = s2;
                        proof {
                            let after = self.particles.entries();
                            assert(after[s.particle_a_id] == a);
                            assert(after[s.particle_b_id] == b);
                            assert(after =~= mid.insert(s.particle_a_id, a).insert(
                                s.particle_b_id,
                                b,
                            ));
                        }
                    },
                    None => {},
                }
                proof {
                    let s_now = self.springs@[i as int];
                    assert(s == begun.springs[i as int]);
                    assert(self.springs@.take(i as int) == mid_springs.take(i as int));
                    assert(relaxes_one(m, s, mid, s_now, self.particles.entries()));
                    relaxes_next(
                        m,
                        begun.springs,
                        begun.particles,
                        self.springs@,
                        i as int,
                        mid,
                        self.particles.entries(),
                    );
                }
            }
            proof {
                assert(begun.springs.take(n as int) == begun.springs);
                assert(self.springs@.take(n as int) == self.springs@);
                let now = Mesh { springs: self.springs@, particles: self.particles.entries() };
                relaxes_another(m, pass as nat, first, begun, now);
            }
        }
        proof {
            let before = old(self).springs@;
            let after = self.springs@;
            assert forall|i: int, j: int| 0 <= i < j < after.len() implies !(#[trigger] after[i]).joins(
                (#[trigger] after[j]).particle_a_id,
                after[j].particle_b_id,
            ) by {
                assert(!before[i].joins(before[j].particle_a_id, before[j].particle_b_id));
            }
        }
    }

    /// Advances the object by one step: behaviours and integration, the
    /// constraints, `num_iterations` passes over the springs, and the
    /// constraints once more.
    pub fn update<M: Arithmetic, B: ParticleBehaviour2D<M>>(
        &mut self,
        m: &M,
        num_iterations: u32,
        drag: Scalar,
        behaviors: &Vec<B>,
    )
        requires
            old(self).wf(),
        ensures
            final(self).wf(),
            object_steps(
                m,
                behaviors@,
                num_iterations as nat,
                drag,
                old(self).state(),
                final(self).state(),
            ),
            final(self).particles().dom() == old(self).particles().dom(),
            final(self).order() == old(self).order(),
            final(self).tag() == old(self).tag(),
    {
        self.update_particles(m, drag, behaviors);
        let ghost integrated = self.particles();
        self.apply_constraints();
        let ghost held = self.particles();
        let ghost constraints = self.constraints();
        self.update_springs(m, num_iterations);
        let ghost relaxed = self.particles();
        self.apply_constraints();
        proof {
            let w = StepStages { integrated, held, constraints, relaxed };
            assert(object_steps_by(
                m,
                behaviors@,
                num_iterations as nat,
                drag,
                old(self).state(),
                w,
                self.state(),
            ));
        }
    }

    /// Discards every particle, spring and constraint. The tag stays.
    pub fn clear(&mut self)
        ensures
            final(self).wf(),
            final(self).particles() == no_entries(),
            final(self).order().len() == 0,
            final(self).springs().len() == 0,
            final(self).constraints().len() == 0,
            final(self).tag() == old(self).tag(),
    {
        self.particles.clear();
        self.springs.clear();
        self.constraints.clear();
    }
}

} // verus!
