//! Point masses.
use vstd::prelude::*;
use crate::arithmetic::{is_quotient, Arithmetic};
use crate::scalar::{Scalar, ONE_BITS};
use crate::vector2d::Vector2D;

verus! {

/// The key under which a particle store holds a particle. A key names one
/// particle from its creation to its removal; afterwards it names nothing.
pub type ParticleKey = slotmap::DefaultKey;

/// The store's key type, taken as opaque.
#[verifier::external_type_specification]
#[verifier::external_body]
pub struct ExDefaultKey(slotmap::DefaultKey);

/// A point mass: where it is, where it was one step ago, the force gathered
/// for the coming step, and its mass with the reciprocal of that mass.
///
/// An inverse mass of zero marks a particle that nothing displaces.
#[derive(Clone, Copy, Debug)]
pub struct Particle2D {
    pub id: ParticleKey,
    pub position: Vector2D,
    pub last_position: Vector2D,
    pub force: Vector2D,
    pub weight: Scalar,
    pub inv_weight: Scalar,
}

/// The intermediate vectors of one integration step, in the order in which
/// they are computed.
pub struct Integration {
    /// `position - last_position`: the motion of the last step.
    pub velocity: Vector2D,
    /// `velocity * drag`: the part of that motion which drag takes away.
    pub damping: Vector2D,
    /// `last_position + damping`.
    pub damped_last: Vector2D,
    /// `position - damped_last`: the motion that is kept.
    pub kept: Vector2D,
    /// `force * inv_weight`: what the gathered force adds.
    pub push: Vector2D,
    /// `kept + push`: the motion of this step.
    pub delta: Vector2D,
}

impl Particle2D {
    /// The particle that `new` makes: at rest at `position`, no force, mass one.
    pub open spec fn new_spec(id: ParticleKey, position: Vector2D) -> Particle2D {
        Particle2D {
            id,
            position,
            last_position: position,
            force: Vector2D::zero_spec(),
            weight: Scalar { bits: ONE_BITS },
            inv_weight: Scalar { bits: ONE_BITS },
        }
    }

    /// Whether the particle is immovable: its inverse mass is zero.
    pub open spec fn is_immovable(self) -> bool {
        self.inv_weight.is_zero_spec()
    }

    /// The inverse mass belongs to the mass: it is the untouched pair of a
    /// new particle, or exactly zero for a mass of zero, or what the backend
    /// gives for `1 / weight`.
    pub open spec fn mass_consistent<M: Arithmetic>(self, m: &M) -> bool {
        ||| self.weight.bits == ONE_BITS && self.inv_weight.bits == ONE_BITS
        ||| self.weight.is_zero_spec() && self.inv_weight.bits == 0
        ||| !self.weight.is_zero_spec() && is_quotient(
            m,
            Scalar { bits: ONE_BITS },
            self.weight,
            self.inv_weight,
        )
    }

    /// `q` is the particle `self` given the mass `weight`: a mass of zero
    /// gives an inverse mass of exactly zero, any other mass the backend's
    /// `1 / weight`; nothing else changes.
    pub open spec fn reweighs<M: Arithmetic>(self, m: &M, weight: Scalar, q: Particle2D) -> bool {
        &&& q == Particle2D { weight, inv_weight: q.inv_weight, ..self }
        &&& weight.is_zero_spec() ==> q.inv_weight.bits == 0
        &&& !weight.is_zero_spec() ==> is_quotient(
            m,
            Scalar { bits: ONE_BITS },
            weight,
            q.inv_weight,
        )
    }

    /// The same particle somewhere else.
    pub open spec fn moved_to(self, position: Vector2D) -> Particle2D {
        Particle2D { position, ..self }
    }

    /// The same particle with another force gathered on it.
    pub open spec fn with_force(self, force: Vector2D) -> Particle2D {
        Particle2D { force, ..self }
    }

    /// The same particle at `position`, having been at `last_position`.
    pub open spec fn placed(self, position: Vector2D, last_position: Vector2D) -> Particle2D {
        Particle2D { position, last_position, ..self }
    }

    /// `w` holds the intermediate vectors of one integration step of `self`
    /// under `drag`, and `q` is the particle after that step.
    pub open spec fn integrates_by<M: Arithmetic>(
        self,
        m: &M,
        drag: Scalar,
        w: Integration,
        q: Particle2D,
    ) -> bool {
        &&& Vector2D::is_difference(m, self.position, self.last_position, w.velocity)
        &&& Vector2D::is_scaled(m, w.velocity, drag, w.damping)
        &&& Vector2D::is_sum(m, self.last_position, w.damping, w.damped_last)
        &&& Vector2D::is_difference(m, self.position, w.damped_last, w.kept)
        &&& Vector2D::is_scaled(m, self.force, self.inv_weight, w.push)
        &&& Vector2D::is_sum(m, w.kept, w.push, w.delta)
        &&& Vector2D::is_sum(m, self.position, w.delta, q.position)
        &&& q.last_position == self.position
        &&& q.force == Vector2D::zero_spec()
        &&& q.id == self.id
        &&& q.weight == self.weight
        &&& q.inv_weight == self.inv_weight
    }

    /// `q` is the particle one integration step after `self` under `drag`:
    ///
    /// ```text
    /// last_position += (position - last_position) * drag
    /// delta          = (position - last_position) + force * inv_weight
    /// last_position  = position
    /// position       = position + delta
    /// force          = zero
    /// ```
    pub open spec fn integrates<M: Arithmetic>(self, m: &M, drag: Scalar, q: Particle2D) -> bool {
        exists|w: Integration| #[trigger] self.integrates_by(m, drag, w, q)
    }

    /// A particle at rest at `position`, with no force on it and mass one.
    pub fn new(id: ParticleKey, position: &Vector2D) -> (r: Particle2D)
        ensures
            r == Self::new_spec(id, *position),
    {
        Particle2D {
            id,
            position: *position,
            last_position: *position,
            force: Vector2D::zero(),
            weight: Scalar::one(),
            inv_weight: Scalar::one(),
        }
    }

    /// Gives the particle the mass `weight`. A mass of zero gives an inverse
    /// mass of exactly zero, with no division; any other mass gives the
    /// backend's `1 / weight`.
    pub fn set_weight<M: Arithmetic>(&mut self, m: &M, weight: Scalar)
        ensures
            old(self).reweighs(m, weight, *final(self)),
            final(self).mass_consistent(m),
            weight.is_zero_spec() ==> final(self).is_immovable(),
    {
        self.weight = weight;
        if weight.is_zero() {
            self.inv_weight = Scalar::zero();
        } else {
            self.inv_weight = m.quotient(Scalar::one(), weight);
        }
    }

    /// Where the particle is.
    pub fn get_position(&self) -> (r: &Vector2D)
        ensures
            *r == self.position,
    {
        &self.position
    }

    /// The key the particle was created under.
    pub fn get_id(&self) -> (r: ParticleKey)
        ensures
            r == self.id,
    {
        self.id
    }

    /// The mass of the particle.
    pub fn get_weight(&self) -> (r: Scalar)
        ensures
            r == self.weight,
    {
        self.weight
    }

    /// Adds `force` to the force gathered for the coming step; nothing else
    /// changes.
    pub fn add_force<M: Arithmetic>(&mut self, m: &M, force: &Vector2D)
        ensures
            Vector2D::is_sum(m, old(self).force, *force, final(self).force),
            *final(self) == old(self).with_force(final(self).force),
    {
        self.force.add_assign(m, *force);
    }

    /// Advances the particle by one integration step under `drag`.
    pub fn update<M: Arithmetic>(&mut self, m: &M, drag: Scalar)
        ensures
            old(self).integrates(m, drag, *final(self)),
            final(self).last_position == old(self).position,
            final(self).force == Vector2D::zero_spec(),
            final(self).id == old(self).id,
            final(self).weight == old(self).weight,
            final(self).inv_weight == old(self).inv_weight,
    {
        let ghost before = *self;
        let velocity = self.position.sub(m, self.last_position);
        let damping = velocity.scale(m, drag);
        let damped_last = self.last_position.add(m, damping);
        let kept = self.position.sub(m, damped_last);
        let push = self.force.scale(m, self.inv_weight);
        let delta = kept.add(m, push);
        let next = self.position.add(m, delta);
        self.last_position = self.position;
        self.position = next;
        self.force.clear();
        proof {
            let w = Integration { velocity, damping, damped_last, kept, push, delta };
            assert(before.integrates_by(m, drag, w, *self));
        }
    }
}

} // verus!
