//! Pins: particles held at a fixed point.
use vstd::prelude::*;
use crate::constraints::ParticleConstraint2D;
use crate::particle2d::{Particle2D, ParticleKey};
use crate::vector2d::Vector2D;

verus! {

/// Holds a particle at the point where the particle was when the pin was
/// bound to it.
#[derive(Clone, Copy, Debug)]
pub struct PinConstraint2D {
    pub position: Vector2D,
    pub particle_id: ParticleKey,
}

impl PinConstraint2D {
    /// A pin for the particle under `particle_id`, not yet bound: its point
    /// is the origin.
    pub fn new(particle_id: &ParticleKey) -> (r: PinConstraint2D)
        ensures
            r.particle_id == *particle_id,
            r.position == Vector2D::zero_spec(),
    {
        PinConstraint2D { position: Vector2D::default(), particle_id: *particle_id }
    }

    /// Whether the particle is held by the pin: it is at the pin's point,
    /// and was there a step ago, so that it has no motion of its own.
    pub open spec fn holds(self, q: Particle2D) -> bool {
        q.position == self.position && q.last_position == self.position
    }
}

impl ParticleConstraint2D for PinConstraint2D {
    open spec fn target(&self) -> ParticleKey {
        self.particle_id
    }

    /// The pin takes the particle's position as its point.
    open spec fn binds(&self, particle: Particle2D, after: Self) -> bool {
        after.position == particle.position && after.particle_id == self.particle_id
    }

    /// The particle is put at the pin's point, with no motion; the pin
    /// stays as it is.
    open spec fn enforces(&self, p: Particle2D, after: Self, q: Particle2D) -> bool {
        after == *self && q == p.placed(self.position, self.position)
    }

    fn init_internal(&mut self, particle: &Particle2D) {
        self.position.set_v(particle.get_position());
    }

    fn get_particle_id(&self) -> (r: ParticleKey) {
        self.particle_id
    }

    fn apply(&mut self, particle: &mut Particle2D) {
        particle.position.set_v(&self.position);
        particle.last_position.set_v(&self.position);
    }
}

} // verus!
