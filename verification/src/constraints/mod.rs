//! Constraints: what holds of one particle after every step.
use vstd::prelude::*;
use crate::particle2d::{Particle2D, ParticleKey};

pub mod pin_constraint;

pub use pin_constraint::PinConstraint2D;

verus! {

/// A rule on the position of one particle. An object binds a constraint to
/// its particle when the constraint is added, and enforces it after the
/// particles were integrated and again after the springs were relaxed.
pub trait ParticleConstraint2D: Sized {
    /// The key of the particle that the constraint is about.
    spec fn target(&self) -> ParticleKey;

    /// `after` is the constraint `self` once bound to `particle`.
    spec fn binds(&self, particle: Particle2D, after: Self) -> bool;

    /// Enforcing the constraint `self` on `p` leaves the constraint
    /// `after` and the particle `q`.
    spec fn enforces(&self, p: Particle2D, after: Self, q: Particle2D) -> bool;

    /// Binds the constraint to its particle: takes from the particle what
    /// the constraint is to keep.
    fn init_internal(&mut self, particle: &Particle2D)
        ensures
            old(self).binds(*particle, *final(self)),
            final(self).target() == old(self).target(),
    ;

    /// The key of the particle that the constraint is about.
    fn get_particle_id(&self) -> (r: ParticleKey)
        ensures
            r == self.target(),
    ;

    /// Enforces the constraint on its particle. Only where the particle
    /// is, and where it was, may change.
    fn apply(&mut self, particle: &mut Particle2D)
        ensures
            old(self).enforces(*old(particle), *final(self), *final(particle)),
            final(self).target() == old(self).target(),
            *final(particle) == old(particle).placed(
                final(particle).position,
                final(particle).last_position,
            ),
    ;
}

} // verus!
