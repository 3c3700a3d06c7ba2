//! Behaviours: what acts on every particle at every step.
use vstd::prelude::*;
use crate::arithmetic::Arithmetic;
use crate::particle2d::Particle2D;
use crate::scalar::Scalar;

pub mod constant_force_behavior;

pub use constant_force_behavior::ConstantForceBehavior2D;

verus! {

/// A source of force, computing with the arithmetic `M`. A world applies
/// each of its behaviours to every particle once per step, before the
/// particle is integrated.
pub trait ParticleBehaviour2D<M: Arithmetic>: Sized {
    /// `q` is the particle `p` after the behaviour was applied to it.
    spec fn applies(&self, m: &M, p: Particle2D, q: Particle2D) -> bool;

    /// `after` is the behaviour `self` once it was configured for `timestep`.
    spec fn configures(&self, m: &M, timestep: Scalar, after: Self) -> bool;

    /// Applies the behaviour to the particle. A behaviour adds to the force
    /// gathered on the particle and leaves the rest of it alone.
    fn apply(&self, m: &M, p: &mut Particle2D)
        ensures
            self.applies(m, *old(p), *final(p)),
            *final(p) == old(p).with_force(final(p).force),
    ;

    /// Prepares the behaviour for steps of length `timestep`. A world calls
    /// this once, when the behaviour is registered with it.
    fn configure(&mut self, m: &M, timestep: Scalar)
        ensures
            old(self).configures(m, timestep, *final(self)),
    ;
}

} // verus!
