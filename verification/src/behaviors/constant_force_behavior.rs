//! A force that is the same everywhere, such as gravity.
use vstd::prelude::*;
use crate::arithmetic::Arithmetic;
use crate::behaviors::ParticleBehaviour2D;
use crate::particle2d::Particle2D;
use crate::scalar::{Scalar, ONE_BITS};
use crate::vector2d::Vector2D;

verus! {

/// A constant force. What is added to a particle at each step is
/// `scaled_force`, the force times the timestep the behaviour was last
/// configured for. Until it is configured, or its force is set, a new
/// behaviour adds nothing.
#[derive(Clone, Copy, Debug)]
pub struct ConstantForceBehavior2D {
    pub force: Vector2D,
    pub scaled_force: Vector2D,
    pub timestep: Scalar,
}

impl ConstantForceBehavior2D {
    /// The behaviour that `new` makes.
    pub open spec fn new_spec(force_x: Scalar, force_y: Scalar) -> ConstantForceBehavior2D {
        ConstantForceBehavior2D {
            force: Vector2D { x: force_x, y: force_y },
            scaled_force: Vector2D::zero_spec(),
            timestep: Scalar { bits: ONE_BITS },
        }
    }

    /// A behaviour for the force `(force_x, force_y)`, with a timestep of
    /// one and nothing to add yet.
    pub fn new(force_x: Scalar, force_y: Scalar) -> (r: ConstantForceBehavior2D)
        ensures
            r == Self::new_spec(force_x, force_y),
    {
        ConstantForceBehavior2D {
            force: Vector2D::new(force_x, force_y),
            timestep: Scalar::one(),
            scaled_force: Vector2D::default(),
        }
    }

    /// Replaces the force, and scales it by the timestep in use.
    pub fn set_force<M: Arithmetic>(&mut self, m: &M, force: &Vector2D)
        ensures
            final(self).force == *force,
            final(self).timestep == old(self).timestep,
            Vector2D::is_scaled(m, *force, old(self).timestep, final(self).scaled_force),
    {
        self.force.set(force.x, force.y);
        self.scaled_force = self.force.scale(m, self.timestep);
    }
}

impl<M: Arithmetic> ParticleBehaviour2D<M> for ConstantForceBehavior2D {
    /// The scaled force is added to the force on the particle.
    open spec fn applies(&self, m: &M, p: Particle2D, q: Particle2D) -> bool {
        Vector2D::is_sum(m, p.force, self.scaled_force, q.force) && q == p.with_force(q.force)
    }

    /// The timestep is taken over, and the force scaled by it.
    open spec fn configures(&self, m: &M, timestep: Scalar, after: Self) -> bool {
        &&& after.force == self.force
        &&& after.timestep == timestep
        &&& Vector2D::is_scaled(m, self.force, timestep, after.scaled_force)
    }

    fn apply(&self, m: &M, p: &mut Particle2D) {
        p.add_force(m, &self.scaled_force);
    }

    fn configure(&mut self, m: &M, timestep: Scalar) {
        self.timestep = timestep;
        self.scaled_force = self.force.scale(m, timestep);
    }
}

} // verus!
