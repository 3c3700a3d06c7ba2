//! Springs: distance constraints between two particles.
use vstd::prelude::*;
use crate::arithmetic::{is_difference, is_product, is_quotient, is_sum, Arithmetic};
use crate::particle2d::{Particle2D, ParticleKey};
use crate::scalar::{Scalar, MINUS_ONE_BITS};
use crate::vector2d::Vector2D;

verus! {

/// A spring between the particles `particle_a_id` and `particle_b_id`.
///
/// A spring made without a rest length has the rest length `-1`. A negative
/// rest length stands for "not measured yet": the first relaxation that
/// finds both endpoints replaces it by their distance at that moment.
#[derive(Clone, Copy, Debug)]
pub struct Spring2D {
    pub particle_a_id: ParticleKey,
    pub particle_b_id: ParticleKey,
    pub rest_length: Scalar,
    pub rest_length_sq: Scalar,
    pub stiffness: Scalar,
}

/// The intermediate values of one relaxation of a spring, in the order in
/// which they are computed.
pub struct Relaxation {
    /// `b.position - a.position`.
    pub delta: Vector2D,
    /// The squared length of `delta`.
    pub dist: Scalar,
    /// `dist - rest_length_sq`.
    pub stretch: Scalar,
    /// `a.inv_weight + b.inv_weight`.
    pub mobility: Scalar,
    /// `dist * mobility`.
    pub resistance: Scalar,
    /// `stretch / resistance`.
    pub ratio: Scalar,
    /// `ratio * stiffness`: the size of the correction.
    pub force_mag: Scalar,
    /// `delta * force_mag`, as computed for the first endpoint.
    pub a_pull: Vector2D,
    /// `a_pull * a.inv_weight`: what is added to the first endpoint.
    pub a_shift: Vector2D,
    /// `delta * force_mag`, as computed for the second endpoint.
    pub b_pull: Vector2D,
    /// `b_pull * b.inv_weight`: what is taken from the second endpoint.
    pub b_shift: Vector2D,
}

impl Spring2D {
    /// Whether the spring joins `a` and `b`, in either direction.
    pub open spec fn joins(self, a: ParticleKey, b: ParticleKey) -> bool {
        (self.particle_a_id == a && self.particle_b_id == b) || (self.particle_a_id == b
            && self.particle_b_id == a)
    }

    /// `s` is the spring that `new` makes of these: the rest length as
    /// given, or `-1` where none is, with its square from the backend.
    pub open spec fn is_new<M: Arithmetic>(
        m: &M,
        particle_a_id: ParticleKey,
        particle_b_id: ParticleKey,
        stiffness: Scalar,
        rest_length: Option<Scalar>,
        s: Spring2D,
    ) -> bool {
        &&& s.particle_a_id == particle_a_id
        &&& s.particle_b_id == particle_b_id
        &&& s.stiffness == stiffness
        &&& s.rest_length == match rest_length {
            Some(n) => n,
            None => Scalar { bits: MINUS_ONE_BITS },
        }
        &&& is_product(m, s.rest_length, s.rest_length, s.rest_length_sq)
    }

    /// Whether the rest length is still to be measured.
    pub open spec fn is_unmeasured(self) -> bool {
        self.rest_length.is_negative_spec()
    }

    /// The same spring with the rest length `rest_length`, whose square is
    /// `rest_length_sq`.
    pub open spec fn with_rest(self, rest_length: Scalar, rest_length_sq: Scalar) -> Spring2D {
        Spring2D { rest_length, rest_length_sq, ..self }
    }

    /// `t` is the spring `self` once it has met its endpoints `a` and `b`:
    /// unchanged if its rest length was given, else with the distance of the
    /// endpoints as its rest length.
    pub open spec fn measures<M: Arithmetic>(
        self,
        m: &M,
        a: Particle2D,
        b: Particle2D,
        t: Spring2D,
    ) -> bool {
        if self.is_unmeasured() {
            exists|gap: Vector2D|
                {
                    &&& #[trigger] Vector2D::is_difference(m, a.position, b.position, gap)
                    &&& Vector2D::is_magnitude(m, gap, t.rest_length)
                    &&& is_product(m, t.rest_length, t.rest_length, t.rest_length_sq)
                    &&& t == self.with_rest(t.rest_length, t.rest_length_sq)
                }
        } else {
            t == self
        }
    }

    /// Measuring a spring leaves its endpoints and its stiffness alone.
    pub proof fn measures_keeps_endpoints<M: Arithmetic>(
        self,
        m: &M,
        a: Particle2D,
        b: Particle2D,
        t: Spring2D,
    )
        requires
            self.measures(m, a, b, t),
        ensures
            t.particle_a_id == self.particle_a_id,
            t.particle_b_id == self.particle_b_id,
            t.stiffness == self.stiffness,
    {
    }

    /// `w` holds the intermediate values of one relaxation of the spring
    /// between `a` and `b`, and `a2`, `b2` are the endpoints after it.
    ///
    /// Nothing is computed, and nothing moves, where both endpoints are
    /// immovable. Nothing moves where the endpoints coincide (`dist` is
    /// zero). Otherwise each movable endpoint is displaced along `delta` in
    /// proportion to its inverse mass, and an immovable one stays.
    pub open spec fn relaxes_by<M: Arithmetic>(
        self,
        m: &M,
        a: Particle2D,
        b: Particle2D,
        w: Relaxation,
        a2: Particle2D,
        b2: Particle2D,
    ) -> bool {
        if a.is_immovable() && b.is_immovable() {
            a2 == a && b2 == b
        } else {
            &&& Vector2D::is_difference(m, b.position, a.position, w.delta)
            &&& Vector2D::is_magnitude_sq(m, w.delta, w.dist)
            &&& if w.dist.is_zero_spec() {
                a2 == a && b2 == b
            } else {
                &&& is_difference(m, w.dist, self.rest_length_sq, w.stretch)
                &&& is_sum(m, a.inv_weight, b.inv_weight, w.mobility)
                &&& is_product(m, w.dist, w.mobility, w.resistance)
                &&& is_quotient(m, w.stretch, w.resistance, w.ratio)
                &&& is_product(m, w.ratio, self.stiffness, w.force_mag)
                &&& if a.is_immovable() {
                    a2 == a
                } else {
                    &&& Vector2D::is_scaled(m, w.delta, w.force_mag, w.a_pull)
                    &&& Vector2D::is_scaled(m, w.a_pull, a.inv_weight, w.a_shift)
                    &&& Vector2D::is_sum(m, a.position, w.a_shift, a2.position)
                    &&& a2 == a.moved_to(a2.position)
                }
                &&& if b.is_immovable() {
                    b2 == b
                } else {
                    &&& Vector2D::is_scaled(m, w.delta, w.force_mag, w.b_pull)
                    &&& Vector2D::is_scaled(m, w.b_pull, b.inv_weight, w.b_shift)
                    &&& Vector2D::is_difference(m, b.position, w.b_shift, b2.position)
                    &&& b2 == b.moved_to(b2.position)
                }
            }
        }
    }

    /// `a2` and `b2` are the endpoints `a` and `b` after one relaxation of
    /// the spring:
    ///
    /// ```text
    /// delta      = b.position - a.position
    /// dist       = delta.magnitude_sq()
    /// force_mag  = (dist - rest_length_sq) / (dist * (a.inv_weight + b.inv_weight)) * stiffness
    /// a.position += delta * force_mag * a.inv_weight
    /// b.position -= delta * force_mag * b.inv_weight
    /// ```
    pub open spec fn relaxes<M: Arithmetic>(
        self,
        m: &M,
        a: Particle2D,
        b: Particle2D,
        a2: Particle2D,
        b2: Particle2D,
    ) -> bool {
        exists|w: Relaxation| #[trigger] self.relaxes_by(m, a, b, w, a2, b2)
    }

    /// A spring between two particles. Without a rest length the spring
    /// gets `-1`, to be measured when it first meets its endpoints.
    pub fn new<M: Arithmetic>(
        m: &M,
        particle_a_id: &ParticleKey,
        particle_b_id: &ParticleKey,
        stiffness: Scalar,
        rest_length: Option<Scalar>,
    ) -> (r: Spring2D)
        ensures
            Self::is_new(m, *particle_a_id, *particle_b_id, stiffness, rest_length, r),
            rest_length.is_none() ==> r.is_unmeasured(),
    {
        let rs = match rest_length {
            Some(n) => n,
            None => Scalar::minus_one(),
        };
        Spring2D {
            particle_a_id: *particle_a_id,
            particle_b_id: *particle_b_id,
            rest_length: rs,
            rest_length_sq: m.product(rs, rs),
            stiffness,
        }
    }

    /// Measures the rest length on the endpoints `a` and `b` if it was not
    /// given: it becomes the length of `a.position - b.position`.
    pub fn init_internal<M: Arithmetic>(&mut self, m: &M, a: &Particle2D, b: &Particle2D)
        ensures
            old(self).measures(m, *a, *b, *final(self)),
            final(self).particle_a_id == old(self).particle_a_id,
            final(self).particle_b_id == old(self).particle_b_id,
            final(self).stiffness == old(self).stiffness,
            !old(self).is_unmeasured() ==> *final(self) == *old(self),
    {
        if self.rest_length.is_negative() {
            let gap = a.position.sub(m, b.position);
            let rs = gap.magnitude(m);
            self.set_rest_length(m, rs);
            assert(Vector2D::is_difference(m, a.position, b.position, gap));
        }
    }

    /// Sets the rest length, and its square with it.
    pub fn set_rest_length<M: Arithmetic>(&mut self, m: &M, rest_length: Scalar)
        ensures
            is_product(m, rest_length, rest_length, final(self).rest_length_sq),
            *final(self) == old(self).with_rest(rest_length, final(self).rest_length_sq),
    {
        self.rest_length = rest_length;
        self.rest_length_sq = m.product(rest_length, rest_length);
    }

    /// The rest length; negative while it is still to be measured.
    pub fn get_rest_length(&self) -> (r: Scalar)
        ensures
            r == self.rest_length,
    {
        self.rest_length
    }

    /// The key of the first endpoint.
    pub fn get_particle_a_id(&self) -> (r: ParticleKey)
        ensures
            r == self.particle_a_id,
    {
        self.particle_a_id
    }

    /// The key of the second endpoint.
    pub fn get_particle_b_id(&self) -> (r: ParticleKey)
        ensures
            r == self.particle_b_id,
    {
        self.particle_b_id
    }

    /// Relaxes the spring once: moves its endpoints towards the distance
    /// at which the spring is at rest.
    ///
    /// An immovable endpoint is never displaced, and endpoints that
    /// coincide are left where they are. Only positions change.
    pub fn update<M: Arithmetic>(&self, m: &M, a: &mut Particle2D, b: &mut Particle2D)
        ensures
            self.relaxes(m, *old(a), *old(b), *final(a), *final(b)),
            *final(a) == old(a).moved_to(final(a).position),
            *final(b) == old(b).moved_to(final(b).position),
            old(a).is_immovable() ==> *final(a) == *old(a),
            old(b).is_immovable() ==> *final(b) == *old(b),
    {
        let ghost a0 = *a;
        let ghost b0 = *b;
        let a_fixed = a.inv_weight.is_zero();
        let b_fixed = b.inv_weight.is_zero();
        if a_fixed && b_fixed {
            proof {
                let w = Relaxation {
                    delta: a0.position,
                    dist: a0.weight,
                    stretch: a0.weight,
                    mobility: a0.weight,
                    resistance: a0.weight,
                    ratio: a0.weight,
                    force_mag: a0.weight,
                    a_pull: a0.position,
                    a_shift: a0.position,
                    b_pull: a0.position,
                    b_shift: a0.position,
                };
                assert(self.relaxes_by(m, a0, b0, w, *a, *b));
            }
            return ;
        }
        let delta = b.position.sub(m, a.position);
        let dist = delta.magnitude_sq(m);
        if dist.is_zero() {
            proof {
                let w = Relaxation {
                    delta,
                    dist,
                    stretch: dist,
                    mobility: dist,
                    resistance: dist,
                    ratio: dist,
                    force_mag: dist,
                    a_pull: delta,
                    a_shift: delta,
                    b_pull: delta,
                    b_shift: delta,
                };
                assert(self.relaxes_by(m, a0, b0, w, *a, *b));
            }
            return ;
        }
        let stretch = m.difference(dist, self.rest_length_sq);
        let mobility = m.sum(a.inv_weight, b.inv_weight);
        let resistance = m.product(dist, mobility);
        let ratio = m.quotient(stretch, resistance);
        let force_mag = m.product(ratio, self.stiffness);
        let mut a_pull = delta;
        let mut a_shift = delta;
        if !a_fixed {
            a_pull = delta.scale(m, force_mag);
            a_shift = a_pull.scale(m, a.inv_weight);
            a.position.add_assign(m, a_shift);
        }
        let mut b_pull = delta;
        let mut b_shift = delta;
        if !b_fixed {
            b_pull = delta.scale(m, force_mag);
            b_shift = b_pull.scale(m, b.inv_weight);
            b.position.sub_assign(m, b_shift);
        }
        proof {
            let w = Relaxation {
                delta,
                dist,
                stretch,
                mobility,
                resistance,
                ratio,
                force_mag,
                a_pull,
                a_shift,
                b_pull,
                b_shift,
            };
            assert(self.relaxes_by(m, a0, b0, w, *a, *b));
        }
    }
}

} // verus!
