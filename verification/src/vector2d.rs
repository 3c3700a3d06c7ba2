//! Two-dimensional vectors of scalars.
use vstd::prelude::*;
use crate::arithmetic::{is_difference, is_product, is_quotient, is_root, is_sum, Arithmetic};
use crate::scalar::Scalar;

verus! {

/// A vector in the plane. A value: two vectors with the same components are
/// the same vector.
#[derive(Clone, Copy, Debug, PartialEq, Eq, Structural)]
pub struct Vector2D {
    /// The x component of the vector.
    pub x: Scalar,
    /// The y component of the vector.
    pub y: Scalar,
}

impl Vector2D {
    /// The vector whose components are both positive zero.
    pub open spec fn zero_spec() -> Vector2D {
        Vector2D { x: Scalar { bits: 0 }, y: Scalar { bits: 0 } }
    }

    /// `r` is `a + b`, component by component.
    pub open spec fn is_sum<M: Arithmetic>(m: &M, a: Vector2D, b: Vector2D, r: Vector2D) -> bool {
        is_sum(m, a.x, b.x, r.x) && is_sum(m, a.y, b.y, r.y)
    }

    /// `r` is `a - b`, component by component.
    pub open spec fn is_difference<M: Arithmetic>(
        m: &M,
        a: Vector2D,
        b: Vector2D,
        r: Vector2D,
    ) -> bool {
        is_difference(m, a.x, b.x, r.x) && is_difference(m, a.y, b.y, r.y)
    }

    /// `r` is `a * b`, component by component.
    pub open spec fn is_product<M: Arithmetic>(
        m: &M,
        a: Vector2D,
        b: Vector2D,
        r: Vector2D,
    ) -> bool {
        is_product(m, a.x, b.x, r.x) && is_product(m, a.y, b.y, r.y)
    }

    /// `r` is `a / b`, component by component.
    pub open spec fn is_quotient<M: Arithmetic>(
        m: &M,
        a: Vector2D,
        b: Vector2D,
        r: Vector2D,
    ) -> bool {
        is_quotient(m, a.x, b.x, r.x) && is_quotient(m, a.y, b.y, r.y)
    }

    /// `r` is `a` with both components multiplied by `s`.
    pub open spec fn is_scaled<M: Arithmetic>(m: &M, a: Vector2D, s: Scalar, r: Vector2D) -> bool {
        is_product(m, a.x, s, r.x) && is_product(m, a.y, s, r.y)
    }

    /// `r` is `a` with both components divided by `s`.
    pub open spec fn is_divided<M: Arithmetic>(m: &M, a: Vector2D, s: Scalar, r: Vector2D) -> bool {
        is_quotient(m, a.x, s, r.x) && is_quotient(m, a.y, s, r.y)
    }

    /// `r` is `a.x * b.x + a.y * b.y`, the two products taken first.
    pub open spec fn is_dot<M: Arithmetic>(m: &M, a: Vector2D, b: Vector2D, r: Scalar) -> bool {
        exists|xx: Scalar, yy: Scalar|
            #![trigger is_product(m, a.x, b.x, xx), is_product(m, a.y, b.y, yy)]
            is_product(m, a.x, b.x, xx) && is_product(m, a.y, b.y, yy) && is_sum(m, xx, yy, r)
    }

    /// `r` is the squared length of `a`: its dot product with itself.
    pub open spec fn is_magnitude_sq<M: Arithmetic>(m: &M, a: Vector2D, r: Scalar) -> bool {
        Self::is_dot(m, a, a, r)
    }

    /// `r` is the length of `a`: the square root of its squared length.
    pub open spec fn is_magnitude<M: Arithmetic>(m: &M, a: Vector2D, r: Scalar) -> bool {
        exists|sq: Scalar| #[trigger] Self::is_magnitude_sq(m, a, sq) && is_root(m, sq, r)
    }

    /// Construct a new vector from its components.
    pub fn new(x: Scalar, y: Scalar) -> (r: Vector2D)
        ensures
            r.x == x,
            r.y == y,
    {
        Vector2D { x, y }
    }

    /// Overwrites both components.
    pub fn set(&mut self, x: Scalar, y: Scalar)
        ensures
            final(self).x == x,
            final(self).y == y,
    {
        self.x = x;
        self.y = y;
    }

    /// Overwrites the vector with `v`.
    pub fn set_v(&mut self, v: &Vector2D)
        ensures
            *final(self) == *v,
    {
        self.x = v.x;
        self.y = v.y;
    }

    /// The length of the vector.
    pub fn magnitude<M: Arithmetic>(&self, m: &M) -> (r: Scalar)
        ensures
            Self::is_magnitude(m, *self, r),
    {
        let sq = self.magnitude_sq(m);
        m.root(sq)
    }

    /// The squared length of the vector.
    pub fn magnitude_sq<M: Arithmetic>(&self, m: &M) -> (r: Scalar)
        ensures
            Self::is_magnitude_sq(m, *self, r),
    {
        self.dot(m, *self)
    }

    /// Sets both components to positive zero.
    pub fn clear(&mut self)
        ensures
            *final(self) == Self::zero_spec(),
    {
        self.x = Scalar::zero();
        self.y = Scalar::zero();
    }

    /// The dot product with `v`.
    pub fn dot<M: Arithmetic>(&self, m: &M, v: Vector2D) -> (r: Scalar)
        ensures
            Self::is_dot(m, *self, v, r),
    {
        let xx = m.product(self.x, v.x);
        let yy = m.product(self.y, v.y);
        let r = m.sum(xx, yy);
        assert(is_product(m, self.x, v.x, xx) && is_product(m, self.y, v.y, yy) && is_sum(
            m,
            xx,
            yy,
            r,
        ));
        r
    }

    /// The vector whose components are both positive zero.
    pub fn zero() -> (r: Vector2D)
        ensures
            r == Self::zero_spec(),
    {
        Vector2D::new(Scalar::zero(), Scalar::zero())
    }

    /// `self + other`.
    pub fn add<M: Arithmetic>(self, m: &M, other: Vector2D) -> (r: Vector2D)
        ensures
            Self::is_sum(m, self, other, r),
    {
        Vector2D { x: m.sum(self.x, other.x), y: m.sum(self.y, other.y) }
    }

    /// Replaces the vector by `self + other`.
    pub fn add_assign<M: Arithmetic>(&mut self, m: &M, other: Vector2D)
        ensures
            Self::is_sum(m, *old(self), other, *final(self)),
    {
        self.x = m.sum(self.x, other.x);
        self.y = m.sum(self.y, other.y);
    }

    /// `self - other`.
    pub fn sub<M: Arithmetic>(self, m: &M, other: Vector2D) -> (r: Vector2D)
        ensures
            Self::is_difference(m, self, other, r),
    {
        Vector2D { x: m.difference(self.x, other.x), y: m.difference(self.y, other.y) }
    }

    /// Replaces the vector by `self - other`.
    pub fn sub_assign<M: Arithmetic>(&mut self, m: &M, other: Vector2D)
        ensures
            Self::is_difference(m, *old(self), other, *final(self)),
    {
        self.x = m.difference(self.x, other.x);
        self.y = m.difference(self.y, other.y);
    }

    /// `self * other`, component by component.
    pub fn mul<M: Arithmetic>(self, m: &M, other: Vector2D) -> (r: Vector2D)
        ensures
            Self::is_product(m, self, other, r),
    {
        Vector2D { x: m.product(self.x, other.x), y: m.product(self.y, other.y) }
    }

    /// `self * s`: both components multiplied by the scalar.
    pub fn scale<M: Arithmetic>(self, m: &M, s: Scalar) -> (r: Vector2D)
        ensures
            Self::is_scaled(m, self, s, r),
    {
        Vector2D { x: m.product(self.x, s), y: m.product(self.y, s) }
    }

    /// `self / s`: both components divided by the scalar.
    pub fn div_scalar<M: Arithmetic>(self, m: &M, s: Scalar) -> (r: Vector2D)
        ensures
            Self::is_divided(m, self, s, r),
    {
        Vector2D { x: m.quotient(self.x, s), y: m.quotient(self.y, s) }
    }

    /// `self / other`, component by component.
    pub fn div<M: Arithmetic>(self, m: &M, other: Vector2D) -> (r: Vector2D)
        ensures
            Self::is_quotient(m, self, other, r),
    {
        Vector2D { x: m.quotient(self.x, other.x), y: m.quotient(self.y, other.y) }
    }
}

impl Default for Vector2D {
    fn default() -> (r: Vector2D)
        ensures
            r == Vector2D::zero_spec(),
    {
        Vector2D::zero()
    }
}

} // verus!
