//! Builders: ready-made shapes, put together from particles, springs and
//! pins through the object's own operations.
use vstd::prelude::*;
use crate::arithmetic::{
    is_count, is_difference, is_product, is_quotient, is_sum, Arithmetic,
};
use crate::constraints::PinConstraint2D;
use crate::objects::step::ObjectState;
use crate::objects::{with_spring, VerletObject2D};
use crate::particle2d::{Particle2D, ParticleKey};
use crate::scalar::{Scalar, TWO_BITS};
use crate::spring::Spring2D;
use crate::store::STORE_LIMIT;
use crate::vector2d::Vector2D;

verus! {

/// What a builder has put into an object.
pub struct Build {
    /// The keys of the particles created, in the order of their creation.
    pub keys: Seq<ParticleKey>,
    /// Where each of those particles was created.
    pub positions: Seq<Vector2D>,
    /// Which of those particles were pinned where they were created: their
    /// places in `keys`, in the order in which the pins were added.
    pub pins: Seq<int>,
    /// The springs offered to the object, in the order of the offers.
    pub offered: Seq<Spring2D>,
}

impl Build {
    /// Nothing built yet.
    pub open spec fn nothing() -> Build {
        Build { keys: Seq::empty(), positions: Seq::empty(), pins: Seq::empty(), offered: Seq::empty() }
    }

    /// The build after one more particle was created.
    pub open spec fn with_particle(self, key: ParticleKey, position: Vector2D) -> Build {
        Build { keys: self.keys.push(key), positions: self.positions.push(position), ..self }
    }

    /// The build after the particle at place `i` was pinned.
    pub open spec fn with_pin(self, i: int) -> Build {
        Build { pins: self.pins.push(i), ..self }
    }

    /// The build after one more spring was offered.
    pub open spec fn with_offer(self, s: Spring2D) -> Build {
        Build { offered: self.offered.push(s), ..self }
    }

    /// The pin that was added `i`-th.
    pub open spec fn pin(self, i: int) -> PinConstraint2D {
        PinConstraint2D {
            position: self.positions[self.pins[i]],
            particle_id: self.keys[self.pins[i]],
        }
    }

    /// The pins that were added, in their order.
    pub open spec fn pin_list(self) -> Seq<PinConstraint2D> {
        Seq::new(self.pins.len(), |i: int| self.pin(i))
    }
}

/// `springs` after each of `offered` was offered to it, the first first:
/// a spring is taken unless one already joins the same two particles.
pub open spec fn offers(springs: Seq<Spring2D>, offered: Seq<Spring2D>) -> Seq<Spring2D>
    decreases offered.len(),
{
    if offered.len() == 0 {
        springs
    } else {
        with_spring(offers(springs, offered.drop_last()), offered.last())
    }
}

/// The object `after` is the object `before` with the build `b` put into
/// it: the particles of `b` are new and at rest where they were created,
/// the particles of `before` are untouched, the pins of `b` follow the
/// constraints of `before`, and the springs of `b` were offered in turn.
pub open spec fn adds(
    before: ObjectState<PinConstraint2D>,
    b: Build,
    after: ObjectState<PinConstraint2D>,
) -> bool {
    &&& b.keys.len() == b.positions.len()
    &&& b.keys.no_duplicates()
    &&& forall|i: int| 0 <= i < b.pins.len() ==> 0 <= #[trigger] b.pins[i] < b.keys.len()
    &&& forall|k: ParticleKey|
        #![trigger after.particles.dom().contains(k)]
        after.particles.dom().contains(k) <==> before.particles.dom().contains(k)
            || b.keys.contains(k)
    &&& forall|i: int|
        0 <= i < b.keys.len() ==> !before.particles.dom().contains(#[trigger] b.keys[i])
            && after.particles[b.keys[i]] == Particle2D::new_spec(b.keys[i], b.positions[i])
    &&& forall|k: ParticleKey| #[trigger]
        before.particles.dom().contains(k) ==> after.particles[k] == before.particles[k]
    &&& after.constraints == before.constraints + b.pin_list()
    &&& after.springs == offers(before.springs, b.offered)
}

/// Creates a particle at `position` and, where `pinned`, pins it there.
fn place(
    object: &mut VerletObject2D<PinConstraint2D>,
    position: &Vector2D,
    pinned: bool,
    Ghost(before): Ghost<ObjectState<PinConstraint2D>>,
    Ghost(b): Ghost<Build>,
) -> (key: ParticleKey)
    requires
        old(object).wf(),
        old(object).order().len() < STORE_LIMIT,
        adds(before, b, old(object).state()),
    ensures
        final(object).wf(),
        final(object).tag() == old(object).tag(),
        final(object).order() == old(object).order().push(key),
        adds(
            before,
            if pinned {
                b.with_particle(key, *position).with_pin(b.keys.len() as int)
            } else {
                b.with_particle(key, *position)
            },
            final(object).state(),
        ),
{
    let ghost s0 = object.state();
    let key = object.create_particle(position);
    let ghost b1 = b.with_particle(key, *position);
    let ghost s1 = object.state();
    proof {
        assert(!s0.particles.dom().contains(key));
        assert(!b.keys.contains(key)) by {
            if b.keys.contains(key) {
                assert(s0.particles.dom().contains(key));
            }
        }
        assert(b1.keys.no_duplicates());
        assert forall|k: ParticleKey|
            #![trigger s1.particles.dom().contains(k)]
            s1.particles.dom().contains(k) <==> before.particles.dom().contains(k)
                || b1.keys.contains(k) by {
            if b1.keys.contains(k) {
                let i = choose|i: int| 0 <= i < b1.keys.len() && b1.keys[i] == k;
                if i < b.keys.len() {
                    assert(b.keys[i] == k);
                    assert(b.keys.contains(k));
                }
            }
            if b.keys.contains(k) {
                let i = choose|i: int| 0 <= i < b.keys.len() && b.keys[i] == k;
                assert(b1.keys[i] == k);
            }
            assert(b1.keys[b.keys.len() as int] == key);
            assert(s0.particles.dom().contains(k) <==> before.particles.dom().contains(k)
                || b.keys.contains(k));
        }
        assert forall|i: int| 0 <= i < b1.keys.len() implies !before.particles.dom().contains(
            #[trigger] b1.keys[i],
        ) && s1.particles[b1.keys[i]] == Particle2D::new_spec(b1.keys[i], b1.positions[i]) by {
            if i < b.keys.len() {
                assert(b1.keys[i] == b.keys[i]);
                assert(b.keys.contains(b.keys[i]));
            }
        }
        assert forall|k: ParticleKey| #[trigger]
            before.particles.dom().contains(k) implies s1.particles[k] == before.particles[k] by {
            assert(s0.particles.dom().contains(k));
        }
        assert(b1.pin_list() =~= b.pin_list());
        assert(adds(before, b1, s1));
    }
    if pinned {
        let r = object.add_constraint(PinConstraint2D::new(&key));
        proof {
            let b2 = b1.with_pin(b.keys.len() as int);
            let s2 = object.state();
            assert(r.is_ok());
            let last = s2.constraints.last();
            assert(last == b2.pin(b.pins.len() as int));
            assert(s2.constraints =~= s2.constraints.drop_last().push(last));
            assert(b2.pin_list() =~= b1.pin_list().push(b2.pin(b.pins.len() as int)));
            assert(s2.constraints =~= before.constraints + b2.pin_list());
            assert(adds(before, b2, s2));
        }
    }
    key
}

/// Offers the object a new spring between `a` and `b_key`.
fn join<M: Arithmetic>(
    object: &mut VerletObject2D<PinConstraint2D>,
    m: &M,
    a: &ParticleKey,
    b_key: &ParticleKey,
    stiffness: Scalar,
    rest_length: Option<Scalar>,
    Ghost(before): Ghost<ObjectState<PinConstraint2D>>,
    Ghost(b): Ghost<Build>,
) -> (s: Ghost<Spring2D>)
    requires
        old(object).wf(),
        adds(before, b, old(object).state()),
    ensures
        final(object).wf(),
        final(object).tag() == old(object).tag(),
        final(object).order() == old(object).order(),
        Spring2D::is_new(m, *a, *b_key, stiffness, rest_length, s@),
        adds(before, b.with_offer(s@), final(object).state()),
{
    let spring = Spring2D::new(m, a, b_key, stiffness, rest_length);
    object.add_spring(spring);
    proof {
        let b1 = b.with_offer(spring);
        assert(b1.offered.drop_last() =~= b.offered);
        assert(b1.offered.last() == spring);
        assert(offers(before.springs, b1.offered) == with_spring(
            offers(before.springs, b.offered),
            spring,
        ));
        assert(b1.pin_list() =~= b.pin_list());
        assert(object.state().particles == old(object).state().particles);
        assert(object.state().constraints == old(object).state().constraints);
        assert(adds(before, b1, object.state()));
    }
    Ghost(spring)
}

/// What `create_line_from_points` builds from `points`: a particle at each
/// point, the first one pinned, and a spring without a rest length of its
/// own from each particle to the next.
pub open spec fn is_line_from_points<M: Arithmetic>(
    m: &M,
    points: Seq<Vector2D>,
    stiffness: Scalar,
    b: Build,
) -> bool {
    &&& b.positions == points
    &&& b.keys.len() == points.len()
    &&& b.pins == if points.len() == 0 {
        Seq::<int>::empty()
    } else {
        seq![0int]
    }
    &&& b.offered.len() == if points.len() == 0 {
        0
    } else {
        points.len() - 1
    }
    &&& forall|i: int|
        0 <= i < b.offered.len() ==> Spring2D::is_new(
            m,
            b.keys[i],
            b.keys[i + 1],
            stiffness,
            None,
            #[trigger] b.offered[i],
        )
}

/// Puts a line through `points` into the object: a particle at each point,
/// the first one pinned where it is, and from each particle to the next a
/// spring whose rest length is measured when the spring is first relaxed.
pub fn create_line_from_points<M: Arithmetic>(
    m: &M,
    verlet_object: &mut VerletObject2D<PinConstraint2D>,
    points: &[Vector2D],
    stiffness: Scalar,
)
    requires
        old(verlet_object).wf(),
        old(verlet_object).order().len() + points@.len() <= STORE_LIMIT,
    ensures
        final(verlet_object).wf(),
        final(verlet_object).tag() == old(verlet_object).tag(),
        exists|b: Build| #[trigger]
            adds(old(verlet_object).state(), b, final(verlet_object).state())
                && is_line_from_points(m, points@, stiffness, b) && final(verlet_object).order()
                == old(verlet_object).order() + b.keys,
{
    let num_particles = points.len();
    let mut particle_ids: Vec<ParticleKey> = Vec::with_capacity(num_particles);
    let ghost before = verlet_object.state();
    let ghost mut b = Build::nothing();
    proof {
        assert(b.pin_list() =~= Seq::<PinConstraint2D>::empty());
        assert(before.constraints + b.pin_list() =~= before.constraints);
        assert(b.positions =~= points@.take(0));
    }
    for i in 0..num_particles
        invariant
            num_particles == points@.len(),
            verlet_object.wf(),
            verlet_object.tag() == old(verlet_object).tag(),
            verlet_object.order() == old(verlet_object).order() + b.keys,
            b.keys.len() == i,
            old(verlet_object).order().len() + points@.len() <= STORE_LIMIT,
            before == old(verlet_object).state(),
            adds(before, b, verlet_object.state()),
            particle_ids@ == b.keys,
            is_line_from_points(m, points@.take(i as int), stiffness, b),
    {
        let ghost b0 = b;
        let p = place(verlet_object, &points[i], i == 0, Ghost(before), Ghost(b));
        proof {
            b = b.with_particle(p, points@[i as int]);
            if i == 0 {
                b = b.with_pin(0);
            }
        }
        particle_ids.push(p);
        if i > 0 {
            let s = join(
                verlet_object,
                m,
                &particle_ids[i - 1],
                &particle_ids[i],
                stiffness,
                None,
                Ghost(before),
                Ghost(b),
            );
            proof {
                b = b.with_offer(s@);
            }
        }
        proof {
            assert(b.positions =~= points@.take(i + 1));
            assert(b.pins =~= seq![0int]);
            assert forall|t: int| 0 <= t < b.offered.len() implies Spring2D::is_new(
                m,
                b.keys[t],
                b.keys[t + 1],
                stiffness,
                None,
                #[trigger] b.offered[t],
            ) by {
                if t < b0.offered.len() {
                    assert(b.offered[t] == b0.offered[t]);
                    assert(b.keys[t] == b0.keys[t] && b.keys[t + 1] == b0.keys[t + 1]);
                }
            }
        }
    }
    proof {
        assert(points@.take(num_particles as int) =~= points@);
    }
}

/// The values that `create_line_from_endpoints` computes once, before it
/// places anything.
pub struct LineFrame {
    /// `end - start`.
    pub direction: Vector2D,
    /// The length of `direction`.
    pub distance: Scalar,
    /// `direction / distance`: the direction at length one.
    pub unit: Vector2D,
    /// The number of segments, as a scalar.
    pub segments: Scalar,
    /// `distance / segments`: the distance from one particle to the next.
    pub gap: Scalar,
}

/// `f` holds what is computed from the endpoints and the number of
/// segments.
pub open spec fn frames_line<M: Arithmetic>(
    m: &M,
    start: Vector2D,
    end: Vector2D,
    num_segments: u32,
    f: LineFrame,
) -> bool {
    &&& Vector2D::is_difference(m, end, start, f.direction)
    &&& Vector2D::is_magnitude(m, f.direction, f.distance)
    &&& Vector2D::is_divided(m, f.direction, f.distance, f.unit)
    &&& is_count(m, num_segments, f.segments)
    &&& is_quotient(m, f.distance, f.segments, f.gap)
}

/// `position` is where particle `i` of the line goes:
/// `start + unit * (gap * i)`.
pub open spec fn is_line_point<M: Arithmetic>(
    m: &M,
    start: Vector2D,
    f: LineFrame,
    i: u32,
    position: Vector2D,
) -> bool {
    exists|count: Scalar, reach: Scalar, offset: Vector2D|
        #![trigger is_count(m, i, count), is_product(m, f.gap, count, reach), Vector2D::is_scaled(m, f.unit, reach, offset)]
        is_count(m, i, count) && is_product(m, f.gap, count, reach) && Vector2D::is_scaled(
            m,
            f.unit,
            reach,
            offset,
        ) && Vector2D::is_sum(m, start, offset, position)
}

/// `b` holds the first `count` particles of the line framed by `f`, with
/// the pin on the first of them and the springs between them.
pub open spec fn is_line_so_far<M: Arithmetic>(
    m: &M,
    start: Vector2D,
    stiffness: Scalar,
    f: LineFrame,
    count: int,
    b: Build,
) -> bool {
    &&& b.keys.len() == count
    &&& b.positions.len() == count
    &&& b.pins == if count == 0 {
        Seq::<int>::empty()
    } else {
        seq![0int]
    }
    &&& b.offered.len() == if count == 0 {
        0
    } else {
        count - 1
    }
    &&& forall|i: int|
        0 <= i < count ==> is_line_point(m, start, f, i as u32, #[trigger] b.positions[i])
    &&& forall|i: int|
        0 <= i < b.offered.len() ==> Spring2D::is_new(
            m,
            b.keys[i],
            b.keys[i + 1],
            stiffness,
            Some(f.gap),
            #[trigger] b.offered[i],
        )
}

/// What `create_line_from_endpoints` builds: `num_segments + 1` particles
/// from `start` on, each `gap` further along the direction to `end`, the
/// first one pinned, and from each to the next a spring of rest length
/// `gap`.
pub open spec fn is_line_from_endpoints<M: Arithmetic>(
    m: &M,
    start: Vector2D,
    end: Vector2D,
    num_segments: u32,
    stiffness: Scalar,
    f: LineFrame,
    b: Build,
) -> bool {
    frames_line(m, start, end, num_segments, f) && is_line_so_far(
        m,
        start,
        stiffness,
        f,
        num_segments + 1,
        b,
    )
}

/// Puts a straight line from `start` towards `end` into the object:
/// `num_segments + 1` particles at equal distances, the first one pinned
/// where it is, and from each particle to the next a spring whose rest
/// length is that distance.
pub fn create_line_from_endpoints<M: Arithmetic>(
    m: &M,
    verlet_object: &mut VerletObject2D<PinConstraint2D>,
    start: Vector2D,
    end: Vector2D,
    num_segments: u32,
    stiffness: Scalar,
)
    requires
        old(verlet_object).wf(),
        old(verlet_object).order().len() + num_segments + 1 <= STORE_LIMIT,
    ensures
        final(verlet_object).wf(),
        final(verlet_object).tag() == old(verlet_object).tag(),
        exists|b: Build, f: LineFrame|
            adds(old(verlet_object).state(), b, final(verlet_object).state())
                && #[trigger] is_line_from_endpoints(m, start, end, num_segments, stiffness, f, b)
                && final(verlet_object).order() == old(verlet_object).order() + b.keys,
{
    let num_particles = num_segments as usize + 1;
    let direction = end.sub(m, start);
    let distance = direction.magnitude(m);
    let unit = direction.div_scalar(m, distance);
    let segments = m.from_count(num_segments);
    let gap = m.quotient(distance, segments);
    let ghost f = LineFrame { direction, distance, unit, segments, gap };
    let mut particle_ids: Vec<ParticleKey> = Vec::with_capacity(num_particles);
    let ghost before = verlet_object.state();
    let ghost mut b = Build::nothing();
    proof {
        assert(b.pin_list() =~= Seq::<PinConstraint2D>::empty());
        assert(before.constraints + b.pin_list() =~= before.constraints);
    }
    for i in 0..num_particles
        invariant
            num_particles == num_segments + 1,
            verlet_object.wf(),
            verlet_object.tag() == old(verlet_object).tag(),
            verlet_object.order() == old(verlet_object).order() + b.keys,
            b.keys.len() == i,
            old(verlet_object).order().len() + num_segments + 1 <= STORE_LIMIT,
            before == old(verlet_object).state(),
            frames_line(m, start, end, num_segments, f),
            f.gap == gap,
            f.unit == unit,
            adds(before, b, verlet_object.state()),
            particle_ids@ == b.keys,
            is_line_so_far(m, start, stiffness, f, i as int, b),
    {
        let ghost b0 = b;
        let count = m.from_count(i as u32);
        let reach = m.product(gap, count);
        let offset = unit.scale(m, reach);
        let pos = start.add(m, offset);
        let p = place(verlet_object, &pos, i == 0, Ghost(before), Ghost(b));
        proof {
            b = b.with_particle(p, pos);
            if i == 0 {
                b = b.with_pin(0);
            }
        }
        particle_ids.push(p);
        if i > 0 {
            let s = join(
                verlet_object,
                m,
                &particle_ids[i - 1],
                &particle_ids[i],
                stiffness,
                Some(gap),
                Ghost(before),
                Ghost(b),
            );
            proof {
                b = b.with_offer(s@);
            }
        }
        proof {
            assert(b.pins =~= seq![0int]);
            assert(is_count(m, i as u32, count) && is_product(m, f.gap, count, reach)
                && Vector2D::is_scaled(m, f.unit, reach, offset));
            assert(is_line_point(m, start, f, i as u32, pos));
            assert forall|t: int| 0 <= t < i + 1 implies is_line_point(
                m,
                start,
                f,
                t as u32,
                #[trigger] b.positions[t],
            ) by {
                if t < i {
                    assert(b.positions[t] == b0.positions[t]);
                }
            }
            assert forall|t: int| 0 <= t < b.offered.len() implies Spring2D::is_new(
                m,
                b.keys[t],
                b.keys[t + 1],
                stiffness,
                Some(f.gap),
                #[trigger] b.offered[t],
            ) by {
                if t < b0.offered.len() {
                    assert(b.offered[t] == b0.offered[t]);
                    assert(b.keys[t] == b0.keys[t] && b.keys[t + 1] == b0.keys[t + 1]);
                }
            }
        }
    }
    proof {
        assert(is_line_from_endpoints(m, start, end, num_segments, stiffness, f, b));
    }
}

/// The values that `create_sheet` computes once, before it places
/// anything.
pub struct SheetFrame {
    /// The number of segments, as a scalar.
    pub segments: Scalar,
    /// `width / segments`: the distance between neighbours in a row.
    pub stride_x: Scalar,
    /// `height / segments`: the distance between neighbours in a column.
    pub stride_y: Scalar,
}

/// `f` holds what is computed from the size of the sheet and the number of
/// segments.
pub open spec fn frames_sheet<M: Arithmetic>(
    m: &M,
    width: Scalar,
    height: Scalar,
    num_segments: u32,
    f: SheetFrame,
) -> bool {
    &&& is_count(m, num_segments, f.segments)
    &&& is_quotient(m, width, f.segments, f.stride_x)
    &&& is_quotient(m, height, f.segments, f.stride_y)
}

/// The intermediate values of one coordinate of a particle of the sheet,
/// in the order in which they are computed.
pub struct Coordinate {
    /// The place in the row or column, as a scalar.
    pub count: Scalar,
    /// `stride * count`.
    pub reach: Scalar,
    /// `center + reach`.
    pub shifted: Scalar,
    /// `extent / 2`.
    pub half_extent: Scalar,
    /// `shifted - half_extent`.
    pub lowered: Scalar,
    /// `stride / 2`.
    pub half_stride: Scalar,
}

/// `w` holds the intermediate values of the coordinate `r` at place `n`:
/// `center + stride * n - extent / 2 + stride / 2`, from left to right.
pub open spec fn is_sheet_coordinate_by<M: Arithmetic>(
    m: &M,
    center: Scalar,
    stride: Scalar,
    extent: Scalar,
    n: u32,
    w: Coordinate,
    r: Scalar,
) -> bool {
    &&& is_count(m, n, w.count)
    &&& is_product(m, stride, w.count, w.reach)
    &&& is_sum(m, center, w.reach, w.shifted)
    &&& is_quotient(m, extent, Scalar { bits: TWO_BITS }, w.half_extent)
    &&& is_difference(m, w.shifted, w.half_extent, w.lowered)
    &&& is_quotient(m, stride, Scalar { bits: TWO_BITS }, w.half_stride)
    &&& is_sum(m, w.lowered, w.half_stride, r)
}

/// `r` is the coordinate at place `n` of a sheet around `center` whose
/// side is `extent` and whose particles are `stride` apart.
pub open spec fn is_sheet_coordinate<M: Arithmetic>(
    m: &M,
    center: Scalar,
    stride: Scalar,
    extent: Scalar,
    n: u32,
    r: Scalar,
) -> bool {
    exists|w: Coordinate| #[trigger] is_sheet_coordinate_by(m, center, stride, extent, n, w, r)
}

/// The coordinate at place `n`: `center + stride * n - extent / 2 + stride / 2`.
pub fn sheet_coordinate<M: Arithmetic>(
    m: &M,
    center: Scalar,
    stride: Scalar,
    extent: Scalar,
    n: u32,
) -> (r: Scalar)
    ensures
        is_sheet_coordinate(m, center, stride, extent, n, r),
{
    let two = Scalar::two();
    let count = m.from_count(n);
    let reach = m.product(stride, count);
    let shifted = m.sum(center, reach);
    let half_extent = m.quotient(extent, two);
    let lowered = m.difference(shifted, half_extent);
    let half_stride = m.quotient(stride, two);
    let r = m.sum(lowered, half_stride);
    proof {
        let w = Coordinate { count, reach, shifted, half_extent, lowered, half_stride };
        assert(is_sheet_coordinate_by(m, center, stride, extent, n, w, r));
    }
    r
}

/// The place in the build of the particle in row `j` and column `i` of a
/// sheet with `np` particles to the row.
pub open spec fn cell(np: int, j: int, i: int) -> int {
    j * np + i
}

/// A spring of the sheet, by the places of its endpoints.
pub struct Link {
    pub from: int,
    pub to: int,
    /// Whether the spring runs along a column, from one row to the next.
    pub vertical: bool,
}

/// The springs offered when the particle in row `j` and column `i` is
/// placed: first the one from its neighbour in the row above, then the one
/// from its neighbour to the left, as far as it has them.
pub open spec fn cell_links(np: int, j: int, i: int) -> Seq<Link> {
    let up = if j > 0 {
        seq![Link { from: cell(np, j - 1, i), to: cell(np, j, i), vertical: true }]
    } else {
        Seq::<Link>::empty()
    };
    let left = if i > 0 {
        seq![Link { from: cell(np, j, i) - 1, to: cell(np, j, i), vertical: false }]
    } else {
        Seq::<Link>::empty()
    };
    up + left
}

/// The springs offered before the particle in row `j` and column `i` is
/// placed, the sheet being built row by row.
pub open spec fn links_before(np: int, j: int, i: int) -> Seq<Link>
    decreases j, i,
{
    if i > 0 {
        links_before(np, j, i - 1) + cell_links(np, j, i - 1)
    } else if j > 0 && np >= 0 {
        links_before(np, j - 1, np)
    } else {
        Seq::<Link>::empty()
    }
}

/// The pins of a sheet of which `count` particles are placed: the first
/// and the last particle of the first row.
pub open spec fn sheet_pins(np: int, count: int) -> Seq<int> {
    if count == 0 {
        Seq::<int>::empty()
    } else if count < np || np == 1 {
        seq![0int]
    } else {
        seq![0int, np - 1]
    }
}

/// `s` is the spring made for `link` between the particles under `keys`:
/// its rest length is the distance between rows where it runs along a
/// column, and the distance between columns where it runs along a row.
pub open spec fn is_link_spring<M: Arithmetic>(
    m: &M,
    stiffness: Scalar,
    f: SheetFrame,
    keys: Seq<ParticleKey>,
    link: Link,
    s: Spring2D,
) -> bool {
    &&& 0 <= link.from < link.to < keys.len()
    &&& Spring2D::is_new(
        m,
        keys[link.from],
        keys[link.to],
        stiffness,
        Some(
            if link.vertical {
                f.stride_y
            } else {
                f.stride_x
            },
        ),
        s,
    )
}

/// `b` holds the sheet framed by `f` as far as it is built when the rows
/// before row `j` are complete and row `j` has its first `i` particles.
pub open spec fn is_sheet_so_far<M: Arithmetic>(
    m: &M,
    center: Vector2D,
    width: Scalar,
    height: Scalar,
    stiffness: Scalar,
    f: SheetFrame,
    np: int,
    j: int,
    i: int,
    b: Build,
) -> bool {
    &&& b.keys.len() == cell(np, j, i)
    &&& b.positions.len() == cell(np, j, i)
    &&& b.pins == sheet_pins(np, cell(np, j, i))
    &&& forall|row: int, col: int|
        0 <= row && 0 <= col < np && (row < j || (row == j && col < i)) ==> {
            &&& is_sheet_coordinate(
                m,
                center.x,
                f.stride_x,
                width,
                col as u32,
                (#[trigger] b.positions[cell(np, row, col)]).x,
            )
            &&& is_sheet_coordinate(
                m,
                center.y,
                f.stride_y,
                height,
                row as u32,
                b.positions[cell(np, row, col)].y,
            )
        }
    &&& b.offered.len() == links_before(np, j, i).len()
    &&& forall|t: int|
        0 <= t < b.offered.len() ==> is_link_spring(
            m,
            stiffness,
            f,
            b.keys,
            links_before(np, j, i)[t],
            #[trigger] b.offered[t],
        )
}

/// What `create_sheet` builds: `num_segments + 1` rows of as many
/// particles, spread around `center`; the first and the last particle of
/// the first row pinned; and a spring from each particle to the one below
/// it and to the one right of it.
pub open spec fn is_sheet<M: Arithmetic>(
    m: &M,
    center: Vector2D,
    width: Scalar,
    height: Scalar,
    num_segments: u32,
    stiffness: Scalar,
    f: SheetFrame,
    b: Build,
) -> bool {
    frames_sheet(m, width, height, num_segments, f) && is_sheet_so_far(
        m,
        center,
        width,
        height,
        stiffness,
        f,
        num_segments + 1,
        num_segments + 1,
        0,
        b,
    )
}

/// Puts a sheet into the object: a square grid of particles around
/// `center`, `num_segments + 1` to the row and to the column, the two ends
/// of the first row pinned where they are, and springs along the rows and
/// the columns whose rest lengths are the distances in the grid.
pub fn create_sheet<M: Arithmetic>(
    m: &M,
    verlet_object: &mut VerletObject2D<PinConstraint2D>,
    center: Vector2D,
    width: Scalar,
    height: Scalar,
    num_segments: u32,
    stiffness: Scalar,
)
    requires
        old(verlet_object).wf(),
        old(verlet_object).order().len() + (num_segments + 1) * (num_segments + 1) <= STORE_LIMIT,
    ensures
        final(verlet_object).wf(),
        final(verlet_object).tag() == old(verlet_object).tag(),
        exists|b: Build, f: SheetFrame|
            adds(old(verlet_object).state(), b, final(verlet_object).state())
                && #[trigger] is_sheet(m, center, width, height, num_segments, stiffness, f, b)
                && final(verlet_object).order() == old(verlet_object).order() + b.keys,
{
    proof {
        assert(num_segments + 1 <= STORE_LIMIT) by (nonlinear_arith)
            requires
                (num_segments + 1) * (num_segments + 1) <= STORE_LIMIT,
        ;
    }
    let np = num_segments as usize + 1;
    let segments = m.from_count(num_segments);
    let stride_x = m.quotient(width, segments);
    let stride_y = m.quotient(height, segments);
    let ghost f = SheetFrame { segments, stride_x, stride_y };
    let ghost before = verlet_object.state();
    let ghost mut b = Build::nothing();
    proof {
        assert(np * np <= STORE_LIMIT) by (nonlinear_arith)
            requires
                np == num_segments + 1,
                (num_segments + 1) * (num_segments + 1) <= STORE_LIMIT,
        ;
        assert(b.pin_list() =~= Seq::<PinConstraint2D>::empty());
        assert(before.constraints + b.pin_list() =~= before.constraints);
        assert(cell(np as int, 0, 0) == 0);
        assert(b.pins =~= sheet_pins(np as int, 0));
        assert(links_before(np as int, 0, 0).len() == 0);
    }
    let mut particle_ids: Vec<ParticleKey> = Vec::with_capacity(np * np);
    for j in 0..np
        invariant
            np == num_segments + 1,
            np * np <= STORE_LIMIT,
            verlet_object.wf(),
            verlet_object.tag() == old(verlet_object).tag(),
            verlet_object.order() == old(verlet_object).order() + b.keys,
            old(verlet_object).order().len() + np * np <= STORE_LIMIT,
            before == old(verlet_object).state(),
            f == (SheetFrame { segments, stride_x, stride_y }),
            adds(before, b, verlet_object.state()),
            particle_ids@ == b.keys,
            is_sheet_so_far(m, center, width, height, stiffness, f, np as int, j as int, 0, b),
    {
        for i in 0..np
            invariant
                np == num_segments + 1,
                np * np <= STORE_LIMIT,
                0 <= j < np,
                verlet_object.wf(),
                verlet_object.tag() == old(verlet_object).tag(),
                verlet_object.order() == old(verlet_object).order() + b.keys,
                old(verlet_object).order().len() + np * np <= STORE_LIMIT,
                before == old(verlet_object).state(),
                f == (SheetFrame { segments, stride_x, stride_y }),
                adds(before, b, verlet_object.state()),
                particle_ids@ == b.keys,
                is_sheet_so_far(
                    m,
                    center,
                    width,
                    height,
                    stiffness,
                    f,
                    np as int,
                    j as int,
                    i as int,
                    b,
                ),
        {
            let ghost b0 = b;
            let ghost here = cell(np as int, j as int, i as int);
            proof {
                assert(j * np + i < np * np && j * np + i >= 0 && j * np >= 0) by (nonlinear_arith)
                    requires
                        0 <= j < np,
                        0 <= i < np,
                ;
                if j > 0 {
                    assert((j - 1) * np + i == j * np + i - np && (j - 1) * np >= 0)
                        by (nonlinear_arith)
                        requires
                            0 < j < np,
                            0 <= i < np,
                    ;
                }
            }
            let px = sheet_coordinate(m, center.x, stride_x, width, i as u32);
            let py = sheet_coordinate(m, center.y, stride_y, height, j as u32);
            let pos = Vector2D::new(px, py);
            let pinned = j == 0 && (i == 0 || i == np - 1);
            let s = place(verlet_object, &pos, pinned, Ghost(before), Ghost(b));
            proof {
                b = b.with_particle(s, pos);
                if pinned {
                    b = b.with_pin(here);
                }
            }
            particle_ids.push(s);
            let ghost b1 = b;
            if j > 0 {
                let s1 = join(
                    verlet_object,
                    m,
                    &particle_ids[(j - 1) * np + i],
                    &particle_ids[j * np + i],
                    stiffness,
                    Some(stride_y),
                    Ghost(before),
                    Ghost(b),
                );
                proof {
                    b = b.with_offer(s1@);
                }
            }
            let ghost b2 = b;
            if i > 0 {
                let s2 = join(
                    verlet_object,
                    m,
                    &particle_ids[j * np + i - 1],
                    &particle_ids[j * np + i],
                    stiffness,
                    Some(stride_x),
                    Ghost(before),
                    Ghost(b),
                );
                proof {
                    b = b.with_offer(s2@);
                }
            }
            proof {
                let npi = np as int;
                let ji = j as int;
                let ii = i as int;
                assert(cell(npi, ji, ii + 1) == here + 1);
                assert(b.keys.len() == here + 1);
                assert(b.pins =~= sheet_pins(npi, here + 1)) by {
                    if ji > 0 {
                        assert(here >= npi) by (nonlinear_arith)
                            requires
                                here == ji * npi + ii,
                                ji > 0,
                                ii >= 0,
                                npi > 0,
                        ;
                    } else {
                        assert(here == ii) by (nonlinear_arith)
                            requires
                                here == ji * npi + ii,
                                ji == 0,
                        ;
                    }
                }
                assert forall|row: int, col: int|
                    0 <= row && 0 <= col < npi && (row < ji || (row == ji && col < ii + 1)) implies {
                    &&& is_sheet_coordinate(
                        m,
                        center.x,
                        f.stride_x,
                        width,
                        col as u32,
                        (#[trigger] b.positions[cell(npi, row, col)]).x,
                    )
                    &&& is_sheet_coordinate(
                        m,
                        center.y,
                        f.stride_y,
                        height,
                        row as u32,
                        b.positions[cell(npi, row, col)].y,
                    )
                } by {
                    if row == ji && col == ii {
                        assert(b.positions[here] == pos);
                    } else {
                        assert(0 <= cell(npi, row, col) < here) by (nonlinear_arith)
                            requires
                                0 <= row,
                                0 <= col < npi,
                                row < ji || (row == ji && col < ii),
                                here == ji * npi + ii,
                                cell(npi, row, col) == row * npi + col,
                                0 <= ii,
                        ;
                        assert(b.positions[cell(npi, row, col)] == b0.positions[cell(
                            npi,
                            row,
                            col,
                        )]);
                    }
                }
                let old_links = links_before(npi, ji, ii);
                let new_links = links_before(npi, ji, ii + 1);
                assert(new_links == old_links + cell_links(npi, ji, ii));
                assert(b.offered.len() == new_links.len());
                assert forall|t: int| 0 <= t < b.offered.len() implies is_link_spring(
                    m,
                    stiffness,
                    f,
                    b.keys,
                    new_links[t],
                    #[trigger] b.offered[t],
                ) by {
                    if t < b0.offered.len() {
                        assert(b.offered[t] == b0.offered[t]);
                        let link = old_links[t];
                        assert(new_links[t] == link);
                        assert(is_link_spring(m, stiffness, f, b0.keys, link, b0.offered[t]));
                        assert(b.keys[link.from] == b0.keys[link.from]);
                        assert(b.keys[link.to] == b0.keys[link.to]);
                    } else {
                        let link = new_links[t];
                        assert(link == cell_links(npi, ji, ii)[t - old_links.len()]);
                        assert(b.keys.len() == here + 1);
                        assert(link.to == here);
                        if ji > 0 && t == b0.offered.len() {
                            assert(link.from == cell(npi, ji - 1, ii));
                            assert(cell(npi, ji - 1, ii) == here - npi) by (nonlinear_arith)
                                requires
                                    here == ji * npi + ii,
                                    cell(npi, ji - 1, ii) == (ji - 1) * npi + ii,
                            ;
                            assert(0 <= here - npi) by (nonlinear_arith)
                                requires
                                    here == ji * npi + ii,
                                    ji > 0,
                                    ii >= 0,
                                    npi > 0,
                            ;
                        } else {
                            assert(link.from == here - 1);
                        }
                    }
                }
            }
        }
        proof {
            let npi = np as int;
            assert(cell(npi, j as int, npi) == cell(npi, j + 1, 0)) by (nonlinear_arith)
                requires
                    cell(npi, j as int, npi) == j * npi + npi,
                    cell(npi, j + 1, 0) == (j + 1) * npi + 0,
            ;
            assert(links_before(npi, j + 1, 0) == links_before(npi, j as int, npi));
            assert forall|t: int| 0 <= t < b.offered.len() implies is_link_spring(
                m,
                stiffness,
                f,
                b.keys,
                links_before(npi, j + 1, 0)[t],
                #[trigger] b.offered[t],
            ) by {
                assert(is_link_spring(
                    m,
                    stiffness,
                    f,
                    b.keys,
                    links_before(npi, j as int, npi)[t],
                    b.offered[t],
                ));
            }
        }
    }
    proof {
        assert(is_sheet(m, center, width, height, num_segments, stiffness, f, b));
    }
}

} // verus!
