use verlet_rs::arithmetic::Arithmetic;
use verlet_rs::behaviors::ConstantForceBehavior2D;
use verlet_rs::constraints::PinConstraint2D;
use verlet_rs::objects::{create_line_from_endpoints, VerletObject2D};
use verlet_rs::physics2d::VerletPhysics2D;
use verlet_rs::scalar::Scalar;
use verlet_rs::spring::Spring2D;
use verlet_rs::vector2d::Vector2D;

struct Single;

fn enc(x: f32) -> Scalar {
    Scalar::from_bits(x.to_bits())
}

fn dec(x: Scalar) -> f32 {
    f32::from_bits(x.to_bits())
}

fn point(x: f32, y: f32) -> Vector2D {
    Vector2D::new(enc(x), enc(y))
}

impl Arithmetic for Single {
    fn sum(&self, a: Scalar, b: Scalar) -> Scalar {
        enc(dec(a) + dec(b))
    }

    fn difference(&self, a: Scalar, b: Scalar) -> Scalar {
        enc(dec(a) - dec(b))
    }

    fn product(&self, a: Scalar, b: Scalar) -> Scalar {
        enc(dec(a) * dec(b))
    }

    fn quotient(&self, a: Scalar, b: Scalar) -> Scalar {
        enc(dec(a) / dec(b))
    }

    fn root(&self, a: Scalar) -> Scalar {
        enc(dec(a).sqrt())
    }

    fn from_count(&self, n: u32) -> Scalar {
        enc(n as f32)
    }
}

type World = VerletPhysics2D<Single, ConstantForceBehavior2D, PinConstraint2D>;

type Body = VerletObject2D<PinConstraint2D>;

fn rope() -> Body {
    let mut rope = Body::new("rope");
    create_line_from_endpoints(
        &Single,
        &mut rope,
        point(200.0, 10.0),
        point(290.0, 10.0),
        9,
        enc(0.5),
    );
    rope
}

fn rope_world() -> World {
    let gravity = ConstantForceBehavior2D::new(enc(0.0), enc(1.0));
    let mut world = World::new_with(Single, enc(1.0), 50, enc(0.0), Some(gravity));
    world.add_object(rope());
    world
}

fn positions(world: &World) -> Vec<(f32, f32)> {
    world.get_objects()[0]
        .get_particles()
        .iter()
        .map(|p| (dec(p.get_position().x), dec(p.get_position().y)))
        .collect()
}

fn stretches(world: &World) -> Vec<f32> {
    let at = positions(world);
    let mut all = Vec::new();
    for i in 1..at.len() {
        let dx = at[i].0 - at[i - 1].0;
        let dy = at[i].1 - at[i - 1].1;
        all.push(((dx * dx + dy * dy).sqrt() - 10.0).abs());
    }
    all
}

#[test]
fn new_world_has_the_default_parameters() {
    let mut world = World::new(Single);
    assert!(world.get_objects().is_empty());
    assert!(world.get_behaviors().is_empty());
    // a timestep of one: a registered force is scaled by one
    world.add_behavior(ConstantForceBehavior2D::new(enc(3.0), enc(4.0)));
    assert_eq!(world.get_behaviors()[0].scaled_force, point(3.0, 4.0));
    // no drag, fifty passes: a pair at half stiffness is at rest after one step
    let mut pair = Body::new("pair");
    let a = pair.create_particle(&point(0.0, 0.0));
    let b = pair.create_particle(&point(10.0, 0.0));
    pair.add_constraint(PinConstraint2D::new(&a)).unwrap();
    pair.add_constraint(PinConstraint2D::new(&b)).unwrap();
    world.add_object(pair);
    world.update();
    assert_eq!(positions(&world), vec![(0.0, 0.0), (10.0, 0.0)]);
}

#[test]
fn new_with_registers_gravity_for_the_timestep() {
    let gravity = ConstantForceBehavior2D::new(enc(0.0), enc(8.0));
    let world = World::new_with(Single, enc(0.25), 3, enc(0.0), Some(gravity));
    assert_eq!(world.get_behaviors().len(), 1);
    assert_eq!(world.get_behaviors()[0].force, point(0.0, 8.0));
    assert_eq!(world.get_behaviors()[0].scaled_force, point(0.0, 2.0));
    assert_eq!(dec(world.get_behaviors()[0].timestep), 0.25);
    let bare = World::new_with(Single, enc(0.25), 3, enc(0.0), None);
    assert!(bare.get_behaviors().is_empty());
    assert!(bare.get_objects().is_empty());
}

#[test]
fn add_behavior_configures_with_the_world_timestep() {
    let mut world = World::new_with(Single, enc(0.5), 1, enc(0.0), None);
    world.add_behavior(ConstantForceBehavior2D::new(enc(2.0), enc(0.0)));
    world.add_behavior(ConstantForceBehavior2D::new(enc(0.0), enc(6.0)));
    assert_eq!(world.get_behaviors().len(), 2);
    assert_eq!(world.get_behaviors()[0].scaled_force, point(1.0, 0.0));
    assert_eq!(world.get_behaviors()[1].scaled_force, point(0.0, 3.0));
    let mut dot = Body::new("dot");
    dot.create_particle(&point(0.0, 0.0));
    world.add_object(dot);
    world.update();
    assert_eq!(positions(&world), vec![(1.0, 3.0)]);
}

#[test]
fn world_steps_every_object_with_shared_parameters() {
    let gravity = ConstantForceBehavior2D::new(enc(0.0), enc(1.0));
    let mut world = World::new_with(Single, enc(1.0), 2, enc(0.0), Some(gravity));
    let mut first = Body::new("first");
    first.create_particle(&point(0.0, 0.0));
    let mut second = Body::new("second");
    second.create_particle(&point(5.0, 5.0));
    second.create_particle(&point(6.0, 6.0));
    world.add_object(first);
    world.add_object(second);
    world.update();
    let objects = world.get_objects();
    assert_eq!(objects.len(), 2);
    assert_eq!(objects[0].get_tag(), "first");
    assert_eq!(objects[1].get_tag(), "second");
    assert_eq!(*objects[0].get_particles()[0].get_position(), point(0.0, 1.0));
    assert_eq!(*objects[1].get_particles()[0].get_position(), point(5.0, 6.0));
    assert_eq!(*objects[1].get_particles()[1].get_position(), point(6.0, 7.0));
}

#[test]
fn set_drag_damps_the_next_steps() {
    let mut world = World::new_with(Single, enc(1.0), 1, enc(0.0), None);
    let mut dot = Body::new("dot");
    dot.create_particle(&point(0.0, 0.0));
    world.add_object(dot);
    world.add_behavior(ConstantForceBehavior2D::new(enc(4.0), enc(0.0)));
    world.update();
    assert_eq!(positions(&world), vec![(4.0, 0.0)]);
    world.set_drag(enc(1.0));
    world.update();
    // the motion of the last step is erased; only the force moves the particle
    assert_eq!(positions(&world), vec![(8.0, 0.0)]);
    world.set_drag(enc(0.0));
    world.update();
    assert_eq!(positions(&world), vec![(16.0, 0.0)]);
}

#[test]
fn clear_empties_the_world_and_keeps_its_parameters() {
    let gravity = ConstantForceBehavior2D::new(enc(0.0), enc(1.0));
    let mut world = World::new_with(Single, enc(0.5), 7, enc(1.0), Some(gravity));
    world.add_object(rope());
    world.update();
    world.clear();
    assert!(world.get_objects().is_empty());
    assert!(world.get_behaviors().is_empty());
    world.update();
    // still usable, and still with a timestep of a half and a drag of one
    world.add_behavior(ConstantForceBehavior2D::new(enc(2.0), enc(0.0)));
    assert_eq!(world.get_behaviors()[0].scaled_force, point(1.0, 0.0));
    let mut dot = Body::new("dot");
    dot.create_particle(&point(0.0, 0.0));
    world.add_object(dot);
    world.update();
    world.update();
    assert_eq!(positions(&world), vec![(2.0, 0.0)]);
}

#[test]
fn rope_hangs_from_its_pin() {
    let mut world = rope_world();
    let start = positions(&world);
    assert_eq!(start.len(), 10);
    assert_eq!(start[0], (200.0, 10.0));
    assert_eq!(start[9], (290.0, 10.0));
    assert_eq!(world.get_objects()[0].get_springs().len(), 9);
    assert_eq!(world.get_objects()[0].get_constraints().len(), 1);
    world.update();
    let after = positions(&world);
    assert_eq!(after[0], (200.0, 10.0));
    assert!(after[9].1 > 10.0);
    for i in 1..10 {
        assert!(after[i].1 > 10.0);
    }
    for off in stretches(&world) {
        assert!(off < 0.1);
    }
    for _ in 0..300 {
        world.update();
        assert_eq!(positions(&world)[0], (200.0, 10.0));
        // between free particles the springs hold their length
        for off in &stretches(&world)[1..] {
            assert!(*off < 0.1);
        }
    }
    assert!(positions(&world)[9].1 > 100.0);
}

#[test]
fn rope_on_an_immovable_anchor_keeps_every_length() {
    let mut rope = rope();
    let anchor = rope.get_particles()[0].get_id();
    rope.set_particle_weight(&Single, anchor, enc(0.0));
    let gravity = ConstantForceBehavior2D::new(enc(0.0), enc(1.0));
    let mut world = World::new_with(Single, enc(1.0), 50, enc(0.0), Some(gravity));
    world.add_object(rope);
    let mut worst = 0.0f32;
    for _ in 0..300 {
        world.update();
        assert_eq!(positions(&world)[0], (200.0, 10.0));
        for off in stretches(&world) {
            if off > worst {
                worst = off;
            }
        }
    }
    assert!(worst < 0.5);
}

#[test]
fn repeated_runs_are_bit_identical() {
    let mut first = rope_world();
    let mut second = rope_world();
    for _ in 0..40 {
        first.update();
        second.update();
    }
    let a = positions(&first);
    let b = positions(&second);
    assert_eq!(a.len(), b.len());
    for i in 0..a.len() {
        assert_eq!(a[i].0.to_bits(), b[i].0.to_bits());
        assert_eq!(a[i].1.to_bits(), b[i].1.to_bits());
    }
    assert!(a[9].1 > 10.0);
}

#[test]
fn world_with_a_dangling_spring_steps_without_fault() {
    let mut body = Body::new("chain");
    let a = body.create_particle(&point(0.0, 0.0));
    let b = body.create_particle(&point(10.0, 0.0));
    body.add_spring(Spring2D::new(&Single, &a, &b, enc(0.5), Some(enc(5.0))));
    body.remove_particle(b);
    let gravity = ConstantForceBehavior2D::new(enc(0.0), enc(1.0));
    let mut world = World::new_with(Single, enc(1.0), 50, enc(0.0), Some(gravity));
    world.add_object(body);
    world.update();
    world.update();
    // the particle that is left falls freely: 1, then 1 + 2
    assert_eq!(positions(&world), vec![(0.0, 3.0)]);
}
