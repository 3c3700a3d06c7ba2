use verlet_rs::arithmetic::Arithmetic;
use verlet_rs::behaviors::{ConstantForceBehavior2D, ParticleBehaviour2D};
use verlet_rs::constraints::{ParticleConstraint2D, PinConstraint2D};
use verlet_rs::particle2d::{Particle2D, ParticleKey};
use verlet_rs::scalar::Scalar;
use verlet_rs::spring::Spring2D;
use verlet_rs::store::ParticleStore;
use verlet_rs::vector2d::Vector2D;

struct Floats;

fn sc(x: f32) -> Scalar {
    Scalar::from_bits(x.to_bits())
}

fn fl(x: Scalar) -> f32 {
    f32::from_bits(x.to_bits())
}

fn vc(x: f32, y: f32) -> Vector2D {
    Vector2D::new(sc(x), sc(y))
}

impl Arithmetic for Floats {
    fn sum(&self, a: Scalar, b: Scalar) -> Scalar {
        sc(fl(a) + fl(b))
    }

    fn difference(&self, a: Scalar, b: Scalar) -> Scalar {
        sc(fl(a) - fl(b))
    }

    fn product(&self, a: Scalar, b: Scalar) -> Scalar {
        sc(fl(a) * fl(b))
    }

    fn quotient(&self, a: Scalar, b: Scalar) -> Scalar {
        sc(fl(a) / fl(b))
    }

    fn root(&self, a: Scalar) -> Scalar {
        sc(fl(a).sqrt())
    }

    fn from_count(&self, n: u32) -> Scalar {
        sc(n as f32)
    }
}

fn two_keys() -> (ParticleKey, ParticleKey) {
    let mut store = ParticleStore::new();
    let a = store.create(&vc(0.0, 0.0));
    let b = store.create(&vc(0.0, 0.0));
    (a, b)
}

#[test]
fn new_particle_is_at_rest_with_mass_one() {
    let (a, _) = two_keys();
    let p = Particle2D::new(a, &vc(3.0, 4.0));
    assert_eq!(p.get_id(), a);
    assert_eq!(*p.get_position(), vc(3.0, 4.0));
    assert_eq!(p.last_position, vc(3.0, 4.0));
    assert_eq!(p.force, vc(0.0, 0.0));
    assert_eq!(fl(p.get_weight()), 1.0);
    assert_eq!(fl(p.inv_weight), 1.0);
}

#[test]
fn set_weight_keeps_the_reciprocal() {
    let (a, _) = two_keys();
    let mut p = Particle2D::new(a, &vc(3.0, 4.0));
    p.set_weight(&Floats, sc(4.0));
    assert_eq!(fl(p.get_weight()), 4.0);
    assert_eq!(fl(p.inv_weight), 0.25);
    assert_eq!(*p.get_position(), vc(3.0, 4.0));
    p.set_weight(&Floats, sc(0.5));
    assert_eq!(fl(p.inv_weight), 2.0);
}

#[test]
fn zero_mass_gives_zero_inverse_mass() {
    let (a, _) = two_keys();
    let mut p = Particle2D::new(a, &vc(3.0, 4.0));
    p.set_weight(&Floats, sc(0.0));
    assert_eq!(fl(p.get_weight()), 0.0);
    assert_eq!(p.inv_weight.to_bits(), 0);
    let mut q = Particle2D::new(a, &vc(3.0, 4.0));
    q.set_weight(&Floats, sc(-0.0));
    assert_eq!(q.inv_weight.to_bits(), 0);
}

#[test]
fn add_force_accumulates() {
    let (a, _) = two_keys();
    let mut p = Particle2D::new(a, &vc(3.0, 4.0));
    p.add_force(&Floats, &vc(1.0, 2.0));
    p.add_force(&Floats, &vc(0.5, -1.0));
    assert_eq!(p.force, vc(1.5, 1.0));
    assert_eq!(*p.get_position(), vc(3.0, 4.0));
    assert_eq!(p.last_position, vc(3.0, 4.0));
}

#[test]
fn integration_follows_the_formula() {
    let (a, _) = two_keys();
    let mut p = Particle2D::new(a, &vc(10.0, 10.0));
    p.last_position = vc(8.0, 9.0);
    p.set_weight(&Floats, sc(2.0));
    p.add_force(&Floats, &vc(2.0, 0.0));
    p.update(&Floats, sc(0.5));
    // last += (pos - last) * drag        = (9, 9.5)
    // delta = (pos - last) + force / 2    = (1, 0.5) + (1, 0)
    assert_eq!(*p.get_position(), vc(12.0, 10.5));
    assert_eq!(p.last_position, vc(10.0, 10.0));
    assert_eq!(p.force, vc(0.0, 0.0));
    assert_eq!(fl(p.get_weight()), 2.0);
    assert_eq!(fl(p.inv_weight), 0.5);
    assert_eq!(p.get_id(), a);
}

#[test]
fn integration_without_drag_keeps_the_velocity() {
    let (a, _) = two_keys();
    let mut p = Particle2D::new(a, &vc(5.0, 5.0));
    p.last_position = vc(4.0, 3.0);
    p.update(&Floats, sc(0.0));
    assert_eq!(*p.get_position(), vc(6.0, 7.0));
    p.update(&Floats, sc(0.0));
    assert_eq!(*p.get_position(), vc(7.0, 9.0));
    assert_eq!(p.last_position, vc(6.0, 7.0));
}

#[test]
fn integration_with_full_drag_erases_the_velocity() {
    let (a, _) = two_keys();
    let mut p = Particle2D::new(a, &vc(5.0, 5.0));
    p.last_position = vc(4.0, 3.0);
    p.update(&Floats, sc(1.0));
    assert_eq!(*p.get_position(), vc(5.0, 5.0));
    assert_eq!(p.last_position, vc(5.0, 5.0));
}

#[test]
fn immovable_particle_ignores_force_in_integration() {
    let (a, _) = two_keys();
    let mut p = Particle2D::new(a, &vc(5.0, 5.0));
    p.set_weight(&Floats, sc(0.0));
    p.add_force(&Floats, &vc(3.0, 3.0));
    p.update(&Floats, sc(0.0));
    assert_eq!(*p.get_position(), vc(5.0, 5.0));
    assert_eq!(p.force, vc(0.0, 0.0));
}

#[test]
fn new_spring_takes_the_given_rest_length() {
    let (a, b) = two_keys();
    let spring = Spring2D::new(&Floats, &a, &b, sc(0.5), Some(sc(3.0)));
    assert_eq!(spring.get_particle_a_id(), a);
    assert_eq!(spring.get_particle_b_id(), b);
    assert_eq!(fl(spring.get_rest_length()), 3.0);
    assert_eq!(fl(spring.rest_length_sq), 9.0);
    assert_eq!(fl(spring.stiffness), 0.5);
}

#[test]
fn new_spring_without_rest_length_waits_to_be_measured() {
    let (a, b) = two_keys();
    let mut spring = Spring2D::new(&Floats, &a, &b, sc(1.0), None);
    assert_eq!(fl(spring.get_rest_length()), -1.0);
    assert!(spring.get_rest_length().is_negative());
    let pa = Particle2D::new(a, &vc(1.0, 1.0));
    let pb = Particle2D::new(b, &vc(4.0, 5.0));
    spring.init_internal(&Floats, &pa, &pb);
    assert_eq!(fl(spring.get_rest_length()), 5.0);
    assert_eq!(fl(spring.rest_length_sq), 25.0);
    let pc = Particle2D::new(b, &vc(100.0, 1.0));
    spring.init_internal(&Floats, &pa, &pc);
    assert_eq!(fl(spring.get_rest_length()), 5.0);
}

#[test]
fn given_rest_length_is_not_measured_again() {
    let (a, b) = two_keys();
    let mut spring = Spring2D::new(&Floats, &a, &b, sc(1.0), Some(sc(2.0)));
    let pa = Particle2D::new(a, &vc(1.0, 1.0));
    let pb = Particle2D::new(b, &vc(4.0, 5.0));
    spring.init_internal(&Floats, &pa, &pb);
    assert_eq!(fl(spring.get_rest_length()), 2.0);
    assert_eq!(fl(spring.rest_length_sq), 4.0);
}

#[test]
fn set_rest_length_sets_the_square_too() {
    let (a, b) = two_keys();
    let mut spring = Spring2D::new(&Floats, &a, &b, sc(1.0), None);
    spring.set_rest_length(&Floats, sc(7.0));
    assert_eq!(fl(spring.get_rest_length()), 7.0);
    assert_eq!(fl(spring.rest_length_sq), 49.0);
    assert_eq!(spring.get_particle_a_id(), a);
    assert_eq!(spring.get_particle_b_id(), b);
}

#[test]
fn relaxation_follows_the_formula() {
    let (a, b) = two_keys();
    let spring = Spring2D::new(&Floats, &a, &b, sc(1.0), Some(sc(5.0)));
    let mut pa = Particle2D::new(a, &vc(0.0, 0.0));
    let mut pb = Particle2D::new(b, &vc(10.0, 0.0));
    spring.update(&Floats, &mut pa, &mut pb);
    // dist = 100, force_mag = (100 - 25) / (100 * 2) * 1 = 0.375
    assert_eq!(*pa.get_position(), vc(3.75, 0.0));
    assert_eq!(*pb.get_position(), vc(6.25, 0.0));
    assert_eq!(pa.last_position, vc(0.0, 0.0));
    assert_eq!(pb.last_position, vc(10.0, 0.0));
}

#[test]
fn relaxation_scales_with_stiffness_and_mobility() {
    let (a, b) = two_keys();
    let spring = Spring2D::new(&Floats, &a, &b, sc(0.5), Some(sc(6.0)));
    let mut pa = Particle2D::new(a, &vc(0.0, 0.0));
    let mut pb = Particle2D::new(b, &vc(0.0, 8.0));
    pb.set_weight(&Floats, sc(0.5));
    spring.update(&Floats, &mut pa, &mut pb);
    // dist = 64, mobility = 1 + 2 = 3, force_mag = (64 - 36) / (64 * 3) * 0.5
    let force_mag = (64.0f32 - 36.0) / (64.0 * 3.0) * 0.5;
    assert_eq!(*pa.get_position(), vc(0.0, 0.0 + 8.0 * force_mag * 1.0));
    assert_eq!(*pb.get_position(), vc(0.0, 8.0 - 8.0 * force_mag * 2.0));
}

#[test]
fn immovable_endpoint_is_not_displaced() {
    let (a, b) = two_keys();
    let spring = Spring2D::new(&Floats, &a, &b, sc(1.0), Some(sc(5.0)));
    let mut pa = Particle2D::new(a, &vc(0.0, 0.0));
    pa.set_weight(&Floats, sc(0.0));
    let mut pb = Particle2D::new(b, &vc(10.0, 0.0));
    spring.update(&Floats, &mut pa, &mut pb);
    assert_eq!(*pa.get_position(), vc(0.0, 0.0));
    // the movable endpoint takes the whole correction: 10 * (75 / 100)
    assert_eq!(*pb.get_position(), vc(2.5, 0.0));
}

#[test]
fn two_immovable_endpoints_stay_and_stay_finite() {
    let (a, b) = two_keys();
    let spring = Spring2D::new(&Floats, &a, &b, sc(1.0), Some(sc(5.0)));
    let mut pa = Particle2D::new(a, &vc(0.0, 0.0));
    pa.set_weight(&Floats, sc(0.0));
    let mut pb = Particle2D::new(b, &vc(10.0, 0.0));
    pb.set_weight(&Floats, sc(0.0));
    spring.update(&Floats, &mut pa, &mut pb);
    assert_eq!(*pa.get_position(), vc(0.0, 0.0));
    assert_eq!(*pb.get_position(), vc(10.0, 0.0));
}

#[test]
fn coincident_endpoints_are_left_alone() {
    let (a, b) = two_keys();
    let spring = Spring2D::new(&Floats, &a, &b, sc(1.0), Some(sc(5.0)));
    let mut pa = Particle2D::new(a, &vc(7.0, 7.0));
    let mut pb = Particle2D::new(b, &vc(7.0, 7.0));
    spring.update(&Floats, &mut pa, &mut pb);
    assert_eq!(*pa.get_position(), vc(7.0, 7.0));
    assert_eq!(*pb.get_position(), vc(7.0, 7.0));
    assert!(!fl(pa.get_position().x).is_nan());
    assert!(!fl(pb.get_position().y).is_nan());
}

#[test]
fn constant_force_adds_nothing_until_configured() {
    let (a, _) = two_keys();
    let gravity = ConstantForceBehavior2D::new(sc(0.0), sc(2.0));
    assert_eq!(gravity.force, vc(0.0, 2.0));
    assert_eq!(gravity.scaled_force, vc(0.0, 0.0));
    assert_eq!(fl(gravity.timestep), 1.0);
    let mut p = Particle2D::new(a, &vc(1.0, 1.0));
    gravity.apply(&Floats, &mut p);
    assert_eq!(p.force, vc(0.0, 0.0));
}

#[test]
fn constant_force_is_scaled_by_the_timestep() {
    let (a, _) = two_keys();
    let mut gravity = ConstantForceBehavior2D::new(sc(1.0), sc(2.0));
    gravity.configure(&Floats, sc(0.5));
    assert_eq!(gravity.scaled_force, vc(0.5, 1.0));
    assert_eq!(fl(gravity.timestep), 0.5);
    let mut p = Particle2D::new(a, &vc(1.0, 1.0));
    gravity.apply(&Floats, &mut p);
    gravity.apply(&Floats, &mut p);
    assert_eq!(p.force, vc(1.0, 2.0));
    assert_eq!(*p.get_position(), vc(1.0, 1.0));
    gravity.set_force(&Floats, &vc(4.0, 8.0));
    assert_eq!(gravity.force, vc(4.0, 8.0));
    assert_eq!(gravity.scaled_force, vc(2.0, 4.0));
}

#[test]
fn pin_captures_and_reasserts_the_position() {
    let (a, _) = two_keys();
    let mut pin = PinConstraint2D::new(&a);
    assert_eq!(pin.get_particle_id(), a);
    assert_eq!(pin.position, vc(0.0, 0.0));
    let mut p = Particle2D::new(a, &vc(200.0, 10.0));
    pin.init_internal(&p);
    assert_eq!(pin.position, vc(200.0, 10.0));
    p.last_position = vc(190.0, 9.0);
    p.position = vc(210.0, 11.0);
    p.force = vc(1.0, 1.0);
    pin.apply(&mut p);
    assert_eq!(*p.get_position(), vc(200.0, 10.0));
    assert_eq!(p.last_position, vc(200.0, 10.0));
    assert_eq!(p.force, vc(1.0, 1.0));
    assert_eq!(pin.position, vc(200.0, 10.0));
}
