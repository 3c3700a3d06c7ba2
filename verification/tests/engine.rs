use verlet_rs::arithmetic::Arithmetic;
use verlet_rs::particle2d::{Particle2D, ParticleKey};
use verlet_rs::scalar::Scalar;
use verlet_rs::store::ParticleStore;
use verlet_rs::vector2d::Vector2D;

struct Ieee;

fn s(x: f32) -> Scalar {
    Scalar::from_bits(x.to_bits())
}

fn f(x: Scalar) -> f32 {
    f32::from_bits(x.to_bits())
}

fn v(x: f32, y: f32) -> Vector2D {
    Vector2D::new(s(x), s(y))
}

impl Arithmetic for Ieee {
    fn sum(&self, a: Scalar, b: Scalar) -> Scalar {
        s(f(a) + f(b))
    }

    fn difference(&self, a: Scalar, b: Scalar) -> Scalar {
        s(f(a) - f(b))
    }

    fn product(&self, a: Scalar, b: Scalar) -> Scalar {
        s(f(a) * f(b))
    }

    fn quotient(&self, a: Scalar, b: Scalar) -> Scalar {
        s(f(a) / f(b))
    }

    fn root(&self, a: Scalar) -> Scalar {
        s(f(a).sqrt())
    }

    fn from_count(&self, n: u32) -> Scalar {
        s(n as f32)
    }
}

#[test]
fn it_works() {
    assert_eq!(2 + 2, 4);
}

#[test]
fn scalar_keeps_its_bits() {
    assert_eq!(Scalar::from_bits(0x4049_0fdb).to_bits(), 0x4049_0fdb);
    assert_eq!(f(Scalar::zero()), 0.0);
    assert_eq!(f(Scalar::one()), 1.0);
    assert_eq!(f(Scalar::two()), 2.0);
    assert_eq!(f(Scalar::minus_one()), -1.0);
    assert_eq!(s(1.5), Scalar { bits: 0x3fc0_0000 });
}

#[test]
fn scalar_knows_both_zeros() {
    assert!(s(0.0).is_zero());
    assert!(s(-0.0).is_zero());
    assert!(!s(1.0).is_zero());
    assert!(!s(-1.0).is_zero());
    assert!(!s(f32::MIN_POSITIVE).is_zero());
    assert!(!s(f32::NAN).is_zero());
    assert!(!s(f32::INFINITY).is_zero());
}

#[test]
fn scalar_knows_negative_numbers() {
    assert!(s(-1.0).is_negative());
    assert!(s(-f32::MIN_POSITIVE).is_negative());
    assert!(s(f32::NEG_INFINITY).is_negative());
    assert!(!s(-0.0).is_negative());
    assert!(!s(0.0).is_negative());
    assert!(!s(1.0).is_negative());
    assert!(!s(f32::NAN).is_negative());
    assert!(!s(-f32::NAN).is_negative());
}

#[test]
fn scalar_classes_agree_with_the_float_they_encode() {
    let samples: [f32; 12] = [
        0.0,
        -0.0,
        1.0,
        -1.0,
        f32::MIN_POSITIVE,
        -f32::MIN_POSITIVE,
        f32::MAX,
        f32::MIN,
        f32::INFINITY,
        f32::NEG_INFINITY,
        f32::NAN,
        1.0e-40,
    ];
    for x in samples {
        assert_eq!(s(x).is_zero(), x == 0.0);
        assert_eq!(s(x).is_negative(), x < 0.0);
    }
}

#[test]
fn vector_construction_and_setters() {
    let mut a = Vector2D::new(s(1.0), s(2.0));
    assert_eq!(f(a.x), 1.0);
    assert_eq!(f(a.y), 2.0);
    a.set(s(3.0), s(4.0));
    assert_eq!(a, v(3.0, 4.0));
    a.set_v(&v(5.0, 6.0));
    assert_eq!(a, v(5.0, 6.0));
    a.clear();
    assert_eq!(a, v(0.0, 0.0));
    assert_eq!(Vector2D::zero(), v(0.0, 0.0));
    assert_eq!(Vector2D::default(), v(0.0, 0.0));
}

#[test]
fn vector_arithmetic_is_component_wise() {
    let a = v(6.0, 8.0);
    let b = v(2.0, 4.0);
    assert_eq!(a.add(&Ieee, b), v(8.0, 12.0));
    assert_eq!(a.sub(&Ieee, b), v(4.0, 4.0));
    assert_eq!(a.mul(&Ieee, b), v(12.0, 32.0));
    assert_eq!(a.div(&Ieee, b), v(3.0, 2.0));
    assert_eq!(a.scale(&Ieee, s(0.5)), v(3.0, 4.0));
    assert_eq!(a.div_scalar(&Ieee, s(4.0)), v(1.5, 2.0));
    let mut c = a;
    c.add_assign(&Ieee, b);
    assert_eq!(c, v(8.0, 12.0));
    c.sub_assign(&Ieee, v(1.0, 1.0));
    assert_eq!(c, v(7.0, 11.0));
}

#[test]
fn vector_operands_are_not_swapped() {
    let a = v(1.0, 10.0);
    let b = v(4.0, 2.0);
    assert_eq!(a.sub(&Ieee, b), v(-3.0, 8.0));
    assert_eq!(b.sub(&Ieee, a), v(3.0, -8.0));
    assert_eq!(a.div(&Ieee, b), v(0.25, 5.0));
    assert_eq!(b.div(&Ieee, a), v(4.0, 0.2));
}

#[test]
fn magnitude_of_three_four_is_five() {
    let a = v(3.0, 4.0);
    assert_eq!(f(a.magnitude_sq(&Ieee)), 25.0);
    assert_eq!(f(a.magnitude(&Ieee)), 5.0);
}

#[test]
fn magnitude_squares_both_components() {
    let a = v(2.0, 5.0);
    assert_eq!(f(a.magnitude_sq(&Ieee)), 29.0);
    let b = v(0.0, -3.0);
    assert_eq!(f(b.magnitude_sq(&Ieee)), 9.0);
    assert_eq!(f(b.magnitude(&Ieee)), 3.0);
}

#[test]
fn dot_product_sums_the_products() {
    assert_eq!(f(v(1.0, 2.0).dot(&Ieee, v(3.0, 4.0))), 11.0);
    assert_eq!(f(v(1.0, 0.0).dot(&Ieee, v(0.0, 1.0))), 0.0);
}

#[test]
fn store_hands_out_distinct_keys() {
    let mut store = ParticleStore::new();
    assert_eq!(store.len(), 0);
    let a = store.create(&v(1.0, 2.0));
    let b = store.create(&v(3.0, 4.0));
    assert_ne!(a, b);
    assert_eq!(store.len(), 2);
    let p: &Particle2D = store.get(a).unwrap();
    assert_eq!(*p.get_position(), v(1.0, 2.0));
    assert_eq!(p.get_id(), a);
    let q = store.get(b).unwrap();
    assert_eq!(*q.get_position(), v(3.0, 4.0));
    assert_eq!(q.get_id(), b);
}

#[test]
fn store_forgets_removed_keys() {
    let mut store = ParticleStore::new();
    let a = store.create(&v(1.0, 2.0));
    let b = store.create(&v(3.0, 4.0));
    store.remove(a);
    assert!(store.get(a).is_none());
    assert!(store.get(b).is_some());
    assert_eq!(store.len(), 1);
    store.remove(a);
    assert_eq!(store.len(), 1);
    let c = store.create(&v(5.0, 6.0));
    assert_ne!(c, a);
    assert!(store.get(a).is_none());
    assert_eq!(*store.get(c).unwrap().get_position(), v(5.0, 6.0));
}

#[test]
fn store_does_not_know_a_key_it_never_gave() {
    let mut store = ParticleStore::new();
    store.create(&v(1.0, 2.0));
    assert!(store.get(ParticleKey::default()).is_none());
    store.remove(ParticleKey::default());
    assert_eq!(store.len(), 1);
}

#[test]
fn store_walks_in_creation_order() {
    let mut store = ParticleStore::new();
    let a = store.create(&v(1.0, 0.0));
    let b = store.create(&v(2.0, 0.0));
    let c = store.create(&v(3.0, 0.0));
    assert_eq!(store.keys(), vec![a, b, c]);
    let all = store.get_all();
    assert_eq!(all.len(), 3);
    assert_eq!(f(all[0].get_position().x), 1.0);
    assert_eq!(f(all[1].get_position().x), 2.0);
    assert_eq!(f(all[2].get_position().x), 3.0);
    store.remove(b);
    assert_eq!(store.keys(), vec![a, c]);
    let rest = store.get_all();
    assert_eq!(rest.len(), 2);
    assert_eq!(rest[0].get_id(), a);
    assert_eq!(rest[1].get_id(), c);
}

#[test]
fn store_puts_a_new_particle_last_even_after_a_removal() {
    let mut store = ParticleStore::new();
    let a = store.create(&v(1.0, 0.0));
    let b = store.create(&v(2.0, 0.0));
    let c = store.create(&v(3.0, 0.0));
    store.remove(b);
    let d = store.create(&v(4.0, 0.0));
    assert_eq!(store.keys(), vec![a, c, d]);
    let all = store.get_all();
    assert_eq!(f(all[0].get_position().x), 1.0);
    assert_eq!(f(all[1].get_position().x), 3.0);
    assert_eq!(f(all[2].get_position().x), 4.0);
    store.remove(a);
    let e = store.create(&v(5.0, 0.0));
    assert_eq!(store.keys(), vec![c, d, e]);
    assert_ne!(e, a);
    assert_ne!(d, b);
}

#[test]
fn store_replaces_a_particle_under_its_key() {
    let mut store = ParticleStore::new();
    let a = store.create(&v(1.0, 2.0));
    let b = store.create(&v(3.0, 4.0));
    let mut p = *store.get(a).unwrap();
    p.position = v(9.0, 9.0);
    store.put(p);
    assert_eq!(*store.get(a).unwrap().get_position(), v(9.0, 9.0));
    assert_eq!(*store.get(b).unwrap().get_position(), v(3.0, 4.0));
    assert_eq!(store.len(), 2);
    store.remove(a);
    store.put(p);
    assert!(store.get(a).is_none());
    assert_eq!(store.len(), 1);
}

#[test]
fn store_gives_pairs_of_distinct_live_particles_only() {
    let mut store = ParticleStore::new();
    let a = store.create(&v(1.0, 2.0));
    let b = store.create(&v(3.0, 4.0));
    let (x, y) = store.pair(a, b).unwrap();
    assert_eq!(x.get_id(), a);
    assert_eq!(y.get_id(), b);
    assert_eq!(*x.get_position(), v(1.0, 2.0));
    assert_eq!(*y.get_position(), v(3.0, 4.0));
    let (y2, x2) = store.pair(b, a).unwrap();
    assert_eq!(y2.get_id(), b);
    assert_eq!(x2.get_id(), a);
    assert!(store.pair(a, a).is_none());
    store.remove(b);
    assert!(store.pair(a, b).is_none());
    assert!(store.pair(b, a).is_none());
    assert_eq!(store.len(), 1);
}

#[test]
fn store_clear_discards_everything() {
    let mut store = ParticleStore::new();
    let a = store.create(&v(1.0, 2.0));
    store.create(&v(3.0, 4.0));
    store.clear();
    assert_eq!(store.len(), 0);
    assert!(store.get(a).is_none());
    assert!(store.keys().is_empty());
    assert!(store.get_all().is_empty());
    let c = store.create(&v(5.0, 6.0));
    assert_eq!(store.len(), 1);
    assert_eq!(*store.get(c).unwrap().get_position(), v(5.0, 6.0));
}
