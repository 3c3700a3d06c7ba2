use verlet_rs::arithmetic::Arithmetic;
use verlet_rs::behaviors::ConstantForceBehavior2D;
use verlet_rs::constraints::PinConstraint2D;
use verlet_rs::objects::utils::sheet_coordinate;
use verlet_rs::objects::{
    create_line_from_endpoints, create_line_from_points, create_sheet, VerletObject2D,
};
use verlet_rs::scalar::Scalar;
use verlet_rs::spring::Spring2D;
use verlet_rs::vector2d::Vector2D;

struct Binary32;

fn pack(x: f32) -> Scalar {
    Scalar::from_bits(x.to_bits())
}

fn unpack(x: Scalar) -> f32 {
    f32::from_bits(x.to_bits())
}

fn xy(x: f32, y: f32) -> Vector2D {
    Vector2D::new(pack(x), pack(y))
}

impl Arithmetic for Binary32 {
    fn sum(&self, a: Scalar, b: Scalar) -> Scalar {
        pack(unpack(a) + unpack(b))
    }

    fn difference(&self, a: Scalar, b: Scalar) -> Scalar {
        pack(unpack(a) - unpack(b))
    }

    fn product(&self, a: Scalar, b: Scalar) -> Scalar {
        pack(unpack(a) * unpack(b))
    }

    fn quotient(&self, a: Scalar, b: Scalar) -> Scalar {
        pack(unpack(a) / unpack(b))
    }

    fn root(&self, a: Scalar) -> Scalar {
        pack(unpack(a).sqrt())
    }

    fn from_count(&self, n: u32) -> Scalar {
        pack(n as f32)
    }
}

type Shape = VerletObject2D<PinConstraint2D>;

fn places(shape: &Shape) -> Vec<(f32, f32)> {
    shape
        .get_particles()
        .iter()
        .map(|p| (unpack(p.get_position().x), unpack(p.get_position().y)))
        .collect()
}

#[test]
fn line_from_endpoints_spaces_particles_evenly() {
    let mut line = Shape::new("line");
    create_line_from_endpoints(&Binary32, &mut line, xy(100.0, 100.0), xy(250.0, 100.0), 10, pack(0.5));
    let at = places(&line);
    assert_eq!(at.len(), 11);
    for i in 0..11 {
        assert_eq!(at[i], (100.0 + 15.0 * i as f32, 100.0));
    }
    let particles = line.get_particles();
    for p in &particles {
        assert_eq!(p.last_position, *p.get_position());
        assert_eq!(unpack(p.get_weight()), 1.0);
    }
}

#[test]
fn line_from_endpoints_follows_a_slanted_direction() {
    let mut line = Shape::new("line");
    create_line_from_endpoints(&Binary32, &mut line, xy(1.0, 2.0), xy(31.0, 42.0), 5, pack(1.0));
    let at = places(&line);
    assert_eq!(at.len(), 6);
    let unit = (30.0f32 / 50.0, 40.0f32 / 50.0);
    for i in 0..6 {
        let reach = 10.0f32 * i as f32;
        assert_eq!(at[i], (1.0 + unit.0 * reach, 2.0 + unit.1 * reach));
    }
    assert!((at[5].0 - 31.0).abs() < 1.0e-4);
    assert!((at[5].1 - 42.0).abs() < 1.0e-4);
}

#[test]
fn line_from_endpoints_pins_the_first_and_links_neighbours() {
    let mut line = Shape::new("line");
    create_line_from_endpoints(&Binary32, &mut line, xy(100.0, 100.0), xy(250.0, 100.0), 10, pack(0.5));
    let particles = line.get_particles();
    let pins = line.get_constraints();
    assert_eq!(pins.len(), 1);
    assert_eq!(pins[0].particle_id, particles[0].get_id());
    assert_eq!(pins[0].position, xy(100.0, 100.0));
    let springs = line.get_springs();
    assert_eq!(springs.len(), 10);
    for i in 0..10 {
        assert_eq!(springs[i].get_particle_a_id(), particles[i].get_id());
        assert_eq!(springs[i].get_particle_b_id(), particles[i + 1].get_id());
        assert_eq!(unpack(springs[i].get_rest_length()), 15.0);
        assert_eq!(unpack(springs[i].rest_length_sq), 225.0);
        assert_eq!(unpack(springs[i].stiffness), 0.5);
    }
}

#[test]
fn line_from_endpoints_adds_to_what_the_object_has() {
    let mut line = Shape::new("line");
    let a = line.create_particle(&xy(0.0, 0.0));
    let b = line.create_particle(&xy(1.0, 0.0));
    line.add_spring(Spring2D::new(&Binary32, &a, &b, pack(1.0), Some(pack(1.0))));
    line.add_constraint(PinConstraint2D::new(&b)).unwrap();
    create_line_from_endpoints(&Binary32, &mut line, xy(10.0, 0.0), xy(10.0, 20.0), 2, pack(0.5));
    let at = places(&line);
    assert_eq!(at, vec![(0.0, 0.0), (1.0, 0.0), (10.0, 0.0), (10.0, 10.0), (10.0, 20.0)]);
    assert_eq!(line.get_springs().len(), 3);
    assert_eq!(unpack(line.get_springs()[0].get_rest_length()), 1.0);
    assert_eq!(line.get_constraints().len(), 2);
    assert_eq!(line.get_constraints()[0].particle_id, b);
    assert_eq!(line.get_constraints()[1].position, xy(10.0, 0.0));
    assert_eq!(line.get_tag(), "line");
}

#[test]
fn line_from_points_goes_through_the_points() {
    let mut line = Shape::new("path");
    let points = [xy(0.0, 0.0), xy(3.0, 4.0), xy(3.0, 10.0), xy(-5.0, 10.0)];
    create_line_from_points(&Binary32, &mut line, &points, pack(0.75));
    assert_eq!(places(&line), vec![(0.0, 0.0), (3.0, 4.0), (3.0, 10.0), (-5.0, 10.0)]);
    let particles = line.get_particles();
    let pins = line.get_constraints();
    assert_eq!(pins.len(), 1);
    assert_eq!(pins[0].particle_id, particles[0].get_id());
    assert_eq!(pins[0].position, xy(0.0, 0.0));
    let springs = line.get_springs();
    assert_eq!(springs.len(), 3);
    for i in 0..3 {
        assert_eq!(springs[i].get_particle_a_id(), particles[i].get_id());
        assert_eq!(springs[i].get_particle_b_id(), particles[i + 1].get_id());
        assert_eq!(unpack(springs[i].get_rest_length()), -1.0);
        assert_eq!(unpack(springs[i].stiffness), 0.75);
    }
}

#[test]
fn line_from_points_measures_its_springs_at_the_first_step() {
    let mut line = Shape::new("path");
    let points = [xy(0.0, 0.0), xy(3.0, 4.0), xy(3.0, 10.0), xy(-5.0, 10.0)];
    create_line_from_points(&Binary32, &mut line, &points, pack(0.5));
    let none: Vec<ConstantForceBehavior2D> = Vec::new();
    line.update(&Binary32, 1, pack(0.0), &none);
    let springs = line.get_springs();
    assert_eq!(unpack(springs[0].get_rest_length()), 5.0);
    assert_eq!(unpack(springs[1].get_rest_length()), 6.0);
    assert_eq!(unpack(springs[2].get_rest_length()), 8.0);
    assert_eq!(places(&line), vec![(0.0, 0.0), (3.0, 4.0), (3.0, 10.0), (-5.0, 10.0)]);
}

#[test]
fn line_from_no_points_builds_nothing() {
    let mut line = Shape::new("path");
    create_line_from_points(&Binary32, &mut line, &[], pack(0.5));
    assert_eq!(line.particle_count(), 0);
    assert!(line.get_springs().is_empty());
    assert!(line.get_constraints().is_empty());
    create_line_from_points(&Binary32, &mut line, &[xy(1.0, 1.0)], pack(0.5));
    assert_eq!(line.particle_count(), 1);
    assert!(line.get_springs().is_empty());
    assert_eq!(line.get_constraints().len(), 1);
}

#[test]
fn sheet_coordinate_follows_the_formula() {
    // center + stride * n - extent / 2 + stride / 2
    assert_eq!(unpack(sheet_coordinate(&Binary32, pack(0.0), pack(10.0), pack(30.0), 0)), -10.0);
    assert_eq!(unpack(sheet_coordinate(&Binary32, pack(0.0), pack(10.0), pack(30.0), 3)), 20.0);
    assert_eq!(unpack(sheet_coordinate(&Binary32, pack(100.0), pack(4.0), pack(8.0), 1)), 102.0);
}

#[test]
fn sheet_is_a_grid_around_its_center() {
    let mut sheet = Shape::new("cloth");
    create_sheet(&Binary32, &mut sheet, xy(0.0, 100.0), pack(30.0), pack(60.0), 3, pack(0.5));
    let at = places(&sheet);
    assert_eq!(at.len(), 16);
    for j in 0..4 {
        for i in 0..4 {
            let x = 0.0 + 10.0 * i as f32 - 15.0 + 5.0;
            let y = 100.0 + 20.0 * j as f32 - 30.0 + 10.0;
            assert_eq!(at[j * 4 + i], (x, y));
        }
    }
}

#[test]
fn sheet_pins_the_ends_of_its_first_row() {
    let mut sheet = Shape::new("cloth");
    create_sheet(&Binary32, &mut sheet, xy(0.0, 0.0), pack(30.0), pack(30.0), 3, pack(0.5));
    let particles = sheet.get_particles();
    let pins = sheet.get_constraints();
    assert_eq!(pins.len(), 2);
    assert_eq!(pins[0].particle_id, particles[0].get_id());
    assert_eq!(pins[0].position, xy(-10.0, -10.0));
    assert_eq!(pins[1].particle_id, particles[3].get_id());
    assert_eq!(pins[1].position, xy(20.0, -10.0));
}

#[test]
fn sheet_links_rows_and_columns() {
    let mut sheet = Shape::new("cloth");
    create_sheet(&Binary32, &mut sheet, xy(0.0, 0.0), pack(30.0), pack(60.0), 3, pack(0.25));
    let particles = sheet.get_particles();
    let springs = sheet.get_springs();
    assert_eq!(springs.len(), 24);
    let mut next = 0;
    for j in 0..4 {
        for i in 0..4 {
            if j > 0 {
                let s = &springs[next];
                assert_eq!(s.get_particle_a_id(), particles[(j - 1) * 4 + i].get_id());
                assert_eq!(s.get_particle_b_id(), particles[j * 4 + i].get_id());
                assert_eq!(unpack(s.get_rest_length()), 20.0);
                assert_eq!(unpack(s.stiffness), 0.25);
                next += 1;
            }
            if i > 0 {
                let s = &springs[next];
                assert_eq!(s.get_particle_a_id(), particles[j * 4 + i - 1].get_id());
                assert_eq!(s.get_particle_b_id(), particles[j * 4 + i].get_id());
                assert_eq!(unpack(s.get_rest_length()), 10.0);
                next += 1;
            }
        }
    }
    assert_eq!(next, 24);
}

#[test]
fn sheet_hangs_from_its_pins() {
    let mut sheet = Shape::new("cloth");
    create_sheet(&Binary32, &mut sheet, xy(0.0, 0.0), pack(30.0), pack(30.0), 3, pack(0.5));
    let mut gravity = ConstantForceBehavior2D::new(pack(0.0), pack(1.0));
    gravity.set_force(&Binary32, &xy(0.0, 1.0));
    let pull = vec![gravity];
    for _ in 0..50 {
        sheet.update(&Binary32, 50, pack(0.0), &pull);
        let at = places(&sheet);
        assert_eq!(at[0], (-10.0, -10.0));
        assert_eq!(at[3], (20.0, -10.0));
    }
    let at = places(&sheet);
    for (x, y) in &at {
        assert!(x.is_finite() && y.is_finite());
    }
    assert!(at[12].1 > 20.0);
    assert!(at[15].1 > 20.0);
}

#[test]
fn sheet_of_no_segments_is_one_pinned_particle() {
    let mut sheet = Shape::new("cloth");
    create_sheet(&Binary32, &mut sheet, xy(0.0, 0.0), pack(30.0), pack(30.0), 0, pack(0.5));
    assert_eq!(sheet.particle_count(), 1);
    assert_eq!(sheet.get_constraints().len(), 1);
    assert!(sheet.get_springs().is_empty());
}
