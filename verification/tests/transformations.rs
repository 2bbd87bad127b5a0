use std::f64::consts::{PI, SQRT_2};

use ray_tracer_challenge::matrix::Matrix;
use ray_tracer_challenge::transformation::{
    rotation_x, rotation_y, rotation_z, scaling, shearing, translation, view_transform,
};
use ray_tracer_challenge::tuple::Tuple;

fn tk(v: f64) -> i64 {
    (v * 1_000_000.0).round() as i64
}

fn rot_x(r: f64) -> Matrix {
    rotation_x(tk(r.cos()), tk(r.sin()))
}

fn rot_y(r: f64) -> Matrix {
    rotation_y(tk(r.cos()), tk(r.sin()))
}

fn rot_z(r: f64) -> Matrix {
    rotation_z(tk(r.cos()), tk(r.sin()))
}

#[test]
fn multiplying_by_translation_matrix() {
    let transform = translation(tk(5.0), tk(-3.0), tk(2.0));
    let p = Tuple::point(tk(-3.0), tk(4.0), tk(5.0));

    assert_eq!(Tuple::point(tk(2.0), tk(1.0), tk(7.0)), transform.tuple_prod(p));
}

#[test]
fn multiplying_by_inverse_of_translation_matrix() {
    let transform = translation(tk(5.0), tk(-3.0), tk(2.0));
    let inv = transform.inverse().unwrap();
    let p = Tuple::point(tk(-3.0), tk(4.0), tk(5.0));

    assert_eq!(Tuple::point(tk(-8.0), tk(7.0), tk(3.0)), inv.tuple_prod(p));
}

#[test]
fn translation_does_not_affect_vectors() {
    let transform = translation(tk(5.0), tk(-3.0), tk(2.0));
    let v = Tuple::vector(tk(-3.0), tk(4.0), tk(5.0));

    assert_eq!(v, transform.tuple_prod(v));
}

#[test]
fn scaling_matrix_applied_to_point() {
    let transform = scaling(tk(2.0), tk(3.0), tk(4.0));
    let p = Tuple::point(tk(-4.0), tk(6.0), tk(8.0));

    assert_eq!(Tuple::point(tk(-8.0), tk(18.0), tk(32.0)), transform.tuple_prod(p));
}

#[test]
fn scaling_matrix_applied_to_vector() {
    let transform = scaling(tk(2.0), tk(3.0), tk(4.0));
    let v = Tuple::vector(tk(-4.0), tk(6.0), tk(8.0));

    assert_eq!(Tuple::vector(tk(-8.0), tk(18.0), tk(32.0)), transform.tuple_prod(v));
}

#[test]
fn multiplying_by_inverse_of_scaling_matrix() {
    let transform = scaling(tk(2.0), tk(3.0), tk(4.0));
    let inv = transform.inverse().unwrap();
    let v = Tuple::vector(tk(-4.0), tk(6.0), tk(8.0));

    assert_eq!(Tuple::vector(tk(-2.0), tk(2.0), tk(2.0)), inv.tuple_prod(v));
}

#[test]
fn reflection_is_scaling_by_negative_value() {
    let transform = scaling(tk(-1.0), tk(1.0), tk(1.0));
    let p = Tuple::point(tk(2.0), tk(3.0), tk(4.0));

    assert_eq!(Tuple::point(tk(-2.0), tk(3.0), tk(4.0)), transform.tuple_prod(p));
}

#[test]
fn rotating_point_around_x_axis() {
    let p = Tuple::point(tk(0.0), tk(1.0), tk(0.0));
    let half_quarter = rot_x(PI / 4.0);
    let full_quarter = rot_x(PI / 2.0);

    assert_eq!(
        Tuple::point(tk(0.0), tk(SQRT_2 / 2.0), tk(SQRT_2 / 2.0)),
        half_quarter.tuple_prod(p)
    );
    assert_eq!(Tuple::point(tk(0.0), tk(0.0), tk(1.0)), full_quarter.tuple_prod(p));
}

#[test]
fn inverse_of_x_rotation_rotates_in_opposite_direction() {
    let p = Tuple::point(tk(0.0), tk(1.0), tk(0.0));
    let half_quarter = rot_x(PI / 4.0);
    let inv = half_quarter.inverse().unwrap();

    assert_eq!(
        Tuple::point(tk(0.0), tk(SQRT_2 / 2.0), tk(-SQRT_2 / 2.0)),
        inv.tuple_prod(p)
    );
}

#[test]
fn rotating_point_around_y_axis() {
    let p = Tuple::point(tk(0.0), tk(0.0), tk(1.0));
    let half_quarter = rot_y(PI / 4.0);
    let full_quarter = rot_y(PI / 2.0);

    assert_eq!(
        Tuple::point(tk(SQRT_2 / 2.0), tk(0.0), tk(SQRT_2 / 2.0)),
        half_quarter.tuple_prod(p)
    );
    assert_eq!(Tuple::point(tk(1.0), tk(0.0), tk(0.0)), full_quarter.tuple_prod(p));
}

#[test]
fn rotating_point_around_z_axis() {
    let p = Tuple::point(tk(0.0), tk(1.0), tk(0.0));
    let half_quarter = rot_z(PI / 4.0);
    let full_quarter = rot_z(PI / 2.0);

    assert_eq!(
        Tuple::point(tk(-SQRT_2 / 2.0), tk(SQRT_2 / 2.0), tk(0.0)),
        half_quarter.tuple_prod(p)
    );
    assert_eq!(Tuple::point(tk(-1.0), tk(0.0), tk(0.0)), full_quarter.tuple_prod(p));
}

#[test]
fn shearing_transformation_moves_x_proportion_to_y() {
    let transform = shearing(tk(1.0), tk(0.0), tk(0.0), tk(0.0), tk(0.0), tk(0.0));
    let p = Tuple::point(tk(2.0), tk(3.0), tk(4.0));

    assert_eq!(Tuple::point(tk(5.0), tk(3.0), tk(4.0)), transform.tuple_prod(p));
}

#[test]
fn shearing_transformation_moves_x_proportion_to_z() {
    let transform = shearing(tk(0.0), tk(1.0), tk(0.0), tk(0.0), tk(0.0), tk(0.0));
    let p = Tuple::point(tk(2.0), tk(3.0), tk(4.0));

    assert_eq!(Tuple::point(tk(6.0), tk(3.0), tk(4.0)), transform.tuple_prod(p));
}

#[test]
fn shearing_transformation_moves_y_proportion_to_x() {
    let transform = shearing(tk(0.0), tk(0.0), tk(1.0), tk(0.0), tk(0.0), tk(0.0));
    let p = Tuple::point(tk(2.0), tk(3.0), tk(4.0));

    assert_eq!(Tuple::point(tk(2.0), tk(5.0), tk(4.0)), transform.tuple_prod(p));
}

#[test]
fn shearing_transformation_moves_y_proportion_to_z() {
    let transform = shearing(tk(0.0), tk(0.0), tk(0.0), tk(1.0), tk(0.0), tk(0.0));
    let p = Tuple::point(tk(2.0), tk(3.0), tk(4.0));

    assert_eq!(Tuple::point(tk(2.0), tk(7.0), tk(4.0)), transform.tuple_prod(p));
}

#[test]
fn shearing_transformation_moves_z_proportion_to_x() {
    let transform = shearing(tk(0.0), tk(0.0), tk(0.0), tk(0.0), tk(1.0), tk(0.0));
    let p = Tuple::point(tk(2.0), tk(3.0), tk(4.0));

    assert_eq!(Tuple::point(tk(2.0), tk(3.0), tk(6.0)), transform.tuple_prod(p));
}

#[test]
fn shearing_transformation_moves_z_proportion_to_y() {
    let transform = shearing(tk(0.0), tk(0.0), tk(0.0), tk(0.0), tk(0.0), tk(1.0));
    let p = Tuple::point(tk(2.0), tk(3.0), tk(4.0));

    assert_eq!(Tuple::point(tk(2.0), tk(3.0), tk(7.0)), transform.tuple_prod(p));
}

#[test]
fn individual_transformations_are_applied_in_sequence() {
    let p = Tuple::point(tk(1.0), tk(0.0), tk(1.0));
    let a = rot_x(PI / 2.0);
    let b = scaling(tk(5.0), tk(5.0), tk(5.0));
    let c = translation(tk(10.0), tk(5.0), tk(7.0));

    let p2 = a.tuple_prod(p);
    assert_eq!(Tuple::point(tk(1.0), tk(-1.0), tk(0.0)), p2);

    let p3 = b.tuple_prod(p2);
    assert_eq!(Tuple::point(tk(5.0), tk(-5.0), tk(0.0)), p3);

    let p4 = c.tuple_prod(p3);
    assert_eq!(Tuple::point(tk(15.0), tk(0.0), tk(7.0)), p4);
}

#[test]
fn chained_transformations_must_be_applied_in_reverse_order() {
    let p = Tuple::point(tk(1.0), tk(0.0), tk(1.0));
    let a = rot_x(PI / 2.0);
    let b = scaling(tk(5.0), tk(5.0), tk(5.0));
    let c = translation(tk(10.0), tk(5.0), tk(7.0));

    let t = c.matmul(&b).matmul(&a);
    assert_eq!(Tuple::point(tk(15.0), tk(0.0), tk(7.0)), t.tuple_prod(p));
}

#[test]
fn transformation_matrix_for_default_orientation() {
    let from = Tuple::point(tk(0.0), tk(0.0), tk(0.0));
    let to = Tuple::point(tk(0.0), tk(0.0), tk(-1.0));
    let up = Tuple::vector(tk(0.0), tk(1.0), tk(0.0));
    let t = view_transform(from, to, up);
    assert_eq!(Matrix::identity(), t);
}

#[test]
fn view_transformation_matrix_looking_in_positive_z_direction() {
    let from = Tuple::point(tk(0.0), tk(0.0), tk(0.0));
    let to = Tuple::point(tk(0.0), tk(0.0), tk(1.0));
    let up = Tuple::vector(tk(0.0), tk(1.0), tk(0.0));
    let t = view_transform(from, to, up);
    assert_eq!(scaling(tk(-1.0), tk(1.0), tk(-1.0)), t);
}

#[test]
fn view_transformation_moves_the_world() {
    let from = Tuple::point(tk(0.0), tk(0.0), tk(8.0));
    let to = Tuple::point(tk(0.0), tk(0.0), tk(0.0));
    let up = Tuple::vector(tk(0.0), tk(1.0), tk(0.0));
    let t = view_transform(from, to, up);
    assert_eq!(translation(tk(0.0), tk(0.0), tk(-8.0)), t);
}

#[test]
fn translations_compose_by_adding_offsets() {
    let a = translation(tk(3.0), tk(-2.0), tk(5.0));
    let b = translation(tk(1.0), tk(7.0), tk(-4.0));
    let summed = translation(tk(4.0), tk(5.0), tk(1.0));
    let p = Tuple::point(tk(2.5), tk(-1.5), tk(9.0));

    assert_eq!(summed.tuple_prod(p), a.matmul(&b).tuple_prod(p));
    assert_eq!(summed, a.matmul(&b));
}

#[test]
fn translation_times_its_inverse_is_identity() {
    let t = translation(tk(5.0), tk(-3.0), tk(2.0));
    let inv = t.inverse().unwrap();

    assert_eq!(Matrix::identity(), t.matmul(&inv));
    assert_eq!(translation(tk(-5.0), tk(3.0), tk(-2.0)), inv);
}

#[test]
fn inverting_a_translation_twice_gives_it_back() {
    let t = translation(tk(5.0), tk(-3.0), tk(2.0));
    let back = t.inverse().unwrap().inverse().unwrap();

    assert_eq!(t, back);
}

#[test]
fn translation_round_trip_restores_the_point() {
    let t = translation(tk(5.0), tk(-3.0), tk(2.0));
    let inv = t.inverse().unwrap();
    let p = Tuple::point(tk(-3.5), tk(4.25), tk(5.0));

    assert_eq!(p, inv.tuple_prod(t.tuple_prod(p)));
}
