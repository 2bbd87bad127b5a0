use ray_tracer_challenge::tuple::Tuple;

fn tk(v: f64) -> i64 {
    (v * 1_000_000.0).round() as i64
}

#[test]
fn lib_tuple_point() {
    // A tuple with w=1.0 is a point
    let t = Tuple::point(tk(4.3), tk(-4.2), tk(3.1));

    assert_eq!(t.0, tk(4.3));
    assert_eq!(t.1, tk(-4.2));
    assert_eq!(t.2, tk(3.1));
    assert_eq!(t.3, tk(1.0));
}

#[test]
fn lib_tuple_vector() {
    // A tuple with w=0 is a vector
    let t = Tuple::vector(tk(4.3), tk(-4.2), tk(3.1));

    assert_eq!(t.0, tk(4.3));
    assert_eq!(t.1, tk(-4.2));
    assert_eq!(t.2, tk(3.1));
    assert_eq!(t.3, tk(0.0));
}

#[test]
fn tuple_tuple_point() {
    let p = Tuple::point(tk(4.3), tk(-4.2), tk(3.1));

    assert_eq!(p.0, tk(4.3));
    assert_eq!(p.1, tk(-4.2));
    assert_eq!(p.2, tk(3.1));
    assert_eq!(p.3, tk(1.0));
}

#[test]
fn tuple_tuple_vector() {
    let v = Tuple::vector(tk(4.3), tk(-4.2), tk(3.1));

    assert_eq!(v.0, tk(4.3));
    assert_eq!(v.1, tk(-4.2));
    assert_eq!(v.2, tk(3.1));
    assert_eq!(v.3, tk(0.0));
}

#[test]
fn equality_vector() {
    let t1 = Tuple::vector(tk(1.0), tk(1.0), tk(1.0));
    let t2 = Tuple::vector(tk(1.0), tk(1.0), tk(1.0));

    assert_eq!(t1, t2);
}

#[test]
fn inequality_vector_point() {
    let t = Tuple::vector(tk(1.0), tk(1.0), tk(1.0));
    let p = Tuple::point(tk(1.0), tk(1.0), tk(1.0));

    assert_ne!(t, p);
}

#[test]
fn inequality_vector_vector() {
    let v1 = Tuple::vector(tk(0.0), tk(1.0), tk(0.0));
    let v2 = Tuple::vector(tk(1.0), tk(0.0), tk(0.0));

    assert_ne!(v1, v2);
}

#[test]
fn adding_two_tuples() {
    let t1 = Tuple(tk(3.0), tk(-2.0), tk(5.0), tk(1.0));
    let t2 = Tuple(tk(-2.0), tk(3.0), tk(1.0), tk(0.0));

    assert_eq!(Tuple(tk(1.0), tk(1.0), tk(6.0), tk(1.0)), t1.plus(t2));
}

#[test]
fn subtracting_two_points() {
    let p1 = Tuple::point(tk(3.0), tk(2.0), tk(1.0));
    let p2 = Tuple::point(tk(5.0), tk(6.0), tk(7.0));

    assert_eq!(Tuple::vector(tk(-2.0), tk(-4.0), tk(-6.0)), p1.minus(p2));
}

#[test]
fn subtracting_vector_from_point() {
    let p = Tuple::point(tk(3.0), tk(2.0), tk(1.0));
    let v = Tuple::vector(tk(5.0), tk(6.0), tk(7.0));

    assert_eq!(Tuple::point(tk(-2.0), tk(-4.0), tk(-6.0)), p.minus(v));
}

#[test]
fn subtracting_two_vectors() {
    let v1 = Tuple::vector(tk(3.0), tk(2.0), tk(1.0));
    let v2 = Tuple::vector(tk(5.0), tk(6.0), tk(7.0));

    assert_eq!(Tuple::vector(tk(-2.0), tk(-4.0), tk(-6.0)), v1.minus(v2));
}

#[test]
fn subtracting_vector_from_zero_vector() {
    let zero = Tuple::vector(tk(0.0), tk(0.0), tk(0.0));
    let v = Tuple::vector(tk(1.0), tk(-2.0), tk(3.0));

    assert_eq!(Tuple::vector(tk(-1.0), tk(2.0), tk(-3.0)), zero.minus(v));
}

#[test]
fn negating_tuple() {
    let t = Tuple(tk(1.0), tk(-2.0), tk(3.0), tk(-4.0));

    assert_eq!(Tuple(tk(-1.0), tk(2.0), tk(-3.0), tk(4.0)), t.negate());
}

#[test]
fn multiplying_tuple_by_scalar() {
    let t = Tuple(tk(1.0), tk(-2.0), tk(3.0), tk(-4.0));

    assert_eq!(Tuple(tk(3.5), tk(-7.0), tk(10.5), tk(-14.0)), t.scale(tk(3.5)));
}

#[test]
fn multiplying_tuple_by_fraction() {
    let t = Tuple(tk(1.0), tk(-2.0), tk(3.0), tk(-4.0));

    assert_eq!(Tuple(tk(0.5), tk(-1.0), tk(1.5), tk(-2.0)), t.scale(tk(0.5)));
}

#[test]
fn dividing_tuple_by_scalar() {
    let t = Tuple(tk(1.0), tk(-2.0), tk(3.0), tk(-4.0));

    assert_eq!(Tuple(tk(0.5), tk(-1.0), tk(1.5), tk(-2.0)), t.div_scale(tk(2.0)));
}

#[test]
fn magnitude_of_vectors() {
    assert_eq!(tk(1.0), Tuple::vector(tk(1.0), tk(0.0), tk(0.0)).magnitude());
    assert_eq!(tk(1.0), Tuple::vector(tk(0.0), tk(1.0), tk(0.0)).magnitude());
    assert_eq!(tk(1.0), Tuple::vector(tk(0.0), tk(0.0), tk(1.0)).magnitude());
    assert_eq!(tk(14.0_f64.sqrt()), Tuple::vector(tk(1.0), tk(2.0), tk(3.0)).magnitude());
    assert_eq!(tk(14.0_f64.sqrt()), Tuple::vector(tk(-1.0), tk(-2.0), tk(-3.0)).magnitude());
}

#[test]
fn normalizing_vectors() {
    assert_eq!(
        Tuple::vector(tk(1.0), tk(0.0), tk(0.0)),
        Tuple::vector(tk(4.0), tk(0.0), tk(0.0)).normalize()
    );
    assert_eq!(
        Tuple::vector(
            tk(1.0 / 14.0_f64.sqrt()),
            tk(2.0 / 14.0_f64.sqrt()),
            tk(3.0 / 14.0_f64.sqrt())
        ),
        Tuple::vector(tk(1.0), tk(2.0), tk(3.0)).normalize()
    );
}

#[test]
fn magnitude_of_normalized_vector() {
    assert_eq!(tk(1.0), Tuple::vector(tk(1.0), tk(2.0), tk(3.0)).normalize().magnitude());
}

#[test]
fn dot_product_of_two_tuples() {
    let v1 = Tuple::vector(tk(1.0), tk(2.0), tk(3.0));
    let v2 = Tuple::vector(tk(2.0), tk(3.0), tk(4.0));

    assert_eq!(tk(20.0), v1.dot(v2));
}

#[test]
fn cross_product_of_two_vectors() {
    let v1 = Tuple::vector(tk(1.0), tk(2.0), tk(3.0));
    let v2 = Tuple::vector(tk(2.0), tk(3.0), tk(4.0));

    assert_eq!(Tuple::vector(tk(-1.0), tk(2.0), tk(-1.0)), v1.cross(v2));
    assert_eq!(Tuple::vector(tk(1.0), tk(-2.0), tk(1.0)), v2.cross(v1));
}

#[test]
fn colors_are_tuples() {
    let c = Tuple::color(tk(-0.5), tk(0.4), tk(1.7));

    assert_eq!(tk(-0.5), c.0);
    assert_eq!(tk(0.4), c.1);
    assert_eq!(tk(1.7), c.2);
}

#[test]
fn adding_colors() {
    let c1 = Tuple::color(tk(0.9), tk(0.6), tk(0.75));
    let c2 = Tuple::color(tk(0.7), tk(0.1), tk(0.25));

    assert_eq!(Tuple::color(tk(1.6), tk(0.7), tk(1.0)), c1.plus(c2));
}

#[test]
fn subtracting_colors() {
    let c1 = Tuple::color(tk(0.9), tk(0.6), tk(0.75));
    let c2 = Tuple::color(tk(0.7), tk(0.1), tk(0.25));

    assert_eq!(Tuple::color(tk(0.2), tk(0.5), tk(0.5)), c1.minus(c2));
}

#[test]
fn multiplying_color_by_scalar() {
    let c = Tuple::color(tk(0.2), tk(0.3), tk(0.4));

    assert_eq!(Tuple::color(tk(0.4), tk(0.6), tk(0.8)), c.scale(tk(2.0)));
}

#[test]
fn multiplying_colors() {
    let c1 = Tuple::color(tk(1.0), tk(0.2), tk(0.4));
    let c2 = Tuple::color(tk(0.9), tk(1.0), tk(0.1));

    assert_eq!(Tuple::color(tk(0.9), tk(0.2), tk(0.04)), c1.hadamard(c2));
}

#[test]
fn reflecting_vector_approaching_at_45_degrees() {
    let v = Tuple::vector(tk(1.0), tk(-1.0), tk(0.0));
    let n = Tuple::vector(tk(0.0), tk(1.0), tk(0.0));
    let r = ray_tracer_challenge::tuple::reflect(v, n);

    assert_eq!(Tuple::vector(tk(1.0), tk(1.0), tk(0.0)), r);
}

#[test]
fn reflecting_vector_off_slanted_surface() {
    let v = Tuple::vector(tk(0.0), tk(-1.0), tk(0.0));
    let n = Tuple::vector(tk(2.0_f64.sqrt() / 2.0), tk(2.0_f64.sqrt() / 2.0), tk(0.0));
    let r = ray_tracer_challenge::tuple::reflect(v, n);

    assert_eq!(Tuple::vector(tk(1.0), tk(0.0), tk(0.0)), r);
}
