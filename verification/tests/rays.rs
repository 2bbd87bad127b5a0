use ray_tracer_challenge::ray::Ray;
use ray_tracer_challenge::transformation::{scaling, translation};
use ray_tracer_challenge::tuple::Tuple;

fn tk(v: f64) -> i64 {
    (v * 1_000_000.0).round() as i64
}

#[test]
fn creating_and_querying_ray() {
    let origin = Tuple::point(tk(1.0), tk(2.0), tk(3.0));
    let direction = Tuple::vector(tk(4.0), tk(5.0), tk(6.0));

    let ray = Ray::new(origin, direction);
    assert_eq!(origin, ray.origin);
    assert_eq!(direction, ray.direction);
}

#[test]
fn computing_point_from_distance() {
    let ray = Ray::new(
        Tuple::point(tk(2.0), tk(3.0), tk(4.0)),
        Tuple::vector(tk(1.0), tk(0.0), tk(0.0)),
    );
    assert_eq!(Tuple::point(tk(2.0), tk(3.0), tk(4.0)), ray.position(tk(0.0)));
    assert_eq!(Tuple::point(tk(3.0), tk(3.0), tk(4.0)), ray.position(tk(1.0)));
    assert_eq!(Tuple::point(tk(1.0), tk(3.0), tk(4.0)), ray.position(tk(-1.0)));
    assert_eq!(Tuple::point(tk(4.5), tk(3.0), tk(4.0)), ray.position(tk(2.5)))
}

#[test]
fn translating_ray() {
    let r = Ray::new(
        Tuple::point(tk(1.0), tk(2.0), tk(3.0)),
        Tuple::vector(tk(0.0), tk(1.0), tk(0.0)),
    );
    let m = translation(tk(3.0), tk(4.0), tk(5.0));
    let r2 = r.transform(&m);

    assert_eq!(Tuple::point(tk(4.0), tk(6.0), tk(8.0)), r2.origin);
    assert_eq!(Tuple::vector(tk(0.0), tk(1.0), tk(0.0)), r2.direction);
}

#[test]
fn scaling_ray() {
    let r = Ray::new(
        Tuple::point(tk(1.0), tk(2.0), tk(3.0)),
        Tuple::vector(tk(0.0), tk(1.0), tk(0.0)),
    );
    let m = scaling(tk(2.0), tk(3.0), tk(4.0));
    let r2 = r.transform(&m);

    assert_eq!(Tuple::point(tk(2.0), tk(6.0), tk(12.0)), r2.origin);
    assert_eq!(Tuple::vector(tk(0.0), tk(3.0), tk(0.0)), r2.direction);
}
