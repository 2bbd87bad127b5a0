use ray_tracer_challenge::intersection::{hit, intersections, Intersection};
use ray_tracer_challenge::ray::Ray;
use ray_tracer_challenge::sphere::Sphere;
use ray_tracer_challenge::tuple::Tuple;

fn tk(v: f64) -> i64 {
    (v * 1_000_000.0).round() as i64
}

#[test]
fn intersection_encapsulates_t_and_object() {
    let s = Sphere::new();
    let i = Intersection::new(tk(3.5), &s);

    assert_eq!(tk(3.5), i.t);
    assert_eq!(&s, i.object);
}

#[test]
fn aggregating_intersections() {
    let s = Sphere::new();
    let i1 = Intersection::new(tk(1.0), &s);
    let i2 = Intersection::new(tk(2.0), &s);
    let xs = intersections(&vec![i1, i2]);

    assert_eq!(2, xs.len());
    assert_eq!(tk(1.0), xs[0].t);
    assert_eq!(tk(2.0), xs[1].t);
}

#[test]
fn hit_when_all_intersections_have_positive_t() {
    let s = Sphere::new();
    let i1 = Intersection::new(tk(1.0), &s);
    let i2 = Intersection::new(tk(2.0), &s);
    let xs = intersections(&vec![i1, i2]);
    let i = hit(&xs);

    assert_eq!(Some(&i1), i);
}

#[test]
fn hit_when_some_intersections_have_negative_t() {
    let s = Sphere::new();
    let i1 = Intersection::new(tk(-1.0), &s);
    let i2 = Intersection::new(tk(1.0), &s);
    let xs = intersections(&vec![i1, i2]);
    let i = hit(&xs);

    assert_eq!(Some(&i2), i);
}

#[test]
fn hit_when_all_intersections_have_negative_t() {
    let s = Sphere::new();
    let i1 = Intersection::new(tk(-2.0), &s);
    let i2 = Intersection::new(tk(-1.0), &s);
    let xs = intersections(&vec![i1, i2]);
    let i = hit(&xs);

    assert_eq!(None, i);
}

#[test]
fn hit_is_always_lowest_non_negative_intersection() {
    let s = Sphere::new();
    let i1 = Intersection::new(tk(5.0), &s);
    let i2 = Intersection::new(tk(7.0), &s);
    let i3 = Intersection::new(tk(-3.0), &s);
    let i4 = Intersection::new(tk(2.0), &s);
    let xs = intersections(&vec![i1, i2, i3, i4]);
    let i = hit(&xs);

    assert_eq!(Some(&i4), i);
}

#[test]
fn precomputing_state_of_intersection() {
    let r = Ray::new(
        Tuple::point(tk(0.0), tk(0.0), tk(-5.0)),
        Tuple::vector(tk(0.0), tk(0.0), tk(1.0)),
    );
    let shape = Sphere::new();
    let i = Intersection::new(tk(4.0), &shape);

    let comps = i.prepare_computations(&r);
    assert_eq!(i.t, comps.t);
    assert_eq!(i.object, comps.object);
    assert_eq!(Tuple::point(tk(0.0), tk(0.0), tk(-1.0)), comps.point);
    assert_eq!(Tuple::vector(tk(0.0), tk(0.0), tk(-1.0)), comps.eyev);
    assert_eq!(Tuple::vector(tk(0.0), tk(0.0), tk(-1.0)), comps.normalv);
}

#[test]
fn hit_when_intersection_occurs_on_outside() {
    let r = Ray::new(
        Tuple::point(tk(0.0), tk(0.0), tk(-5.0)),
        Tuple::vector(tk(0.0), tk(0.0), tk(1.0)),
    );
    let shape = Sphere::new();
    let i = Intersection::new(tk(4.0), &shape);

    let comps = i.prepare_computations(&r);
    assert_eq!(false, comps.inside);
}

#[test]
fn hit_when_intersection_occurs_on_inside() {
    let r = Ray::new(
        Tuple::point(tk(0.0), tk(0.0), tk(0.0)),
        Tuple::vector(tk(0.0), tk(0.0), tk(1.0)),
    );
    let shape = Sphere::new();
    let i = Intersection::new(tk(1.0), &shape);

    let comps = i.prepare_computations(&r);
    assert_eq!(i.t, comps.t);
    assert_eq!(i.object, comps.object);
    assert_eq!(Tuple::point(tk(0.0), tk(0.0), tk(1.0)), comps.point);
    assert_eq!(Tuple::vector(tk(0.0), tk(0.0), tk(-1.0)), comps.eyev);
    assert_eq!(true, comps.inside);
    assert_eq!(Tuple::vector(tk(0.0), tk(0.0), tk(-1.0)), comps.normalv);
}
