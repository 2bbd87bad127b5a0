use ray_tracer_challenge::intersection::Intersection;
use ray_tracer_challenge::lights::PointLight;
use ray_tracer_challenge::material::Material;
use ray_tracer_challenge::ray::Ray;
use ray_tracer_challenge::sphere::Sphere;
use ray_tracer_challenge::transformation::scaling;
use ray_tracer_challenge::tuple::Tuple;
use ray_tracer_challenge::world::World;

fn tk(v: f64) -> i64 {
    (v * 1_000_000.0).round() as i64
}

#[test]
fn creating_world() {
    let w = World::new();
    assert_eq!(None, w.light);
    assert_eq!(0, w.objects.len())
}

#[test]
fn default_world() {
    let light = PointLight::new(
        Tuple::point(tk(-10.0), tk(10.0), tk(-10.0)),
        Tuple::color(tk(1.0), tk(1.0), tk(1.0)),
    );
    let mut s1 = Sphere::new();
    let mut m = Material::new();
    m.color = Tuple::color(tk(0.8), tk(1.0), tk(0.6));
    m.diffuse = tk(0.7);
    m.specular = tk(0.2);
    s1.material = m;

    let mut s2 = Sphere::new();
    let t = scaling(tk(0.5), tk(0.5), tk(0.5));
    s2.transform = t;

    let w = World::default();
    assert_eq!(light, w.light.unwrap());
    assert!(w.contains(&s1));
    assert!(w.contains(&s2));
}

#[test]
fn intersect_world_with_ray() {
    let w = World::default();
    let r = Ray::new(
        Tuple::point(tk(0.0), tk(0.0), tk(-5.0)),
        Tuple::vector(tk(0.0), tk(0.0), tk(1.0)),
    );

    let xs = w.intersect(&r);
    assert_eq!(4, xs.len());
    assert_eq!(tk(4.0), xs[0].t);
    assert_eq!(tk(4.5), xs[1].t);
    assert_eq!(tk(5.5), xs[2].t);
    assert_eq!(tk(6.0), xs[3].t);
}

#[test]
fn shading_intersection() {
    let w = World::default();
    let r = Ray::new(
        Tuple::point(tk(0.0), tk(0.0), tk(-5.0)),
        Tuple::vector(tk(0.0), tk(0.0), tk(1.0)),
    );
    let shape = &w.objects[0];
    let i = Intersection::new(tk(4.0), &shape);

    let comps = i.prepare_computations(&r);
    let c = w.shade_hit(comps);
    assert_eq!(Tuple::color(tk(0.38066), tk(0.47583), tk(0.2855)), c);
}

#[test]
fn shading_intersection_from_inside() {
    let mut w = World::default();
    w.light = Some(PointLight::new(
        Tuple::point(tk(0.0), tk(0.25), tk(0.0)),
        Tuple::color(tk(1.0), tk(1.0), tk(1.0)),
    ));
    let r = Ray::new(
        Tuple::point(tk(0.0), tk(0.0), tk(0.0)),
        Tuple::vector(tk(0.0), tk(0.0), tk(1.0)),
    );
    let shape = &w.objects[1];
    let i = Intersection::new(tk(0.5), &shape);

    let comps = i.prepare_computations(&r);
    let c = w.shade_hit(comps);
    assert_eq!(Tuple::color(tk(0.90498), tk(0.90498), tk(0.90498)), c);
}

#[test]
fn color_when_ray_misses() {
    let w = World::default();
    let r = Ray::new(
        Tuple::point(tk(0.0), tk(0.0), tk(-5.0)),
        Tuple::vector(tk(0.0), tk(1.0), tk(0.0)),
    );
    let c = w.color_at(&r);
    assert_eq!(Tuple::color(tk(0.0), tk(0.0), tk(0.0)), c);
}

#[test]
fn color_when_ray_hits() {
    let w = World::default();
    let r = Ray::new(
        Tuple::point(tk(0.0), tk(0.0), tk(-5.0)),
        Tuple::vector(tk(0.0), tk(0.0), tk(1.0)),
    );
    let c = w.color_at(&r);
    assert_eq!(Tuple::color(tk(0.38066), tk(0.47583), tk(0.2855)), c);
}

#[test]
fn color_with_intersection_behind_ray() {
    let mut w = World::default();
    let expected = w.objects[1].material.color;
    w.objects[0].material.ambient = tk(1.0);
    w.objects[1].material.ambient = tk(1.0);
    let r = Ray::new(
        Tuple::point(tk(0.0), tk(0.0), tk(0.75)),
        Tuple::vector(tk(0.0), tk(0.0), tk(-1.0)),
    );
    let c = w.color_at(&r);
    assert_eq!(expected, c);
    assert_eq!(expected, w.color_at(&r));
}
