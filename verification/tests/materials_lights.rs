use ray_tracer_challenge::lights::PointLight;
use ray_tracer_challenge::material::Material;
use ray_tracer_challenge::tuple::Tuple;

fn tk(v: f64) -> i64 {
    (v * 1_000_000.0).round() as i64
}

#[test]
fn point_light_has_position_and_intensity() {
    let intensity = Tuple::color(tk(1.0), tk(1.0), tk(1.0));
    let position = Tuple::point(tk(0.0), tk(0.0), tk(0.0));
    let light = PointLight::new(position, intensity);

    assert_eq!(position, light.position);
    assert_eq!(intensity, light.intensity);
}

#[test]
fn default_material() {
    let m = Material::new();
    assert_eq!(Tuple::color(tk(1.0), tk(1.0), tk(1.0)), m.color);
    assert_eq!(tk(0.1), m.ambient);
    assert_eq!(tk(0.9), m.diffuse);
    assert_eq!(tk(0.9), m.specular);
    assert_eq!(200, m.shininess);
}

#[test]
fn lightning_with_eye_between_light_and_surface() {
    let m = Material::new();
    let position = Tuple::point(tk(0.0), tk(0.0), tk(0.0));
    let eyev = Tuple::vector(tk(0.0), tk(0.0), tk(-1.0));
    let normalv = Tuple::vector(tk(0.0), tk(0.0), tk(-1.0));
    let light = PointLight::new(
        Tuple::point(tk(0.0), tk(0.0), tk(-10.0)),
        Tuple::color(tk(1.0), tk(1.0), tk(1.0)),
    );
    let result = m.lightning(light, position, eyev, normalv);

    assert_eq!(Tuple::color(tk(1.9), tk(1.9), tk(1.9)), result);
}

#[test]
fn lightning_with_eye_opposite_surface_light_offset_45() {
    let m = Material::new();
    let position = Tuple::point(tk(0.0), tk(0.0), tk(0.0));
    let eyev = Tuple::vector(tk(0.0), tk(0.0), tk(-1.0));
    let normalv = Tuple::vector(tk(0.0), tk(0.0), tk(-1.0));
    let light = PointLight::new(
        Tuple::point(tk(0.0), tk(10.0), tk(-10.0)),
        Tuple::color(tk(1.0), tk(1.0), tk(1.0)),
    );
    let result = m.lightning(light, position, eyev, normalv);

    assert_eq!(Tuple::color(tk(0.7364), tk(0.7364), tk(0.7364)), result);
}

#[test]
fn lightning_with_eye_in_path_of_reflection_vector() {
    let m = Material::new();
    let position = Tuple::point(tk(0.0), tk(0.0), tk(0.0));
    let eyev = Tuple::vector(
        tk(0.0),
        tk(-f64::sqrt(2.0) / 2.0),
        tk(-f64::sqrt(2.0) / 2.0),
    );
    let normalv = Tuple::vector(tk(0.0), tk(0.0), tk(-1.0));
    let light = PointLight::new(
        Tuple::point(tk(0.0), tk(10.0), tk(-10.0)),
        Tuple::color(tk(1.0), tk(1.0), tk(1.0)),
    );
    let result = m.lightning(light, position, eyev, normalv);

    assert_eq!(Tuple::color(tk(1.6364), tk(1.6364), tk(1.6364)), result);
}

#[test]
fn lightning_with_light_behind_surface() {
    let m = Material::new();
    let position = Tuple::point(tk(0.0), tk(0.0), tk(0.0));
    let eyev = Tuple::vector(tk(0.0), tk(0.0), tk(-1.0));
    let normalv = Tuple::vector(tk(0.0), tk(0.0), tk(-1.0));
    let light = PointLight::new(
        Tuple::point(tk(0.0), tk(0.0), tk(10.0)),
        Tuple::color(tk(1.0), tk(1.0), tk(1.0)),
    );
    let result = m.lightning(light, position, eyev, normalv);

    assert_eq!(Tuple::color(tk(0.1), tk(0.1), tk(0.1)), result);
}
