//! Surface materials and the Phong illumination formula: ambient plus
//! diffuse plus specular, for a single light and without shadows.

use vstd::prelude::*;

use crate::fixed::{
    abs_i, fp_pow, lemma_rdiv_prod_bound, pow_fp, rdiv, SCALE,
};
use crate::lights::PointLight;
use crate::tuple::{
    add4, dot4, had4, neg4, norm4, reflect4, scale4, sq_mag, sub4, t4, t_bounded, tuple_approx,
    Tuple, T4,
};

verus! {

/// A surface: a color and the four Phong coefficients. The shininess is the
/// specular exponent, a plain whole number.
#[derive(Clone, Copy, Debug)]
pub struct Material {
    pub color: Tuple,
    pub ambient: i64,
    pub diffuse: i64,
    pub specular: i64,
    pub shininess: u32,
}

/// The specular base: the reflection-eye alignment, capped at one.
pub open spec fn spec_base(rdote: int) -> int {
    if rdote > SCALE as int {
        SCALE as int
    } else {
        rdote
    }
}

/// The Phong illumination of a material at a point: the effective color's
/// ambient share, plus its diffuse share when the light faces the surface,
/// plus the light's specular share when the reflection faces the eye.
pub open spec fn lighting_spec(
    m: Material,
    light: PointLight,
    point: T4,
    eyev: T4,
    normalv: T4,
) -> T4 {
    let eff = had4(t4(m.color), t4(light.intensity));
    let lightv = norm4(sub4(t4(light.position), point));
    let ambient = scale4(eff, m.ambient as int);
    let ldotn = dot4(lightv, normalv);
    if ldotn < 0 {
        ambient
    } else {
        let diffuse = scale4(scale4(eff, m.diffuse as int), ldotn);
        let reflectv = reflect4(neg4(lightv), normalv);
        let rdote = dot4(reflectv, eyev);
        if rdote <= 0 {
            add4(ambient, diffuse)
        } else {
            let factor = fp_pow(spec_base(rdote), m.shininess as nat);
            let specular = scale4(scale4(t4(light.intensity), m.specular as int), factor);
            add4(add4(ambient, diffuse), specular)
        }
    }
}

impl Material {
    /// The default material: white, mostly diffuse, a touch of ambient.
    pub fn new() -> (r: Material)
        ensures
            r.color == (Tuple(SCALE, SCALE, SCALE, 0i64)),
            r.ambient == 100_000i64,
            r.diffuse == 900_000i64,
            r.specular == 900_000i64,
            r.shininess == 200u32,
    {
        Material {
            color: Tuple::color(SCALE, SCALE, SCALE),
            ambient: 100_000,
            diffuse: 900_000,
            specular: 900_000,
            shininess: 200,
        }
    }

    /// The Phong illumination of this material under `light`, seen from
    /// `eyev` at `point` on a surface whose outward normal is `normalv`.
    pub fn lightning(self, light: PointLight, point: Tuple, eyev: Tuple, normalv: Tuple) -> (r:
        Tuple)
        requires
            t_bounded(self.color, 1_000_000_000),
            t_bounded(light.intensity, 1_000_000_000),
            abs_i(self.ambient as int) <= 1_000_000_000,
            abs_i(self.diffuse as int) <= 1_000_000_000,
            abs_i(self.specular as int) <= 1_000_000_000,
            t_bounded(point, 1_100_000_000_000),
            t_bounded(light.position, 1_100_000_000_000),
            light.position.3 == point.3,
            sq_mag(
                Tuple(
                    (light.position.0 - point.0) as i64,
                    (light.position.1 - point.1) as i64,
                    (light.position.2 - point.2) as i64,
                    0i64,
                ),
            ) >= 1,
            t_bounded(eyev, 1_000_000_000),
            t_bounded(normalv, 2_000_000),
        ensures
            r.0 as int == lighting_spec(self, light, t4(point), t4(eyev), t4(normalv)).x,
            r.1 as int == lighting_spec(self, light, t4(point), t4(eyev), t4(normalv)).y,
            r.2 as int == lighting_spec(self, light, t4(point), t4(eyev), t4(normalv)).z,
            r.3 as int == lighting_spec(self, light, t4(point), t4(eyev), t4(normalv)).w,
    {
        let effective_color = self.color.hadamard(light.intensity);
        proof {
            lemma_had_bound(self.color, light.intensity, 1_000_000_000, 1_000_000_000_000);
        }
        let lightv = light.position.minus(point).normalize();
        let ambient = scale_by(effective_color, self.ambient, Ghost(1_000_000_000_000),
            Ghost(1_000_000_000), Ghost(1_000_000_000_000_000));
        let light_dot_normal = lightv.dot(normalv);
        proof {
            crate::tuple::lemma_dot_abs(lightv, normalv, 1_000_000, 2_000_000, 2_000_000);
        }
        let diffuse: Tuple;
        let specular: Tuple;
        if light_dot_normal < 0 {
            diffuse = Tuple::color(0, 0, 0);
            specular = Tuple::color(0, 0, 0);
        } else {
            let d1 = scale_by(effective_color, self.diffuse, Ghost(1_000_000_000_000),
                Ghost(1_000_000_000), Ghost(1_000_000_000_000_000));
            diffuse = scale_by(d1, light_dot_normal, Ghost(1_000_000_000_000_000),
                Ghost(8_000_000), Ghost(8_000_000_000_000_000));
            let nl = lightv.negate();
            let reflectv = crate::tuple::reflect(nl, normalv);
            let reflect_dot_eye = reflectv.dot(eyev);
            proof {
                crate::tuple::lemma_dot_abs(reflectv, eyev, 33_000_000_000, 1_000_000_000,
                    33_000_000_000_000);
            }
            if reflect_dot_eye <= 0 {
                specular = Tuple::color(0, 0, 0);
            } else {
                let base = if reflect_dot_eye > SCALE {
                    SCALE
                } else {
                    reflect_dot_eye
                };
                let factor = pow_fp(base, self.shininess);
                let s1 = scale_by(light.intensity, self.specular, Ghost(1_000_000_000),
                    Ghost(1_000_000_000), Ghost(1_000_000_000_000));
                specular = scale_by(s1, factor, Ghost(1_000_000_000_000), Ghost(1_000_000),
                    Ghost(1_000_000_000_000));
            }
        }
        ambient.plus(diffuse).plus(specular)
    }
}

/// A Hadamard product of bounded colors is bounded.
proof fn lemma_had_bound(a: Tuple, b: Tuple, k: int, r: int)
    requires
        t_bounded(a, k),
        t_bounded(b, k),
        0 <= k,
        0 <= r,
        k * k <= r * 1_000_000,
    ensures
        abs_i(rdiv(a.0 as int * b.0 as int, SCALE as int)) <= r,
        abs_i(rdiv(a.1 as int * b.1 as int, SCALE as int)) <= r,
        abs_i(rdiv(a.2 as int * b.2 as int, SCALE as int)) <= r,
        abs_i(rdiv(a.3 as int * b.3 as int, SCALE as int)) <= r,
{
    lemma_rdiv_prod_bound(a.0 as int, b.0 as int, k, k, r);
    lemma_rdiv_prod_bound(a.1 as int, b.1 as int, k, k, r);
    lemma_rdiv_prod_bound(a.2 as int, b.2 as int, k, k, r);
    lemma_rdiv_prod_bound(a.3 as int, b.3 as int, k, k, r);
}

/// All four components rescaled by `k`, for components within `bt`, a scalar
/// within `bk`, and a promised result bound `br`.
fn scale_by(t: Tuple, k: i64, Ghost(bt): Ghost<int>, Ghost(bk): Ghost<int>, Ghost(br): Ghost<
    int,
>) -> (r: Tuple)
    requires
        t_bounded(t, bt),
        abs_i(k as int) <= bk,
        0 <= bt,
        0 <= bk,
        0 <= br,
        bt * bk <= br * 1_000_000,
        br <= 1_000_000_000_000_000_000,
    ensures
        r.0 as int == rdiv(t.0 as int * k as int, SCALE as int),
        r.1 as int == rdiv(t.1 as int * k as int, SCALE as int),
        r.2 as int == rdiv(t.2 as int * k as int, SCALE as int),
        r.3 as int == rdiv(t.3 as int * k as int, SCALE as int),
        t_bounded(r, br),
{
    proof {
        crate::fixed::lemma_abs_mul(t.0 as int, k as int, bt, bk);
        crate::fixed::lemma_abs_mul(t.1 as int, k as int, bt, bk);
        crate::fixed::lemma_abs_mul(t.2 as int, k as int, bt, bk);
        crate::fixed::lemma_abs_mul(t.3 as int, k as int, bt, bk);
        lemma_rdiv_prod_bound(t.0 as int, k as int, bt, bk, br);
        lemma_rdiv_prod_bound(t.1 as int, k as int, bt, bk, br);
        lemma_rdiv_prod_bound(t.2 as int, k as int, bt, bk, br);
        lemma_rdiv_prod_bound(t.3 as int, k as int, bt, bk, br);
    }
    t.scale(k)
}

impl PartialEq for Material {
    /// Materials are equal when the colors agree within tolerance and the
    /// coefficients agree exactly.
    fn eq(&self, other: &Material) -> (r: bool) {
        self.color == other.color && self.ambient == other.ambient && self.diffuse
            == other.diffuse && self.specular == other.specular && self.shininess
            == other.shininess
    }
}

impl vstd::std_specs::cmp::PartialEqSpecImpl for Material {
    open spec fn obeys_eq_spec() -> bool {
        true
    }

    open spec fn eq_spec(&self, other: &Material) -> bool {
        &&& tuple_approx(self.color, other.color)
        &&& self.ambient == other.ambient
        &&& self.diffuse == other.diffuse
        &&& self.specular == other.specular
        &&& self.shininess == other.shininess
    }
}

} // verus!
