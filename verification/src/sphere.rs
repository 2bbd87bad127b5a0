//! The unit sphere: centered at the object-space origin with radius one,
//! placed in the world by its transform, shaded by its material.

use vstd::prelude::*;

use crate::fixed::{
    abs_i, fp_mul, fp_div, isqrt_spec, lemma_abs_mul, lemma_rdiv_abs_le, lemma_rdiv_exact,
    lemma_rdiv_mono, lemma_rdiv_prod_bound, rdiv, sqrt_fp, SCALE,
};
use crate::intersection::Intersection;
use crate::material::Material;
use crate::matrix::{
    entries_bounded, fp_det, identity_spec, inv_entry, is_transpose_of, lemma_tp_fits, m_wf,
    tp_c, tp_fits, Matrix,
};
use crate::ray::Ray;
use crate::tuple::{dot4, norm4, t4, t4_bounded, t_bounded, tuple_approx, Tuple, T4};

verus! {

/// The inverse of a 4x4 matrix, entry by entry.
pub open spec fn inv4(m: Seq<int>) -> Seq<int> {
    Seq::new(16, |k: int| inv_entry(m, 4, k / 4, k % 4))
}

/// The matrix with rows and columns swapped, entry by entry.
pub open spec fn transpose4(m: Seq<int>) -> Seq<int> {
    Seq::new(16, |k: int| m[(k % 4) * 4 + k / 4])
}

/// Row `r` of a 4x4 matrix applied to a quadruple.
pub open spec fn tp_row4(m: Seq<int>, t: T4, r: int) -> int {
    rdiv(m[4 * r] * t.x, SCALE as int) + rdiv(m[4 * r + 1] * t.y, SCALE as int) + rdiv(
        m[4 * r + 2] * t.z,
        SCALE as int,
    ) + rdiv(m[4 * r + 3] * t.w, SCALE as int)
}

/// A 4x4 matrix applied to a quadruple.
pub open spec fn tp4(m: Seq<int>, t: T4) -> T4 {
    T4 { x: tp_row4(m, t, 0), y: tp_row4(m, t, 1), z: tp_row4(m, t, 2), w: tp_row4(m, t, 3) }
}

/// A scene sphere: the unit sphere placed by `transform`.
#[derive(Debug)]
pub struct Sphere {
    pub transform: Matrix,
    pub material: Material,
}

/// A sphere fit for geometry: a 4x4 placement with bounded entries, a nonzero
/// determinant, and an inverse whose entries stay in range.
pub open spec fn sphere_wf(s: &Sphere) -> bool {
    &&& m_wf(&s.transform)
    &&& s.transform.dim == 4
    &&& entries_bounded(s.transform@, 500_000_000)
    &&& fp_det(s.transform@, 4) != 0
    &&& entries_bounded(inv4(s.transform@), 200_000_000)
}

/// The ray's origin carried into object space.
pub open spec fn obj_o(s: &Sphere, r: Ray) -> T4 {
    tp4(inv4(s.transform@), t4(r.origin))
}

/// The ray's direction carried into object space.
pub open spec fn obj_d(s: &Sphere, r: Ray) -> T4 {
    tp4(inv4(s.transform@), t4(r.direction))
}

/// The vector from the sphere's center to the object-space ray origin.
pub open spec fn s2r(s: &Sphere, r: Ray) -> T4 {
    let o = obj_o(s, r);
    T4 { x: o.x, y: o.y, z: o.z, w: o.w - SCALE as int }
}

/// The quadratic coefficient `a`: the direction dotted with itself.
pub open spec fn isect_a(s: &Sphere, r: Ray) -> int {
    dot4(obj_d(s, r), obj_d(s, r))
}

/// The quadratic coefficient `b`: twice the direction against the offset.
pub open spec fn isect_b(s: &Sphere, r: Ray) -> int {
    rdiv(2 * SCALE as int * dot4(obj_d(s, r), s2r(s, r)), SCALE as int)
}

/// The quadratic coefficient `c`: the offset squared, less one.
pub open spec fn isect_c(s: &Sphere, r: Ray) -> int {
    dot4(s2r(s, r), s2r(s, r)) - SCALE as int
}

/// The discriminant `b*b - 4*a*c`; negative means the ray misses.
pub open spec fn isect_disc(s: &Sphere, r: Ray) -> int {
    rdiv(isect_b(s, r) * isect_b(s, r), SCALE as int) - rdiv(
        rdiv(4 * SCALE as int * isect_a(s, r), SCALE as int) * isect_c(s, r),
        SCALE as int,
    )
}

/// The square root of the discriminant.
pub open spec fn isect_sq(s: &Sphere, r: Ray) -> int {
    isqrt_spec(isect_disc(s, r) * SCALE as int)
}

/// The nearer root of the intersection quadratic.
pub open spec fn t1_spec(s: &Sphere, r: Ray) -> int {
    rdiv(
        (-isect_b(s, r) - isect_sq(s, r)) * SCALE as int,
        rdiv(2 * SCALE as int * isect_a(s, r), SCALE as int),
    )
}

/// The farther root of the intersection quadratic.
pub open spec fn t2_spec(s: &Sphere, r: Ray) -> int {
    rdiv(
        (-isect_b(s, r) + isect_sq(s, r)) * SCALE as int,
        rdiv(2 * SCALE as int * isect_a(s, r), SCALE as int),
    )
}

/// A sphere and a ray whose intersection arithmetic stays in range: the
/// sphere is well formed, the ray is bounded in world and object space, the
/// object-space direction is not degenerate, and any roots are moderate.
pub open spec fn sph_ray_ok(s: &Sphere, r: Ray) -> bool {
    &&& sphere_wf(s)
    &&& t_bounded(r.origin, 300_000_000)
    &&& t_bounded(r.direction, 500_000_000)
    &&& t4_bounded(obj_o(s, r), 300_000_000)
    &&& t4_bounded(obj_d(s, r), 500_000_000)
    &&& isect_a(s, r) >= 1
    &&& (isect_disc(s, r) >= 0 ==> abs_i(t1_spec(s, r)) <= 2_000_000_000 && abs_i(
        t2_spec(s, r),
    ) <= 2_000_000_000)
}

/// The point `p` carried into object space.
pub open spec fn obj_pt(s: &Sphere, p: T4) -> T4 {
    tp4(inv4(s.transform@), p)
}

/// The object-space surface normal at `p`: the object point less the center.
pub open spec fn obj_normal(s: &Sphere, p: T4) -> T4 {
    let o = obj_pt(s, p);
    T4 { x: o.x, y: o.y, z: o.z, w: o.w - SCALE as int }
}

/// The world-space normal direction: the object normal carried through the
/// transposed inverse, with its weight zeroed.
pub open spec fn world_normal(s: &Sphere, p: T4) -> T4 {
    let w = tp4(transpose4(inv4(s.transform@)), obj_normal(s, p));
    T4 { x: w.x, y: w.y, z: w.z, w: 0 }
}

/// The surface normal at `p`, normalized.
pub open spec fn normal_spec(s: &Sphere, p: T4) -> T4 {
    norm4(world_normal(s, p))
}

/// The world normal at `p` does not round away to nothing.
pub open spec fn normal_ok(s: &Sphere, p: T4) -> bool {
    let w = world_normal(s, p);
    w.x * w.x + w.y * w.y + w.z * w.z >= 1
}

/// An entry of the 4x4 inverse, read out of `inv4`.
pub proof fn lemma_inv4_entry(m: Seq<int>, i: int, j: int)
    requires
        0 <= i < 4,
        0 <= j < 4,
    ensures
        0 <= i * 4 + j < 16,
        inv4(m)[i * 4 + j] == inv_entry(m, 4, i, j),
{
    assert(0 <= i * 4 + j < 16 && (i * 4 + j) / 4 == i && (i * 4 + j) % 4 == j)
        by (nonlinear_arith)
        requires
            0 <= i < 4,
            0 <= j < 4,
    ;
}

/// A matrix standing in the transpose relation equals `transpose4`.
pub proof fn lemma_transpose4(t: Seq<int>, m: Seq<int>)
    requires
        is_transpose_of(t, m, 4),
    ensures
        t =~= transpose4(m),
{
    assert forall|k: int| 0 <= k < 16 implies t[k] == transpose4(m)[k] by {
        let r = k / 4;
        let c = k % 4;
        assert(0 <= r < 4 && 0 <= c < 4 && k == r * 4 + c) by (nonlinear_arith)
            requires
                0 <= k < 16,
                r == k / 4,
                c == k % 4,
        ;
        assert(t[r * 4 + c] == m[c * 4 + r]);
    }
}

impl Sphere {
    /// The unit sphere in place: the identity transform and the default
    /// material.
    pub fn new() -> (r: Sphere)
        ensures
            r.transform.dim == 4,
            m_wf(&r.transform),
            r.transform@ == identity_spec(),
            r.material.color == (Tuple(SCALE, SCALE, SCALE, 0i64)),
            r.material.ambient == 100_000i64,
            r.material.diffuse == 900_000i64,
            r.material.specular == 900_000i64,
            r.material.shininess == 200u32,
    {
        Sphere { transform: Matrix::identity(), material: Material::new() }
    }

    /// The inverse of this sphere's transform; total under `sphere_wf`.
    fn inverse_transform(&self) -> (r: Matrix)
        requires
            sphere_wf(self),
        ensures
            r.dim == 4,
            m_wf(&r),
            r@ == inv4(self.transform@),
            entries_bounded(r@, 200_000_000),
    {
        let inv = self.transform.inverse();
        proof {
            if inv is None {
                assert(fp_det(self.transform@, 4) != 0);
                let (i, j) = choose|i: int, j: int|
                    0 <= i < 4 && 0 <= j < 4 && abs_i(
                        #[trigger] inv_entry(self.transform@, 4, i, j),
                    ) > 0x7fff_ffff_ffff_ffff;
                lemma_inv4_entry(self.transform@, i, j);
                assert(abs_i(inv4(self.transform@)[i * 4 + j]) <= 200_000_000);
                assert(false);
            }
        }
        let m = inv.unwrap();
        proof {
            assert(m@ =~= inv4(self.transform@)) by {
                assert forall|k: int| 0 <= k < 16 implies m@[k] == inv4(self.transform@)[k] by {
                    let i = k / 4;
                    let j = k % 4;
                    assert(0 <= i < 4 && 0 <= j < 4 && k == i * 4 + j) by (nonlinear_arith)
                        requires
                            0 <= k < 16,
                            i == k / 4,
                            j == k % 4,
                    ;
                    lemma_inv4_entry(self.transform@, i, j);
                    assert(m@[i * 4 + j] == inv_entry(self.transform@, 4, i, j));
                }
            }
        }
        m
    }

    /// Where the ray meets the sphere: none when the discriminant is
    /// negative, else both roots in ascending order, the tangent case kept
    /// twice.
    pub fn intersect(&self, orig_ray: &Ray) -> (r: Vec<Intersection>)
        requires
            sph_ray_ok(self, *orig_ray),
        ensures
            isect_disc(self, *orig_ray) < 0 ==> r@.len() == 0,
            isect_disc(self, *orig_ray) >= 0 ==> {
                &&& r@.len() == 2
                &&& r@[0].t as int == t1_spec(self, *orig_ray)
                &&& r@[1].t as int == t2_spec(self, *orig_ray)
                &&& r@[0].t <= r@[1].t
                &&& *r@[0].object == *self
                &&& *r@[1].object == *self
            },
    {
        let ghost ray = *orig_ray;
        let inv = self.inverse_transform();
        proof {
            lemma_tp_fits(inv@, orig_ray.origin, 200_000_000, 300_000_000);
            lemma_tp_fits(inv@, orig_ray.direction, 200_000_000, 500_000_000);
        }
        let oray = orig_ray.transform(&inv);
        proof {
            assert(t4(oray.origin) == obj_o(self, ray));
            assert(t4(oray.direction) == obj_d(self, ray));
        }
        let sphere_to_ray = oray.origin.minus(Tuple::point(0, 0, 0));
        proof {
            assert(t4(sphere_to_ray) == s2r(self, ray));
            assert(t_bounded(sphere_to_ray, 301_000_000));
        }
        let a = oray.direction.dot(oray.direction);
        let ddot = oray.direction.dot(sphere_to_ray);
        proof {
            crate::tuple::lemma_dot_abs(oray.direction, oray.direction, 500_000_000, 500_000_000,
                250_000_000_000);
            crate::tuple::lemma_dot_abs(oray.direction, sphere_to_ray, 500_000_000, 301_000_000,
                150_500_000_000);
            lemma_rdiv_abs_le(2 * SCALE as int * ddot as int, SCALE as int, 1_204_000_000_000);
        }
        let b = fp_mul(2 * SCALE, ddot);
        let cdot = sphere_to_ray.dot(sphere_to_ray);
        proof {
            crate::tuple::lemma_dot_abs(sphere_to_ray, sphere_to_ray, 301_000_000, 301_000_000,
                90_601_000_000);
        }
        let c = cdot - SCALE;
        proof {
            lemma_rdiv_prod_bound(b as int, b as int, 1_204_000_000_000, 1_204_000_000_000,
                1_449_616_000_000_000_000);
            lemma_abs_mul(b as int, b as int, 1_204_000_000_000, 1_204_000_000_000);
            lemma_rdiv_abs_le(4 * SCALE as int * a as int, SCALE as int, 4_000_000_000_000);
            lemma_rdiv_prod_bound(rdiv(4 * SCALE as int * a as int, SCALE as int), c as int,
                4_000_000_000_000, 362_405_000_000, 1_449_620_000_000_000_000);
            lemma_abs_mul(rdiv(4 * SCALE as int * a as int, SCALE as int), c as int,
                4_000_000_000_000, 362_405_000_000);
        }
        let fa = fp_mul(4 * SCALE, a);
        let fac = fp_mul(fa, c);
        let bb = fp_mul(b, b);
        let discriminant = bb - fac;
        proof {
            assert(discriminant as int == isect_disc(self, ray));
        }
        if discriminant < 0 {
            Vec::new()
        } else {
            let sq = sqrt_fp(discriminant);
            proof {
                crate::fixed::lemma_isqrt_is(discriminant as int * SCALE as int, sq as int);
                lemma_rdiv_exact(2 * a as int, SCALE as int);
                assert(2 * SCALE as int * a as int == 2 * a as int * SCALE as int)
                    by (nonlinear_arith);
            }
            let denom = fp_mul(2 * SCALE, a);
            proof {
                assert(denom as int == 2 * a as int);
                assert(denom >= 2);
                assert(sq as int <= 1_800_000_000_000) by (nonlinear_arith)
                    requires
                        0 <= sq,
                        (sq as int) * (sq as int) <= (discriminant as int) * 1_000_000,
                        discriminant as int <= 2_900_000_000_000_000_000,
                ;
                lemma_t_fits((-b - sq) as int, denom as int);
                lemma_t_fits((-b + sq) as int, denom as int);
            }
            let t1 = fp_div(-b - sq, denom);
            let t2 = fp_div(-b + sq, denom);
            proof {
                lemma_rdiv_mono(
                    (-b as int - sq as int) * SCALE as int,
                    (-b as int + sq as int) * SCALE as int,
                    denom as int,
                );
            }
            let mut v: Vec<Intersection> = Vec::new();
            v.push(Intersection { t: t1, object: self });
            v.push(Intersection { t: t2, object: self });
            v
        }
    }

    /// The unit surface normal at a world point, found in object space and
    /// carried back through the transposed inverse.
    pub fn normal_at(&self, world_point: Tuple) -> (r: Tuple)
        requires
            sphere_wf(self),
            t_bounded(world_point, 1_100_000_000_000),
            normal_ok(self, t4(world_point)),
        ensures
            r.0 as int == normal_spec(self, t4(world_point)).x,
            r.1 as int == normal_spec(self, t4(world_point)).y,
            r.2 as int == normal_spec(self, t4(world_point)).z,
            r.3 == 0i64,
            t_bounded(r, SCALE as int),
    {
        let inv = self.inverse_transform();
        proof {
            lemma_tp_fits(inv@, world_point, 200_000_000, 1_100_000_000_000);
        }
        let object_point = inv.tuple_prod(world_point);
        proof {
            lemma_tp_bound(inv@, world_point, 200_000_000, 1_100_000_000_000,
                220_000_000_000_000);
            assert(t4(object_point) == obj_pt(self, t4(world_point)));
        }
        let object_normal = object_point.minus(Tuple::point(0, 0, 0));
        let transposed = inv.transpose();
        proof {
            lemma_transpose4(transposed@, inv@);
            assert(entries_bounded(transposed@, 200_000_000)) by {
                assert forall|k: int| 0 <= k < 16 implies abs_i(#[trigger] transposed@[k])
                    <= 200_000_000 by {
                    let r = k % 4;
                    let c = k / 4;
                    assert(0 <= r < 4 && 0 <= c < 4 && 0 <= r * 4 + c < 16) by (nonlinear_arith)
                        requires
                            0 <= k < 16,
                            r == k % 4,
                            c == k / 4,
                    ;
                    assert(transposed@[k] == inv@[r * 4 + c]);
                }
            }
            lemma_tp_fits(transposed@, object_normal, 200_000_000, 880_001_000_000_000);
            assert(t4(object_normal) == obj_normal(self, t4(world_point)));
        }
        let wn = transposed.tuple_prod(object_normal);
        proof {
            lemma_tp_bound(transposed@, object_normal, 200_000_000, 880_001_000_000_000,
                176_000_200_000_000_000);
        }
        let world_normal2 = Tuple::vector(wn.0, wn.1, wn.2);
        proof {
            assert(t4(world_normal2) == world_normal(self, t4(world_point)));
            assert(crate::tuple::sq_mag(world_normal2) >= 1);
        }
        world_normal2.normalize()
    }
}

/// A root numerator over a denominator of at least two fits the scalar range.
proof fn lemma_t_fits(num: int, denom: int)
    requires
        abs_i(num) <= 4_000_000_000_000,
        denom >= 2,
    ensures
        abs_i(rdiv(num * SCALE as int, denom)) <= 2_000_000_000_000_000_000,
{
    assert(abs_i(num * SCALE as int) <= 2_000_000_000_000_000_000 * abs_i(denom))
        by (nonlinear_arith)
        requires
            abs_i(num) <= 4_000_000_000_000,
            denom >= 2,
    ;
    lemma_rdiv_abs_le(num * SCALE as int, denom, 2_000_000_000_000_000_000);
}

/// The rows of a bounded matrix applied to a bounded tuple are within four
/// rescaled product bounds.
proof fn lemma_tp_bound(m: Seq<int>, t: Tuple, eb: int, tb: int, k: int)
    requires
        m.len() == 16,
        entries_bounded(m, eb),
        t_bounded(t, tb),
        0 <= eb,
        0 <= tb,
        0 <= k,
        eb * tb <= k * 1_000_000,
    ensures
        abs_i(tp_c(m, t, 0)) <= 4 * k,
        abs_i(tp_c(m, t, 1)) <= 4 * k,
        abs_i(tp_c(m, t, 2)) <= 4 * k,
        abs_i(tp_c(m, t, 3)) <= 4 * k,
{
    assert forall|r: int| 0 <= r < 4 implies abs_i(#[trigger] tp_c(m, t, r)) <= 4 * k by {
        assert(0 <= 4 * r + 0 < 16 && 0 <= 4 * r + 1 < 16 && 0 <= 4 * r + 2 < 16 && 0 <= 4 * r + 3
            < 16);
        lemma_rdiv_prod_bound(m[4 * r + 0], t.0 as int, eb, tb, k);
        lemma_rdiv_prod_bound(m[4 * r + 1], t.1 as int, eb, tb, k);
        lemma_rdiv_prod_bound(m[4 * r + 2], t.2 as int, eb, tb, k);
        lemma_rdiv_prod_bound(m[4 * r + 3], t.3 as int, eb, tb, k);
    }
}

/// Sphere equality: the transforms match entry for entry and the materials
/// agree, the colors within tolerance.
pub open spec fn sphere_approx(a: Sphere, b: Sphere) -> bool {
    &&& a.transform.dim == b.transform.dim
    &&& a.transform@ == b.transform@
    &&& tuple_approx(a.material.color, b.material.color)
    &&& a.material.ambient == b.material.ambient
    &&& a.material.diffuse == b.material.diffuse
    &&& a.material.specular == b.material.specular
    &&& a.material.shininess == b.material.shininess
}

impl PartialEq for Sphere {
    /// Spheres are equal when the transforms match entry for entry and the
    /// materials agree.
    fn eq(&self, other: &Sphere) -> (r: bool) {
        self.transform == other.transform && self.material == other.material
    }
}

impl vstd::std_specs::cmp::PartialEqSpecImpl for Sphere {
    open spec fn obeys_eq_spec() -> bool {
        true
    }

    open spec fn eq_spec(&self, other: &Sphere) -> bool {
        sphere_approx(*self, *other)
    }
}

} // verus!
