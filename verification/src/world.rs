//! The scene: an optional point light and a collection of spheres, composed
//! into intersect, hit, prepare and shade, and finally `color_at`.

use vstd::multiset::Multiset;
use vstd::prelude::*;

use crate::fixed::{abs_i, lemma_rdiv_abs_le, SCALE};
use crate::intersection::{
    hit, intersections, iview, iviews, position4, prep_ok, sorted_by_t, Computations,
    Intersection,
};
use crate::lights::PointLight;
use crate::material::{lighting_spec, Material};
use crate::matrix::m_wf;
use crate::ray::Ray;
use crate::sphere::{
    isect_disc, normal_ok, normal_spec, sph_ray_ok, sphere_approx, sphere_wf, t1_spec, t2_spec,
    Sphere,
};
use crate::transformation::{scaling, scaling_spec};
use crate::tuple::{dot4, neg4, t4, t_bounded, Tuple, T4};

verus! {

broadcast use vstd::seq_lib::group_to_multiset_ensures;

/// The scene.
pub struct World {
    pub light: Option<PointLight>,
    pub objects: Vec<Sphere>,
}

/// The roots one sphere contributes, paired with the sphere.
pub open spec fn sphere_pairs(s: Sphere, r: Ray) -> Seq<(int, Sphere)> {
    if isect_disc(&s, r) < 0 {
        seq![]
    } else {
        seq![(t1_spec(&s, r), s), (t2_spec(&s, r), s)]
    }
}

/// Every root of every sphere, in the order the spheres stand in the scene.
pub open spec fn all_hits(objs: Seq<Sphere>, r: Ray) -> Seq<(int, Sphere)>
    decreases objs.len(),
{
    if objs.len() == 0 {
        seq![]
    } else {
        all_hits(objs.drop_last(), r) + sphere_pairs(objs.last(), r)
    }
}

/// Every sphere of the world fits the intersection arithmetic for this ray.
pub open spec fn world_ok(w: &World, r: Ray) -> bool {
    forall|i: int| 0 <= i < w.objects@.len() ==> sph_ray_ok(&w.objects@[i], r)
}

/// A material whose color and coefficients stay in range.
pub open spec fn mat_ok(m: Material) -> bool {
    &&& t_bounded(m.color, 1_000_000_000)
    &&& abs_i(m.ambient as int) <= 1_000_000_000
    &&& abs_i(m.diffuse as int) <= 1_000_000_000
    &&& abs_i(m.specular as int) <= 1_000_000_000
}

/// A light whose intensity and position stay in range.
pub open spec fn light_ok(l: PointLight) -> bool {
    &&& t_bounded(l.intensity, 1_000_000_000)
    &&& t_bounded(l.position, 1_100_000_000_000)
}

/// A root at which shading is defined: the normal does not vanish and the
/// light is away from the surface point.
pub open spec fn root_ok(l: PointLight, s: Sphere, r: Ray, t: int) -> bool {
    let p = position4(r, t);
    &&& normal_ok(&s, p)
    &&& (l.position.0 - p.x) * (l.position.0 - p.x) + (l.position.1 - p.y) * (l.position.1
        - p.y) + (l.position.2 - p.z) * (l.position.2 - p.z) >= 1
}

/// Shading is defined at every non-negative root of every sphere.
pub open spec fn roots_ok(w: &World, l: PointLight, r: Ray) -> bool {
    forall|i: int|
        0 <= i < w.objects@.len() ==> (#[trigger] isect_disc(&w.objects@[i], r) >= 0 ==> {
            &&& (t1_spec(&w.objects@[i], r) >= 0 ==> root_ok(l, w.objects@[i], r, t1_spec(
                &w.objects@[i],
                r,
            )))
            &&& (t2_spec(&w.objects@[i], r) >= 0 ==> root_ok(l, w.objects@[i], r, t2_spec(
                &w.objects@[i],
                r,
            )))
        })
}

/// The color a hit at root `t` of sphere `s` shades to.
pub open spec fn shade_of(l: PointLight, s: Sphere, r: Ray, t: int) -> T4 {
    let p = position4(r, t);
    let n = normal_spec(&s, p);
    let e = neg4(t4(r.direction));
    let nd = dot4(n, e);
    let nv = if nd < 0 {
        neg4(n)
    } else {
        n
    };
    lighting_spec(s.material, l, p, e, nv)
}

/// Some root of some sphere lies ahead of the ray.
pub open spec fn has_hit(objs: Seq<Sphere>, r: Ray) -> bool {
    exists|k: int| 0 <= k < all_hits(objs, r).len() && (#[trigger] all_hits(objs, r)[k]).0 >= 0
}

/// Every pair of `all_hits` names a sphere of the scene and one of its roots.
proof fn lemma_all_hits_src(objs: Seq<Sphere>, r: Ray, k: int)
    requires
        0 <= k < all_hits(objs, r).len(),
    ensures
        exists|i: int|
            {
                &&& 0 <= i < objs.len()
                &&& (#[trigger] objs[i]) == all_hits(objs, r)[k].1
                &&& isect_disc(&objs[i], r) >= 0
                &&& (all_hits(objs, r)[k].0 == t1_spec(&objs[i], r) || all_hits(objs, r)[k].0
                    == t2_spec(&objs[i], r))
            },
    decreases objs.len(),
{
    let front = all_hits(objs.drop_last(), r);
    if k < front.len() {
        lemma_all_hits_src(objs.drop_last(), r, k);
        let i = choose|i: int|
            {
                &&& 0 <= i < objs.drop_last().len()
                &&& (#[trigger] objs.drop_last()[i]) == front[k].1
                &&& isect_disc(&objs.drop_last()[i], r) >= 0
                &&& (front[k].0 == t1_spec(&objs.drop_last()[i], r) || front[k].0 == t2_spec(
                    &objs.drop_last()[i],
                    r,
                ))
            };
        assert(objs[i] == objs.drop_last()[i]);
        assert(all_hits(objs, r)[k] == front[k]);
    } else {
        let i = objs.len() - 1;
        assert(objs[i] == objs.last());
        assert(all_hits(objs, r)[k] == sphere_pairs(objs.last(), r)[k - front.len()]);
    }
}

impl World {
    /// An empty world: no light, no objects.
    pub fn new() -> (r: World)
        ensures
            r.light is None,
            r.objects@.len() == 0,
    {
        World { light: None, objects: Vec::new() }
    }

    /// The stock two-sphere world: a larger colored sphere inside-out of a
    /// half-size plain one, lit from the upper left behind the eye.
    pub fn default() -> (r: World)
        ensures
            r.light == Some(
                PointLight {
                    position: Tuple(-10_000_000i64, 10_000_000i64, -10_000_000i64, SCALE),
                    intensity: Tuple(SCALE, SCALE, SCALE, 0i64),
                },
            ),
            r.objects@.len() == 2,
            r.objects@[0].transform.dim == 4,
            m_wf(&r.objects@[0].transform),
            r.objects@[0].transform@ == crate::matrix::identity_spec(),
            r.objects@[0].material == (Material {
                color: Tuple(800_000i64, 1_000_000i64, 600_000i64, 0i64),
                ambient: 100_000i64,
                diffuse: 700_000i64,
                specular: 200_000i64,
                shininess: 200u32,
            }),
            r.objects@[1].transform.dim == 4,
            m_wf(&r.objects@[1].transform),
            r.objects@[1].transform@ == scaling_spec(500_000, 500_000, 500_000),
            r.objects@[1].material == (Material {
                color: Tuple(SCALE, SCALE, SCALE, 0i64),
                ambient: 100_000i64,
                diffuse: 900_000i64,
                specular: 900_000i64,
                shininess: 200u32,
            }),
    {
        let mut s1 = Sphere::new();
        let m = Material {
            color: Tuple::color(800_000, 1_000_000, 600_000),
            ambient: 100_000,
            shininess: 200,
            diffuse: 700_000,
            specular: 200_000,
        };
        s1.material = m;
        let mut s2 = Sphere::new();
        let t = scaling(500_000, 500_000, 500_000);
        s2.transform = t;
        let light = PointLight::new(
            Tuple::point(-10_000_000, 10_000_000, -10_000_000),
            Tuple::color(SCALE, SCALE, SCALE),
        );
        let mut objects: Vec<Sphere> = Vec::new();
        objects.push(s1);
        objects.push(s2);
        World { light: Some(light), objects }
    }

    /// Whether the scene holds a sphere equal to `s`.
    pub fn contains(&self, s: &Sphere) -> (r: bool)
        ensures
            r == exists|i: int|
                0 <= i < self.objects@.len() && sphere_approx(#[trigger] self.objects@[i], *s),
    {
        let n = self.objects.len();
        let mut i: usize = 0;
        while i < n
            invariant
                i <= n,
                n == self.objects@.len(),
                forall|k: int| 0 <= k < i ==> !sphere_approx(#[trigger] self.objects@[k], *s),
            decreases n - i,
        {
            if self.objects[i] == *s {
                return true;
            }
            i += 1;
        }
        false
    }

    /// Every sphere's intersections with the ray, sorted ascending by `t`.
    #[verifier::rlimit(100)]
    pub fn intersect(&self, ray: &Ray) -> (r: Vec<Intersection>)
        requires
            world_ok(self, *ray),
        ensures
            sorted_by_t(r@),
            iviews(r@).to_multiset() == all_hits(self.objects@, *ray).to_multiset(),
    {
        let mut vv: Vec<Intersection> = Vec::new();
        let n = self.objects.len();
        let mut i: usize = 0;
        while i < n
            invariant
                i <= n,
                n == self.objects@.len(),
                world_ok(self, *ray),
                iviews(vv@) == all_hits(self.objects@.subrange(0, i as int), *ray),
            decreases n - i,
        {
            let ghost prefix = self.objects@.subrange(0, i as int);
            let o = &self.objects[i];
            let xs = o.intersect(ray);
            let ghost old_vv = vv@;
            if xs.len() > 0 {
                vv.push(xs[0]);
                vv.push(xs[1]);
            }
            proof {
                let next = self.objects@.subrange(0, i + 1);
                assert(next.drop_last() =~= prefix);
                assert(next.last() == self.objects@[i as int]);
                assert(all_hits(next, *ray) == all_hits(prefix, *ray) + sphere_pairs(
                    self.objects@[i as int],
                    *ray,
                ));
                if isect_disc(o, *ray) < 0 {
                    assert(sphere_pairs(self.objects@[i as int], *ray) =~~= Seq::<(
                        int,
                        Sphere,
                    )>::empty());
                    assert(iviews(vv@) =~~= all_hits(next, *ray));
                } else {
                    assert(*o == self.objects@[i as int]);
                    assert(iview(xs@[0]) == (t1_spec(o, *ray), *o));
                    assert(iview(xs@[1]) == (t2_spec(o, *ray), *o));
                    assert(sphere_pairs(self.objects@[i as int], *ray)[0] == (t1_spec(o, *ray),
                    *o));
                    assert(sphere_pairs(self.objects@[i as int], *ray)[1] == (t2_spec(o, *ray),
                    *o));
                    assert(vv@ == old_vv.push(xs@[0]).push(xs@[1]));
                    assert(sphere_pairs(self.objects@[i as int], *ray).len() == 2);
                    assert forall|k: int| 0 <= k < old_vv.len() implies iviews(vv@)[k] == all_hits(
                        next,
                        *ray,
                    )[k] by {
                        assert(vv@[k] == old_vv[k]);
                        assert(iviews(old_vv)[k] == all_hits(prefix, *ray)[k]);
                    }
                    assert(iviews(vv@)[old_vv.len() as int] == iview(xs@[0]));
                    assert(iviews(vv@)[old_vv.len() as int + 1] == iview(xs@[1]));
                    assert(all_hits(next, *ray)[old_vv.len() as int] == sphere_pairs(
                        self.objects@[i as int],
                        *ray,
                    )[0]);
                    assert(all_hits(next, *ray)[old_vv.len() as int + 1] == sphere_pairs(
                        self.objects@[i as int],
                        *ray,
                    )[1]);
                    assert(iviews(vv@) =~~= all_hits(next, *ray));
                }
            }
            i += 1;
        }
        proof {
            assert(self.objects@.subrange(0, n as int) =~= self.objects@);
        }
        intersections(vv.as_slice())
    }

    /// The shade of a prepared hit: the object's material lit by the world's
    /// light at the hit point.
    pub fn shade_hit(&self, c: Computations<'_>) -> (r: Tuple)
        requires
            self.light is Some,
            light_ok(self.light.unwrap()),
            mat_ok(c.object.material),
            t_bounded(c.point, 1_100_000_000_000),
            t_bounded(c.eyev, 1_000_000_000),
            t_bounded(c.normalv, 2_000_000),
            self.light.unwrap().position.3 == c.point.3,
            (self.light.unwrap().position.0 - c.point.0) * (self.light.unwrap().position.0
                - c.point.0) + (self.light.unwrap().position.1 - c.point.1) * (
            self.light.unwrap().position.1 - c.point.1) + (self.light.unwrap().position.2
                - c.point.2) * (self.light.unwrap().position.2 - c.point.2) >= 1,
        ensures
            r.0 as int == lighting_spec(
                c.object.material,
                self.light.unwrap(),
                t4(c.point),
                t4(c.eyev),
                t4(c.normalv),
            ).x,
            r.1 as int == lighting_spec(
                c.object.material,
                self.light.unwrap(),
                t4(c.point),
                t4(c.eyev),
                t4(c.normalv),
            ).y,
            r.2 as int == lighting_spec(
                c.object.material,
                self.light.unwrap(),
                t4(c.point),
                t4(c.eyev),
                t4(c.normalv),
            ).z,
            r.3 as int == lighting_spec(
                c.object.material,
                self.light.unwrap(),
                t4(c.point),
                t4(c.eyev),
                t4(c.normalv),
            ).w,
    {
        let l = self.light.unwrap();
        c.object.material.lightning(l, c.point, c.eyev, c.normalv)
    }

    /// The color the ray sees: black when it hits nothing, else the shade of
    /// the nearest hit ahead of the ray.
    #[verifier::rlimit(100)]
    pub fn color_at(&self, r: &Ray) -> (res: Tuple)
        requires
            world_ok(self, *r),
            r.origin.3 == SCALE,
            r.direction.3 == 0,
            has_hit(self.objects@, *r) ==> self.light is Some,
            self.light is Some ==> {
                &&& light_ok(self.light.unwrap())
                &&& self.light.unwrap().position.3 == SCALE
                &&& roots_ok(self, self.light.unwrap(), *r)
            },
            forall|i: int| 0 <= i < self.objects@.len() ==> mat_ok((#[trigger] self.objects@[i]).material),
        ensures
            !has_hit(self.objects@, *r) ==> res == (Tuple(0i64, 0i64, 0i64, 0i64)),
            has_hit(self.objects@, *r) ==> exists|k: int|
                {
                    &&& 0 <= k < all_hits(self.objects@, *r).len()
                    &&& (#[trigger] all_hits(self.objects@, *r)[k]).0 >= 0
                    &&& (forall|j: int|
                        0 <= j < all_hits(self.objects@, *r).len() && (#[trigger] all_hits(
                            self.objects@,
                            *r,
                        )[j]).0 >= 0 ==> all_hits(self.objects@, *r)[k].0 <= all_hits(
                            self.objects@,
                            *r,
                        )[j].0)
                    &&& res.0 as int == shade_of(
                        self.light.unwrap(),
                        all_hits(self.objects@, *r)[k].1,
                        *r,
                        all_hits(self.objects@, *r)[k].0,
                    ).x
                    &&& res.1 as int == shade_of(
                        self.light.unwrap(),
                        all_hits(self.objects@, *r)[k].1,
                        *r,
                        all_hits(self.objects@, *r)[k].0,
                    ).y
                    &&& res.2 as int == shade_of(
                        self.light.unwrap(),
                        all_hits(self.objects@, *r)[k].1,
                        *r,
                        all_hits(self.objects@, *r)[k].0,
                    ).z
                    &&& res.3 as int == shade_of(
                        self.light.unwrap(),
                        all_hits(self.objects@, *r)[k].1,
                        *r,
                        all_hits(self.objects@, *r)[k].0,
                    ).w
                },
    {
        let ghost hits = all_hits(self.objects@, *r);
        let is = self.intersect(r);
        let h = hit(is.as_slice());
        match h {
            None => {
                proof {
                    assert forall|k: int| 0 <= k < hits.len() implies (#[trigger] hits[k]).0
                        < 0 by {
                        assert(hits.contains(hits[k]));
                        assert(hits.to_multiset().count(hits[k]) > 0);
                        assert(iviews(is@).to_multiset().count(hits[k]) > 0);
                        assert(iviews(is@).contains(hits[k]));
                        let m = choose|m: int| 0 <= m < iviews(is@).len() && iviews(is@)[m] == hits[k];
                        assert(is@[m].t < 0);
                    }
                }
                Tuple::color(0, 0, 0)
            },
            Some(i) => {
                proof {
                    let k = choose|k: int|
                        {
                            &&& 0 <= k < is@.len()
                            &&& *i == is@[k]
                            &&& is@[k].t >= 0
                            &&& forall|j: int| 0 <= j < k ==> #[trigger] is@[j].t < 0
                        };
                    assert(iviews(is@)[k] == iview(*i));
                    assert(iviews(is@).contains(iview(*i)));
                    assert(iviews(is@).to_multiset().count(iview(*i)) > 0);
                    assert(hits.to_multiset().count(iview(*i)) > 0);
                    assert(hits.contains(iview(*i)));
                    let ak = choose|ak: int| 0 <= ak < hits.len() && hits[ak] == iview(*i);
                    lemma_all_hits_src(self.objects@, *r, ak);
                    let oi = choose|oi: int|
                        {
                            &&& 0 <= oi < self.objects@.len()
                            &&& (#[trigger] self.objects@[oi]) == hits[ak].1
                            &&& isect_disc(&self.objects@[oi], *r) >= 0
                            &&& (hits[ak].0 == t1_spec(&self.objects@[oi], *r) || hits[ak].0
                                == t2_spec(&self.objects@[oi], *r))
                        };
                    assert(sph_ray_ok(&self.objects@[oi], *r));
                    assert(has_hit(self.objects@, *r));
                    assert(mat_ok(i.object.material));
                    assert(root_ok(self.light.unwrap(), *i.object, *r, i.t as int));
                    assert(prep_ok(*i, *r));
                }
                let comps = i.prepare_computations(r);
                proof {
                    let l = self.light.unwrap();
                    let t = i.t as int;
                    let p = position4(*r, t);
                    assert(r.direction.3 as int * t == 0);
                    lemma_rdiv_abs_le(r.direction.3 as int * t, SCALE as int, 0);
                    assert(comps.point.3 as int == SCALE as int);
                    assert(t4(comps.point) == p);
                    assert(t4(comps.eyev) == neg4(t4(r.direction)));
                }
                let res = self.shade_hit(comps);
                proof {
                    let l = self.light.unwrap();
                    let t = i.t as int;
                    assert(res.0 as int == shade_of(l, *i.object, *r, t).x && res.1 as int
                        == shade_of(l, *i.object, *r, t).y && res.2 as int == shade_of(
                        l,
                        *i.object,
                        *r,
                        t,
                    ).z && res.3 as int == shade_of(l, *i.object, *r, t).w);
                    lemma_minimal_hit(self, *r, is@, *i);
                    let mk = choose|mk: int|
                        {
                            &&& 0 <= mk < all_hits(self.objects@, *r).len()
                            &&& (#[trigger] all_hits(self.objects@, *r)[mk]) == iview(*i)
                            &&& all_hits(self.objects@, *r)[mk].0 >= 0
                            &&& (forall|j: int|
                                0 <= j < all_hits(self.objects@, *r).len() && (#[trigger] all_hits(
                                    self.objects@,
                                    *r,
                                )[j]).0 >= 0 ==> all_hits(self.objects@, *r)[mk].0 <= all_hits(
                                    self.objects@,
                                    *r,
                                )[j].0)
                        };
                    assert(hits[mk].1 == *i.object && hits[mk].0 == t);
                }
                res
            },
        }
    }
}

/// The chosen hit is a least non-negative root among `all_hits`.
proof fn lemma_minimal_hit(w: &World, r: Ray, is: Seq<Intersection>, i: Intersection)
    requires
        sorted_by_t(is),
        iviews(is).to_multiset() == all_hits(w.objects@, r).to_multiset(),
        exists|k: int|
            {
                &&& 0 <= k < is.len()
                &&& i == is[k]
                &&& is[k].t >= 0
                &&& forall|j: int| 0 <= j < k ==> #[trigger] is[j].t < 0
            },
    ensures
        exists|k: int|
            {
                &&& 0 <= k < all_hits(w.objects@, r).len()
                &&& (#[trigger] all_hits(w.objects@, r)[k]) == iview(i)
                &&& all_hits(w.objects@, r)[k].0 >= 0
                &&& (forall|j: int|
                    0 <= j < all_hits(w.objects@, r).len() && (#[trigger] all_hits(
                        w.objects@,
                        r,
                    )[j]).0 >= 0 ==> all_hits(w.objects@, r)[k].0 <= all_hits(w.objects@, r)[j].0)
            },
{
    broadcast use vstd::seq_lib::group_to_multiset_ensures;

    let hits = all_hits(w.objects@, r);
    let k = choose|k: int|
        {
            &&& 0 <= k < is.len()
            &&& i == is[k]
            &&& is[k].t >= 0
            &&& forall|j: int| 0 <= j < k ==> #[trigger] is[j].t < 0
        };
    assert(iviews(is)[k] == iview(i));
    assert(iviews(is).contains(iview(i)));
    assert(iviews(is).to_multiset().count(iview(i)) > 0);
    assert(hits.to_multiset().count(iview(i)) > 0);
    assert(hits.contains(iview(i)));
    let ak = choose|ak: int| 0 <= ak < hits.len() && hits[ak] == iview(i);
    assert forall|j: int| 0 <= j < hits.len() && (#[trigger] hits[j]).0 >= 0 implies hits[ak].0
        <= hits[j].0 by {
        assert(hits.contains(hits[j]));
        assert(hits.to_multiset().count(hits[j]) > 0);
        assert(iviews(is).to_multiset().count(hits[j]) > 0);
        assert(iviews(is).contains(hits[j]));
        let m = choose|m: int| 0 <= m < iviews(is).len() && iviews(is)[m] == hits[j];
        assert(is[m].t as int == hits[j].0);
        assert(is[m].t >= 0);
        assert(m >= k);
        assert(is[k].t <= is[m].t);
    }
    assert(0 <= ak < hits.len() && hits[ak] == iview(i) && hits[ak].0 >= 0);
}

} // verus!
