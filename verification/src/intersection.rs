//! Ray-object intersections: the hit parameter `t` with the object hit, sets
//! of intersections sorted by `t`, hit selection, and the precomputed shading
//! inputs.

use vstd::multiset::Multiset;
use vstd::prelude::*;

use crate::fixed::{abs_i, lemma_rdiv_prod_bound, SCALE};
use crate::ray::{pos_c, Ray};
use crate::sphere::{normal_ok, normal_spec, sphere_wf, Sphere};
use crate::tuple::{dot4, neg4, t4, t_bounded, Tuple, T4};

verus! {

broadcast use vstd::seq_lib::group_to_multiset_ensures;

/// One crossing of a ray and a sphere: the ray parameter and the object hit.
#[derive(Clone, Copy, Debug)]
pub struct Intersection<'a> {
    pub t: i64,
    pub object: &'a Sphere,
}

/// Precomputed shading inputs for one hit.
pub struct Computations<'a> {
    pub t: i64,
    pub object: &'a Sphere,
    pub point: Tuple,
    pub eyev: Tuple,
    pub normalv: Tuple,
    pub inside: bool,
}

/// What an intersection stands for: its parameter and the object hit, by
/// value.
pub open spec fn iview(i: Intersection) -> (int, Sphere) {
    (i.t as int, *i.object)
}

/// What a list of intersections stands for, element by element.
pub open spec fn iviews(s: Seq<Intersection>) -> Seq<(int, Sphere)> {
    Seq::new(s.len(), |i: int| iview(s[i]))
}

/// Ascending by `t`.
pub open spec fn sorted_by_t(s: Seq<Intersection>) -> bool {
    forall|i: int, j: int| 0 <= i <= j < s.len() ==> #[trigger] s[i].t <= #[trigger] s[j].t
}

/// The intersections of `s` whose parameter is exactly `t0`, in their order.
pub open spec fn same_t(s: Seq<Intersection>, t0: int) -> Seq<Intersection> {
    s.filter(|x: Intersection| x.t == t0)
}

/// Filtering a singleton keeps or drops its one element.
proof fn lemma_same_t_one(v: Intersection, t0: int)
    ensures
        v.t == t0 ==> same_t(seq![v], t0) == seq![v],
        v.t != t0 ==> same_t(seq![v], t0) == Seq::<Intersection>::empty(),
{
    reveal_with_fuel(Seq::filter, 2);
    assert(seq![v].drop_last() =~= Seq::<Intersection>::empty());
    if v.t == t0 {
        assert(same_t(seq![v], t0) =~= seq![v]);
    } else {
        assert(same_t(seq![v], t0) =~= Seq::<Intersection>::empty());
    }
}

/// A list without the parameter filters to nothing.
proof fn lemma_same_t_empty(s: Seq<Intersection>, t0: int)
    requires
        forall|k: int| 0 <= k < s.len() ==> (#[trigger] s[k]).t != t0,
    ensures
        same_t(s, t0) == Seq::<Intersection>::empty(),
    decreases s.len(),
{
    reveal(Seq::filter);
    if s.len() > 0 {
        lemma_same_t_empty(s.drop_last(), t0);
        assert(same_t(s, t0) =~= Seq::<Intersection>::empty());
    } else {
        assert(same_t(s, t0) =~= Seq::<Intersection>::empty());
    }
}

/// Moving the first least element from the source to the end of the output
/// keeps every equal-parameter subsequence whole: the step of a stable
/// selection sort.
proof fn lemma_stable_step(
    old_out: Seq<Intersection>,
    old_src: Seq<Intersection>,
    new_out: Seq<Intersection>,
    new_src: Seq<Intersection>,
    xs: Seq<Intersection>,
    mi: int,
    v: Intersection,
)
    requires
        0 <= mi < old_src.len(),
        v == old_src[mi],
        forall|k: int| 0 <= k < mi ==> (#[trigger] old_src[k]).t > v.t,
        new_src == old_src.remove(mi),
        new_out == old_out.push(v),
        forall|t0: int|
            #[trigger] same_t(old_out, t0) + same_t(old_src, t0) == same_t(xs, t0),
    ensures
        forall|t0: int|
            #[trigger] same_t(new_out, t0) + same_t(new_src, t0) == same_t(xs, t0),
{
    broadcast use vstd::seq_lib::group_seq_lib_default;

    let a = old_src.subrange(0, mi);
    let b = old_src.subrange(mi + 1, old_src.len() as int);
    assert(old_src =~= a + (seq![v] + b));
    assert(new_src =~= a + b);
    assert(new_out =~= old_out + seq![v]);
    assert forall|t0: int| #[trigger] same_t(new_out, t0) + same_t(new_src, t0) == same_t(
        xs,
        t0,
    ) by {
        assert(same_t(old_src, t0) == same_t(a, t0) + (same_t(seq![v], t0) + same_t(b, t0)));
        assert(same_t(new_src, t0) == same_t(a, t0) + same_t(b, t0));
        assert(same_t(new_out, t0) == same_t(old_out, t0) + same_t(seq![v], t0));
        lemma_same_t_one(v, t0);
        if v.t == t0 {
            lemma_same_t_empty(a, t0);
            assert(same_t(a, t0) + (seq![v] + same_t(b, t0)) =~= seq![v] + same_t(b, t0));
            assert((same_t(old_out, t0) + seq![v]) + (same_t(a, t0) + same_t(b, t0))
                =~= same_t(old_out, t0) + (seq![v] + same_t(b, t0)));
        } else {
            assert(same_t(old_src, t0) =~= same_t(a, t0) + same_t(b, t0));
            assert(same_t(new_out, t0) =~= same_t(old_out, t0));
        }
    }
}

/// The point at parameter `t` along the ray.
pub open spec fn position4(r: Ray, t: int) -> T4 {
    T4 {
        x: pos_c(r.origin.0 as int, r.direction.0 as int, t),
        y: pos_c(r.origin.1 as int, r.direction.1 as int, t),
        z: pos_c(r.origin.2 as int, r.direction.2 as int, t),
        w: pos_c(r.origin.3 as int, r.direction.3 as int, t),
    }
}

/// An intersection whose shading inputs can be computed: a well-formed
/// object, a bounded ray and parameter, and a normal that does not vanish.
pub open spec fn prep_ok(i: Intersection, r: Ray) -> bool {
    &&& sphere_wf(i.object)
    &&& t_bounded(r.origin, 300_000_000)
    &&& t_bounded(r.direction, 500_000_000)
    &&& abs_i(i.t as int) <= 2_000_000_000
    &&& normal_ok(i.object, position4(r, i.t as int))
}

impl<'a> Intersection<'a> {
    /// An intersection from its parameter and object.
    pub fn new(t: i64, object: &'a Sphere) -> (r: Intersection<'a>)
        ensures
            r.t == t,
            r.object == object,
    {
        Intersection { t, object }
    }

    /// The shading inputs at this hit: the world point, the eye vector, and
    /// the normal, flipped to face the eye when the hit is on the inside.
    pub fn prepare_computations(&self, r: &Ray) -> (c: Computations<'a>)
        requires
            prep_ok(*self, *r),
        ensures
            c.t == self.t,
            c.object == self.object,
            c.point.0 as int == position4(*r, self.t as int).x,
            c.point.1 as int == position4(*r, self.t as int).y,
            c.point.2 as int == position4(*r, self.t as int).z,
            c.point.3 as int == position4(*r, self.t as int).w,
            c.eyev.0 == -r.direction.0 && c.eyev.1 == -r.direction.1 && c.eyev.2
                == -r.direction.2 && c.eyev.3 == -r.direction.3,
            ({
                let n = normal_spec(self.object, position4(*r, self.t as int));
                let nd = dot4(n, neg4(t4(r.direction)));
                if nd < 0 {
                    c.inside == true && c.normalv.0 as int == -n.x && c.normalv.1 as int == -n.y
                        && c.normalv.2 as int == -n.z && c.normalv.3 as int == 0
                } else {
                    c.inside == false && c.normalv.0 as int == n.x && c.normalv.1 as int == n.y
                        && c.normalv.2 as int == n.z && c.normalv.3 as int == 0
                }
            }),
            t_bounded(c.point, 1_100_000_000_000),
            t_bounded(c.eyev, 500_000_000),
            t_bounded(c.normalv, SCALE as int),
    {
        proof {
            lemma_rdiv_prod_bound(r.direction.0 as int, self.t as int, 500_000_000,
                2_000_000_000, 1_000_000_000_000);
            lemma_rdiv_prod_bound(r.direction.1 as int, self.t as int, 500_000_000,
                2_000_000_000, 1_000_000_000_000);
            lemma_rdiv_prod_bound(r.direction.2 as int, self.t as int, 500_000_000,
                2_000_000_000, 1_000_000_000_000);
            lemma_rdiv_prod_bound(r.direction.3 as int, self.t as int, 500_000_000,
                2_000_000_000, 1_000_000_000_000);
        }
        let point = r.position(self.t);
        proof {
            assert(t4(point) == position4(*r, self.t as int));
        }
        let eyev = r.direction.negate();
        let mut normalv = self.object.normal_at(point);
        let mut inside = false;
        proof {
            crate::tuple::lemma_dot_abs(normalv, eyev, 1_000_000, 500_000_000, 500_000_000);
        }
        if normalv.dot(eyev) < 0 {
            inside = true;
            normalv = normalv.negate();
        }
        Computations { t: self.t, object: self.object, point, eyev, normalv, inside }
    }
}

impl<'a> PartialEq for Intersection<'a> {
    /// Intersections are equal when the parameters match exactly and the
    /// objects agree.
    fn eq(&self, other: &Intersection<'a>) -> (r: bool) {
        self.t == other.t && *self.object == *other.object
    }
}

impl<'a> vstd::std_specs::cmp::PartialEqSpecImpl for Intersection<'a> {
    open spec fn obeys_eq_spec() -> bool {
        true
    }

    open spec fn eq_spec(&self, other: &Intersection<'a>) -> bool {
        &&& self.t == other.t
        &&& crate::sphere::sphere_approx(*self.object, *other.object)
    }
}

/// The intersections sorted ascending by `t`: a stable rearrangement with the
/// same parameters against the same objects.
pub fn intersections<'a>(xs: &[Intersection<'a>]) -> (r: Vec<Intersection<'a>>)
    ensures
        sorted_by_t(r@),
        iviews(r@).to_multiset() == iviews(xs@).to_multiset(),
        forall|t0: int| #[trigger] same_t(r@, t0) == same_t(xs@, t0),
        r@.len() == xs@.len(),
{
    let mut src: Vec<Intersection<'a>> = Vec::new();
    let n = xs.len();
    let mut i: usize = 0;
    while i < n
        invariant
            i <= n,
            n == xs@.len(),
            src@ == xs@.subrange(0, i as int),
        decreases n - i,
    {
        src.push(xs[i]);
        proof {
            assert(src@ =~= xs@.subrange(0, i + 1));
        }
        i += 1;
    }
    proof {
        assert(src@ =~= xs@);
    }
    let mut out: Vec<Intersection<'a>> = Vec::new();
    while src.len() > 0
        invariant
            sorted_by_t(out@),
            iviews(out@).to_multiset().add(iviews(src@).to_multiset()) == iviews(
                xs@,
            ).to_multiset(),
            forall|t0: int|
                #[trigger] same_t(out@, t0) + same_t(src@, t0) == same_t(xs@, t0),
            out@.len() + src@.len() == xs@.len(),
            forall|a: int, b: int|
                0 <= a < out@.len() && 0 <= b < src@.len() ==> #[trigger] out@[a].t
                    <= #[trigger] src@[b].t,
        decreases src.len(),
    {
        let mut mi: usize = 0;
        let mut j: usize = 1;
        while j < src.len()
            invariant
                mi < j <= src@.len(),
                src@.len() > 0,
                forall|k: int| 0 <= k < j ==> src@[mi as int].t <= #[trigger] src@[k].t,
                forall|k: int| 0 <= k < mi ==> (#[trigger] src@[k]).t > src@[mi as int].t,
            decreases src@.len() - j,
        {
            if src[j].t < src[mi].t {
                mi = j;
            }
            j += 1;
        }
        let ghost old_out = out@;
        let ghost old_src = src@;
        let v = src.remove(mi);
        out.push(v);
        proof {
            lemma_stable_step(old_out, old_src, out@, src@, xs@, mi as int, v);
            assert(iviews(out@) =~= iviews(old_out).push(iview(v)));
            assert(iviews(src@) =~= iviews(old_src).remove(mi as int));
            assert(iviews(old_src)[mi as int] == iview(v));
            assert(iviews(out@).to_multiset() =~= iviews(old_out).to_multiset().insert(iview(v)));
            assert(iviews(src@).to_multiset() =~= iviews(old_src).to_multiset().remove(iview(v)));
            assert(iviews(old_src).to_multiset().count(iview(v)) >= 1) by {
                assert(iviews(old_src)[mi as int] == iview(v));
                assert(iviews(old_src).contains(iview(v)));
            }
            assert(iviews(out@).to_multiset().add(iviews(src@).to_multiset()) =~= iviews(
                old_out,
            ).to_multiset().add(iviews(old_src).to_multiset()));
        }
    }
    proof {
        assert(iviews(src@) =~= Seq::<(int, Sphere)>::empty());
        assert(iviews(src@).to_multiset() =~= Multiset::<(int, Sphere)>::empty());
        assert(iviews(out@).to_multiset().add(Multiset::<(int, Sphere)>::empty()) =~= iviews(
            out@,
        ).to_multiset());
        assert forall|t0: int| #[trigger] same_t(out@, t0) == same_t(xs@, t0) by {
            lemma_same_t_empty(src@, t0);
            assert(same_t(out@, t0) + Seq::<Intersection>::empty() =~= same_t(out@, t0));
        }
    }
    out
}

/// The hit: the first intersection in the list's order whose `t` is not
/// negative; none when every `t` is negative.
pub fn hit<'a>(xs: &'a [Intersection<'a>]) -> (r: Option<&'a Intersection<'a>>)
    ensures
        match r {
            None => forall|k: int| 0 <= k < xs@.len() ==> #[trigger] xs@[k].t < 0,
            Some(p) => exists|k: int|
                {
                    &&& 0 <= k < xs@.len()
                    &&& *p == xs@[k]
                    &&& xs@[k].t >= 0
                    &&& forall|j: int| 0 <= j < k ==> #[trigger] xs@[j].t < 0
                },
        },
{
    let n = xs.len();
    let mut i: usize = 0;
    while i < n
        invariant
            i <= n,
            n == xs@.len(),
            forall|k: int| 0 <= k < i ==> #[trigger] xs@[k].t < 0,
        decreases n - i,
    {
        if xs[i].t >= 0 {
            return Some(&xs[i]);
        }
        i += 1;
    }
    None
}

} // verus!
