//! Rays: an origin point and a direction vector, with positions along the ray
//! and transformation by a matrix.

use vstd::prelude::*;

use crate::fixed::{abs_i, rdiv, SCALE};
use crate::matrix::{m_wf, tp_c, tp_fits, Matrix};
use crate::tuple::{t_bounded, Tuple};

verus! {

/// A ray: where it starts and which way it points.
#[derive(Clone, Copy, Debug)]
pub struct Ray {
    pub origin: Tuple,
    pub direction: Tuple,
}

/// One component of the point at parameter `t` along a ray.
pub open spec fn pos_c(o: int, d: int, t: int) -> int {
    o + rdiv(d * t, SCALE as int)
}

impl Ray {
    /// A ray from its origin and direction.
    pub fn new(origin: Tuple, direction: Tuple) -> (r: Ray)
        ensures
            r.origin == origin,
            r.direction == direction,
    {
        Ray { origin, direction }
    }

    /// The point `origin + direction * t`; `t` may be negative.
    pub fn position(&self, t: i64) -> (r: Tuple)
        requires
            t_bounded(self.origin, 1_000_000_000_000_000),
            t_bounded(self.direction, 1_000_000_000_000),
            abs_i(t as int) <= 1_000_000_000_000,
        ensures
            r.0 as int == pos_c(self.origin.0 as int, self.direction.0 as int, t as int),
            r.1 as int == pos_c(self.origin.1 as int, self.direction.1 as int, t as int),
            r.2 as int == pos_c(self.origin.2 as int, self.direction.2 as int, t as int),
            r.3 as int == pos_c(self.origin.3 as int, self.direction.3 as int, t as int),
            t_bounded(r, 1_001_000_000_000_000_000),
    {
        proof {
            crate::fixed::lemma_rdiv_prod_bound(self.direction.0 as int, t as int,
                1_000_000_000_000, 1_000_000_000_000, 1_000_000_000_000_000_000);
            crate::fixed::lemma_rdiv_prod_bound(self.direction.1 as int, t as int,
                1_000_000_000_000, 1_000_000_000_000, 1_000_000_000_000_000_000);
            crate::fixed::lemma_rdiv_prod_bound(self.direction.2 as int, t as int,
                1_000_000_000_000, 1_000_000_000_000, 1_000_000_000_000_000_000);
            crate::fixed::lemma_rdiv_prod_bound(self.direction.3 as int, t as int,
                1_000_000_000_000, 1_000_000_000_000, 1_000_000_000_000_000_000);
            crate::fixed::lemma_abs_mul(self.direction.0 as int, t as int, 1_000_000_000_000,
                1_000_000_000_000);
            crate::fixed::lemma_abs_mul(self.direction.1 as int, t as int, 1_000_000_000_000,
                1_000_000_000_000);
            crate::fixed::lemma_abs_mul(self.direction.2 as int, t as int, 1_000_000_000_000,
                1_000_000_000_000);
            crate::fixed::lemma_abs_mul(self.direction.3 as int, t as int, 1_000_000_000_000,
                1_000_000_000_000);
        }
        self.origin.plus(self.direction.scale(t))
    }

    /// The ray carried through a matrix: both origin and direction mapped.
    /// A direction, with weight zero, ignores the translation column.
    pub fn transform(&self, m: &Matrix) -> (r: Ray)
        requires
            m_wf(m),
            m.dim == 4,
            tp_fits(m@, self.origin),
            tp_fits(m@, self.direction),
        ensures
            r.origin.0 as int == tp_c(m@, self.origin, 0),
            r.origin.1 as int == tp_c(m@, self.origin, 1),
            r.origin.2 as int == tp_c(m@, self.origin, 2),
            r.origin.3 as int == tp_c(m@, self.origin, 3),
            r.direction.0 as int == tp_c(m@, self.direction, 0),
            r.direction.1 as int == tp_c(m@, self.direction, 1),
            r.direction.2 as int == tp_c(m@, self.direction, 2),
            r.direction.3 as int == tp_c(m@, self.direction, 3),
    {
        Ray { origin: m.tuple_prod(self.origin), direction: m.tuple_prod(self.direction) }
    }
}

} // verus!
