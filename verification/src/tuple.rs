//! Homogeneous 4-component tuples: points (w = 1.0), vectors (w = 0) and
//! colors (r, g, b and an unused fourth slot), over fixed-point scalars.

use vstd::prelude::*;

use crate::fixed::{
    abs_i, fp_div, fp_mul, is_sqrt_of, isqrt_spec, isqrt_u128, lemma_abs_mul, lemma_isqrt_is,
    lemma_rdiv_abs_le, rdiv, EPS, SCALE,
};

verus! {

/// Four fixed-point components: x, y, z and the homogeneous weight w.
#[derive(Clone, Copy, Debug)]
pub struct Tuple(pub i64, pub i64, pub i64, pub i64);

/// Every component within `b` units of zero.
pub open spec fn t_bounded(t: Tuple, b: int) -> bool {
    &&& abs_i(t.0 as int) <= b
    &&& abs_i(t.1 as int) <= b
    &&& abs_i(t.2 as int) <= b
    &&& abs_i(t.3 as int) <= b
}

/// Two scalars within the equality tolerance of each other.
pub open spec fn approx(a: int, b: int) -> bool {
    abs_i(a - b) < EPS as int
}

/// Component-wise tuple equality within the tolerance.
pub open spec fn tuple_approx(a: Tuple, b: Tuple) -> bool {
    &&& approx(a.0 as int, b.0 as int)
    &&& approx(a.1 as int, b.1 as int)
    &&& approx(a.2 as int, b.2 as int)
    &&& approx(a.3 as int, b.3 as int)
}

/// The fixed-point dot product: all four component products contribute.
pub open spec fn fp_dot(a: Tuple, b: Tuple) -> int {
    rdiv(a.0 as int * b.0 as int, SCALE as int) + rdiv(a.1 as int * b.1 as int, SCALE as int)
        + rdiv(a.2 as int * b.2 as int, SCALE as int) + rdiv(
        a.3 as int * b.3 as int,
        SCALE as int,
    )
}

/// The squared magnitude: exact, w excluded.
pub open spec fn sq_mag(t: Tuple) -> int {
    t.0 as int * t.0 as int + t.1 as int * t.1 as int + t.2 as int * t.2 as int
}

/// The fixed-point magnitude: square root of the exact squared magnitude.
pub open spec fn mag_spec(t: Tuple) -> int {
    isqrt_spec(sq_mag(t))
}

/// One component of the normalized tuple.
pub open spec fn norm_c(c: int, m: int) -> int {
    rdiv(c * SCALE as int, m)
}

impl Tuple {
    /// A point: w is 1.0.
    pub fn point(x: i64, y: i64, z: i64) -> (r: Tuple)
        ensures
            r == (Tuple(x, y, z, SCALE)),
    {
        Tuple(x, y, z, SCALE)
    }

    /// A vector: w is 0.
    pub fn vector(x: i64, y: i64, z: i64) -> (r: Tuple)
        ensures
            r == (Tuple(x, y, z, 0i64)),
    {
        Tuple(x, y, z, 0)
    }

    /// A color: red, green, blue and an inert fourth slot.
    pub fn color(red: i64, green: i64, blue: i64) -> (r: Tuple)
        ensures
            r == (Tuple(red, green, blue, 0i64)),
    {
        Tuple(red, green, blue, 0)
    }

    /// Component-wise sum.
    pub fn plus(self, other: Tuple) -> (r: Tuple)
        requires
            i64::MIN <= self.0 + other.0 <= i64::MAX,
            i64::MIN <= self.1 + other.1 <= i64::MAX,
            i64::MIN <= self.2 + other.2 <= i64::MAX,
            i64::MIN <= self.3 + other.3 <= i64::MAX,
        ensures
            r.0 == self.0 + other.0,
            r.1 == self.1 + other.1,
            r.2 == self.2 + other.2,
            r.3 == self.3 + other.3,
    {
        Tuple(self.0 + other.0, self.1 + other.1, self.2 + other.2, self.3 + other.3)
    }

    /// Component-wise difference.
    pub fn minus(self, other: Tuple) -> (r: Tuple)
        requires
            i64::MIN <= self.0 - other.0 <= i64::MAX,
            i64::MIN <= self.1 - other.1 <= i64::MAX,
            i64::MIN <= self.2 - other.2 <= i64::MAX,
            i64::MIN <= self.3 - other.3 <= i64::MAX,
        ensures
            r.0 == self.0 - other.0,
            r.1 == self.1 - other.1,
            r.2 == self.2 - other.2,
            r.3 == self.3 - other.3,
    {
        Tuple(self.0 - other.0, self.1 - other.1, self.2 - other.2, self.3 - other.3)
    }

    /// Component-wise negation.
    pub fn negate(self) -> (r: Tuple)
        requires
            self.0 > i64::MIN,
            self.1 > i64::MIN,
            self.2 > i64::MIN,
            self.3 > i64::MIN,
        ensures
            r.0 == -self.0,
            r.1 == -self.1,
            r.2 == -self.2,
            r.3 == -self.3,
    {
        Tuple(-self.0, -self.1, -self.2, -self.3)
    }

    /// All four components multiplied by the fixed-point scalar `k`.
    pub fn scale(self, k: i64) -> (r: Tuple)
        requires
            abs_i(self.0 as int * k as int) <= 0x7fff_ffff_ffff_fffe * 1_000_000,
            abs_i(self.1 as int * k as int) <= 0x7fff_ffff_ffff_fffe * 1_000_000,
            abs_i(self.2 as int * k as int) <= 0x7fff_ffff_ffff_fffe * 1_000_000,
            abs_i(self.3 as int * k as int) <= 0x7fff_ffff_ffff_fffe * 1_000_000,
        ensures
            r.0 as int == rdiv(self.0 as int * k as int, SCALE as int),
            r.1 as int == rdiv(self.1 as int * k as int, SCALE as int),
            r.2 as int == rdiv(self.2 as int * k as int, SCALE as int),
            r.3 as int == rdiv(self.3 as int * k as int, SCALE as int),
    {
        Tuple(fp_mul(self.0, k), fp_mul(self.1, k), fp_mul(self.2, k), fp_mul(self.3, k))
    }

    /// All four components divided by the fixed-point scalar `k`.
    pub fn div_scale(self, k: i64) -> (r: Tuple)
        requires
            k != 0,
            abs_i(rdiv(self.0 as int * SCALE as int, k as int)) <= i64::MAX,
            abs_i(rdiv(self.1 as int * SCALE as int, k as int)) <= i64::MAX,
            abs_i(rdiv(self.2 as int * SCALE as int, k as int)) <= i64::MAX,
            abs_i(rdiv(self.3 as int * SCALE as int, k as int)) <= i64::MAX,
        ensures
            r.0 as int == rdiv(self.0 as int * SCALE as int, k as int),
            r.1 as int == rdiv(self.1 as int * SCALE as int, k as int),
            r.2 as int == rdiv(self.2 as int * SCALE as int, k as int),
            r.3 as int == rdiv(self.3 as int * SCALE as int, k as int),
    {
        Tuple(fp_div(self.0, k), fp_div(self.1, k), fp_div(self.2, k), fp_div(self.3, k))
    }

    /// The magnitude `sqrt(x*x + y*y + z*z)`, rounded down; w is excluded.
    pub fn magnitude(self) -> (r: i64)
        requires
            t_bounded(self, 5_000_000_000_000_000_000),
        ensures
            r as int == mag_spec(self),
            is_sqrt_of(sq_mag(self), r as int),
    {
        let xa = abs_to_u128(self.0);
        let ya = abs_to_u128(self.1);
        let za = abs_to_u128(self.2);
        proof {
            assert(xa * xa == self.0 as int * self.0 as int && xa * xa
                <= 25_000_000_000_000_000_000_000_000_000_000_000_000) by (nonlinear_arith)
                requires
                    xa as int == abs_i(self.0 as int),
                    xa <= 5_000_000_000_000_000_000u128,
            ;
            assert(ya * ya == self.1 as int * self.1 as int && ya * ya
                <= 25_000_000_000_000_000_000_000_000_000_000_000_000) by (nonlinear_arith)
                requires
                    ya as int == abs_i(self.1 as int),
                    ya <= 5_000_000_000_000_000_000u128,
            ;
            assert(za * za == self.2 as int * self.2 as int && za * za
                <= 25_000_000_000_000_000_000_000_000_000_000_000_000) by (nonlinear_arith)
                requires
                    za as int == abs_i(self.2 as int),
                    za <= 5_000_000_000_000_000_000u128,
            ;
        }
        let q: u128 = xa * xa + ya * ya + za * za;
        let m = isqrt_u128(q);
        proof {
            assert(m < 0x7fff_ffff_ffff_ffffu128) by (nonlinear_arith)
                requires
                    (m as int) * (m as int) <= q as int,
                    q <= 75_000_000_000_000_000_000_000_000_000_000_000_000u128,
            ;
            lemma_isqrt_is(sq_mag(self), m as int);
        }
        m as i64
    }

    /// Every component divided by the magnitude. Only for vectors (w = 0),
    /// and only for vectors whose magnitude is not zero.
    pub fn normalize(self) -> (r: Tuple)
        requires
            self.3 == 0,
            t_bounded(self, 5_000_000_000_000_000_000),
            sq_mag(self) >= 1,
        ensures
            r.0 as int == norm_c(self.0 as int, mag_spec(self)),
            r.1 as int == norm_c(self.1 as int, mag_spec(self)),
            r.2 as int == norm_c(self.2 as int, mag_spec(self)),
            r.3 == 0i64,
            t_bounded(r, SCALE as int),
    {
        let m = self.magnitude();
        proof {
            assert(m >= 1) by (nonlinear_arith)
                requires
                    sq_mag(self) >= 1,
                    is_sqrt_of(sq_mag(self), m as int),
            ;
            assert(self.0 as int * self.0 as int <= sq_mag(self) && self.1 as int * self.1 as int
                <= sq_mag(self) && self.2 as int * self.2 as int <= sq_mag(self))
                by (nonlinear_arith);
            lemma_norm_div_fits(self.0 as int, sq_mag(self), m as int);
            lemma_norm_div_fits(self.1 as int, sq_mag(self), m as int);
            lemma_norm_div_fits(self.2 as int, sq_mag(self), m as int);
            lemma_rdiv_abs_le(self.3 as int * SCALE as int, m as int, 0);
        }
        Tuple(fp_div(self.0, m), fp_div(self.1, m), fp_div(self.2, m), fp_div(self.3, m))
    }

    /// The dot product: the sum of all four component products.
    pub fn dot(self, other: Tuple) -> (r: i64)
        requires
            t_bounded(self, 1_000_000_000_000),
            t_bounded(other, 1_000_000_000_000),
        ensures
            r as int == fp_dot(self, other),
            abs_i(r as int) <= 4_000_000_000_000_000_000,
    {
        proof {
            lemma_dot_fits(self, other, 1_000_000_000_000);
        }
        fp_mul(self.0, other.0) + fp_mul(self.1, other.1) + fp_mul(self.2, other.2) + fp_mul(
            self.3,
            other.3,
        )
    }

    /// The cross product on x, y, z; the result is always a vector.
    pub fn cross(self, other: Tuple) -> (r: Tuple)
        requires
            t_bounded(self, 1_000_000_000_000),
            t_bounded(other, 1_000_000_000_000),
        ensures
            r.0 as int == rdiv(self.1 as int * other.2 as int, SCALE as int) - rdiv(
                self.2 as int * other.1 as int,
                SCALE as int,
            ),
            r.1 as int == rdiv(self.2 as int * other.0 as int, SCALE as int) - rdiv(
                self.0 as int * other.2 as int,
                SCALE as int,
            ),
            r.2 as int == rdiv(self.0 as int * other.1 as int, SCALE as int) - rdiv(
                self.1 as int * other.0 as int,
                SCALE as int,
            ),
            r.3 == 0i64,
    {
        proof {
            lemma_cross_fits(self, other, 1_000_000_000_000);
        }
        Tuple::vector(
            fp_mul(self.1, other.2) - fp_mul(self.2, other.1),
            fp_mul(self.2, other.0) - fp_mul(self.0, other.2),
            fp_mul(self.0, other.1) - fp_mul(self.1, other.0),
        )
    }

    /// The component-wise (Hadamard) product, used for color mixing.
    pub fn hadamard(self, other: Tuple) -> (r: Tuple)
        requires
            t_bounded(self, 1_000_000_000_000),
            t_bounded(other, 1_000_000_000_000),
        ensures
            r.0 as int == rdiv(self.0 as int * other.0 as int, SCALE as int),
            r.1 as int == rdiv(self.1 as int * other.1 as int, SCALE as int),
            r.2 as int == rdiv(self.2 as int * other.2 as int, SCALE as int),
            r.3 as int == rdiv(self.3 as int * other.3 as int, SCALE as int),
    {
        proof {
            lemma_dot_fits(self, other, 1_000_000_000_000);
        }
        Tuple(
            fp_mul(self.0, other.0),
            fp_mul(self.1, other.1),
            fp_mul(self.2, other.2),
            fp_mul(self.3, other.3),
        )
    }
}

/// A mathematical quadruple: the specification-level image of a `Tuple`.
pub struct T4 {
    pub x: int,
    pub y: int,
    pub z: int,
    pub w: int,
}

/// The quadruple a tuple stands for.
pub open spec fn t4(t: Tuple) -> T4 {
    T4 { x: t.0 as int, y: t.1 as int, z: t.2 as int, w: t.3 as int }
}

/// Component-wise difference of quadruples.
pub open spec fn sub4(a: T4, b: T4) -> T4 {
    T4 { x: a.x - b.x, y: a.y - b.y, z: a.z - b.z, w: a.w - b.w }
}

/// The normalized quadruple: each of x, y, z over the rounded-down magnitude;
/// the weight of a vector stays zero.
pub open spec fn norm4(a: T4) -> T4 {
    let m = isqrt_spec(a.x * a.x + a.y * a.y + a.z * a.z);
    T4 { x: rdiv(a.x * SCALE as int, m), y: rdiv(a.y * SCALE as int, m), z: rdiv(
        a.z * SCALE as int,
        m,
    ), w: 0 }
}

/// Component-wise sum of quadruples.
pub open spec fn add4(a: T4, b: T4) -> T4 {
    T4 { x: a.x + b.x, y: a.y + b.y, z: a.z + b.z, w: a.w + b.w }
}

/// Component-wise negation of a quadruple.
pub open spec fn neg4(a: T4) -> T4 {
    T4 { x: -a.x, y: -a.y, z: -a.z, w: -a.w }
}

/// A quadruple with every component rescaled by the fixed-point scalar `k`.
pub open spec fn scale4(a: T4, k: int) -> T4 {
    T4 { x: rdiv(a.x * k, SCALE as int), y: rdiv(a.y * k, SCALE as int), z: rdiv(
        a.z * k,
        SCALE as int,
    ), w: rdiv(a.w * k, SCALE as int) }
}

/// The component-wise product of quadruples.
pub open spec fn had4(a: T4, b: T4) -> T4 {
    T4 { x: rdiv(a.x * b.x, SCALE as int), y: rdiv(a.y * b.y, SCALE as int), z: rdiv(
        a.z * b.z,
        SCALE as int,
    ), w: rdiv(a.w * b.w, SCALE as int) }
}

/// The dot product of quadruples.
pub open spec fn dot4(a: T4, b: T4) -> int {
    rdiv(a.x * b.x, SCALE as int) + rdiv(a.y * b.y, SCALE as int) + rdiv(a.z * b.z, SCALE as int)
        + rdiv(a.w * b.w, SCALE as int)
}

/// A quadruple reflected about the normal `n`.
pub open spec fn reflect4(v: T4, n: T4) -> T4 {
    let d = dot4(v, n);
    T4 {
        x: reflect_c(v.x, n.x, d),
        y: reflect_c(v.y, n.y, d),
        z: reflect_c(v.z, n.z, d),
        w: reflect_c(v.w, n.w, d),
    }
}

/// Every component of a quadruple within `b` units of zero.
pub open spec fn t4_bounded(a: T4, b: int) -> bool {
    &&& abs_i(a.x) <= b
    &&& abs_i(a.y) <= b
    &&& abs_i(a.z) <= b
    &&& abs_i(a.w) <= b
}

/// The cross product of quadruples; the result is a vector.
pub open spec fn cross4(a: T4, b: T4) -> T4 {
    T4 {
        x: rdiv(a.y * b.z, SCALE as int) - rdiv(a.z * b.y, SCALE as int),
        y: rdiv(a.z * b.x, SCALE as int) - rdiv(a.x * b.z, SCALE as int),
        z: rdiv(a.x * b.y, SCALE as int) - rdiv(a.y * b.x, SCALE as int),
        w: 0,
    }
}

/// One component of the reflection of `v` about the normal `n`.
pub open spec fn reflect_c(v: int, n: int, d: int) -> int {
    v - rdiv(n * rdiv(2 * SCALE as int * d, SCALE as int), SCALE as int)
}

/// `v` reflected about the normal `n`: `v - n * 2 * dot(v, n)`.
pub fn reflect(v: Tuple, n: Tuple) -> (r: Tuple)
    requires
        t_bounded(v, 1_000_000_000),
        t_bounded(n, 2_000_000),
    ensures
        r.0 as int == reflect_c(v.0 as int, n.0 as int, fp_dot(v, n)),
        r.1 as int == reflect_c(v.1 as int, n.1 as int, fp_dot(v, n)),
        r.2 as int == reflect_c(v.2 as int, n.2 as int, fp_dot(v, n)),
        r.3 as int == reflect_c(v.3 as int, n.3 as int, fp_dot(v, n)),
        t_bounded(r, 33_000_000_000),
{
    proof {
        lemma_dot_fits(v, n, 1_000_000_000);
        lemma_dot_abs(v, n, 1_000_000_000, 2_000_000, 2_000_000_000);
    }
    let d = v.dot(n);
    let td = fp_mul(2 * SCALE, d);
    proof {
        lemma_rdiv_abs_le(2 * SCALE as int * d as int, SCALE as int, 16_000_000_000);
        lemma_abs_mul(n.0 as int, td as int, 2_000_000, 16_000_000_000);
        lemma_abs_mul(n.1 as int, td as int, 2_000_000, 16_000_000_000);
        lemma_abs_mul(n.2 as int, td as int, 2_000_000, 16_000_000_000);
        lemma_abs_mul(n.3 as int, td as int, 2_000_000, 16_000_000_000);
        lemma_rdiv_abs_le(n.0 as int * td as int, SCALE as int, 32_000_000_000);
        lemma_rdiv_abs_le(n.1 as int * td as int, SCALE as int, 32_000_000_000);
        lemma_rdiv_abs_le(n.2 as int * td as int, SCALE as int, 32_000_000_000);
        lemma_rdiv_abs_le(n.3 as int * td as int, SCALE as int, 32_000_000_000);
    }
    v.minus(n.scale(td))
}

/// A dividend no larger in square than `q`, over the rounded-down square root
/// of `q`, fits within one scale unit above 1.0.
proof fn lemma_norm_div_fits(c: int, q: int, m: int)
    requires
        c * c <= q,
        is_sqrt_of(q, m),
        m >= 1,
    ensures
        abs_i(rdiv(c * SCALE as int, m)) <= SCALE as int,
{
    assert(abs_i(c) <= m) by (nonlinear_arith)
        requires
            c * c <= q,
            0 <= m,
            q < (m + 1) * (m + 1),
    ;
    assert(abs_i(c * SCALE as int) <= SCALE as int * abs_i(m)) by (nonlinear_arith)
        requires
            abs_i(c) <= m,
            m >= 1,
    ;
    lemma_rdiv_abs_le(c * SCALE as int, m, SCALE as int);
}

/// Every product of components bounded by `b` fits the fixed-point product.
proof fn lemma_dot_fits(a: Tuple, o: Tuple, b: int)
    requires
        t_bounded(a, b),
        t_bounded(o, b),
        0 <= b <= 1_000_000_000_000,
    ensures
        abs_i(a.0 as int * o.0 as int) <= 0x7fff_ffff_ffff_fffe * 1_000_000,
        abs_i(a.1 as int * o.1 as int) <= 0x7fff_ffff_ffff_fffe * 1_000_000,
        abs_i(a.2 as int * o.2 as int) <= 0x7fff_ffff_ffff_fffe * 1_000_000,
        abs_i(a.3 as int * o.3 as int) <= 0x7fff_ffff_ffff_fffe * 1_000_000,
        abs_i(rdiv(a.0 as int * o.0 as int, SCALE as int)) <= 1_000_000_000_000_000_000,
        abs_i(rdiv(a.1 as int * o.1 as int, SCALE as int)) <= 1_000_000_000_000_000_000,
        abs_i(rdiv(a.2 as int * o.2 as int, SCALE as int)) <= 1_000_000_000_000_000_000,
        abs_i(rdiv(a.3 as int * o.3 as int, SCALE as int)) <= 1_000_000_000_000_000_000,
{
    lemma_abs_mul(a.0 as int, o.0 as int, b, b);
    lemma_abs_mul(a.1 as int, o.1 as int, b, b);
    lemma_abs_mul(a.2 as int, o.2 as int, b, b);
    lemma_abs_mul(a.3 as int, o.3 as int, b, b);
    assert(b * b <= 1_000_000_000_000_000_000_000_000) by (nonlinear_arith)
        requires
            0 <= b <= 1_000_000_000_000,
    ;
    lemma_rdiv_abs_le(a.0 as int * o.0 as int, SCALE as int, 1_000_000_000_000_000_000);
    lemma_rdiv_abs_le(a.1 as int * o.1 as int, SCALE as int, 1_000_000_000_000_000_000);
    lemma_rdiv_abs_le(a.2 as int * o.2 as int, SCALE as int, 1_000_000_000_000_000_000);
    lemma_rdiv_abs_le(a.3 as int * o.3 as int, SCALE as int, 1_000_000_000_000_000_000);
}

/// The components of a cross product of bounded tuples are bounded.
pub proof fn lemma_cross_bounds(a: Tuple, o: Tuple, ba: int, bo: int, k: int)
    requires
        t_bounded(a, ba),
        t_bounded(o, bo),
        0 <= ba,
        0 <= bo,
        0 <= k,
        ba * bo <= k * 1_000_000,
    ensures
        abs_i(rdiv(a.1 as int * o.2 as int, SCALE as int) - rdiv(
            a.2 as int * o.1 as int,
            SCALE as int,
        )) <= 2 * k,
        abs_i(rdiv(a.2 as int * o.0 as int, SCALE as int) - rdiv(
            a.0 as int * o.2 as int,
            SCALE as int,
        )) <= 2 * k,
        abs_i(rdiv(a.0 as int * o.1 as int, SCALE as int) - rdiv(
            a.1 as int * o.0 as int,
            SCALE as int,
        )) <= 2 * k,
{
    crate::fixed::lemma_rdiv_prod_bound(a.1 as int, o.2 as int, ba, bo, k);
    crate::fixed::lemma_rdiv_prod_bound(a.2 as int, o.1 as int, ba, bo, k);
    crate::fixed::lemma_rdiv_prod_bound(a.2 as int, o.0 as int, ba, bo, k);
    crate::fixed::lemma_rdiv_prod_bound(a.0 as int, o.2 as int, ba, bo, k);
    crate::fixed::lemma_rdiv_prod_bound(a.0 as int, o.1 as int, ba, bo, k);
    crate::fixed::lemma_rdiv_prod_bound(a.1 as int, o.0 as int, ba, bo, k);
}

/// A single product of factors bounded by `b` fits the fixed-point product.
proof fn lemma_pair_fits(x: int, y: int, b: int)
    requires
        abs_i(x) <= b,
        abs_i(y) <= b,
        0 <= b <= 1_000_000_000_000,
    ensures
        abs_i(x * y) <= 0x7fff_ffff_ffff_fffe * 1_000_000,
        abs_i(rdiv(x * y, SCALE as int)) <= 1_000_000_000_000_000_000,
{
    lemma_abs_mul(x, y, b, b);
    assert(b * b <= 1_000_000_000_000_000_000_000_000) by (nonlinear_arith)
        requires
            0 <= b <= 1_000_000_000_000,
    ;
    lemma_rdiv_abs_le(x * y, SCALE as int, 1_000_000_000_000_000_000);
}

/// Every cross-product term of tuples bounded by `b` fits.
proof fn lemma_cross_fits(a: Tuple, o: Tuple, b: int)
    requires
        t_bounded(a, b),
        t_bounded(o, b),
        0 <= b <= 1_000_000_000_000,
    ensures
        abs_i(a.1 as int * o.2 as int) <= 0x7fff_ffff_ffff_fffe * 1_000_000,
        abs_i(a.2 as int * o.1 as int) <= 0x7fff_ffff_ffff_fffe * 1_000_000,
        abs_i(a.2 as int * o.0 as int) <= 0x7fff_ffff_ffff_fffe * 1_000_000,
        abs_i(a.0 as int * o.2 as int) <= 0x7fff_ffff_ffff_fffe * 1_000_000,
        abs_i(a.0 as int * o.1 as int) <= 0x7fff_ffff_ffff_fffe * 1_000_000,
        abs_i(a.1 as int * o.0 as int) <= 0x7fff_ffff_ffff_fffe * 1_000_000,
        abs_i(rdiv(a.1 as int * o.2 as int, SCALE as int)) <= 1_000_000_000_000_000_000,
        abs_i(rdiv(a.2 as int * o.1 as int, SCALE as int)) <= 1_000_000_000_000_000_000,
        abs_i(rdiv(a.2 as int * o.0 as int, SCALE as int)) <= 1_000_000_000_000_000_000,
        abs_i(rdiv(a.0 as int * o.2 as int, SCALE as int)) <= 1_000_000_000_000_000_000,
        abs_i(rdiv(a.0 as int * o.1 as int, SCALE as int)) <= 1_000_000_000_000_000_000,
        abs_i(rdiv(a.1 as int * o.0 as int, SCALE as int)) <= 1_000_000_000_000_000_000,
{
    lemma_pair_fits(a.1 as int, o.2 as int, b);
    lemma_pair_fits(a.2 as int, o.1 as int, b);
    lemma_pair_fits(a.2 as int, o.0 as int, b);
    lemma_pair_fits(a.0 as int, o.2 as int, b);
    lemma_pair_fits(a.0 as int, o.1 as int, b);
    lemma_pair_fits(a.1 as int, o.0 as int, b);
}

/// A dot product of tuples bounded by `ba` and `bo` is bounded by four times
/// the rescaled product bound `k`.
pub proof fn lemma_dot_abs(a: Tuple, o: Tuple, ba: int, bo: int, k: int)
    requires
        t_bounded(a, ba),
        t_bounded(o, bo),
        0 <= ba,
        0 <= bo,
        0 <= k,
        ba * bo <= k * 1_000_000,
    ensures
        abs_i(fp_dot(a, o)) <= 4 * k,
{
    lemma_abs_mul(a.0 as int, o.0 as int, ba, bo);
    lemma_abs_mul(a.1 as int, o.1 as int, ba, bo);
    lemma_abs_mul(a.2 as int, o.2 as int, ba, bo);
    lemma_abs_mul(a.3 as int, o.3 as int, ba, bo);
    lemma_rdiv_abs_le(a.0 as int * o.0 as int, SCALE as int, k);
    lemma_rdiv_abs_le(a.1 as int * o.1 as int, SCALE as int, k);
    lemma_rdiv_abs_le(a.2 as int * o.2 as int, SCALE as int, k);
    lemma_rdiv_abs_le(a.3 as int * o.3 as int, SCALE as int, k);
}

/// Normalizing preserves length: the magnitude of a normalized vector is
/// 1.0 to within the equality tolerance. The vector itself must not be
/// vanishingly short: below about a seventh of a unit, the division's
/// rounding can no longer be absorbed by the tolerance.
pub proof fn lemma_normalize_magnitude(x: int, y: int, z: int)
    requires
        x * x + y * y + z * z >= 142_858 * 142_858,
    ensures
        ({
            let m = isqrt_spec(x * x + y * y + z * z);
            let q2 = norm_c(x, m) * norm_c(x, m) + norm_c(y, m) * norm_c(y, m) + norm_c(z, m)
                * norm_c(z, m);
            abs_i(isqrt_spec(q2) - SCALE as int) < EPS as int
        }),
{
    let s = SCALE as int;
    let q = x * x + y * y + z * z;
    crate::fixed::lemma_isqrt_exists(q);
    let m = isqrt_spec(q);
    assert(m >= 142_858) by (nonlinear_arith)
        requires
            q >= 142_858 * 142_858,
            0 <= m,
            q < (m + 1) * (m + 1),
    ;
    let nx = norm_c(x, m);
    let ny = norm_c(y, m);
    let nz = norm_c(z, m);
    crate::fixed::lemma_rdiv_rounding(x * s, m);
    crate::fixed::lemma_rdiv_rounding(y * s, m);
    crate::fixed::lemma_rdiv_rounding(z * s, m);
    let ex = nx * m - x * s;
    let ey = ny * m - y * s;
    let ez = nz * m - z * s;
    let q2 = nx * nx + ny * ny + nz * nz;
    assert(x * x <= q && y * y <= q && z * z <= q) by (nonlinear_arith)
        requires
            q == x * x + y * y + z * z,
    ;
    assert(abs_i(x) <= m && abs_i(y) <= m && abs_i(z) <= m) by (nonlinear_arith)
        requires
            x * x <= q,
            y * y <= q,
            z * z <= q,
            0 <= m,
            q < (m + 1) * (m + 1),
    ;
    lemma_norm_sq_expand(x, nx, ex, m, s);
    lemma_norm_sq_expand(y, ny, ey, m, s);
    lemma_norm_sq_expand(z, nz, ez, m, s);
    assert(q2 * (m * m) == nx * nx * (m * m) + ny * ny * (m * m) + nz * nz * (m * m))
        by (nonlinear_arith)
        requires
            q2 == nx * nx + ny * ny + nz * nz,
    ;
    assert((x * s) * (x * s) == s * s * (x * x) && (y * s) * (y * s) == s * s * (y * y) && (z * s)
        * (z * s) == s * s * (z * z)) by (nonlinear_arith);
    assert(s * s * q == s * s * (x * x) + s * s * (y * y) + s * s * (z * z)) by (nonlinear_arith)
        requires
            q == x * x + y * y + z * z,
    ;
    assert(q2 * (m * m) <= s * s * q + 3 * (s * (m * m)) + 3 * (m * m));
    assert(q2 * (m * m) >= s * s * q - 3 * (s * (m * m)));
    assert(q2 >= s * s - 3 * s) by (nonlinear_arith)
        requires
            q2 * (m * m) >= s * s * q - 3 * (s * (m * m)),
            q >= m * m,
            m >= 1,
            s == 1_000_000,
    ;
    assert(q2 <= s * s + 17 * s + 3) by (nonlinear_arith)
        requires
            q2 * (m * m) <= s * s * q + 3 * (s * (m * m)) + 3 * (m * m),
            q < (m + 1) * (m + 1),
            m >= 142_858,
            s == 1_000_000,
    ;
    crate::fixed::lemma_isqrt_exists(q2);
    let m2 = isqrt_spec(q2);
    assert(s - 2 <= m2 <= s + 8) by (nonlinear_arith)
        requires
            0 <= m2,
            m2 * m2 <= q2,
            q2 < (m2 + 1) * (m2 + 1),
            s * s - 3 * s <= q2 <= s * s + 17 * s + 3,
            s == 1_000_000,
    ;
}

/// One coordinate's share of the squared magnitude of a normalized vector:
/// the exact square, and its distance from the rescaled true square.
proof fn lemma_norm_sq_expand(x: int, nx: int, ex: int, m: int, s: int)
    requires
        ex == nx * m - x * s,
        2 * abs_i(ex) <= m,
        abs_i(x) <= m,
        m >= 1,
        s == 1_000_000,
    ensures
        nx * nx * (m * m) <= (x * s) * (x * s) + s * (m * m) + m * m,
        nx * nx * (m * m) >= (x * s) * (x * s) - s * (m * m),
{
    assert(nx * nx * (m * m) == (x * s) * (x * s) + 2 * (x * s) * ex + ex * ex)
        by (nonlinear_arith)
        requires
            ex == nx * m - x * s,
    ;
    assert(2 * (x * s) * ex <= s * (m * m) && 2 * (x * s) * ex >= -(s * (m * m)) && 0 <= ex * ex
        <= m * m) by (nonlinear_arith)
        requires
            abs_i(x) <= m,
            2 * abs_i(ex) <= m,
            m >= 1,
            s == 1_000_000,
    ;
}

/// The absolute value of an `i64`, as a `u128`.
fn abs_to_u128(x: i64) -> (r: u128)
    ensures
        r as int == abs_i(x as int),
{
    if x < 0 {
        (-(x as i128)) as u128
    } else {
        x as u128
    }
}

impl PartialEq for Tuple {
    /// Component-wise comparison with tolerance `EPS`.
    fn eq(&self, other: &Tuple) -> (r: bool) {
        let e = EPS as i128;
        ((self.0 as i128) - (other.0 as i128) < e && (other.0 as i128) - (self.0 as i128) < e) && (
        (self.1 as i128) - (other.1 as i128) < e && (other.1 as i128) - (self.1 as i128) < e) && ((
        self.2 as i128) - (other.2 as i128) < e && (other.2 as i128) - (self.2 as i128) < e) && ((
        self.3 as i128) - (other.3 as i128) < e && (other.3 as i128) - (self.3 as i128) < e)
    }
}

impl vstd::std_specs::cmp::PartialEqSpecImpl for Tuple {
    open spec fn obeys_eq_spec() -> bool {
        true
    }

    open spec fn eq_spec(&self, other: &Tuple) -> bool {
        tuple_approx(*self, *other)
    }
}

} // verus!
