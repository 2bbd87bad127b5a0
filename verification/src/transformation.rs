//! Builders of the fixed 4x4 transform matrices: translation, scaling,
//! rotation about each axis, shear, and the camera view transform.
//!
//! Chained transforms compose by matrix product, and `T = C * B * A` applied
//! to a point runs A first, then B, then C.

use vstd::prelude::*;

use crate::fixed::{lemma_rdiv_units, rdiv, SCALE};
use crate::matrix::{
    entries_bounded, fp_cof, fp_det, inv_entry, lemma_det3, lemma_det4, lemma_mm_entry4, m_wf,
    mm_entry, submatrix_spec, tp_fits, Matrix,
};
use crate::sphere::{tp4, tp_row4};
use crate::tuple::{cross4, lemma_cross_bounds, norm4, sq_mag, sub4, t4, t_bounded, Tuple, T4};

verus! {

/// The translation matrix by `(x, y, z)`.
pub open spec fn translation_spec(x: int, y: int, z: int) -> Seq<int> {
    seq![
        SCALE as int, 0, 0, x,
        0, SCALE as int, 0, y,
        0, 0, SCALE as int, z,
        0, 0, 0, SCALE as int,
    ]
}

/// The scaling matrix by `(x, y, z)`.
pub open spec fn scaling_spec(x: int, y: int, z: int) -> Seq<int> {
    seq![
        x, 0, 0, 0,
        0, y, 0, 0,
        0, 0, z, 0,
        0, 0, 0, SCALE as int,
    ]
}

/// The x-axis rotation matrix with the given cosine and sine.
pub open spec fn rotation_x_spec(cos_r: int, sin_r: int) -> Seq<int> {
    seq![
        SCALE as int, 0, 0, 0,
        0, cos_r, -sin_r, 0,
        0, sin_r, cos_r, 0,
        0, 0, 0, SCALE as int,
    ]
}

/// The y-axis rotation matrix with the given cosine and sine.
pub open spec fn rotation_y_spec(cos_r: int, sin_r: int) -> Seq<int> {
    seq![
        cos_r, 0, sin_r, 0,
        0, SCALE as int, 0, 0,
        -sin_r, 0, cos_r, 0,
        0, 0, 0, SCALE as int,
    ]
}

/// The z-axis rotation matrix with the given cosine and sine.
pub open spec fn rotation_z_spec(cos_r: int, sin_r: int) -> Seq<int> {
    seq![
        cos_r, -sin_r, 0, 0,
        sin_r, cos_r, 0, 0,
        0, 0, SCALE as int, 0,
        0, 0, 0, SCALE as int,
    ]
}

/// The shear matrix moving each coordinate in proportion to the other two.
pub open spec fn shearing_spec(xy: int, xz: int, yx: int, yz: int, zx: int, zy: int) -> Seq<int> {
    seq![
        SCALE as int, xy, xz, 0,
        yx, SCALE as int, yz, 0,
        zx, zy, SCALE as int, 0,
        0, 0, 0, SCALE as int,
    ]
}

/// The camera orientation: rows of left, true up and backward.
pub open spec fn orientation_spec(from: Tuple, to: Tuple, up: Tuple) -> Seq<int> {
    let f = norm4(sub4(t4(to), t4(from)));
    let u = norm4(t4(up));
    let l = cross4(f, u);
    let t = cross4(l, f);
    seq![
        l.x, l.y, l.z, 0,
        t.x, t.y, t.z, 0,
        -f.x, -f.y, -f.z, 0,
        0, 0, 0, SCALE as int,
    ]
}

/// Moves a point by `(x, y, z)`; vectors, with weight zero, are unaffected.
pub fn translation(x: i64, y: i64, z: i64) -> (r: Matrix)
    ensures
        r.dim == 4,
        m_wf(&r),
        r@ == translation_spec(x as int, y as int, z as int),
{
    let s = SCALE;
    let v: Vec<i64> = vec![s, 0, 0, x, 0, s, 0, y, 0, 0, s, z, 0, 0, 0, s];
    let m = Matrix { dim: 4, elems: v };
    proof {
        assert(m@ =~= translation_spec(x as int, y as int, z as int));
    }
    m
}

/// Scales each coordinate by the matching factor.
pub fn scaling(x: i64, y: i64, z: i64) -> (r: Matrix)
    ensures
        r.dim == 4,
        m_wf(&r),
        r@ == scaling_spec(x as int, y as int, z as int),
{
    let s = SCALE;
    let v: Vec<i64> = vec![x, 0, 0, 0, 0, y, 0, 0, 0, 0, z, 0, 0, 0, 0, s];
    let m = Matrix { dim: 4, elems: v };
    proof {
        assert(m@ =~= scaling_spec(x as int, y as int, z as int));
    }
    m
}

/// Rotation about the x axis, from the angle's cosine and sine.
#[verifier::rlimit(50)]
pub fn rotation_x(cos_r: i64, sin_r: i64) -> (r: Matrix)
    requires
        sin_r > i64::MIN,
    ensures
        r.dim == 4,
        m_wf(&r),
        r@ == rotation_x_spec(cos_r as int, sin_r as int),
{
    let s = SCALE;
    let ns = -sin_r;
    let v: Vec<i64> = vec![s, 0, 0, 0, 0, cos_r, ns, 0, 0, sin_r, cos_r, 0, 0, 0, 0, s];
    let m = Matrix { dim: 4, elems: v };
    proof {
        assert(m@.len() == 16);
        assert(m.dim == 4);
        assert(m.dim * m.dim == 16);
        assert(m_wf(&m));
        assert(m@ =~= rotation_x_spec(cos_r as int, sin_r as int));
    }
    m
}

/// Rotation about the y axis, from the angle's cosine and sine.
#[verifier::rlimit(50)]
pub fn rotation_y(cos_r: i64, sin_r: i64) -> (r: Matrix)
    requires
        sin_r > i64::MIN,
    ensures
        r.dim == 4,
        m_wf(&r),
        r@ == rotation_y_spec(cos_r as int, sin_r as int),
{
    let s = SCALE;
    let ns = -sin_r;
    let v: Vec<i64> = vec![cos_r, 0, sin_r, 0, 0, s, 0, 0, ns, 0, cos_r, 0, 0, 0, 0, s];
    let m = Matrix { dim: 4, elems: v };
    proof {
        assert(m@.len() == 16);
        assert(m.dim == 4);
        assert(m.dim * m.dim == 16);
        assert(m_wf(&m));
        assert(m@ =~= rotation_y_spec(cos_r as int, sin_r as int));
    }
    m
}

/// Rotation about the z axis, from the angle's cosine and sine.
#[verifier::rlimit(50)]
pub fn rotation_z(cos_r: i64, sin_r: i64) -> (r: Matrix)
    requires
        sin_r > i64::MIN,
    ensures
        r.dim == 4,
        m_wf(&r),
        r@ == rotation_z_spec(cos_r as int, sin_r as int),
{
    let s = SCALE;
    let ns = -sin_r;
    let v: Vec<i64> = vec![cos_r, ns, 0, 0, sin_r, cos_r, 0, 0, 0, 0, s, 0, 0, 0, 0, s];
    let m = Matrix { dim: 4, elems: v };
    proof {
        assert(m@.len() == 16);
        assert(m.dim == 4);
        assert(m.dim * m.dim == 16);
        assert(m_wf(&m));
        assert(m@ =~= rotation_z_spec(cos_r as int, sin_r as int));
    }
    m
}

/// Shear: each coordinate moves in proportion to the other two.
pub fn shearing(xy: i64, xz: i64, yx: i64, yz: i64, zx: i64, zy: i64) -> (r: Matrix)
    ensures
        r.dim == 4,
        m_wf(&r),
        r@ == shearing_spec(xy as int, xz as int, yx as int, yz as int, zx as int, zy as int),
{
    let s = SCALE;
    let v: Vec<i64> = vec![s, xy, xz, 0, yx, s, yz, 0, zx, zy, s, 0, 0, 0, 0, s];
    let m = Matrix { dim: 4, elems: v };
    proof {
        assert(m@ =~= shearing_spec(
            xy as int,
            xz as int,
            yx as int,
            yz as int,
            zx as int,
            zy as int,
        ));
    }
    m
}

/// The camera transform looking from `from` toward `to` with the given up
/// hint: the orientation composed with the translation by `-from`.
pub fn view_transform(from: Tuple, to: Tuple, up: Tuple) -> (r: Matrix)
    requires
        t_bounded(from, 1_000_000_000_000),
        t_bounded(to, 1_000_000_000_000),
        t_bounded(up, 1_000_000_000_000),
        to.3 == from.3,
        up.3 == 0,
        (to.0 - from.0) * (to.0 - from.0) + (to.1 - from.1) * (to.1 - from.1) + (to.2 - from.2) * (
        to.2 - from.2) >= 1,
        sq_mag(up) >= 1,
    ensures
        r.dim == 4,
        m_wf(&r),
        forall|i: int, j: int|
            0 <= i < 4 && 0 <= j < 4 ==> #[trigger] r@[i * 4 + j] == mm_entry(
                orientation_spec(from, to, up),
                translation_spec(-from.0 as int, -from.1 as int, -from.2 as int),
                4,
                i,
                j,
            ),
{
    let diff = to.minus(from);
    let forward = diff.normalize();
    let upn = up.normalize();
    let left = forward.cross(upn);
    proof {
        lemma_cross_bounds(forward, upn, 1_000_000, 1_000_000, 1_000_000);
    }
    let true_up = left.cross(forward);
    proof {
        lemma_cross_bounds(left, forward, 2_000_000, 1_000_000, 2_000_000);
    }
    let s = SCALE;
    let nfx = -forward.0;
    let nfy = -forward.1;
    let nfz = -forward.2;
    let v: Vec<i64> = vec![
        left.0,
        left.1,
        left.2,
        0,
        true_up.0,
        true_up.1,
        true_up.2,
        0,
        nfx,
        nfy,
        nfz,
        0,
        0,
        0,
        0,
        s,
    ];
    let orientation = Matrix { dim: 4, elems: v };
    proof {
        assert(orientation@ =~= orientation_spec(from, to, up));
        assert(entries_bounded(orientation@, 1_000_000_000_000));
        assert(entries_bounded(
            translation_spec(-from.0 as int, -from.1 as int, -from.2 as int),
            1_000_000_000_000,
        ));
    }
    let shift = translation(-from.0, -from.1, -from.2);
    orientation.matmul(&shift)
}

/// Translating by `a` and then by `b` is translating by their sum: the
/// product of the two translation matrices is the translation matrix of the
/// summed offsets, entry for entry.
pub proof fn lemma_translation_compose(ax: int, ay: int, az: int, bx: int, by: int, bz: int)
    ensures
        forall|i: int, j: int|
            0 <= i < 4 && 0 <= j < 4 ==> #[trigger] mm_entry(
                translation_spec(ax, ay, az),
                translation_spec(bx, by, bz),
                4,
                i,
                j,
            ) == translation_spec(ax + bx, ay + by, az + bz)[i * 4 + j],
{
    lemma_rdiv_units();
    let a = translation_spec(ax, ay, az);
    let b = translation_spec(bx, by, bz);
    let c = translation_spec(ax + bx, ay + by, az + bz);
    assert forall|v: int| #[trigger] rdiv(0 * v, SCALE as int) == 0 by {
        assert(0 * v == 0);
        assert(rdiv(0, SCALE as int) == 0);
    }
    assert forall|v: int| #[trigger] rdiv(v * 0, SCALE as int) == 0 by {
        assert(v * 0 == 0);
        assert(rdiv(0, SCALE as int) == 0);
    }
    assert forall|i: int, j: int| 0 <= i < 4 && 0 <= j < 4 implies #[trigger] mm_entry(
        a,
        b,
        4,
        i,
        j,
    ) == c[i * 4 + j] by {
        lemma_mm_entry4(a, b, 0, 0);
        lemma_mm_entry4(a, b, 0, 1);
        lemma_mm_entry4(a, b, 0, 2);
        lemma_mm_entry4(a, b, 0, 3);
        lemma_mm_entry4(a, b, 1, 0);
        lemma_mm_entry4(a, b, 1, 1);
        lemma_mm_entry4(a, b, 1, 2);
        lemma_mm_entry4(a, b, 1, 3);
        lemma_mm_entry4(a, b, 2, 0);
        lemma_mm_entry4(a, b, 2, 1);
        lemma_mm_entry4(a, b, 2, 2);
        lemma_mm_entry4(a, b, 2, 3);
        lemma_mm_entry4(a, b, 3, 0);
        lemma_mm_entry4(a, b, 3, 1);
        lemma_mm_entry4(a, b, 3, 2);
        lemma_mm_entry4(a, b, 3, 3);
    }
}

/// A translation moves a point by its offsets and leaves the weight alone.
pub proof fn lemma_translation_point(x: int, y: int, z: int, p: T4)
    requires
        p.w == SCALE as int,
    ensures
        tp4(translation_spec(x, y, z), p) == (T4 {
            x: p.x + x,
            y: p.y + y,
            z: p.z + z,
            w: SCALE as int,
        }),
{
    lemma_rdiv_units();
    let m = translation_spec(x, y, z);
    assert(rdiv(0 * p.y, SCALE as int) == 0);
    assert(rdiv(0 * p.z, SCALE as int) == 0);
    assert(rdiv(0 * p.x, SCALE as int) == 0);
    assert(tp_row4(m, p, 0) == p.x + x);
    assert(tp_row4(m, p, 1) == p.y + y);
    assert(tp_row4(m, p, 2) == p.z + z);
    assert(tp_row4(m, p, 3) == SCALE as int);
}

/// The round trip: translating a point and then translating by the opposite
/// offsets gives the point back, exactly.
pub proof fn lemma_translation_roundtrip(x: int, y: int, z: int, p: T4)
    requires
        p.w == SCALE as int,
    ensures
        tp4(translation_spec(-x, -y, -z), tp4(translation_spec(x, y, z), p)) == p,
{
    lemma_translation_point(x, y, z, p);
    lemma_translation_point(-x, -y, -z, tp4(translation_spec(x, y, z), p));
}

/// Zero products divide to zero under the scale.
proof fn lemma_rdiv_zero_prods()
    ensures
        forall|v: int| #[trigger] rdiv(0 * v, SCALE as int) == 0,
        forall|v: int| #[trigger] rdiv(v * 0, SCALE as int) == 0,
{
    assert forall|v: int| #[trigger] rdiv(0 * v, SCALE as int) == 0 by {
        assert(0 * v == 0);
        crate::fixed::lemma_rdiv_abs_le(0, SCALE as int, 0);
    }
    assert forall|v: int| #[trigger] rdiv(v * 0, SCALE as int) == 0 by {
        assert(v * 0 == 0);
        crate::fixed::lemma_rdiv_abs_le(0, SCALE as int, 0);
    }
}

/// Row 0 of the translation matrix's cofactors, evaluated.
proof fn lemma_translation_cofs_0(x: int, y: int, z: int)
    ensures
        fp_cof(translation_spec(x, y, z), 4, 0, 0) == SCALE as int,
        fp_cof(translation_spec(x, y, z), 4, 0, 1) == 0,
        fp_cof(translation_spec(x, y, z), 4, 0, 2) == 0,
        fp_cof(translation_spec(x, y, z), 4, 0, 3) == 0,
{
    lemma_rdiv_units();
    lemma_rdiv_zero_prods();
    let t = translation_spec(x, y, z);
    let s0 = submatrix_spec(t, 4, 0, 0);
    assert(s0[0] == t[5] && s0[1] == t[6] && s0[2] == t[7] && s0[3] == t[9] && s0[4] == t[10] && s0[5] == t[11] && s0[6] == t[13] && s0[7] == t[14] && s0[8] == t[15]);
    lemma_det3(s0);
    let s1 = submatrix_spec(t, 4, 0, 1);
    assert(s1[0] == t[4] && s1[1] == t[6] && s1[2] == t[7] && s1[3] == t[8] && s1[4] == t[10] && s1[5] == t[11] && s1[6] == t[12] && s1[7] == t[14] && s1[8] == t[15]);
    lemma_det3(s1);
    let s2 = submatrix_spec(t, 4, 0, 2);
    assert(s2[0] == t[4] && s2[1] == t[5] && s2[2] == t[7] && s2[3] == t[8] && s2[4] == t[9] && s2[5] == t[11] && s2[6] == t[12] && s2[7] == t[13] && s2[8] == t[15]);
    lemma_det3(s2);
    let s3 = submatrix_spec(t, 4, 0, 3);
    assert(s3[0] == t[4] && s3[1] == t[5] && s3[2] == t[6] && s3[3] == t[8] && s3[4] == t[9] && s3[5] == t[10] && s3[6] == t[12] && s3[7] == t[13] && s3[8] == t[14]);
    lemma_det3(s3);
}

/// Row 1 of the translation matrix's cofactors, evaluated.
proof fn lemma_translation_cofs_1(x: int, y: int, z: int)
    ensures
        fp_cof(translation_spec(x, y, z), 4, 1, 0) == 0,
        fp_cof(translation_spec(x, y, z), 4, 1, 1) == SCALE as int,
        fp_cof(translation_spec(x, y, z), 4, 1, 2) == 0,
        fp_cof(translation_spec(x, y, z), 4, 1, 3) == 0,
{
    lemma_rdiv_units();
    lemma_rdiv_zero_prods();
    let t = translation_spec(x, y, z);
    let s0 = submatrix_spec(t, 4, 1, 0);
    assert(s0[0] == t[1] && s0[1] == t[2] && s0[2] == t[3] && s0[3] == t[9] && s0[4] == t[10] && s0[5] == t[11] && s0[6] == t[13] && s0[7] == t[14] && s0[8] == t[15]);
    lemma_det3(s0);
    let s1 = submatrix_spec(t, 4, 1, 1);
    assert(s1[0] == t[0] && s1[1] == t[2] && s1[2] == t[3] && s1[3] == t[8] && s1[4] == t[10] && s1[5] == t[11] && s1[6] == t[12] && s1[7] == t[14] && s1[8] == t[15]);
    lemma_det3(s1);
    let s2 = submatrix_spec(t, 4, 1, 2);
    assert(s2[0] == t[0] && s2[1] == t[1] && s2[2] == t[3] && s2[3] == t[8] && s2[4] == t[9] && s2[5] == t[11] && s2[6] == t[12] && s2[7] == t[13] && s2[8] == t[15]);
    lemma_det3(s2);
    let s3 = submatrix_spec(t, 4, 1, 3);
    assert(s3[0] == t[0] && s3[1] == t[1] && s3[2] == t[2] && s3[3] == t[8] && s3[4] == t[9] && s3[5] == t[10] && s3[6] == t[12] && s3[7] == t[13] && s3[8] == t[14]);
    lemma_det3(s3);
}

/// Row 2 of the translation matrix's cofactors, evaluated.
proof fn lemma_translation_cofs_2(x: int, y: int, z: int)
    ensures
        fp_cof(translation_spec(x, y, z), 4, 2, 0) == 0,
        fp_cof(translation_spec(x, y, z), 4, 2, 1) == 0,
        fp_cof(translation_spec(x, y, z), 4, 2, 2) == SCALE as int,
        fp_cof(translation_spec(x, y, z), 4, 2, 3) == 0,
{
    lemma_rdiv_units();
    lemma_rdiv_zero_prods();
    let t = translation_spec(x, y, z);
    let s0 = submatrix_spec(t, 4, 2, 0);
    assert(s0[0] == t[1] && s0[1] == t[2] && s0[2] == t[3] && s0[3] == t[5] && s0[4] == t[6] && s0[5] == t[7] && s0[6] == t[13] && s0[7] == t[14] && s0[8] == t[15]);
    lemma_det3(s0);
    let s1 = submatrix_spec(t, 4, 2, 1);
    assert(s1[0] == t[0] && s1[1] == t[2] && s1[2] == t[3] && s1[3] == t[4] && s1[4] == t[6] && s1[5] == t[7] && s1[6] == t[12] && s1[7] == t[14] && s1[8] == t[15]);
    lemma_det3(s1);
    let s2 = submatrix_spec(t, 4, 2, 2);
    assert(s2[0] == t[0] && s2[1] == t[1] && s2[2] == t[3] && s2[3] == t[4] && s2[4] == t[5] && s2[5] == t[7] && s2[6] == t[12] && s2[7] == t[13] && s2[8] == t[15]);
    lemma_det3(s2);
    let s3 = submatrix_spec(t, 4, 2, 3);
    assert(s3[0] == t[0] && s3[1] == t[1] && s3[2] == t[2] && s3[3] == t[4] && s3[4] == t[5] && s3[5] == t[6] && s3[6] == t[12] && s3[7] == t[13] && s3[8] == t[14]);
    lemma_det3(s3);
}

/// Row 3 of the translation matrix's cofactors, evaluated.
proof fn lemma_translation_cofs_3(x: int, y: int, z: int)
    ensures
        fp_cof(translation_spec(x, y, z), 4, 3, 0) == -x,
        fp_cof(translation_spec(x, y, z), 4, 3, 1) == -y,
        fp_cof(translation_spec(x, y, z), 4, 3, 2) == -z,
        fp_cof(translation_spec(x, y, z), 4, 3, 3) == SCALE as int,
{
    lemma_rdiv_units();
    lemma_rdiv_zero_prods();
    let t = translation_spec(x, y, z);
    let s0 = submatrix_spec(t, 4, 3, 0);
    assert(s0[0] == t[1] && s0[1] == t[2] && s0[2] == t[3] && s0[3] == t[5] && s0[4] == t[6] && s0[5] == t[7] && s0[6] == t[9] && s0[7] == t[10] && s0[8] == t[11]);
    lemma_det3(s0);
    let s1 = submatrix_spec(t, 4, 3, 1);
    assert(s1[0] == t[0] && s1[1] == t[2] && s1[2] == t[3] && s1[3] == t[4] && s1[4] == t[6] && s1[5] == t[7] && s1[6] == t[8] && s1[7] == t[10] && s1[8] == t[11]);
    lemma_det3(s1);
    let s2 = submatrix_spec(t, 4, 3, 2);
    assert(s2[0] == t[0] && s2[1] == t[1] && s2[2] == t[3] && s2[3] == t[4] && s2[4] == t[5] && s2[5] == t[7] && s2[6] == t[8] && s2[7] == t[9] && s2[8] == t[11]);
    lemma_det3(s2);
    let s3 = submatrix_spec(t, 4, 3, 3);
    assert(s3[0] == t[0] && s3[1] == t[1] && s3[2] == t[2] && s3[3] == t[4] && s3[4] == t[5] && s3[5] == t[6] && s3[6] == t[8] && s3[7] == t[9] && s3[8] == t[10]);
    lemma_det3(s3);
}

/// Inverting a translation negates its offsets: the determinant is one, and
/// the inverse, by the adjugate method, is the opposite translation entry for
/// entry.
pub proof fn lemma_translation_inverse(x: int, y: int, z: int)
    ensures
        fp_det(translation_spec(x, y, z), 4) == SCALE as int,
        forall|i: int, j: int|
            0 <= i < 4 && 0 <= j < 4 ==> #[trigger] inv_entry(
                translation_spec(x, y, z),
                4,
                i,
                j,
            ) == translation_spec(-x, -y, -z)[i * 4 + j],
{
    lemma_rdiv_units();
    lemma_rdiv_zero_prods();
    let t = translation_spec(x, y, z);
    lemma_translation_cofs_0(x, y, z);
    lemma_translation_cofs_1(x, y, z);
    lemma_translation_cofs_2(x, y, z);
    lemma_translation_cofs_3(x, y, z);
    lemma_det4(t);
    assert(fp_det(t, 4) == SCALE as int);
    assert forall|i: int, j: int| 0 <= i < 4 && 0 <= j < 4 implies #[trigger] inv_entry(
        t,
        4,
        i,
        j,
    ) == translation_spec(-x, -y, -z)[i * 4 + j] by {
        assert(rdiv(SCALE as int * SCALE as int, SCALE as int) == SCALE as int);
        assert(rdiv(-x * SCALE as int, SCALE as int) == -x);
        assert(rdiv(-y * SCALE as int, SCALE as int) == -y);
        assert(rdiv(-z * SCALE as int, SCALE as int) == -z);
        assert(rdiv(0 * SCALE as int, SCALE as int) == 0);
    }
}

/// A translation times its inverse is the identity, exactly.
pub proof fn lemma_translation_inverse_product(x: int, y: int, z: int)
    ensures
        forall|i: int, j: int|
            0 <= i < 4 && 0 <= j < 4 ==> #[trigger] mm_entry(
                translation_spec(x, y, z),
                translation_spec(-x, -y, -z),
                4,
                i,
                j,
            ) == crate::matrix::identity_spec()[i * 4 + j],
{
    lemma_translation_compose(x, y, z, -x, -y, -z);
    assert(translation_spec(0, 0, 0) =~= crate::matrix::identity_spec());
}

/// Inverting a translation twice gives the translation back.
pub proof fn lemma_translation_inverse_involution(x: int, y: int, z: int)
    ensures
        forall|i: int, j: int|
            0 <= i < 4 && 0 <= j < 4 ==> #[trigger] inv_entry(
                translation_spec(-x, -y, -z),
                4,
                i,
                j,
            ) == translation_spec(x, y, z)[i * 4 + j],
{
    lemma_translation_inverse(-x, -y, -z);
    assert(translation_spec(--x, --y, --z) =~= translation_spec(x, y, z));
}

} // verus!
