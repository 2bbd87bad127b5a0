//! Square matrices over fixed-point scalars, stored flat in row-major order.
//!
//! The algorithms are dimension-agnostic and are used at dimensions 2, 3
//! and 4: cofactor-expansion determinants along row 0, and inversion by the
//! adjugate (transposed cofactor matrix over the determinant).

use vstd::prelude::*;

use crate::fixed::{
    abs_i, fp_mul, lemma_abs_mul, lemma_rdiv_abs_le, rdiv, try_fp_div, SCALE,
};
use crate::tuple::{t_bounded, Tuple};

verus! {

/// A square matrix: `dim` rows of `dim` fixed-point entries, row-major.
#[derive(Debug)]
pub struct Matrix {
    pub dim: usize,
    pub elems: Vec<i64>,
}

impl View for Matrix {
    type V = Seq<int>;

    open spec fn view(&self) -> Seq<int> {
        self.elems@.map_values(|e: i64| e as int)
    }
}

/// The entries fill exactly `dim` by `dim` cells.
pub open spec fn m_wf(m: &Matrix) -> bool {
    m@.len() == m.dim * m.dim
}

/// Every entry within `b` units of zero.
pub open spec fn entries_bounded(m: Seq<int>, b: int) -> bool {
    forall|k: int| 0 <= k < m.len() ==> abs_i(#[trigger] m[k]) <= b
}

/// The 4x4 identity.
pub open spec fn identity_spec() -> Seq<int> {
    seq![
        SCALE as int, 0, 0, 0,
        0, SCALE as int, 0, 0,
        0, 0, SCALE as int, 0,
        0, 0, 0, SCALE as int,
    ]
}

/// `t` holds `m` with rows and columns swapped.
pub open spec fn is_transpose_of(t: Seq<int>, m: Seq<int>, dim: int) -> bool {
    &&& t.len() == dim * dim
    &&& m.len() == dim * dim
    &&& forall|r: int, c: int|
        0 <= r < dim && 0 <= c < dim ==> #[trigger] t[r * dim + c] == m[c * dim + r]
}

/// The matrix `m` with row `row` and column `col` removed.
pub open spec fn submatrix_spec(m: Seq<int>, dim: int, row: int, col: int) -> Seq<int> {
    Seq::new(
        ((dim - 1) * (dim - 1)) as nat,
        |k: int|
            {
                let r = k / (dim - 1);
                let c = k % (dim - 1);
                let rr = if r < row {
                    r
                } else {
                    r + 1
                };
                let cc = if c < col {
                    c
                } else {
                    c + 1
                };
                m[rr * dim + cc]
            },
    )
}

/// The fixed-point determinant: `ad - bc` at dimension 2, cofactor expansion
/// along row 0 above that.
pub open spec fn fp_det(m: Seq<int>, dim: int) -> int
    decreases dim, 2int, 0int,
{
    if dim <= 2 {
        rdiv(m[0] * m[3], SCALE as int) - rdiv(m[1] * m[2], SCALE as int)
    } else {
        fp_det_sum(m, dim, dim)
    }
}

/// The first `c` terms of the cofactor expansion along row 0.
pub open spec fn fp_det_sum(m: Seq<int>, dim: int, c: int) -> int
    decreases dim, 1int, c,
{
    if c <= 0 || dim <= 2 {
        0
    } else {
        fp_det_sum(m, dim, c - 1) + rdiv(m[c - 1] * fp_cof(m, dim, 0, c - 1), SCALE as int)
    }
}

/// The minor: the determinant of the submatrix.
pub open spec fn fp_minor(m: Seq<int>, dim: int, row: int, col: int) -> int
    decreases dim, 0int, 0int,
{
    if dim <= 2 {
        0
    } else {
        fp_det(submatrix_spec(m, dim, row, col), dim - 1)
    }
}

/// The cofactor: the minor under the checkerboard sign `(-1)^(row+col)`.
pub open spec fn fp_cof(m: Seq<int>, dim: int, row: int, col: int) -> int
    decreases dim, 0int, 1int,
{
    if (row + col) % 2 == 0 {
        fp_minor(m, dim, row, col)
    } else {
        -fp_minor(m, dim, row, col)
    }
}

/// One entry of the inverse: the transposed cofactor over the determinant.
pub open spec fn inv_entry(m: Seq<int>, dim: int, r: int, c: int) -> int {
    rdiv(fp_cof(m, dim, c, r) * SCALE as int, fp_det(m, dim))
}

/// The first `k` terms of the row-times-column product behind one entry of a
/// matrix product.
pub open spec fn mm_dot(a: Seq<int>, b: Seq<int>, dim: int, r: int, c: int, k: int) -> int
    decreases k,
{
    if k <= 0 {
        0
    } else {
        mm_dot(a, b, dim, r, c, k - 1) + rdiv(a[r * dim + (k - 1)] * b[(k - 1) * dim + c],
            SCALE as int,
        )
    }
}

/// One entry of the fixed-point matrix product.
pub open spec fn mm_entry(a: Seq<int>, b: Seq<int>, dim: int, r: int, c: int) -> int {
    mm_dot(a, b, dim, r, c, dim)
}

/// The component of `t` at position `c`.
pub open spec fn tcomp(t: Tuple, c: int) -> int {
    if c == 0 {
        t.0 as int
    } else if c == 1 {
        t.1 as int
    } else if c == 2 {
        t.2 as int
    } else {
        t.3 as int
    }
}

/// Row `r` of the matrix-times-tuple product.
pub open spec fn tp_c(m: Seq<int>, t: Tuple, r: int) -> int {
    rdiv(m[4 * r] * t.0 as int, SCALE as int) + rdiv(m[4 * r + 1] * t.1 as int, SCALE as int)
        + rdiv(m[4 * r + 2] * t.2 as int, SCALE as int) + rdiv(
        m[4 * r + 3] * t.3 as int,
        SCALE as int,
    )
}

/// Every product behind a matrix-times-tuple entry stays in range.
pub open spec fn tp_fits(m: Seq<int>, t: Tuple) -> bool {
    forall|r: int, c: int|
        0 <= r < 4 && 0 <= c < 4 ==> abs_i(#[trigger] (m[r * 4 + c] * tcomp(t, c))) <= 0x1fff_ffff_ffff_fffd
            * 1_000_000
}

/// Bounded entries and components keep the matrix-times-tuple product in
/// range.
pub proof fn lemma_tp_fits(m: Seq<int>, t: Tuple, eb: int, tb: int)
    requires
        entries_bounded(m, eb),
        m.len() == 16,
        t_bounded(t, tb),
        0 <= eb,
        0 <= tb,
        eb * tb <= 0x1fff_ffff_ffff_fffd * 1_000_000,
    ensures
        tp_fits(m, t),
{
    assert forall|r: int, c: int| 0 <= r < 4 && 0 <= c < 4 implies abs_i(
        #[trigger] (m[r * 4 + c] * tcomp(t, c)),
    ) <= 0x1fff_ffff_ffff_fffd * 1_000_000 by {
        assert(0 <= r * 4 + c < 16) by (nonlinear_arith)
            requires
                0 <= r < 4,
                0 <= c < 4,
        ;
        assert(abs_i(tcomp(t, c)) <= tb);
        lemma_abs_mul(m[r * 4 + c], tcomp(t, c), eb, tb);
        assert(abs_i(m[r * 4 + c] * tcomp(t, c)) <= eb * tb);
    }
}

impl Matrix {
    /// A matrix of the given dimension from its row-major entries.
    pub fn from_vector(d: usize, e: &[i64]) -> (r: Matrix)
        requires
            d * d == e@.len(),
            d <= 100,
        ensures
            r.dim == d,
            m_wf(&r),
            forall|k: int| 0 <= k < e@.len() ==> r@[k] == #[trigger] e@[k] as int,
            r@.len() == e@.len(),
    {
        let n = e.len();
        let mut v: Vec<i64> = Vec::new();
        let mut i: usize = 0;
        while i < n
            invariant
                i <= n,
                n == e@.len(),
                v@.len() == i,
                forall|k: int| 0 <= k < i ==> v@[k] == #[trigger] e@[k],
            decreases n - i,
        {
            v.push(e[i]);
            i += 1;
        }
        Matrix { dim: d, elems: v }
    }

    /// The fixed 4x4 identity matrix.
    pub fn identity() -> (r: Matrix)
        ensures
            r.dim == 4,
            m_wf(&r),
            r@ == identity_spec(),
    {
        let s = SCALE;
        let v: Vec<i64> = vec![s, 0, 0, 0, 0, s, 0, 0, 0, 0, s, 0, 0, 0, 0, s];
        let m = Matrix { dim: 4, elems: v };
        proof {
            assert(m@ =~= identity_spec());
        }
        m
    }

    /// The entry at row `r`, column `c`.
    pub fn at(&self, r: usize, c: usize) -> (v: i64)
        requires
            m_wf(self),
            r < self.dim,
            c < self.dim,
        ensures
            v as int == self@[r * self.dim + c],
    {
        let n = self.elems.len();
        proof {
            assert(r * self.dim + c < self.dim * self.dim && r * self.dim <= self.dim * self.dim)
                by (nonlinear_arith)
                requires
                    r < self.dim,
                    c < self.dim,
            ;
            assert(n == self@.len());
        }
        self.elems[r * self.dim + c]
    }

    /// This matrix applied to a tuple; only for dimension 4.
    pub fn tuple_prod(&self, t: Tuple) -> (r: Tuple)
        requires
            m_wf(self),
            self.dim == 4,
            tp_fits(self@, t),
        ensures
            r.0 as int == tp_c(self@, t, 0),
            r.1 as int == tp_c(self@, t, 1),
            r.2 as int == tp_c(self@, t, 2),
            r.3 as int == tp_c(self@, t, 3),
    {
        let x = self.row_dot(0, t);
        let y = self.row_dot(1, t);
        let z = self.row_dot(2, t);
        let w = self.row_dot(3, t);
        Tuple(x, y, z, w)
    }

    /// One row of the matrix-times-tuple product.
    fn row_dot(&self, r: usize, t: Tuple) -> (v: i64)
        requires
            m_wf(self),
            self.dim == 4,
            r < 4,
            tp_fits(self@, t),
        ensures
            v as int == tp_c(self@, t, r as int),
    {
        proof {
            let q: int = 0x1fff_ffff_ffff_fffd;
            assert(abs_i(self@[r * 4 + 0] * tcomp(t, 0)) <= q * 1_000_000);
            assert(abs_i(self@[r * 4 + 1] * tcomp(t, 1)) <= q * 1_000_000);
            assert(abs_i(self@[r * 4 + 2] * tcomp(t, 2)) <= q * 1_000_000);
            assert(abs_i(self@[r * 4 + 3] * tcomp(t, 3)) <= q * 1_000_000);
            lemma_rdiv_abs_le(self@[r * 4 + 0] * t.0 as int, SCALE as int, q);
            lemma_rdiv_abs_le(self@[r * 4 + 1] * t.1 as int, SCALE as int, q);
            lemma_rdiv_abs_le(self@[r * 4 + 2] * t.2 as int, SCALE as int, q);
            lemma_rdiv_abs_le(self@[r * 4 + 3] * t.3 as int, SCALE as int, q);
        }
        fp_mul(self.at(r, 0), t.0) + fp_mul(self.at(r, 1), t.1) + fp_mul(self.at(r, 2), t.2)
            + fp_mul(self.at(r, 3), t.3)
    }

    /// Rows and columns swapped.
    pub fn transpose(&self) -> (r: Matrix)
        requires
            m_wf(self),
        ensures
            r.dim == self.dim,
            m_wf(&r),
            is_transpose_of(r@, self@, self.dim as int),
    {
        let dim = self.dim;
        let mut v: Vec<i64> = Vec::new();
        let mut r: usize = 0;
        while r < dim
            invariant
                r <= dim,
                m_wf(self),
                dim == self.dim,
                v@.len() == r * dim,
                forall|rr: int, cc: int|
                    0 <= rr < r && 0 <= cc < dim ==> #[trigger] v@[rr * dim + cc] == self@[cc * dim
                        + rr],
            decreases dim - r,
        {
            let mut c: usize = 0;
            while c < dim
                invariant
                    c <= dim,
                    r < dim,
                    m_wf(self),
                    dim == self.dim,
                    v@.len() == r * dim + c,
                    forall|rr: int, cc: int|
                        0 <= rr < r && 0 <= cc < dim ==> #[trigger] v@[rr * dim + cc] == self@[cc
                            * dim + rr],
                    forall|cc: int|
                        0 <= cc < c ==> #[trigger] v@[r * dim + cc] == self@[cc * dim + r],
                decreases dim - c,
            {
                let e = self.at(c, r);
                v.push(e);
                proof {
                    assert forall|rr: int, cc: int| 0 <= rr < r && 0 <= cc < dim implies #[trigger] v@[rr
                        * dim + cc] == self@[cc * dim + rr] by {
                        assert(0 <= rr * dim + cc < r as int * dim as int) by (nonlinear_arith)
                            requires
                                0 <= rr && rr < (r as int),
                                0 <= cc && cc < (dim as int),
                        ;
                    }
                }
                c += 1;
            }
            r += 1;
            proof {
                assert(r * dim == (r - 1) * dim + dim) by (nonlinear_arith);
            }
        }
        let m = Matrix { dim, elems: v };
        proof {
            assert(m@.len() == dim * dim);
            assert forall|rr: int, cc: int| 0 <= rr < dim && 0 <= cc < dim implies #[trigger] m@[rr
                * dim + cc] == self@[cc * dim + rr] by {
                assert(0 <= rr * dim + cc < dim as int * dim as int) by (nonlinear_arith)
                    requires
                        0 <= rr && rr < (dim as int),
                        0 <= cc && cc < (dim as int),
                ;
            }
        }
        m
    }

    /// The determinant, by cofactor expansion along row 0.
    pub fn det(&self) -> (r: i64)
        requires
            m_wf(self),
            2 <= self.dim <= 4,
            entries_bounded(self@, 500_000_000),
        ensures
            r as int == fp_det(self@, self.dim as int),
            abs_i(r as int) <= det_bound(self.dim as int),
        decreases self.dim, 2int,
    {
        let dim = self.dim;
        if dim == 2 {
            proof {
                assert(self@.len() == 4) by (nonlinear_arith)
                    requires
                        self@.len() == self.dim * self.dim,
                        self.dim == 2,
                ;
                lemma_det2_fits(self@);
            }
            fp_mul(self.at(0, 0), self.at(1, 1)) - fp_mul(self.at(0, 1), self.at(1, 0))
        } else {
            let mut s: i64 = 0;
            let mut c: usize = 0;
            proof {
                assert(fp_det_sum(self@, dim as int, 0) == 0);
            }
            while c < dim
                invariant
                    c <= dim,
                    m_wf(self),
                    3 <= dim <= 4,
                    dim == self.dim,
                    entries_bounded(self@, 500_000_000),
                    s as int == fp_det_sum(self@, dim as int, c as int),
                    abs_i(s as int) <= c * det_term_bound(dim as int),
                decreases dim - c,
            {
                let cf = self.cofactor(0, c);
                proof {
                    assert(0 <= (c as int) && (c as int) < self@.len()) by (nonlinear_arith)
                        requires
                            self@.len() == self.dim * self.dim,
                            (c as int) < (self.dim as int),
                            2 <= (self.dim as int),
                    ;
                    lemma_abs_mul(self@[c as int], cf as int, 500_000_000, det_bound(
                        dim as int - 1,
                    ));
                    lemma_rdiv_abs_le(self@[c as int] * cf as int, SCALE as int, det_term_bound(
                        dim as int,
                    ));
                }
                let term = fp_mul(self.at(0, c), cf);
                s = s + term;
                c += 1;
            }
            s
        }
    }

    /// The submatrix: row `row` and column `col` removed.
    pub fn submatrix(&self, row: usize, col: usize) -> (r: Matrix)
        requires
            m_wf(self),
            2 <= self.dim,
            self.dim <= 100,
            row < self.dim,
            col < self.dim,
        ensures
            r.dim == self.dim - 1,
            m_wf(&r),
            r@ == submatrix_spec(self@, self.dim as int, row as int, col as int),
    {
        let dim = self.dim;
        let sd = dim - 1;
        let ghost sub = submatrix_spec(self@, dim as int, row as int, col as int);
        let mut v: Vec<i64> = Vec::new();
        let mut rr: usize = 0;
        while rr < sd
            invariant
                rr <= sd,
                sd == dim - 1,
                1 <= sd <= 99,
                m_wf(self),
                dim == self.dim,
                row < dim,
                col < dim,
                sub == submatrix_spec(self@, dim as int, row as int, col as int),
                v@.len() == rr * sd,
                forall|k: int| 0 <= k < rr * sd ==> #[trigger] v@[k] == sub[k],
            decreases sd - rr,
        {
            let mut cc: usize = 0;
            while cc < sd
                invariant
                    cc <= sd,
                    rr < sd,
                    sd == dim - 1,
                    1 <= sd <= 99,
                    m_wf(self),
                    dim == self.dim,
                    row < dim,
                    col < dim,
                    sub == submatrix_spec(self@, dim as int, row as int, col as int),
                    v@.len() == rr * sd + cc,
                    forall|k: int| 0 <= k < rr * sd + cc ==> #[trigger] v@[k] == sub[k],
                decreases sd - cc,
            {
                let sr = if rr < row {
                    rr
                } else {
                    rr + 1
                };
                let sc = if cc < col {
                    cc
                } else {
                    cc + 1
                };
                let e = self.at(sr, sc);
                v.push(e);
                proof {
                    let k: int = rr as int * sd as int + cc as int;
                    assert(k / sd as int == rr as int && k % sd as int == cc as int)
                        by (nonlinear_arith)
                        requires
                            0 <= (cc as int) && (cc as int) < (sd as int),
                            0 <= (rr as int),
                            k == rr as int * sd as int + cc as int,
                    ;
                    assert(0 <= k < sd as int * sd as int) by (nonlinear_arith)
                        requires
                            0 <= (rr as int) && (rr as int) < (sd as int),
                            0 <= (cc as int) && (cc as int) < (sd as int),
                            k == rr as int * sd as int + cc as int,
                    ;
                    assert(v@[k] as int == sub[k]);
                }
                cc += 1;
            }
            rr += 1;
            proof {
                assert(rr * sd == (rr - 1) * sd + sd) by (nonlinear_arith);
            }
        }
        let m = Matrix { dim: sd, elems: v };
        proof {
            assert(m@ =~= sub);
        }
        m
    }

    /// The minor at `(row, col)`: the determinant of the submatrix.
    pub fn minor(&self, row: usize, col: usize) -> (r: i64)
        requires
            m_wf(self),
            3 <= self.dim <= 4,
            row < self.dim,
            col < self.dim,
            entries_bounded(self@, 500_000_000),
        ensures
            r as int == fp_minor(self@, self.dim as int, row as int, col as int),
            abs_i(r as int) <= det_bound(self.dim as int - 1),
        decreases self.dim, 0int,
    {
        let sub = self.submatrix(row, col);
        proof {
            lemma_submatrix_bounded(self@, self.dim as int, row as int, col as int, 500_000_000);
        }
        sub.det()
    }

    /// The cofactor at `(row, col)`: the minor under the checkerboard sign.
    pub fn cofactor(&self, row: usize, col: usize) -> (r: i64)
        requires
            m_wf(self),
            3 <= self.dim <= 4,
            row < self.dim,
            col < self.dim,
            entries_bounded(self@, 500_000_000),
        ensures
            r as int == fp_cof(self@, self.dim as int, row as int, col as int),
            abs_i(r as int) <= det_bound(self.dim as int - 1),
        decreases self.dim, 1int,
    {
        let m = self.minor(row, col);
        if (row + col) % 2 == 0 {
            m
        } else {
            -m
        }
    }

    /// The inverse, by the adjugate method: the transposed cofactor matrix
    /// over the determinant. `None` when the determinant is zero, or when an
    /// entry of the inverse leaves the fixed-point range.
    pub fn inverse(&self) -> (r: Option<Matrix>)
        requires
            m_wf(self),
            3 <= self.dim <= 4,
            entries_bounded(self@, 500_000_000),
        ensures
            match r {
                Some(mi) => {
                    &&& fp_det(self@, self.dim as int) != 0
                    &&& mi.dim == self.dim
                    &&& m_wf(&mi)
                    &&& forall|i: int, j: int|
                        0 <= i < self.dim && 0 <= j < self.dim ==> #[trigger] mi@[i * self.dim + j]
                            == inv_entry(self@, self.dim as int, i, j)
                },
                None => fp_det(self@, self.dim as int) == 0 || exists|i: int, j: int|
                    0 <= i < self.dim && 0 <= j < self.dim && abs_i(
                        #[trigger] inv_entry(self@, self.dim as int, i, j),
                    ) > 0x7fff_ffff_ffff_ffff,
            },
    {
        let dim = self.dim;
        let d = self.det();
        if d == 0 {
            return None;
        }
        let mut v: Vec<i64> = Vec::new();
        let mut i: usize = 0;
        while i < dim
            invariant
                i <= dim,
                m_wf(self),
                3 <= dim <= 4,
                dim == self.dim,
                entries_bounded(self@, 500_000_000),
                d as int == fp_det(self@, dim as int),
                d != 0,
                v@.len() == i * dim,
                forall|r: int, c: int|
                    0 <= r < i && 0 <= c < dim ==> #[trigger] v@[r * dim + c] == inv_entry(
                        self@,
                        dim as int,
                        r,
                        c,
                    ),
            decreases dim - i,
        {
            let mut j: usize = 0;
            while j < dim
                invariant
                    j <= dim,
                    i < dim,
                    m_wf(self),
                    3 <= dim <= 4,
                    dim == self.dim,
                    entries_bounded(self@, 500_000_000),
                    d as int == fp_det(self@, dim as int),
                    d != 0,
                    v@.len() == i * dim + j,
                    forall|r: int, c: int|
                        0 <= r < i && 0 <= c < dim ==> #[trigger] v@[r * dim + c] == inv_entry(
                            self@,
                            dim as int,
                            r,
                            c,
                        ),
                    forall|c: int|
                        0 <= c < j ==> #[trigger] v@[i * dim + c] == inv_entry(
                            self@,
                            dim as int,
                            i as int,
                            c,
                        ),
                decreases dim - j,
            {
                let cf = self.cofactor(j, i);
                let q = try_fp_div(cf, d);
                match q {
                    None => {
                        proof {
                            assert(abs_i(inv_entry(self@, dim as int, i as int, j as int))
                                > 0x7fff_ffff_ffff_ffff);
                        }
                        return None;
                    },
                    Some(e) => {
                        v.push(e);
                        proof {
                            assert forall|r: int, c: int| 0 <= r < i && 0 <= c < dim implies #[trigger] v@[r
                                * dim + c] == inv_entry(self@, dim as int, r, c) by {
                                assert(0 <= r * dim + c < i as int * dim as int)
                                    by (nonlinear_arith)
                                    requires
                                        0 <= r && r < (i as int),
                                        0 <= c && c < (dim as int),
                                ;
                            }
                        }
                    },
                }
                j += 1;
            }
            i += 1;
            proof {
                assert(i * dim == (i - 1) * dim + dim) by (nonlinear_arith);
            }
        }
        let m = Matrix { dim, elems: v };
        proof {
            assert forall|r: int, c: int| 0 <= r < dim && 0 <= c < dim implies #[trigger] m@[r
                * dim + c] == inv_entry(self@, dim as int, r, c) by {
                assert(0 <= r * dim + c < dim as int * dim as int) by (nonlinear_arith)
                    requires
                        0 <= r && r < (dim as int),
                        0 <= c && c < (dim as int),
                ;
            }
        }
        Some(m)
    }

    /// The matrix product; both factors must share one dimension.
    pub fn matmul(&self, other: &Matrix) -> (r: Matrix)
        requires
            m_wf(self),
            m_wf(other),
            self.dim == other.dim,
            1 <= self.dim <= 4,
            entries_bounded(self@, 1_000_000_000_000),
            entries_bounded(other@, 1_000_000_000_000),
        ensures
            r.dim == self.dim,
            m_wf(&r),
            forall|i: int, j: int|
                0 <= i < self.dim && 0 <= j < self.dim ==> #[trigger] r@[i * self.dim + j]
                    == mm_entry(self@, other@, self.dim as int, i, j),
    {
        let dim = self.dim;
        let mut v: Vec<i64> = Vec::new();
        let mut i: usize = 0;
        while i < dim
            invariant
                i <= dim,
                m_wf(self),
                m_wf(other),
                dim == self.dim == other.dim,
                1 <= dim <= 4,
                entries_bounded(self@, 1_000_000_000_000),
                entries_bounded(other@, 1_000_000_000_000),
                v@.len() == i * dim,
                forall|r: int, c: int|
                    0 <= r < i && 0 <= c < dim ==> #[trigger] v@[r * dim + c] == mm_entry(
                        self@,
                        other@,
                        dim as int,
                        r,
                        c,
                    ),
            decreases dim - i,
        {
            let mut j: usize = 0;
            while j < dim
                invariant
                    j <= dim,
                    i < dim,
                    m_wf(self),
                    m_wf(other),
                    dim == self.dim == other.dim,
                    1 <= dim <= 4,
                    entries_bounded(self@, 1_000_000_000_000),
                    entries_bounded(other@, 1_000_000_000_000),
                    v@.len() == i * dim + j,
                    forall|r: int, c: int|
                        0 <= r < i && 0 <= c < dim ==> #[trigger] v@[r * dim + c] == mm_entry(
                            self@,
                            other@,
                            dim as int,
                            r,
                            c,
                        ),
                    forall|c: int|
                        0 <= c < j ==> #[trigger] v@[i * dim + c] == mm_entry(
                            self@,
                            other@,
                            dim as int,
                            i as int,
                            c,
                        ),
                decreases dim - j,
            {
                let e = self.mm_cell(other, i, j);
                v.push(e);
                proof {
                    assert forall|r: int, c: int| 0 <= r < i && 0 <= c < dim implies #[trigger] v@[r
                        * dim + c] == mm_entry(self@, other@, dim as int, r, c) by {
                        assert(0 <= r * dim + c < i as int * dim as int) by (nonlinear_arith)
                            requires
                                0 <= r && r < (i as int),
                                0 <= c && c < (dim as int),
                        ;
                    }
                }
                j += 1;
            }
            i += 1;
            proof {
                assert(i * dim == (i - 1) * dim + dim) by (nonlinear_arith);
            }
        }
        let m = Matrix { dim, elems: v };
        proof {
            assert forall|r: int, c: int| 0 <= r < dim && 0 <= c < dim implies #[trigger] m@[r
                * dim + c] == mm_entry(self@, other@, dim as int, r, c) by {
                assert(0 <= r * dim + c < dim as int * dim as int) by (nonlinear_arith)
                    requires
                        0 <= r && r < (dim as int),
                        0 <= c && c < (dim as int),
                ;
            }
        }
        m
    }

    /// One cell of the matrix product.
    fn mm_cell(&self, other: &Matrix, i: usize, j: usize) -> (r: i64)
        requires
            m_wf(self),
            m_wf(other),
            self.dim == other.dim,
            1 <= self.dim <= 4,
            i < self.dim,
            j < self.dim,
            entries_bounded(self@, 1_000_000_000_000),
            entries_bounded(other@, 1_000_000_000_000),
        ensures
            r as int == mm_entry(self@, other@, self.dim as int, i as int, j as int),
    {
        let dim = self.dim;
        let mut s: i64 = 0;
        let mut k: usize = 0;
        while k < dim
            invariant
                k <= dim,
                i < dim,
                j < dim,
                m_wf(self),
                m_wf(other),
                dim == self.dim == other.dim,
                1 <= dim <= 4,
                entries_bounded(self@, 1_000_000_000_000),
                entries_bounded(other@, 1_000_000_000_000),
                s as int == mm_dot(self@, other@, dim as int, i as int, j as int, k as int),
                abs_i(s as int) <= k * 1_000_000_000_000_000_000,
            decreases dim - k,
        {
            proof {
                assert(0 <= i * dim + k < dim * dim && 0 <= k * dim + j < dim * dim)
                    by (nonlinear_arith)
                    requires
                        0 <= i < dim,
                        0 <= j < dim,
                        0 <= k < dim,
                ;
                lemma_abs_mul(self@[i as int * dim as int + k as int], other@[k as int
                    * dim as int + j as int], 1_000_000_000_000, 1_000_000_000_000);
                lemma_rdiv_abs_le(self@[i as int * dim as int + k as int] * other@[k as int
                    * dim as int + j as int], SCALE as int, 1_000_000_000_000_000_000);
            }
            let term = fp_mul(self.at(i, k), other.at(k, j));
            s = s + term;
            k += 1;
        }
        s
    }
}

/// A 2x2 determinant, written out.
pub proof fn lemma_det2(m: Seq<int>)
    ensures
        fp_det(m, 2) == rdiv(m[0] * m[3], SCALE as int) - rdiv(m[1] * m[2], SCALE as int),
{
}

/// A 3x3 determinant, written out: cofactor expansion along row 0.
pub proof fn lemma_det3(m: Seq<int>)
    ensures
        fp_det(m, 3) == rdiv(
            m[0] * (rdiv(m[4] * m[8], SCALE as int) - rdiv(m[5] * m[7], SCALE as int)),
            SCALE as int,
        ) + rdiv(
            m[1] * -(rdiv(m[3] * m[8], SCALE as int) - rdiv(m[5] * m[6], SCALE as int)),
            SCALE as int,
        ) + rdiv(
            m[2] * (rdiv(m[3] * m[7], SCALE as int) - rdiv(m[4] * m[6], SCALE as int)),
            SCALE as int,
        ),
{
    reveal_with_fuel(fp_det_sum, 5);
    let s0 = submatrix_spec(m, 3, 0, 0);
    let s1 = submatrix_spec(m, 3, 0, 1);
    let s2 = submatrix_spec(m, 3, 0, 2);
    assert(s0[0] == m[4] && s0[1] == m[5] && s0[2] == m[7] && s0[3] == m[8]);
    assert(s1[0] == m[3] && s1[1] == m[5] && s1[2] == m[6] && s1[3] == m[8]);
    assert(s2[0] == m[3] && s2[1] == m[4] && s2[2] == m[6] && s2[3] == m[7]);
    lemma_det2(s0);
    lemma_det2(s1);
    lemma_det2(s2);
    assert(fp_cof(m, 3, 0, 0) == fp_det(s0, 2));
    assert(fp_cof(m, 3, 0, 1) == -fp_det(s1, 2));
    assert(fp_cof(m, 3, 0, 2) == fp_det(s2, 2));
    assert(fp_det_sum(m, 3, 0) == 0);
    assert(fp_det(m, 3) == fp_det_sum(m, 3, 3));
}

/// A 4x4 determinant, written out: cofactor expansion along row 0.
pub proof fn lemma_det4(m: Seq<int>)
    ensures
        fp_det(m, 4) == rdiv(m[0] * fp_cof(m, 4, 0, 0), SCALE as int) + rdiv(
            m[1] * fp_cof(m, 4, 0, 1),
            SCALE as int,
        ) + rdiv(m[2] * fp_cof(m, 4, 0, 2), SCALE as int) + rdiv(
            m[3] * fp_cof(m, 4, 0, 3),
            SCALE as int,
        ),
{
    reveal_with_fuel(fp_det_sum, 6);
    assert(fp_det_sum(m, 4, 0) == 0);
    assert(fp_det(m, 4) == fp_det_sum(m, 4, 4));
    assert(fp_det_sum(m, 4, 4) == fp_det_sum(m, 4, 3) + rdiv(
        m[3] * fp_cof(m, 4, 0, 3),
        SCALE as int,
    ));
    assert(fp_det_sum(m, 4, 3) == fp_det_sum(m, 4, 2) + rdiv(
        m[2] * fp_cof(m, 4, 0, 2),
        SCALE as int,
    ));
    assert(fp_det_sum(m, 4, 2) == fp_det_sum(m, 4, 1) + rdiv(
        m[1] * fp_cof(m, 4, 0, 1),
        SCALE as int,
    ));
    assert(fp_det_sum(m, 4, 1) == fp_det_sum(m, 4, 0) + rdiv(
        m[0] * fp_cof(m, 4, 0, 0),
        SCALE as int,
    ));
}

/// One entry of a 4x4 matrix product, written out.
pub proof fn lemma_mm_entry4(a: Seq<int>, b: Seq<int>, i: int, j: int)
    ensures
        mm_entry(a, b, 4, i, j) == rdiv(a[4 * i] * b[j], SCALE as int) + rdiv(
            a[4 * i + 1] * b[4 + j],
            SCALE as int,
        ) + rdiv(a[4 * i + 2] * b[8 + j], SCALE as int) + rdiv(
            a[4 * i + 3] * b[12 + j],
            SCALE as int,
        ),
{
    reveal_with_fuel(mm_dot, 5);
    assert(mm_dot(a, b, 4, i, j, 0) == 0);
}

/// Transposing twice gives the matrix back.
pub proof fn lemma_transpose_involution(m: Seq<int>, t: Seq<int>, tt: Seq<int>, dim: int)
    requires
        dim >= 0,
        is_transpose_of(t, m, dim),
        is_transpose_of(tt, t, dim),
    ensures
        tt == m,
{
    assert forall|k: int| 0 <= k < dim * dim implies tt[k] == m[k] by {
        let r = k / dim;
        let c = k % dim;
        assert(0 <= r < dim && 0 <= c < dim && k == r * dim + c) by (nonlinear_arith)
            requires
                0 <= k < dim * dim,
                r == k / dim,
                c == k % dim,
                dim >= 1,
        ;
        assert(tt[r * dim + c] == t[c * dim + r]);
        assert(t[c * dim + r] == m[r * dim + c]);
    }
    assert(tt =~= m);
}

/// The identity is its own transpose.
pub proof fn lemma_transpose_identity(t: Seq<int>)
    requires
        is_transpose_of(t, identity_spec(), 4),
    ensures
        t == identity_spec(),
{
    assert forall|k: int| 0 <= k < 16 implies t[k] == identity_spec()[k] by {
        let r = k / 4;
        let c = k % 4;
        assert(0 <= r < 4 && 0 <= c < 4 && k == r * 4 + c) by (nonlinear_arith)
            requires
                0 <= k < 16,
                r == k / 4,
                c == k % 4,
        ;
        assert(t[r * 4 + c] == identity_spec()[c * 4 + r]);
        assert(identity_spec()[c * 4 + r] == identity_spec()[r * 4 + c]);
    }
    assert(t =~= identity_spec());
}

/// A bound on the fixed-point determinant of a matrix with entries within
/// 500 units of a thousand.
pub open spec fn det_bound(dim: int) -> int {
    if dim <= 2 {
        500_000_000_000
    } else if dim == 3 {
        750_000_000_000_000
    } else {
        1_500_000_000_000_000_000
    }
}

/// A bound on one term of the cofactor expansion at the given dimension.
pub open spec fn det_term_bound(dim: int) -> int {
    if dim <= 3 {
        250_000_000_000_000
    } else {
        375_000_000_000_000_000
    }
}

/// The two products of a 2x2 determinant stay in range.
proof fn lemma_det2_fits(m: Seq<int>)
    requires
        m.len() == 4,
        entries_bounded(m, 500_000_000),
    ensures
        abs_i(m[0] * m[3]) <= 0x7fff_ffff_ffff_fffe * 1_000_000,
        abs_i(m[1] * m[2]) <= 0x7fff_ffff_ffff_fffe * 1_000_000,
        abs_i(rdiv(m[0] * m[3], SCALE as int)) <= 250_000_000_000,
        abs_i(rdiv(m[1] * m[2], SCALE as int)) <= 250_000_000_000,
{
    lemma_abs_mul(m[0], m[3], 500_000_000, 500_000_000);
    lemma_abs_mul(m[1], m[2], 500_000_000, 500_000_000);
    lemma_rdiv_abs_le(m[0] * m[3], SCALE as int, 250_000_000_000);
    lemma_rdiv_abs_le(m[1] * m[2], SCALE as int, 250_000_000_000);
}

/// A submatrix keeps the entry bound of its matrix.
pub proof fn lemma_submatrix_bounded(m: Seq<int>, dim: int, row: int, col: int, b: int)
    requires
        m.len() == dim * dim,
        2 <= dim,
        0 <= row < dim,
        0 <= col < dim,
        entries_bounded(m, b),
    ensures
        entries_bounded(submatrix_spec(m, dim, row, col), b),
{
    let sub = submatrix_spec(m, dim, row, col);
    let sd = dim - 1;
    assert forall|k: int| 0 <= k < sub.len() implies abs_i(#[trigger] sub[k]) <= b by {
        let r = k / sd;
        let c = k % sd;
        assert(0 <= r < sd && 0 <= c < sd) by (nonlinear_arith)
            requires
                0 <= k < sd * sd,
                r == k / sd,
                c == k % sd,
                sd >= 1,
        ;
        let rr = if r < row {
            r
        } else {
            r + 1
        };
        let cc = if c < col {
            c
        } else {
            c + 1
        };
        assert(0 <= rr * dim + cc < dim * dim) by (nonlinear_arith)
            requires
                0 <= rr < dim,
                0 <= cc < dim,
        ;
        assert(sub[k] == m[rr * dim + cc]);
    }
}

impl PartialEq for Matrix {
    /// Entry-for-entry equality of matrices of one dimension.
    fn eq(&self, other: &Matrix) -> (r: bool) {
        if self.dim != other.dim {
            return false;
        }
        if self.elems.len() != other.elems.len() {
            proof {
                assert(self@.len() != other@.len());
            }
            return false;
        }
        let n = self.elems.len();
        let mut i: usize = 0;
        while i < n
            invariant
                i <= n,
                n == self.elems@.len() == other.elems@.len(),
                forall|k: int| 0 <= k < i ==> self.elems@[k] == other.elems@[k],
            decreases n - i,
        {
            if self.elems[i] != other.elems[i] {
                proof {
                    assert(self@[i as int] == self.elems@[i as int] as int);
                    assert(other@[i as int] == other.elems@[i as int] as int);
                    assert(self@ != other@);
                }
                return false;
            }
            i += 1;
        }
        proof {
            assert(self.elems@ =~= other.elems@);
            assert(self@ =~= other@);
        }
        true
    }
}

impl vstd::std_specs::cmp::PartialEqSpecImpl for Matrix {
    open spec fn obeys_eq_spec() -> bool {
        true
    }

    open spec fn eq_spec(&self, other: &Matrix) -> bool {
        self.dim == other.dim && self@ == other@ && self@.len() == other@.len()
    }
}

} // verus!
