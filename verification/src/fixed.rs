//! Fixed-point scalar arithmetic.
//!
//! A scalar is an `i64` counting units of one millionth: the stored value `v`
//! stands for the real number `v / SCALE`. Multiplication and division rescale
//! and round to the nearest unit (halves away from zero); square roots round
//! down. Each operation's contract states the exact rounded result.

use vstd::prelude::*;

verus! {

/// Fixed-point units per 1.0.
pub const SCALE: i64 = 1_000_000;

/// Tolerance of tuple and color equality, in fixed-point units (0.00001).
pub const EPS: i64 = 10;

/// Absolute value of a mathematical integer.
pub open spec fn abs_i(x: int) -> int {
    if x < 0 {
        -x
    } else {
        x
    }
}

/// `n / d` rounded to the nearest integer, halves away from zero.
pub open spec fn rdiv(n: int, d: int) -> int {
    let q = (2 * abs_i(n) + abs_i(d)) / (2 * abs_i(d));
    if (n < 0) == (d < 0) {
        q
    } else {
        -q
    }
}

/// `r` is the square root of `n`, rounded down.
pub open spec fn is_sqrt_of(n: int, r: int) -> bool {
    &&& 0 <= r
    &&& r * r <= n
    &&& n < (r + 1) * (r + 1)
}

/// The square root of `n`, rounded down.
pub open spec fn isqrt_spec(n: int) -> int {
    choose|r: int| is_sqrt_of(n, r)
}

/// Every non-negative integer has a rounded-down square root.
pub proof fn lemma_isqrt_exists(n: int)
    requires
        n >= 0,
    ensures
        is_sqrt_of(n, isqrt_spec(n)),
    decreases n,
{
    if n == 0 {
        assert(is_sqrt_of(0, 0)) by (nonlinear_arith);
        lemma_isqrt_is(0, 0);
    } else {
        lemma_isqrt_exists(n - 1);
        let r = isqrt_spec(n - 1);
        if (r + 1) * (r + 1) <= n {
            assert(is_sqrt_of(n, r + 1)) by (nonlinear_arith)
                requires
                    is_sqrt_of(n - 1, r),
                    (r + 1) * (r + 1) <= n,
            ;
            lemma_isqrt_is(n, r + 1);
        } else {
            assert(is_sqrt_of(n, r)) by (nonlinear_arith)
                requires
                    is_sqrt_of(n - 1, r),
                    (r + 1) * (r + 1) > n,
            ;
            lemma_isqrt_is(n, r);
        }
    }
}

/// The rounded-down square root is unique.
pub proof fn lemma_sqrt_unique(n: int, r1: int, r2: int)
    requires
        is_sqrt_of(n, r1),
        is_sqrt_of(n, r2),
    ensures
        r1 == r2,
{
    assert(r1 == r2) by (nonlinear_arith)
        requires
            0 <= r1,
            r1 * r1 <= n < (r1 + 1) * (r1 + 1),
            0 <= r2,
            r2 * r2 <= n < (r2 + 1) * (r2 + 1),
    ;
}

/// A witness makes `isqrt_spec` that witness.
pub proof fn lemma_isqrt_is(n: int, r: int)
    requires
        is_sqrt_of(n, r),
    ensures
        isqrt_spec(n) == r,
{
    assert(exists|x: int| is_sqrt_of(n, x)) by {
        assert(is_sqrt_of(n, r));
    }
    lemma_sqrt_unique(n, isqrt_spec(n), r);
}

/// Bound on a product of bounded factors.
pub proof fn lemma_abs_mul(a: int, b: int, ka: int, kb: int)
    requires
        abs_i(a) <= ka,
        abs_i(b) <= kb,
    ensures
        abs_i(a * b) <= ka * kb,
{
    assert(abs_i(a * b) <= ka * kb) by (nonlinear_arith)
        requires
            abs_i(a) <= ka,
            abs_i(b) <= kb,
    ;
}

/// Rounding error of `rdiv`: the result times the divisor is within half a
/// divisor of the dividend.
pub proof fn lemma_rdiv_rounding(n: int, d: int)
    requires
        d != 0,
    ensures
        2 * abs_i(rdiv(n, d) * d - n) <= abs_i(d),
{
    let na = abs_i(n);
    let da = abs_i(d);
    let q = (2 * na + da) / (2 * da);
    assert(2 * abs_i(q * da - na) <= da) by (nonlinear_arith)
        requires
            q == (2 * na + da) / (2 * da),
            na >= 0,
            da >= 1,
    ;
    assert(2 * abs_i(rdiv(n, d) * d - n) <= abs_i(d)) by (nonlinear_arith)
        requires
            2 * abs_i(q * da - na) <= da,
            na == abs_i(n),
            da == abs_i(d),
            d != 0,
            rdiv(n, d) == if (n < 0) == (d < 0) { q } else { -q },
    ;
}

/// Magnitude bound of `rdiv`: a dividend of at most `k` divisors gives a
/// quotient of at most `k`.
pub proof fn lemma_rdiv_abs_le(n: int, d: int, k: int)
    requires
        d != 0,
        0 <= k,
        abs_i(n) <= k * abs_i(d),
    ensures
        abs_i(rdiv(n, d)) <= k,
{
    let na = abs_i(n);
    let da = abs_i(d);
    assert((2 * na + da) / (2 * da) <= k) by (nonlinear_arith)
        requires
            na >= 0,
            da >= 1,
            k >= 0,
            na <= k * da,
    ;
    assert((2 * na + da) / (2 * da) >= 0) by (nonlinear_arith)
        requires
            na >= 0,
            da >= 1,
    ;
}

/// Exactness of `rdiv`: a multiple of the divisor is divided without loss.
pub proof fn lemma_rdiv_exact(a: int, d: int)
    requires
        d != 0,
    ensures
        rdiv(a * d, d) == a,
{
    let n = a * d;
    let na = abs_i(n);
    let da = abs_i(d);
    assert(na == abs_i(a) * da) by (nonlinear_arith)
        requires
            na == abs_i(a * d),
            da == abs_i(d),
            n == a * d,
    ;
    assert((2 * (abs_i(a) * da) + da) / (2 * da) == abs_i(a)) by (nonlinear_arith)
        requires
            da >= 1,
            abs_i(a) >= 0,
    ;
    if a != 0 {
        assert((n < 0) == (a < 0) != (d < 0)) by (nonlinear_arith)
            requires
                n == a * d,
                a != 0,
                d != 0,
        ;
    }
}

/// Dividing a whole multiple of the scale by the scale is exact, and zero
/// divides to zero.
pub proof fn lemma_rdiv_units()
    ensures
        forall|v: int| #[trigger] rdiv(v * SCALE as int, SCALE as int) == v,
        forall|v: int| #[trigger] rdiv(SCALE as int * v, SCALE as int) == v,
        rdiv(0, SCALE as int) == 0,
{
    assert forall|v: int| #[trigger] rdiv(v * SCALE as int, SCALE as int) == v by {
        lemma_rdiv_exact(v, SCALE as int);
    }
    assert forall|v: int| #[trigger] rdiv(SCALE as int * v, SCALE as int) == v by {
        lemma_rdiv_exact(v, SCALE as int);
        assert(SCALE as int * v == v * SCALE as int);
    }
    lemma_rdiv_exact(0, SCALE as int);
}

/// Monotonicity of `rdiv` in the dividend, for a positive divisor.
pub proof fn lemma_rdiv_mono(n1: int, n2: int, d: int)
    requires
        d > 0,
        n1 <= n2,
    ensures
        rdiv(n1, d) <= rdiv(n2, d),
{
    lemma_rdiv_rounding(n1, d);
    lemma_rdiv_rounding(n2, d);
    assert(rdiv(n1, d) <= rdiv(n2, d)) by (nonlinear_arith)
        requires
            d > 0,
            n1 <= n2,
            2 * abs_i(rdiv(n1, d) * d - n1) <= d,
            2 * abs_i(rdiv(n2, d) * d - n2) <= d,
    ;
}

/// `n / d` rounded to the nearest integer, halves away from zero, on machine
/// integers wide enough for every product this crate forms.
fn rdiv_i128(n: i128, d: i128) -> (r: i128)
    requires
        d != 0,
        abs_i(n as int) < 0x1_0000_0000_0000_0000_0000_0000_0000i128,
        abs_i(d as int) < 0x1_0000_0000_0000_0000_0000_0000_0000i128,
    ensures
        r as int == rdiv(n as int, d as int),
        abs_i(r as int) <= abs_i(n as int) / abs_i(d as int) + 1,
{
    let nn: bool = n < 0;
    let dn: bool = d < 0;
    let na: u128 = if nn {
        (-n) as u128
    } else {
        n as u128
    };
    let da: u128 = if dn {
        (-d) as u128
    } else {
        d as u128
    };
    assert(na as int == abs_i(n as int));
    assert(da as int == abs_i(d as int));
    let q: u128 = (2 * na + da) / (2 * da);
    proof {
        assert(q as int == (2 * abs_i(n as int) + abs_i(d as int)) / (2 * abs_i(d as int)));
        assert(q <= na / da + 1) by (nonlinear_arith)
            requires
                q == (2 * na + da) / (2 * da),
                da >= 1,
        ;
    }
    let qi: i128 = q as i128;
    if nn == dn {
        qi
    } else {
        -qi
    }
}

/// Fixed-point product: `a * b / SCALE`, rounded to nearest.
pub fn fp_mul(a: i64, b: i64) -> (r: i64)
    requires
        abs_i(a as int * b as int) <= 0x7fff_ffff_ffff_fffe * 1_000_000,
    ensures
        r as int == rdiv(a as int * b as int, SCALE as int),
{
    let p: i128 = (a as i128) * (b as i128);
    let q = rdiv_i128(p, SCALE as i128);
    proof {
        lemma_rdiv_abs_le(p as int, SCALE as int, 0x7fff_ffff_ffff_fffe);
    }
    q as i64
}

/// Fixed-point quotient: `a * SCALE / b`, rounded to nearest.
pub fn fp_div(a: i64, b: i64) -> (r: i64)
    requires
        b != 0,
        abs_i(rdiv(a as int * SCALE as int, b as int)) <= 0x7fff_ffff_ffff_ffff,
    ensures
        r as int == rdiv(a as int * SCALE as int, b as int),
{
    let p: i128 = (a as i128) * (SCALE as i128);
    let q = rdiv_i128(p, b as i128);
    q as i64
}

/// The fixed-point power: `e` successive products with `b`, each rounded
/// down, so that powers of bases below one decay all the way to zero.
pub open spec fn fp_pow(b: int, e: nat) -> int
    decreases e,
{
    if e == 0 {
        SCALE as int
    } else {
        b * fp_pow(b, (e - 1) as nat) / SCALE as int
    }
}

/// The fixed-point power of a base between zero and one stays between zero
/// and one.
pub fn pow_fp(b: i64, e: u32) -> (r: i64)
    requires
        0 <= b <= SCALE,
    ensures
        r as int == fp_pow(b as int, e as nat),
        0 <= r <= SCALE,
{
    let mut acc: i64 = SCALE;
    let mut i: u32 = 0;
    while i < e
        invariant
            i <= e,
            0 <= b <= SCALE,
            acc as int == fp_pow(b as int, i as nat),
            0 <= acc <= SCALE,
        decreases e - i,
    {
        proof {
            assert(0 <= b as int * acc as int <= acc as int * 1_000_000) by (nonlinear_arith)
                requires
                    0 <= (b as int) && (b as int) <= 1_000_000,
                    0 <= (acc as int),
            ;
            assert(0 <= b as int * acc as int / 1_000_000 <= acc as int) by (nonlinear_arith)
                requires
                    0 <= b as int * acc as int <= acc as int * 1_000_000,
                    0 <= (acc as int),
            ;
        }
        let p: u128 = (b as u128) * (acc as u128);
        let q: u128 = p / (SCALE as u128);
        acc = q as i64;
        i = i + 1;
    }
    acc
}

/// Bound on a rescaled product of bounded factors.
pub proof fn lemma_rdiv_prod_bound(x: int, y: int, bx: int, by: int, k: int)
    requires
        abs_i(x) <= bx,
        abs_i(y) <= by,
        0 <= bx,
        0 <= by,
        0 <= k,
        bx * by <= k * 1_000_000,
    ensures
        abs_i(rdiv(x * y, SCALE as int)) <= k,
{
    lemma_abs_mul(x, y, bx, by);
    lemma_rdiv_abs_le(x * y, SCALE as int, k);
}

/// Fixed-point quotient that reports a result too large for the scalar range
/// instead of requiring the caller to rule it out.
pub fn try_fp_div(a: i64, b: i64) -> (r: Option<i64>)
    requires
        b != 0,
    ensures
        match r {
            Some(v) => v as int == rdiv(a as int * SCALE as int, b as int),
            None => abs_i(rdiv(a as int * SCALE as int, b as int)) > 0x7fff_ffff_ffff_ffff,
        },
{
    let p: i128 = (a as i128) * (SCALE as i128);
    proof {
        assert(abs_i(p as int) < 0x1_0000_0000_0000_0000_0000_0000_0000) by (nonlinear_arith)
            requires
                p as int == a as int * 1_000_000,
                abs_i(a as int) <= 0x8000_0000_0000_0000,
        ;
    }
    let q = rdiv_i128(p, b as i128);
    if q > 0x7fff_ffff_ffff_ffffi128 || q < -0x7fff_ffff_ffff_ffffi128 - 1 {
        None
    } else {
        Some(q as i64)
    }
}

/// Integer square root, rounded down.
pub(crate) fn isqrt_u128(n: u128) -> (r: u128)
    ensures
        is_sqrt_of(n as int, r as int),
        r <= 0xffff_ffff_ffff_ffff,
{
    let mut lo: u128 = 0;
    let mut hi: u128 = 0x1_0000_0000_0000_0000;
    proof {
        assert((hi as int) * (hi as int) > n as int) by (nonlinear_arith)
            requires
                hi == 0x1_0000_0000_0000_0000u128,
                n <= 0xffff_ffff_ffff_ffff_ffff_ffff_ffff_ffffu128,
        ;
    }
    while hi - lo > 1
        invariant
            0 <= lo < hi <= 0x1_0000_0000_0000_0000,
            (lo as int) * (lo as int) <= n as int,
            (hi as int) * (hi as int) > n as int,
        decreases hi - lo,
    {
        let mid: u128 = lo + (hi - lo) / 2;
        assert(lo < mid < hi);
        proof {
            assert((mid as int) * (mid as int) < 0x1_0000_0000_0000_0000_0000_0000_0000_0000)
                by (nonlinear_arith)
                requires
                    mid < 0x1_0000_0000_0000_0000u128,
            ;
        }
        let sq: u128 = mid * mid;
        if sq <= n {
            lo = mid;
        } else {
            hi = mid;
        }
    }
    lo
}

/// Square root of a fixed-point scalar: `isqrt(x * SCALE)`, so the result is
/// again in fixed-point units, rounded down.
pub fn sqrt_fp(x: i64) -> (r: i64)
    requires
        x >= 0,
    ensures
        is_sqrt_of(x as int * SCALE as int, r as int),
        0 <= r < 0x2_0000_0000_0000i64,
{
    proof {
        assert(x as int * SCALE as int <= 0x7fff_ffff_ffff_ffffi64 as int * 1_000_000)
            by (nonlinear_arith)
            requires
                0 <= x <= 0x7fff_ffff_ffff_ffffi64,
        ;
    }
    let n: u128 = (x as u128) * (SCALE as u128);
    let r = isqrt_u128(n);
    proof {
        assert(r < 0x2_0000_0000_0000u128) by (nonlinear_arith)
            requires
                (r as int) * (r as int) <= n as int,
                n as int <= 0x7fff_ffff_ffff_ffffi64 as int * 1_000_000,
        ;
    }
    r as i64
}

} // verus!
