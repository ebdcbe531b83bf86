//! Saturating fixed-point arithmetic on `i128` with `SCALE` fractional units.
//!
//! A real number `x` is represented by the integer closest to `x * SCALE`
//! obtainable through the operations below.  Every operation clamps its
//! result into `[-FX_MAX, FX_MAX]`, so the arithmetic is total on in-range
//! operands and no intermediate computation can overflow.  Division and
//! multiplication truncate toward zero, as the corresponding `i128`
//! operations do.

use vstd::prelude::*;

verus! {

/// Number of fixed-point units that represent the real value one.
pub const SCALE: i128 = 65536;

/// Largest magnitude a fixed-point value may take; results saturate here.
pub const FX_MAX: i128 = 0x4000_0000_0000_0000;

/// Half of [`FX_MAX`]: values below it can double without saturating.
pub const FX_HALF: i128 = 0x2000_0000_0000_0000;

/// Absolute value of a mathematical integer.
pub open spec fn sabs(a: int) -> int {
    if a < 0 {
        -a
    } else {
        a
    }
}

/// Whether a value lies in the representable fixed-point range.
pub open spec fn in_fx(a: int) -> bool {
    -FX_MAX <= a <= FX_MAX
}

/// Saturation of an integer into the representable range.
pub open spec fn sclamp(a: int) -> int {
    if a > FX_MAX {
        FX_MAX as int
    } else if a < -FX_MAX {
        -FX_MAX as int
    } else {
        a
    }
}

/// Division truncating toward zero, the behaviour of `/` on `i128`.
pub open spec fn stdiv(a: int, b: int) -> int
    recommends
        b != 0,
{
    if (a >= 0) == (b >= 0) {
        sabs(a) / sabs(b)
    } else {
        -(sabs(a) / sabs(b))
    }
}

/// Fixed-point addition.
pub open spec fn sfadd(a: int, b: int) -> int {
    sclamp(a + b)
}

/// Fixed-point subtraction.
pub open spec fn sfsub(a: int, b: int) -> int {
    sclamp(a - b)
}

/// Fixed-point negation.
pub open spec fn sfneg(a: int) -> int {
    sclamp(-a)
}

/// Fixed-point multiplication: the scaled product, truncated toward zero.
pub open spec fn sfmul(a: int, b: int) -> int {
    sclamp(stdiv(a * b, SCALE as int))
}

/// Fixed-point division: the scaled quotient, truncated toward zero.
pub open spec fn sfdiv(a: int, b: int) -> int
    recommends
        b != 0,
{
    sclamp(stdiv(a * SCALE, b))
}

/// `r` is the integer square root of `n`.
pub open spec fn is_isqrt(n: int, r: int) -> bool {
    0 <= r && r * r <= n && n < (r + 1) * (r + 1)
}

/// The integer square root, as a mathematical function.
pub open spec fn ssqrt(n: int) -> int {
    choose|r: int| is_isqrt(n, r)
}

/// Fixed-point square root: `sqrt(v / SCALE) * SCALE = sqrt(v * SCALE)`.
pub open spec fn sfsqrt(v: int) -> int {
    ssqrt(v * SCALE)
}

/// Every nonnegative integer has an integer square root.
pub proof fn lemma_isqrt_exists(n: int)
    requires
        n >= 0,
    ensures
        exists|r: int| is_isqrt(n, r),
    decreases n,
{
    if n == 0 {
        assert(is_isqrt(0, 0));
    } else {
        lemma_isqrt_exists(n - 1);
        let r = choose|r: int| #[trigger] is_isqrt(n - 1, r);
        if (r + 1) * (r + 1) <= n {
            assert(is_isqrt(n, r + 1)) by (nonlinear_arith)
                requires
                    is_isqrt(n - 1, r),
                    (r + 1) * (r + 1) <= n,
            ;
        } else {
            assert(is_isqrt(n, r));
        }
    }
}

/// The integer square root is unique.
pub proof fn lemma_isqrt_unique(n: int, r1: int, r2: int)
    by (nonlinear_arith)
    requires
        is_isqrt(n, r1),
        is_isqrt(n, r2),
    ensures
        r1 == r2,
{
}

/// `ssqrt` satisfies the square-root property on nonnegative arguments.
pub proof fn lemma_ssqrt(n: int)
    requires
        n >= 0,
    ensures
        is_isqrt(n, ssqrt(n)),
{
    lemma_isqrt_exists(n);
}

/// Saturating fixed-point addition.
pub fn fx_add(a: i128, b: i128) -> (r: i128)
    requires
        in_fx(a as int),
        in_fx(b as int),
    ensures
        r == sfadd(a as int, b as int),
        in_fx(r as int),
{
    let s: i128 = a + b;
    if s > FX_MAX {
        FX_MAX
    } else if s < -FX_MAX {
        -FX_MAX
    } else {
        s
    }
}

/// Saturating fixed-point subtraction.
pub fn fx_sub(a: i128, b: i128) -> (r: i128)
    requires
        in_fx(a as int),
        in_fx(b as int),
    ensures
        r == sfsub(a as int, b as int),
        in_fx(r as int),
{
    let s: i128 = a - b;
    if s > FX_MAX {
        FX_MAX
    } else if s < -FX_MAX {
        -FX_MAX
    } else {
        s
    }
}

/// Fixed-point negation; exact, since the range is symmetric.
pub fn fx_neg(a: i128) -> (r: i128)
    requires
        in_fx(a as int),
    ensures
        r == sfneg(a as int),
        in_fx(r as int),
{
    -a
}

/// Division of `i128` values truncating toward zero, built from unsigned
/// division so that its result is pinned to `stdiv`.
fn tdiv_i128(a: i128, b: i128) -> (q: i128)
    requires
        b != 0,
        a > i128::MIN,
        b > i128::MIN,
    ensures
        q == stdiv(a as int, b as int),
{
    let ua: u128 = if a < 0 {
        (-a) as u128
    } else {
        a as u128
    };
    let ub: u128 = if b < 0 {
        (-b) as u128
    } else {
        b as u128
    };
    let uq: u128 = ua / ub;
    assert(uq <= ua) by (nonlinear_arith)
        requires
            ub >= 1,
            uq == ua as int / ub as int,
    ;
    if (a < 0) != (b < 0) {
        -(uq as i128)
    } else {
        uq as i128
    }
}

/// Saturating fixed-point multiplication.
pub fn fx_mul(a: i128, b: i128) -> (r: i128)
    requires
        in_fx(a as int),
        in_fx(b as int),
    ensures
        r == sfmul(a as int, b as int),
        in_fx(r as int),
{
    assert(-(FX_MAX as int) * (FX_MAX as int) <= a * b <= (FX_MAX as int) * (FX_MAX as int))
        by (nonlinear_arith)
        requires
            in_fx(a as int),
            in_fx(b as int),
    ;
    let p: i128 = a * b;
    let q: i128 = tdiv_i128(p, SCALE);
    if q > FX_MAX {
        FX_MAX
    } else if q < -FX_MAX {
        -FX_MAX
    } else {
        q
    }
}

/// Saturating fixed-point division.
pub fn fx_div(a: i128, b: i128) -> (r: i128)
    requires
        in_fx(a as int),
        in_fx(b as int),
        b != 0,
    ensures
        r == sfdiv(a as int, b as int),
        in_fx(r as int),
{
    let p: i128 = a * SCALE;
    let q: i128 = tdiv_i128(p, b);
    if q > FX_MAX {
        FX_MAX
    } else if q < -FX_MAX {
        -FX_MAX
    } else {
        q
    }
}

/// Division of a fixed-point value by a plain integer count (not another
/// fixed-point value), as used to average accumulated samples.
pub fn fx_divi(a: i128, d: i128) -> (r: i128)
    requires
        in_fx(a as int),
        d > 0,
    ensures
        r == stdiv(a as int, d as int),
        in_fx(r as int),
{
    let q: i128 = tdiv_i128(a, d);
    proof {
        assert(sabs(a as int) / sabs(d as int) <= sabs(a as int)) by (nonlinear_arith)
            requires
                sabs(d as int) >= 1,
                sabs(a as int) >= 0,
        ;
    }
    q
}

/// Multiplying by one (`SCALE`) only saturates: `sfmul(x, SCALE) ==
/// sclamp(x)`, and symmetrically.
pub proof fn lemma_fmul_one(x: int)
    ensures
        sfmul(x, SCALE as int) == sclamp(x),
        sfmul(SCALE as int, x) == sclamp(x),
{
    assert(x * SCALE == SCALE * x) by (nonlinear_arith);
    if x >= 0 {
        assert((x * (SCALE as int)) / (SCALE as int) == x) by (nonlinear_arith)
            requires
                x >= 0,
                SCALE == 65536,
        ;
    } else {
        assert(((-x) * (SCALE as int)) / (SCALE as int) == -x) by (nonlinear_arith)
            requires
                -x >= 0,
                SCALE == 65536,
        ;
        assert(sabs(x * SCALE) == (-x) * (SCALE as int)) by (nonlinear_arith)
            requires
                x < 0,
                SCALE == 65536,
        ;
    }
}

/// Dividing by one (`SCALE`) only saturates: `sfdiv(x, SCALE) == sclamp(x)`.
pub proof fn lemma_fdiv_one(x: int)
    ensures
        sfdiv(x, SCALE as int) == sclamp(x),
{
    lemma_fmul_one(x);
}

/// On whole numbers (multiples of `SCALE`), fixed-point multiplication is
/// exact integer multiplication.
pub proof fn lemma_fmul_whole(a: int, b: int)
    requires
        sabs(a * b) * SCALE <= FX_MAX,
    ensures
        sfmul(a * SCALE, b * SCALE) == a * b * SCALE,
{
    let p = (a * SCALE) * (b * SCALE);
    assert(p == (a * b * SCALE) * SCALE) by (nonlinear_arith)
        requires
            p == (a * SCALE) * (b * SCALE),
    ;
    lemma_fmul_one(a * b * SCALE);
    assert(sfmul(a * SCALE, b * SCALE) == sclamp(stdiv(p, SCALE as int)));
    assert(stdiv(p, SCALE as int) == stdiv((a * b * SCALE) * SCALE, SCALE as int));
    assert(sclamp(stdiv((a * b * SCALE) * SCALE, SCALE as int)) == sclamp(a * b * SCALE)) by {
        lemma_stdiv_scale(a * b * SCALE);
    }
    assert(sabs(a * b * SCALE) == sabs(a * b) * SCALE) by (nonlinear_arith);
}

/// `stdiv(x * SCALE, SCALE) == x`.
pub proof fn lemma_stdiv_scale(x: int)
    ensures
        stdiv(x * SCALE, SCALE as int) == x,
{
    if x >= 0 {
        assert((x * (SCALE as int)) / (SCALE as int) == x) by (nonlinear_arith)
            requires
                x >= 0,
                SCALE == 65536,
        ;
    } else {
        assert(((-x) * (SCALE as int)) / (SCALE as int) == -x) by (nonlinear_arith)
            requires
                -x >= 0,
                SCALE == 65536,
        ;
        assert(sabs(x * SCALE) == (-x) * (SCALE as int)) by (nonlinear_arith)
            requires
                x < 0,
                SCALE == 65536,
        ;
    }
}

/// Integer square root of a `u128` by bisection.
fn isqrt_u128(n: u128) -> (r: u128)
    requires
        n < 0x1000_0000_0000_0000_0000_0000_0000,
    ensures
        is_isqrt(n as int, r as int),
{
    let mut lo: u128 = 0;
    let mut hi: u128 = 0x40_0000_0000_0000;
    assert((hi as int) * (hi as int) == 0x1000_0000_0000_0000_0000_0000_0000) by (nonlinear_arith)
        requires
            hi == 0x40_0000_0000_0000,
    ;
    while lo + 1 < hi
        invariant
            lo < hi,
            hi <= 0x40_0000_0000_0000,
            (lo as int) * (lo as int) <= n as int,
            (n as int) < (hi as int) * (hi as int),
        decreases hi - lo,
    {
        let mid: u128 = lo + (hi - lo) / 2;
        assert(lo < mid < hi);
        assert((mid as int) * (mid as int) < 0x1000_0000_0000_0000_0000_0000_0000)
            by (nonlinear_arith)
            requires
                mid < 0x40_0000_0000_0000,
        ;
        if mid * mid <= n {
            lo = mid;
        } else {
            hi = mid;
        }
    }
    lo
}

/// Fixed-point square root of a nonnegative value.
pub fn fx_sqrt(v: i128) -> (r: i128)
    requires
        0 <= v,
        in_fx(v as int),
    ensures
        r == sfsqrt(v as int),
        0 <= r <= FX_MAX,
{
    let n: u128 = (v as u128) * (SCALE as u128);
    let r: u128 = isqrt_u128(n);
    proof {
        lemma_ssqrt(n as int);
        lemma_isqrt_unique(n as int, r as int, ssqrt(n as int));
        assert((r as int) * (r as int) <= n as int);
        assert(n as int <= (FX_MAX as int) * (SCALE as int));
        assert(r <= FX_MAX) by (nonlinear_arith)
            requires
                (r as int) * (r as int) <= (FX_MAX as int) * (SCALE as int),
                r >= 0,
        ;
    }
    r as i128
}

} // verus!
