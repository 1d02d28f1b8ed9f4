//! Fixed-point real numbers: a `Scalar` holds a value scaled by 2^32 in an `i64`
//! (32 integer bits with sign, 32 fractional bits). Every operation is exact up to
//! a rounding step that is stated in its contract.
use vstd::arithmetic::div_mod::{lemma_div_is_ordered, lemma_div_is_ordered_by_denominator, lemma_div_pos_is_pos};
use vstd::prelude::*;

verus! {

/// The raw representation of 1.0.
pub const ONE_RAW: i64 = 4294967296;

/// The scale factor between a `Scalar`'s raw value and the number it stands for.
pub open spec fn one() -> int {
    4294967296
}

/// Whether a raw value can be held by a `Scalar`.
pub open spec fn fits(v: int) -> bool {
    i64::MIN <= v <= i64::MAX
}

/// Integer division rounding toward zero, as Rust's `/` does.
pub open spec fn tdiv(a: int, b: int) -> int {
    if a >= 0 {
        a / b
    } else {
        -((-a) / b)
    }
}

/// Raw product of two raw values, rounded toward zero.
pub open spec fn fx_mul(a: int, b: int) -> int {
    tdiv(a * b, one())
}

/// Raw quotient of two raw values, rounded toward zero.
pub open spec fn fx_div(a: int, b: int) -> int {
    tdiv(a * one(), b)
}

/// Absolute value.
pub open spec fn abs(a: int) -> int {
    if a < 0 {
        -a
    } else {
        a
    }
}

/// `r` is the integer square root of `n`: the largest integer whose square is at most `n`.
pub open spec fn is_isqrt(n: int, r: int) -> bool {
    0 <= r && r * r <= n && n < (r + 1) * (r + 1)
}

/// The integer square root of a non-negative integer.
pub open spec fn isqrt(n: int) -> int
    recommends
        n >= 0,
{
    choose|r: int| is_isqrt(n, r)
}

/// Raw square root of a non-negative raw value, rounded down.
pub open spec fn fx_sqrt(a: int) -> int {
    isqrt(a * one())
}

pub proof fn lemma_isqrt_unique(n: int, r1: int, r2: int)
    requires
        is_isqrt(n, r1),
        is_isqrt(n, r2),
    ensures
        r1 == r2,
{
    if r1 < r2 {
        assert((r1 + 1) * (r1 + 1) <= r2 * r2) by (nonlinear_arith)
            requires
                0 <= r1,
                r1 + 1 <= r2,
        ;
    } else if r2 < r1 {
        assert((r2 + 1) * (r2 + 1) <= r1 * r1) by (nonlinear_arith)
            requires
                0 <= r2,
                r2 + 1 <= r1,
        ;
    }
}

/// A root found by any means is the one `isqrt` names.
pub proof fn lemma_isqrt_is(n: int, r: int)
    requires
        is_isqrt(n, r),
    ensures
        isqrt(n) == r,
{
    assert(exists|x: int| is_isqrt(n, x));
    lemma_isqrt_unique(n, isqrt(n), r);
}

/// The integer square root is monotonic.
pub proof fn lemma_isqrt_monotonic(m: int, n: int)
    requires
        0 <= m <= n,
    ensures
        isqrt(m) <= isqrt(n),
        0 <= isqrt(m),
{
    lemma_isqrt_exists(m);
    lemma_isqrt_exists(n);
    let a = isqrt(m);
    let b = isqrt(n);
    if a > b {
        assert((b + 1) * (b + 1) <= a * a) by (nonlinear_arith)
            requires
                0 <= b,
                b + 1 <= a,
        ;
    }
}

/// Every non-negative integer has an integer square root.
pub proof fn lemma_isqrt_exists(n: int)
    requires
        n >= 0,
    ensures
        is_isqrt(n, isqrt(n)),
    decreases n,
{
    if n == 0 {
        assert(is_isqrt(0, 0));
    } else {
        lemma_isqrt_exists(n - 1);
        let r = isqrt(n - 1);
        if (r + 1) * (r + 1) <= n {
            assert(n < (r + 2) * (r + 2)) by (nonlinear_arith)
                requires
                    n - 1 < (r + 1) * (r + 1),
                    0 <= r,
            ;
            assert(is_isqrt(n, r + 1));
        } else {
            assert(is_isqrt(n, r));
        }
    }
}

pub proof fn lemma_tdiv_abs(a: int, d: int)
    requires
        d > 0,
    ensures
        abs(tdiv(a, d)) == abs(a) / d,
        a >= 0 ==> tdiv(a, d) >= 0,
{
    lemma_div_pos_is_pos(abs(a), d);
}

/// A bound on a rounded product from bounds on its factors.
pub proof fn lemma_fx_mul_bound(a: int, b: int, ma: int, mb: int)
    requires
        abs(a) <= ma,
        abs(b) <= mb,
    ensures
        abs(fx_mul(a, b)) <= (ma * mb) / one(),
        abs(a * b) <= ma * mb,
{
    assert(abs(a * b) <= ma * mb) by (nonlinear_arith)
        requires
            abs(a) <= ma,
            abs(b) <= mb,
    ;
    lemma_tdiv_abs(a * b, one());
    lemma_div_is_ordered(abs(a * b), ma * mb, one());
}

/// A bound on a rounded quotient from a bound on the dividend and a floor on the divisor.
pub proof fn lemma_fx_div_bound(a: int, b: int, ma: int, mb: int)
    requires
        abs(a) <= ma,
        b >= mb > 0,
    ensures
        abs(fx_div(a, b)) <= (ma * one()) / mb,
{
    lemma_tdiv_abs(a * one(), b);
    assert(abs(a * one()) == abs(a) * one());
    lemma_div_is_ordered(abs(a * one()), ma * one(), b);
    lemma_div_is_ordered_by_denominator(ma * one(), mb, b);
}

/// Integer square root of a 128-bit number, by bisection.
pub fn isqrt_u128(n: u128) -> (r: u128)
    ensures
        is_isqrt(n as int, r as int),
{
    let mut lo: u128 = 0;
    let mut hi: u128 = 0x1_0000_0000_0000_0000;
    assert(n < hi * hi) by (nonlinear_arith)
        requires
            hi == 0x1_0000_0000_0000_0000u128,
            n <= u128::MAX,
    ;
    while hi - lo > 1
        invariant
            lo < hi <= 0x1_0000_0000_0000_0000u128,
            lo * lo <= n,
            n < hi * hi,
        decreases hi - lo,
    {
        let mid: u128 = lo + (hi - lo) / 2;
        assert(mid * mid < 0x1_0000_0000_0000_0000_0000_0000_0000_0000int) by (nonlinear_arith)
            requires
                mid < 0x1_0000_0000_0000_0000u128,
        ;
        if mid * mid <= n {
            lo = mid;
        } else {
            hi = mid;
        }
    }
    lo
}

/// A fixed-point real number: `raw / 2^32`.
#[derive(Clone, Copy, PartialEq, Eq, Debug, Structural)]
pub struct Scalar {
    pub raw: i64,
}

impl Scalar {
    /// The raw value as a mathematical integer.
    pub open spec fn val(self) -> int {
        self.raw as int
    }

    pub fn from_raw(raw: i64) -> (r: Scalar)
        ensures
            r.raw == raw,
    {
        Scalar { raw }
    }

    /// The whole number `n`.
    pub fn from_int(n: i32) -> (r: Scalar)
        ensures
            r.val() == n * one(),
    {
        Scalar { raw: n as i64 * ONE_RAW }
    }

    /// The fraction `num / den`, rounded toward zero.
    pub fn ratio(num: i32, den: i32) -> (r: Scalar)
        requires
            den > 0,
        ensures
            r.val() == tdiv(num * one(), den as int),
    {
        let n: i64 = num as i64 * ONE_RAW;
        let q: i64 = n / (den as i64);
        proof {
            let m: int = if n < 0 { -n } else { n as int };
            assert(0 <= m / (den as int) <= m) by (nonlinear_arith)
                requires
                    m >= 0,
                    den >= 1,
            ;
        }
        Scalar { raw: q }
    }

    pub fn add(self, o: Scalar) -> (r: Scalar)
        requires
            fits(self.val() + o.val()),
        ensures
            r.val() == self.val() + o.val(),
    {
        Scalar { raw: self.raw + o.raw }
    }

    pub fn sub(self, o: Scalar) -> (r: Scalar)
        requires
            fits(self.val() - o.val()),
        ensures
            r.val() == self.val() - o.val(),
    {
        Scalar { raw: self.raw - o.raw }
    }

    pub fn mul(self, o: Scalar) -> (r: Scalar)
        requires
            fits(fx_mul(self.val(), o.val())),
        ensures
            r.val() == fx_mul(self.val(), o.val()),
    {
        let p: i128 = wide_mul(self.raw, o.raw);
        let q: i128 = p / 4294967296i128;
        Scalar { raw: q as i64 }
    }

    pub fn div(self, o: Scalar) -> (r: Scalar)
        requires
            o.val() != 0,
            fits(fx_div(self.val(), o.val())),
        ensures
            r.val() == fx_div(self.val(), o.val()),
    {
        let p: i128 = (self.raw as i128) * 4294967296i128;
        let q: i128 = p / (o.raw as i128);
        Scalar { raw: q as i64 }
    }

    /// The square root of a non-negative number, rounded down.
    pub fn sqrt(self) -> (r: Scalar)
        requires
            self.val() >= 0,
        ensures
            r.val() == fx_sqrt(self.val()),
            r.val() >= 0,
    {
        let n: u128 = (self.raw as u128) * 4294967296u128;
        let s: u128 = isqrt_u128(n);
        proof {
            lemma_isqrt_is(n as int, s as int);
            assert(s < 0x1_0000_0000_0000_0000u128) by (nonlinear_arith)
                requires
                    s * s <= n,
                    n < 0x1_0000_0000_0000_0000_0000_0000_0000_0000int,
            ;
            assert(s <= i64::MAX) by (nonlinear_arith)
                requires
                    s * s <= n,
                    n <= 0x8000_0000_0000_0000_0000_0000int,
            ;
        }
        Scalar { raw: s as i64 }
    }
}

/// The rounded product of two raw values, before it is narrowed to a `Scalar`.
pub fn fx_mul_wide(a: i64, b: i64) -> (r: i128)
    ensures
        r == fx_mul(a as int, b as int),
        abs(r as int) <= 0x4000_0000_0000_0000_0000_0000int,
{
    let p: i128 = wide_mul(a, b);
    proof {
        lemma_fx_mul_bound(a as int, b as int, 0x8000_0000_0000_0000int, 0x8000_0000_0000_0000int);
    }
    p / 4294967296i128
}

/// The exact product of two raw values.
pub fn wide_mul(a: i64, b: i64) -> (r: i128)
    ensures
        r == a as int * b as int,
{
    assert(-0x4000_0000_0000_0000_0000_0000_0000_0000int <= a as int * b as int
        <= 0x4000_0000_0000_0000_0000_0000_0000_0000int) by (nonlinear_arith)
        requires
            i64::MIN <= a <= i64::MAX,
            i64::MIN <= b <= i64::MAX,
    ;
    (a as i128) * (b as i128)
}

} // verus!
