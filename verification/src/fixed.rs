//! Saturating fixed-point arithmetic with `FP` fractional steps per unit.
//!
//! Every coordinate, color channel and ray parameter in this crate is a
//! fixed-point number: an `i64` that stands for the real value `x / FP`.
//! All operations are total: results outside the `i64` range saturate at
//! the range ends, and every operation is specified exactly over `int`.

use vstd::prelude::*;

verus! {

/// Number of fractional steps per unit; coordinates, colors and ray
/// parameters are all carried as multiples of `1/FP`.
pub const FP: i64 = 65536;

/// One half in fixed-point form.
pub const FP_HALF: i64 = 32768;

/// Magnitude of a mathematical integer.
pub open spec fn sabs(x: int) -> int {
    if x < 0 {
        -x
    } else {
        x
    }
}

/// Saturate a mathematical integer into the `i64` range, symmetrically:
/// both ends stop at magnitude `i64::MAX`, so negating a saturated
/// value is always exact.
pub open spec fn clip(x: int) -> int {
    if x > i64::MAX as int {
        i64::MAX as int
    } else if x < -(i64::MAX as int) {
        -(i64::MAX as int)
    } else {
        x
    }
}

/// Saturation commutes with negation: the bounds are symmetric.
pub proof fn lemma_clip_neg(x: int)
    ensures
        clip(-x) == -clip(x),
{
}

/// Division truncating toward zero, as the hardware divides; zero divisor
/// yields zero so that the function is total.
pub open spec fn tdiv(a: int, b: int) -> int {
    if b == 0 {
        0
    } else if (a < 0) != (b < 0) {
        -(sabs(a) / sabs(b))
    } else {
        sabs(a) / sabs(b)
    }
}

/// Fixed-point addition.
pub open spec fn fx_add(a: int, b: int) -> int {
    clip(a + b)
}

/// Fixed-point subtraction.
pub open spec fn fx_sub(a: int, b: int) -> int {
    clip(a - b)
}

/// Fixed-point negation.
pub open spec fn fx_neg(a: int) -> int {
    clip(-a)
}

/// Fixed-point multiplication: the double-width product scaled back down.
pub open spec fn fx_mul(a: int, b: int) -> int {
    clip(tdiv(a * b, FP as int))
}

/// Fixed-point division: the dividend scaled up before dividing.
pub open spec fn fx_div(a: int, b: int) -> int {
    clip(tdiv(a * FP, b))
}

/// Integer square root: the greatest `r` with `r * r <= n` (zero when
/// `n` is negative).
pub open spec fn isqrt(n: int) -> int
    decreases n,
{
    if n <= 0 {
        0
    } else {
        let r = isqrt(n - 1);
        if (r + 1) * (r + 1) <= n {
            r + 1
        } else {
            r
        }
    }
}

/// Fixed-point square root: scaling the operand up by `FP` keeps the
/// result on the fixed-point scale.
pub open spec fn fx_sqrt(a: int) -> int {
    if a < 0 {
        0
    } else {
        isqrt(a * FP)
    }
}

pub proof fn lemma_isqrt_bounds(n: int)
    requires
        n >= 0,
    ensures
        isqrt(n) >= 0,
        isqrt(n) * isqrt(n) <= n,
        n < (isqrt(n) + 1) * (isqrt(n) + 1),
    decreases n,
{
    if n > 0 {
        lemma_isqrt_bounds(n - 1);
        let r = isqrt(n - 1);
        if (r + 1) * (r + 1) <= n {
            assert(n - 1 < (r + 1) * (r + 1));
            assert(n < (r + 2) * (r + 2)) by (nonlinear_arith)
                requires
                    n <= (r + 1) * (r + 1),
                    r >= 0,
            ;
        }
    }
}

pub proof fn lemma_isqrt_unique(n: int, r: int)
    requires
        n >= 0,
        r >= 0,
        r * r <= n,
        n < (r + 1) * (r + 1),
    ensures
        isqrt(n) == r,
{
    lemma_isqrt_bounds(n);
    let s = isqrt(n);
    if s < r {
        assert((s + 1) * (s + 1) <= r * r) by (nonlinear_arith)
            requires
                0 <= s,
                s + 1 <= r,
        ;
    }
    if r < s {
        assert((r + 1) * (r + 1) <= s * s) by (nonlinear_arith)
            requires
                0 <= r,
                r + 1 <= s,
        ;
    }
}

/// Scaling by a positive factor and dividing by it gives the value back.
pub proof fn lemma_tdiv_mul_cancel(c: int, d: int)
    requires
        d > 0,
    ensures
        tdiv(c * d, d) == c,
{
    if c >= 0 {
        assert(c * d >= 0) by (nonlinear_arith)
            requires
                c >= 0,
                d > 0,
        ;
        vstd::arithmetic::div_mod::lemma_div_multiples_vanish(c, d);
        assert(d * c == c * d) by (nonlinear_arith);
    } else {
        assert(c * d < 0) by (nonlinear_arith)
            requires
                c < 0,
                d > 0,
        ;
        assert(-(c * d) == (-c) * d) by (nonlinear_arith);
        vstd::arithmetic::div_mod::lemma_div_multiples_vanish(-c, d);
        assert(d * (-c) == (-c) * d) by (nonlinear_arith);
    }
}

/// Truncating division shrinks toward zero: the quotient's magnitude
/// never exceeds the dividend's, and its sign follows the dividend's
/// when the divisor is positive.
pub proof fn lemma_tdiv_bounds(a: int, b: int)
    requires
        b >= 1,
    ensures
        a >= 0 ==> 0 <= tdiv(a, b) <= a,
        a <= 0 ==> a <= tdiv(a, b) <= 0,
{
    if a >= 0 {
        assert(a / b <= a) by (nonlinear_arith)
            requires
                a >= 0,
                b >= 1,
        ;
        assert(a / b >= 0) by (nonlinear_arith)
            requires
                a >= 0,
                b >= 1,
        ;
    } else {
        assert((-a) / b <= -a) by (nonlinear_arith)
            requires
                -a >= 0,
                b >= 1,
        ;
        assert((-a) / b >= 0) by (nonlinear_arith)
            requires
                -a >= 0,
                b >= 1,
        ;
    }
}

/// Truncating division by a positive divisor is monotone in the
/// dividend.
pub proof fn lemma_tdiv_ordered(x: int, y: int, d: int)
    requires
        x <= y,
        d >= 1,
    ensures
        tdiv(x, d) <= tdiv(y, d),
{
    lemma_tdiv_bounds(x, d);
    lemma_tdiv_bounds(y, d);
    if 0 <= x {
        vstd::arithmetic::div_mod::lemma_div_is_ordered(x, y, d);
    } else if y < 0 {
        vstd::arithmetic::div_mod::lemma_div_is_ordered(-y, -x, d);
    }
}

/// Saturation keeps order.
pub proof fn lemma_clip_monotone(x: int, y: int)
    requires
        x <= y,
    ensures
        clip(x) <= clip(y),
{
}

/// The floor of a sum of quotients never exceeds the quotient of the
/// sum.
pub proof fn lemma_tdiv_superadd(a: int, b: int, d: int)
    requires
        a >= 0,
        b >= 0,
        d >= 1,
    ensures
        tdiv(a, d) + tdiv(b, d) <= tdiv(a + b, d),
{
    vstd::arithmetic::div_mod::lemma_fundamental_div_mod(a, d);
    vstd::arithmetic::div_mod::lemma_fundamental_div_mod(b, d);
    assert(d * (a / d) + d * (b / d) == d * (a / d + b / d)) by (nonlinear_arith);
    vstd::arithmetic::div_mod::lemma_div_multiples_vanish(a / d + b / d, d);
    vstd::arithmetic::div_mod::lemma_div_is_ordered(d * (a / d + b / d), a + b, d);
}

/// Evaluates a truncating division from a quotient and remainder of
/// the dividend's magnitude.
pub proof fn lemma_tdiv_eval(a: int, b: int, q: int, r: int)
    requires
        b >= 1,
        q >= 0,
        0 <= r < b,
        sabs(a) == q * b + r,
    ensures
        tdiv(a, b) == if a < 0 {
            -q
        } else {
            q
        },
{
    vstd::arithmetic::div_mod::lemma_fundamental_div_mod_converse(sabs(a), b, q, r);
}

/// The integer square root never decreases when its operand grows.
pub proof fn lemma_isqrt_monotone(m: int, n: int)
    requires
        0 <= m <= n,
    ensures
        isqrt(m) <= isqrt(n),
{
    lemma_isqrt_bounds(m);
    lemma_isqrt_bounds(n);
    if isqrt(m) > isqrt(n) {
        assert((isqrt(n) + 1) * (isqrt(n) + 1) <= isqrt(m) * isqrt(m)) by (nonlinear_arith)
            requires
                0 <= isqrt(n),
                isqrt(n) + 1 <= isqrt(m),
        ;
    }
}

/// Binary search for the integer square root of a `u128`.
pub(crate) fn isqrt_u128(n: u128) -> (r: u128)
    ensures
        r as int == isqrt(n as int),
        r < 0x1_0000_0000_0000_0000,
{
    let mut lo: u128 = 0;
    let mut hi: u128 = 0x1_0000_0000_0000_0000;
    proof {
        assert((0x1_0000_0000_0000_0000 as int) * (0x1_0000_0000_0000_0000 as int) > u128::MAX as int) by (nonlinear_arith);
    }
    while lo + 1 < hi
        invariant
            lo < hi,
            hi <= 0x1_0000_0000_0000_0000,
            (lo as int) * (lo as int) <= n as int,
            (n as int) < (hi as int) * (hi as int),
        decreases hi - lo,
    {
        let mid: u128 = lo + (hi - lo) / 2;
        proof {
            assert((mid as int) * (mid as int) < (0x1_0000_0000_0000_0000 as int) * (0x1_0000_0000_0000_0000 as int)) by (nonlinear_arith)
                requires
                    0 <= mid as int,
                    (mid as int) < 0x1_0000_0000_0000_0000,
            ;
        }
        if mid * mid <= n {
            lo = mid;
        } else {
            hi = mid;
        }
    }
    proof {
        lemma_isqrt_unique(n as int, lo as int);
    }
    lo
}

/// Truncating division on `i128`, via the magnitudes.
pub(crate) fn tdiv_i128(n: i128, d: i128) -> (r: i128)
    requires
        d != 0,
        i128::MIN < n,
        i128::MIN < d,
    ensures
        r as int == tdiv(n as int, d as int),
        sabs(r as int) <= sabs(n as int),
{
    let na: u128 = if n < 0 {
        (-n) as u128
    } else {
        n as u128
    };
    let da: u128 = if d < 0 {
        (-d) as u128
    } else {
        d as u128
    };
    let q: u128 = na / da;
    proof {
        assert(na as int / da as int <= na as int) by (nonlinear_arith)
            requires
                da as int >= 1,
                na as int >= 0,
        ;
    }
    if (n < 0) != (d < 0) {
        -(q as i128)
    } else {
        q as i128
    }
}

/// Saturate an `i128` into the `i64` range, symmetrically.
pub(crate) fn clip_i128(x: i128) -> (r: i64)
    ensures
        r as int == clip(x as int),
{
    if x > i64::MAX as i128 {
        i64::MAX
    } else if x < -(i64::MAX as i128) {
        -i64::MAX
    } else {
        x as i64
    }
}

/// Adds two fixed-point values.
pub fn add_fx(a: i64, b: i64) -> (r: i64)
    ensures
        r as int == fx_add(a as int, b as int),
{
    clip_i128(a as i128 + b as i128)
}

/// Subtracts one fixed-point value from another.
pub fn sub_fx(a: i64, b: i64) -> (r: i64)
    ensures
        r as int == fx_sub(a as int, b as int),
{
    clip_i128(a as i128 - b as i128)
}

/// Negates a fixed-point value.
pub fn neg_fx(a: i64) -> (r: i64)
    ensures
        r as int == fx_neg(a as int),
{
    clip_i128(-(a as i128))
}

/// Multiplies two fixed-point values.
pub fn mul_fx(a: i64, b: i64) -> (r: i64)
    ensures
        r as int == fx_mul(a as int, b as int),
{
    proof {
        assert(i128::MIN < a as int * b as int && a as int * b as int <= i128::MAX) by (nonlinear_arith)
            requires
                i64::MIN <= a as int <= i64::MAX,
                i64::MIN <= b as int <= i64::MAX,
        ;
    }
    let p: i128 = a as i128 * b as i128;
    clip_i128(tdiv_i128(p, FP as i128))
}

/// Divides one fixed-point value by another; the divisor must not be zero.
pub fn div_fx(a: i64, b: i64) -> (r: i64)
    requires
        b != 0,
    ensures
        r as int == fx_div(a as int, b as int),
{
    proof {
        assert(i128::MIN < a as int * FP as int && a as int * FP as int <= i128::MAX) by (nonlinear_arith)
            requires
                i64::MIN <= a as int <= i64::MAX,
                FP == 65536,
        ;
    }
    let p: i128 = a as i128 * FP as i128;
    clip_i128(tdiv_i128(p, b as i128))
}

/// Takes the square root of a nonnegative fixed-point value.
pub fn sqrt_fx(a: i64) -> (r: i64)
    requires
        a >= 0,
    ensures
        r as int == fx_sqrt(a as int),
        r >= 0,
{
    proof {
        assert((a as int) * (FP as int) <= u128::MAX as int) by (nonlinear_arith)
            requires
                0 <= a as int <= i64::MAX,
                FP == 65536,
        ;
    }
    let n: u128 = (a as u128) * (FP as u128);
    let r: u128 = isqrt_u128(n);
    proof {
        lemma_isqrt_bounds(n as int);
        assert((n as int) < (i64::MAX as int) * (i64::MAX as int)) by (nonlinear_arith)
            requires
                n as int == (a as int) * (FP as int),
                0 <= a as int <= i64::MAX,
                FP == 65536,
        ;
        assert(isqrt(n as int) <= i64::MAX as int) by (nonlinear_arith)
            requires
                isqrt(n as int) >= 0,
                isqrt(n as int) * isqrt(n as int) <= n as int,
                (n as int) < (i64::MAX as int) * (i64::MAX as int),
        ;
    }
    r as i64
}

} // verus!
