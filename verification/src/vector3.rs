//! The three-component fixed-point vector used for points, directions
//! and colors alike.

use vstd::prelude::*;

use crate::fixed::{
    add_fx, clip, div_fx, fx_add, fx_div, fx_mul, fx_neg, fx_sub, isqrt, mul_fx, neg_fx, sabs,
    sub_fx, tdiv, FP, FP_HALF,
};
use crate::rng::{rng_next_state, rng_unit, Rng};

verus! {

/// The mathematical value of a `Vector3`: three fixed-point components.
pub ghost struct V3 {
    pub x: int,
    pub y: int,
    pub z: int,
}

pub open spec fn v3_zero() -> V3 {
    V3 { x: 0, y: 0, z: 0 }
}

pub open spec fn v3_add(a: V3, b: V3) -> V3 {
    V3 { x: fx_add(a.x, b.x), y: fx_add(a.y, b.y), z: fx_add(a.z, b.z) }
}

pub open spec fn v3_sub(a: V3, b: V3) -> V3 {
    V3 { x: fx_sub(a.x, b.x), y: fx_sub(a.y, b.y), z: fx_sub(a.z, b.z) }
}

pub open spec fn v3_neg(a: V3) -> V3 {
    V3 { x: fx_neg(a.x), y: fx_neg(a.y), z: fx_neg(a.z) }
}

/// Scales every component by the fixed-point factor `s`.
pub open spec fn v3_scale(a: V3, s: int) -> V3 {
    V3 { x: fx_mul(a.x, s), y: fx_mul(a.y, s), z: fx_mul(a.z, s) }
}

/// Divides every component by the fixed-point value `s`.
pub open spec fn v3_div(a: V3, s: int) -> V3 {
    V3 { x: fx_div(a.x, s), y: fx_div(a.y, s), z: fx_div(a.z, s) }
}

pub open spec fn v3_dot(a: V3, b: V3) -> int {
    fx_add(fx_add(fx_mul(a.x, b.x), fx_mul(a.y, b.y)), fx_mul(a.z, b.z))
}

pub open spec fn v3_cross(a: V3, b: V3) -> V3 {
    V3 {
        x: fx_sub(fx_mul(a.y, b.z), fx_mul(a.z, b.y)),
        y: fx_sub(fx_mul(a.z, b.x), fx_mul(a.x, b.z)),
        z: fx_sub(fx_mul(a.x, b.y), fx_mul(a.y, b.x)),
    }
}

pub open spec fn v3_lensq(a: V3) -> int {
    v3_dot(a, a)
}

/// The exact sum of the squared components, with no truncation. For
/// components on the fixed-point scale this carries scale `FP * FP`,
/// so its integer square root is already on the fixed-point scale.
pub open spec fn v3_sq_sum(a: V3) -> int {
    a.x * a.x + a.y * a.y + a.z * a.z
}

/// Whether every component fits the machine representation.
pub open spec fn v3_fits(a: V3) -> bool {
    &&& i64::MIN <= a.x <= i64::MAX
    &&& i64::MIN <= a.y <= i64::MAX
    &&& i64::MIN <= a.z <= i64::MAX
}

/// The length: the integer square root of the exact sum of squares,
/// saturated into range. Taking the root of the exact sum keeps short
/// vectors accurate, which the truncated `v3_lensq` would not.
pub open spec fn v3_length(a: V3) -> int {
    clip(isqrt(v3_sq_sum(a)))
}

/// The vector scaled to unit length: each component divided by the length.
pub open spec fn v3_unit(a: V3) -> V3 {
    v3_div(a, v3_length(a))
}

/// A square is never negative, so neither is a squared length.
pub proof fn lemma_lensq_nonneg(a: V3)
    ensures
        v3_lensq(a) >= 0,
{
    assert(a.x * a.x >= 0) by (nonlinear_arith);
    assert(a.y * a.y >= 0) by (nonlinear_arith);
    assert(a.z * a.z >= 0) by (nonlinear_arith);
}

/// A three-component vector; doubles as a point in space and as an RGB
/// color. Components are fixed-point values (see `crate::fixed`).
#[derive(Clone, Copy, PartialEq, Eq, Structural, Debug)]
pub struct Vector3 {
    pub x: i64,
    pub y: i64,
    pub z: i64,
}

impl Default for Vector3 {
    fn default() -> (r: Self)
        ensures
            r@ == v3_zero(),
    {
        Vector3 { x: 0, y: 0, z: 0 }
    }
}

/// A point in space.
pub type Point3 = Vector3;

/// An RGB color.
pub type Color3 = Vector3;

impl View for Vector3 {
    type V = V3;

    open spec fn view(&self) -> V3 {
        V3 { x: self.x as int, y: self.y as int, z: self.z as int }
    }
}

impl Vector3 {
    pub fn new(x: i64, y: i64, z: i64) -> (r: Self)
        ensures
            r@ == (V3 { x: x as int, y: y as int, z: z as int }),
    {
        Vector3 { x, y, z }
    }

    pub fn zero() -> (r: Self)
        ensures
            r@ == v3_zero(),
    {
        Vector3 { x: 0, y: 0, z: 0 }
    }

    pub fn neg(self) -> (r: Self)
        ensures
            r@ == v3_neg(self@),
    {
        Vector3 { x: neg_fx(self.x), y: neg_fx(self.y), z: neg_fx(self.z) }
    }

    pub fn add(self, rhs: Self) -> (r: Self)
        ensures
            r@ == v3_add(self@, rhs@),
    {
        Vector3 { x: add_fx(self.x, rhs.x), y: add_fx(self.y, rhs.y), z: add_fx(self.z, rhs.z) }
    }

    pub fn sub(self, rhs: Self) -> (r: Self)
        ensures
            r@ == v3_sub(self@, rhs@),
    {
        Vector3 { x: sub_fx(self.x, rhs.x), y: sub_fx(self.y, rhs.y), z: sub_fx(self.z, rhs.z) }
    }

    /// Scales by a fixed-point factor.
    pub fn mul(self, rhs: i64) -> (r: Self)
        ensures
            r@ == v3_scale(self@, rhs as int),
    {
        Vector3 { x: mul_fx(self.x, rhs), y: mul_fx(self.y, rhs), z: mul_fx(self.z, rhs) }
    }

    /// Divides by a fixed-point value, which must not be zero.
    pub fn div(self, rhs: i64) -> (r: Self)
        requires
            rhs != 0,
        ensures
            r@ == v3_div(self@, rhs as int),
    {
        Vector3 { x: div_fx(self.x, rhs), y: div_fx(self.y, rhs), z: div_fx(self.z, rhs) }
    }

    pub fn x(&self) -> (r: i64)
        ensures
            r as int == self@.x,
    {
        self.x
    }

    pub fn y(&self) -> (r: i64)
        ensures
            r as int == self@.y,
    {
        self.y
    }

    pub fn z(&self) -> (r: i64)
        ensures
            r as int == self@.z,
    {
        self.z
    }

    pub fn dot(u: &Vector3, v: &Vector3) -> (r: i64)
        ensures
            r as int == v3_dot(u@, v@),
    {
        add_fx(add_fx(mul_fx(u.x, v.x), mul_fx(u.y, v.y)), mul_fx(u.z, v.z))
    }

    pub fn cross(u: &Vector3, v: &Vector3) -> (r: Vector3)
        ensures
            r@ == v3_cross(u@, v@),
    {
        Vector3 {
            x: sub_fx(mul_fx(u.y, v.z), mul_fx(u.z, v.y)),
            y: sub_fx(mul_fx(u.z, v.x), mul_fx(u.x, v.z)),
            z: sub_fx(mul_fx(u.x, v.y), mul_fx(u.y, v.x)),
        }
    }

    pub fn length_squared(&self) -> (r: i64)
        ensures
            r as int == v3_lensq(self@),
            r >= 0,
    {
        proof {
            lemma_lensq_nonneg(self@);
        }
        Vector3::dot(self, self)
    }

    pub fn length(&self) -> (r: i64)
        ensures
            r as int == v3_length(self@),
            r >= 0,
    {
        proof {
            lemma_sq_sum_bounds(self@);
            assert((self.x as int) * (self.x as int) <= 0x4000_0000_0000_0000_0000_0000_0000_0000
                && (self.y as int) * (self.y as int) <= 0x4000_0000_0000_0000_0000_0000_0000_0000
                && (self.z as int) * (self.z as int)
                <= 0x4000_0000_0000_0000_0000_0000_0000_0000) by (nonlinear_arith)
                requires
                    i64::MIN <= (self.x as int) <= i64::MAX,
                    i64::MIN <= (self.y as int) <= i64::MAX,
                    i64::MIN <= (self.z as int) <= i64::MAX,
            ;
        }
        let sx: i128 = self.x as i128 * self.x as i128;
        let sy: i128 = self.y as i128 * self.y as i128;
        let sz: i128 = self.z as i128 * self.z as i128;
        let sum: u128 = sx as u128 + sy as u128 + sz as u128;
        let root: u128 = crate::fixed::isqrt_u128(sum);
        if root > i64::MAX as u128 {
            i64::MAX
        } else {
            root as i64
        }
    }

    /// Scales `v` to unit length. The length must not vanish: only the
    /// zero vector has length zero, and it cannot be normalized.
    pub fn unit_vector(v: Vector3) -> (r: Vector3)
        requires
            v3_length(v@) >= 1,
        ensures
            r@ == v3_unit(v@),
    {
        let len: i64 = v.length();
        v.div(len)
    }

    /// A vector with each component drawn uniformly from `[0, 1)`.
    pub fn random(rng: &mut Rng) -> (r: Vector3)
        ensures
            r@ == spec_random(old(rng).state).0,
            final(rng).state == spec_random(old(rng).state).1,
    {
        let x: i64 = rng.next_unit();
        let y: i64 = rng.next_unit();
        let z: i64 = rng.next_unit();
        Vector3 { x, y, z }
    }

    /// A vector with each component drawn uniformly from `[min, max)`.
    pub fn random_in_range(rng: &mut Rng, min: i64, max: i64) -> (r: Vector3)
        ensures
            r@ == spec_random_in_range(old(rng).state, min as int, max as int).0,
            final(rng).state == spec_random_in_range(old(rng).state, min as int, max as int).1,
    {
        let x: i64 = sample_range(rng, min, max);
        let y: i64 = sample_range(rng, min, max);
        let z: i64 = sample_range(rng, min, max);
        Vector3 { x, y, z }
    }

    /// Rejection-samples a point of the unit ball: draws points of the
    /// cube `[-1, 1)^3` until one has squared length inside `[1/FP, 1)`,
    /// falling back to a point well inside the ball if none of the
    /// bounded number of tries lands. (An unbounded search would almost
    /// surely stop, but only almost surely; the bound makes termination
    /// unconditional, and the fallback is reached with probability
    /// about `2^-35`.)
    #[verifier::rlimit(30)]
    #[verifier::loop_isolation(false)]
    pub fn random_in_unit_sphere(rng: &mut Rng) -> (r: Vector3)
        ensures
            r@ == spec_random_in_unit_sphere(old(rng).state, RIUS_TRIES as nat).0,
            final(rng).state == spec_random_in_unit_sphere(old(rng).state, RIUS_TRIES as nat).1,
            1 <= v3_lensq(r@) < FP,
    {
        let ghost s0: u64 = rng.state;
        let mut i: u32 = 0;
        while i < RIUS_TRIES
            invariant
                i <= RIUS_TRIES,
                spec_random_in_unit_sphere(s0, RIUS_TRIES as nat) == spec_random_in_unit_sphere(
                    rng.state,
                    (RIUS_TRIES - i) as nat,
                ),
            decreases RIUS_TRIES - i,
        {
            let ghost s_pre: u64 = rng.state;
            let ghost k: nat = (RIUS_TRIES - i) as nat;
            let p: Vector3 = Vector3::random_in_range(rng, -FP, FP);
            let lsq: i64 = p.length_squared();
            proof {
                reveal_with_fuel(spec_random_in_unit_sphere, 1);
                let pr = spec_random_in_range(s_pre, -FP as int, FP as int);
                if 1 <= lsq < FP {
                    assert(spec_random_in_unit_sphere(s_pre, k) == pr);
                } else {
                    assert(spec_random_in_unit_sphere(s_pre, k) == spec_random_in_unit_sphere(
                        pr.1,
                        (k - 1) as nat,
                    ));
                }
            }
            if 1 <= lsq && lsq < FP {
                return p;
            }
            i = i + 1;
        }
        proof {
            reveal_with_fuel(spec_random_in_unit_sphere, 1);
        }
        Vector3 { x: 0, y: 0, z: FP_HALF }
    }

    /// A random direction: a unit-ball sample scaled to unit length.
    pub fn random_unit_vector(rng: &mut Rng) -> (r: Vector3)
        ensures
            r@ == spec_random_unit_vector(old(rng).state).0,
            final(rng).state == spec_random_unit_vector(old(rng).state).1,
    {
        let p: Vector3 = Vector3::random_in_unit_sphere(rng);
        proof {
            lemma_lensq_one_implies_length(p@);
        }
        Vector3::unit_vector(p)
    }
}

/// Each squared component is nonnegative and no larger than the sum.
pub proof fn lemma_sq_sum_bounds(a: V3)
    ensures
        0 <= a.x * a.x <= v3_sq_sum(a),
        0 <= a.y * a.y <= v3_sq_sum(a),
        0 <= a.z * a.z <= v3_sq_sum(a),
{
    assert(a.x * a.x >= 0) by (nonlinear_arith);
    assert(a.y * a.y >= 0) by (nonlinear_arith);
    assert(a.z * a.z >= 0) by (nonlinear_arith);
}

/// A vector whose truncated squared length does not vanish has a true
/// squared length of at least one unit, so its length is at least a
/// 1/256 unit and it normalizes accurately.
pub proof fn lemma_lensq_one_implies_length(a: V3)
    requires
        v3_lensq(a) >= 1,
    ensures
        v3_length(a) >= 256,
{
    let fp = FP as int;
    lemma_sq_sum_bounds(a);
    crate::fixed::lemma_tdiv_bounds(a.x * a.x, fp);
    crate::fixed::lemma_tdiv_bounds(a.y * a.y, fp);
    crate::fixed::lemma_tdiv_bounds(a.z * a.z, fp);
    crate::fixed::lemma_tdiv_superadd(a.x * a.x, a.y * a.y, fp);
    crate::fixed::lemma_tdiv_superadd(a.x * a.x + a.y * a.y, a.z * a.z, fp);
    assert(tdiv(v3_sq_sum(a), fp) >= 1);
    vstd::arithmetic::div_mod::lemma_fundamental_div_mod(v3_sq_sum(a), fp);
    assert(v3_sq_sum(a) >= fp) by (nonlinear_arith)
        requires
            v3_sq_sum(a) == fp * (v3_sq_sum(a) / fp) + v3_sq_sum(a) % fp,
            v3_sq_sum(a) / fp >= 1,
            v3_sq_sum(a) % fp >= 0,
            fp == 65536,
    ;
    crate::fixed::lemma_isqrt_unique(65536, 256);
    crate::fixed::lemma_isqrt_monotone(65536, v3_sq_sum(a));
}

/// Every component of a normalized vector lies within one unit: each
/// component's magnitude is bounded by the vector's own length.
pub proof fn lemma_unit_components_bounded(a: V3)
    requires
        v3_fits(a),
        v3_length(a) >= 1,
    ensures
        -(FP as int) <= v3_unit(a).x <= FP as int,
        -(FP as int) <= v3_unit(a).y <= FP as int,
        -(FP as int) <= v3_unit(a).z <= FP as int,
{
    lemma_sq_sum_bounds(a);
    lemma_unit_component(a.x, v3_sq_sum(a));
    lemma_unit_component(a.y, v3_sq_sum(a));
    lemma_unit_component(a.z, v3_sq_sum(a));
}

/// One component of the normalization: dividing a component by the
/// whole vector's length cannot leave `[-1, 1]`.
proof fn lemma_unit_component(c: int, ssum: int)
    requires
        i64::MIN <= c <= i64::MAX,
        c * c <= ssum,
        clip(isqrt(ssum)) >= 1,
    ensures
        -(FP as int) <= fx_div(c, clip(isqrt(ssum))) <= FP as int,
{
    let fp = FP as int;
    let imax = i64::MAX as int;
    assert(0 <= c * c) by (nonlinear_arith);
    crate::fixed::lemma_isqrt_bounds(ssum);
    crate::fixed::lemma_isqrt_monotone(c * c, ssum);
    assert(isqrt(c * c) == sabs(c)) by {
        assert(sabs(c) * sabs(c) <= c * c < (sabs(c) + 1) * (sabs(c) + 1)) by (nonlinear_arith);
        crate::fixed::lemma_isqrt_unique(c * c, sabs(c));
    }
    let len = clip(isqrt(ssum));
    if sabs(c) <= len {
        assert(-(len * fp) <= c * fp <= len * fp) by (nonlinear_arith)
            requires
                sabs(c) <= len,
                fp > 0,
        ;
        crate::fixed::lemma_tdiv_mul_cancel(fp, len);
        crate::fixed::lemma_tdiv_mul_cancel(-fp, len);
        crate::fixed::lemma_tdiv_ordered(c * fp, len * fp, len);
        crate::fixed::lemma_tdiv_ordered(-(len * fp), c * fp, len);
        assert(fp * len == len * fp) by (nonlinear_arith);
        assert((-fp) * len == -(len * fp)) by (nonlinear_arith);
    } else {
        // Only the most negative representable component exceeds the
        // saturated length, and then only by one step; the quotient
        // still lands exactly on one unit.
        assert(sabs(c) == imax + 1 && len == imax);
        assert(c * fp == -((imax + 1) * fp)) by (nonlinear_arith)
            requires
                c == -(imax + 1),
                fp > 0,
        ;
        assert((imax + 1) * fp == fp * imax + fp) by (nonlinear_arith);
        crate::fixed::lemma_tdiv_eval(c * fp, imax, fp, fp);
    }
}

/// Swapping the arguments of the cross product exactly negates it,
/// whatever the operands: the products are symmetric and saturation
/// is symmetric.
pub proof fn lemma_cross_antisymmetric(u: V3, v: V3)
    ensures
        v3_cross(u, v) == v3_neg(v3_cross(v, u)),
{
    assert(u.x * v.y == v.y * u.x) by (nonlinear_arith);
    assert(u.y * v.x == v.x * u.y) by (nonlinear_arith);
    assert(u.y * v.z == v.z * u.y) by (nonlinear_arith);
    assert(u.z * v.y == v.y * u.z) by (nonlinear_arith);
    assert(u.z * v.x == v.x * u.z) by (nonlinear_arith);
    assert(u.x * v.z == v.z * u.x) by (nonlinear_arith);
    crate::fixed::lemma_clip_neg(fx_mul(v.y, u.z) - fx_mul(v.z, u.y));
    crate::fixed::lemma_clip_neg(fx_mul(v.z, u.x) - fx_mul(v.x, u.z));
    crate::fixed::lemma_clip_neg(fx_mul(v.x, u.y) - fx_mul(v.y, u.x));
}

/// Negating one side of a dot product exactly negates it, provided the
/// negated side has no component at the far end of the range.
pub proof fn lemma_dot_with_neg(a: V3, b: V3)
    requires
        -(i64::MAX as int) <= b.x <= i64::MAX as int,
        -(i64::MAX as int) <= b.y <= i64::MAX as int,
        -(i64::MAX as int) <= b.z <= i64::MAX as int,
    ensures
        v3_dot(a, v3_neg(b)) == -v3_dot(a, b),
{
    assert(a.x * -b.x == -(a.x * b.x)) by (nonlinear_arith);
    assert(a.y * -b.y == -(a.y * b.y)) by (nonlinear_arith);
    assert(a.z * -b.z == -(a.z * b.z)) by (nonlinear_arith);
    assert(tdiv(-(a.x * b.x), FP as int) == -tdiv(a.x * b.x, FP as int));
    assert(tdiv(-(a.y * b.y), FP as int) == -tdiv(a.y * b.y, FP as int));
    assert(tdiv(-(a.z * b.z), FP as int) == -tdiv(a.z * b.z, FP as int));
    crate::fixed::lemma_clip_neg(tdiv(a.x * b.x, FP as int));
    crate::fixed::lemma_clip_neg(tdiv(a.y * b.y, FP as int));
    crate::fixed::lemma_clip_neg(tdiv(a.z * b.z, FP as int));
    crate::fixed::lemma_clip_neg(fx_mul(a.x, b.x) + fx_mul(a.y, b.y));
    crate::fixed::lemma_clip_neg(fx_add(fx_mul(a.x, b.x), fx_mul(a.y, b.y)) + fx_mul(a.z, b.z));
}

/// Normalizing a vector that is already unit length gives the vector
/// back unchanged, so its length stays exactly one: the components
/// divide exactly by the unit length.
pub proof fn lemma_unit_vector_of_unit(v: Vector3)
    requires
        v3_length(v@) == FP as int,
    ensures
        v3_unit(v@) == v@,
        v3_length(v3_unit(v@)) == FP as int,
{
    crate::fixed::lemma_tdiv_mul_cancel(v@.x, FP as int);
    crate::fixed::lemma_tdiv_mul_cancel(v@.y, FP as int);
    crate::fixed::lemma_tdiv_mul_cancel(v@.z, FP as int);
    lemma_sq_sum_bounds(v@);
    crate::fixed::lemma_isqrt_bounds(v3_sq_sum(v@));
    // The components stay inside the saturation bounds: a unit-length
    // vector has a small sum of squares.
    assert(isqrt(v3_sq_sum(v@)) == FP as int);
    assert(v3_sq_sum(v@) < 4295098369) by {
        assert((isqrt(v3_sq_sum(v@)) + 1) * (isqrt(v3_sq_sum(v@)) + 1) == 4295098369)
            by (nonlinear_arith)
            requires
                isqrt(v3_sq_sum(v@)) == 65536,
        ;
    }
    assert(v@.x * v@.x < 4295098369 && v@.y * v@.y < 4295098369 && v@.z * v@.z < 4295098369);
    assert(-65537 < v@.x < 65537 && -65537 < v@.y < 65537 && -65537 < v@.z < 65537)
        by (nonlinear_arith)
        requires
            v@.x * v@.x < 4295098369,
            v@.y * v@.y < 4295098369,
            v@.z * v@.z < 4295098369,
    ;
    assert(v3_unit(v@) == v@);
}

/// Number of draws `random_in_unit_sphere` makes before falling back.
pub const RIUS_TRIES: u32 = 32;

/// One component of a `[min, max)` sample: `min` plus the jitter-scaled
/// width of the interval.
pub open spec fn range_sample(u: int, min: int, max: int) -> int {
    clip(min + tdiv(u * (max - min), FP as int))
}

fn sample_range(rng: &mut Rng, min: i64, max: i64) -> (r: i64)
    ensures
        r as int == range_sample(rng_unit(old(rng).state), min as int, max as int),
        final(rng).state == rng_next_state(old(rng).state),
{
    let u: i64 = rng.next_unit();
    let diff: i128 = max as i128 - min as i128;
    proof {
        assert(i128::MIN < (u as int) * (diff as int) && (u as int) * (diff as int) <= i128::MAX)
            by (nonlinear_arith)
            requires
                0 <= (u as int) < 65536,
                -(u64::MAX as int) <= diff as int <= u64::MAX as int,
        ;
    }
    let wide: i128 = u as i128 * diff;
    proof {
        assert(sabs(wide as int) <= 0x1_0000_0000_0000_0000_0000) by (nonlinear_arith)
            requires
                wide as int == (u as int) * (diff as int),
                0 <= (u as int) < 65536,
                -(u64::MAX as int) <= diff as int <= u64::MAX as int,
        ;
    }
    let scaled: i128 = crate::fixed::tdiv_i128(wide, FP as i128);
    crate::fixed::clip_i128(min as i128 + scaled)
}

/// The point drawn by `Vector3::random` from stream state `s`, and the
/// state that remains.
pub open spec fn spec_random(s: u64) -> (V3, u64) {
    let s1 = rng_next_state(s);
    let s2 = rng_next_state(s1);
    let s3 = rng_next_state(s2);
    (V3 { x: rng_unit(s), y: rng_unit(s1), z: rng_unit(s2) }, s3)
}

/// The point drawn by `Vector3::random_in_range` from stream state `s`,
/// and the state that remains.
pub open spec fn spec_random_in_range(s: u64, min: int, max: int) -> (V3, u64) {
    let s1 = rng_next_state(s);
    let s2 = rng_next_state(s1);
    let s3 = rng_next_state(s2);
    (
        V3 {
            x: range_sample(rng_unit(s), min, max),
            y: range_sample(rng_unit(s1), min, max),
            z: range_sample(rng_unit(s2), min, max),
        },
        s3,
    )
}

/// The unit-ball point that `Vector3::random_in_unit_sphere` draws from
/// stream state `s` with the given number of tries left, and the state
/// that remains.
#[verifier::opaque]
pub open spec fn spec_random_in_unit_sphere(s: u64, tries: nat) -> (V3, u64)
    decreases tries,
{
    if tries == 0 {
        (V3 { x: 0, y: 0, z: FP_HALF as int }, s)
    } else {
        let pr = spec_random_in_range(s, -FP as int, FP as int);
        if 1 <= v3_lensq(pr.0) < FP as int {
            pr
        } else {
            spec_random_in_unit_sphere(pr.1, (tries - 1) as nat)
        }
    }
}

/// The direction that `Vector3::random_unit_vector` draws from stream
/// state `s`, and the state that remains.
pub open spec fn spec_random_unit_vector(s: u64) -> (V3, u64) {
    let pr = spec_random_in_unit_sphere(s, RIUS_TRIES as nat);
    (v3_unit(pr.0), pr.1)
}

} // verus!
