//! Rays, the sky gradient, and the recursive path integrator.

use vstd::prelude::*;

use crate::fixed::{add_fx, fx_add, fx_mul, fx_sub, mul_fx, sub_fx, FP, FP_HALF};
use crate::hittable::{spec_empty_rec, spec_list_hit, HitRecord, HittableList, HittableV};
use crate::rng::Rng;
use crate::vector3::{
    lemma_unit_components_bounded, spec_random_unit_vector, v3_add, v3_fits, v3_length, v3_scale,
    v3_sq_sum, v3_sub, v3_unit, v3_zero, Color3, Point3, Vector3, V3,
};

verus! {

/// Hits closer than this to the ray origin are ignored when bouncing,
/// so that a bounce ray does not immediately re-hit its own surface
/// (shadow acne). About one thousandth of a unit.
pub const T_MIN_BOUNCE: i64 = 65;

/// Upper bound of the search window for hits: effectively unbounded.
pub const T_MAX_BOUNCE: i64 = i64::MAX;

/// The mathematical value of a `Ray`.
pub ghost struct RayV {
    pub origin: V3,
    pub direction: V3,
}

/// A ray: all points `origin + t * direction` for `t >= 0`.
#[derive(Clone, Copy)]
pub struct Ray {
    pub origin: Point3,
    pub direction: Vector3,
}

impl View for Ray {
    type V = RayV;

    open spec fn view(&self) -> RayV {
        RayV { origin: self.origin@, direction: self.direction@ }
    }
}

/// The point of the ray at parameter `t`.
pub open spec fn spec_ray_at(r: RayV, t: int) -> V3 {
    v3_add(r.origin, v3_scale(r.direction, t))
}

impl Ray {
    pub fn new(origin: Point3, direction: Vector3) -> (r: Self)
        ensures
            r@ == (RayV { origin: origin@, direction: direction@ }),
    {
        Ray { origin, direction }
    }

    pub fn at(&self, t: i64) -> (r: Point3)
        ensures
            r@ == spec_ray_at(self@, t as int),
    {
        self.origin.add(self.direction.mul(t))
    }

    pub fn origin(self) -> (r: Vector3)
        ensures
            r@ == self@.origin,
    {
        self.origin
    }

    pub fn direction(&self) -> (r: Vector3)
        ensures
            r@ == self@.direction,
    {
        self.direction
    }
}

/// Pure white.
pub open spec fn v3_white() -> V3 {
    V3 { x: FP as int, y: FP as int, z: FP as int }
}

/// The sky color at the top of the gradient: `(0.5, 0.7, 1.0)` in
/// fixed-point form.
pub open spec fn v3_sky_blue() -> V3 {
    V3 { x: FP_HALF as int, y: 45875, z: FP as int }
}

/// The sky gradient seen by a ray that hits nothing: white blended
/// toward sky blue as the unit direction points upward. The zero
/// direction, which cannot be normalized, reads as level.
pub open spec fn spec_background(dir: V3) -> V3 {
    let u = if v3_length(dir) >= 1 {
        v3_unit(dir)
    } else {
        v3_zero()
    };
    let t = fx_mul(FP_HALF as int, fx_add(u.y, FP as int));
    v3_add(v3_scale(v3_white(), fx_sub(FP as int, t)), v3_scale(v3_sky_blue(), t))
}

/// The sky gradient for a ray pointing in `dir`.
pub fn background_color(dir: Vector3) -> (r: Color3)
    ensures
        r@ == spec_background(dir@),
        0 <= r.x <= FP && 0 <= r.y <= FP && 0 <= r.z <= FP,
{
    proof {
        lemma_background_bounded(dir@);
    }
    let len: i64 = dir.length();
    let u: Vector3 = if len >= 1 {
        Vector3::unit_vector(dir)
    } else {
        Vector3::zero()
    };
    let t: i64 = mul_fx(FP_HALF, add_fx(u.y(), FP));
    let white: Color3 = Vector3::new(FP, FP, FP);
    let sky: Color3 = Vector3::new(FP_HALF, 45875, FP);
    white.mul(sub_fx(FP, t)).add(sky.mul(t))
}

/// One channel of the gradient blend stays within `[0, 1]`: the two
/// weights sum to one, and neither endpoint color exceeds full
/// intensity.
proof fn lemma_blend_channel(w: int, k: int, t: int)
    requires
        0 <= w <= FP as int,
        0 <= k <= FP as int,
        0 <= t <= FP as int,
    ensures
        0 <= fx_add(fx_mul(w, fx_sub(FP as int, t)), fx_mul(k, t)) <= FP as int,
{
    let fp = FP as int;
    let sp = fp - t;
    assert(fx_sub(fp, t) == sp);
    assert(0 <= w * sp && 0 <= k * t && w * sp + k * t <= fp * fp) by (nonlinear_arith)
        requires
            0 <= w <= fp,
            0 <= k <= fp,
            0 <= t <= fp,
            sp == fp - t,
    ;
    crate::fixed::lemma_tdiv_bounds(w * sp, fp);
    crate::fixed::lemma_tdiv_bounds(k * t, fp);
    crate::fixed::lemma_tdiv_superadd(w * sp, k * t, fp);
    crate::fixed::lemma_tdiv_mul_cancel(fp, fp);
    crate::fixed::lemma_tdiv_ordered(w * sp + k * t, fp * fp, fp);
}

/// The background never leaves the color cube: every channel of the
/// gradient lies in `[0, 1]`, whatever the direction.
pub proof fn lemma_background_bounded(d: V3)
    requires
        v3_fits(d),
    ensures
        0 <= spec_background(d).x <= FP as int,
        0 <= spec_background(d).y <= FP as int,
        0 <= spec_background(d).z <= FP as int,
{
    let fp = FP as int;
    let u = if v3_length(d) >= 1 {
        v3_unit(d)
    } else {
        v3_zero()
    };
    if v3_length(d) >= 1 {
        lemma_unit_components_bounded(d);
    }
    assert(-fp <= u.y <= fp);
    let e = u.y + fp;
    assert(fx_add(u.y, fp) == e);
    assert(0 <= 32768 * e && 32768 * e <= fp * fp) by (nonlinear_arith)
        requires
            0 <= e <= 2 * fp,
            fp == 65536,
    ;
    crate::fixed::lemma_tdiv_bounds(32768 * e, fp);
    crate::fixed::lemma_tdiv_mul_cancel(fp, fp);
    crate::fixed::lemma_tdiv_ordered(32768 * e, fp * fp, fp);
    let t = fx_mul(FP_HALF as int, e);
    assert(0 <= t <= fp);
    lemma_blend_channel(fp, FP_HALF as int, t);
    lemma_blend_channel(fp, 45875, t);
    lemma_blend_channel(fp, fp, t);
}

/// At the gradient's extremes the background is pure: a ray pointing
/// straight up sees the full sky blue, one pointing straight down sees
/// pure white.
pub proof fn lemma_background_vertical()
    ensures
        spec_background(V3 { x: 0, y: FP as int, z: 0 }) == v3_sky_blue(),
        spec_background(V3 { x: 0, y: -(FP as int), z: 0 }) == v3_white(),
{
    let up = V3 { x: 0, y: FP as int, z: 0 };
    let down = V3 { x: 0, y: -(FP as int), z: 0 };
    // Evaluate the fixed-point products and quotients that the
    // gradient formula meets on these two directions.
    crate::fixed::lemma_tdiv_mul_cancel(0, 65536);
    crate::fixed::lemma_tdiv_mul_cancel(65536, 65536);
    crate::fixed::lemma_tdiv_mul_cancel(-65536, 65536);
    crate::fixed::lemma_tdiv_mul_cancel(32768, 65536);
    crate::fixed::lemma_tdiv_mul_cancel(-32768, 65536);
    crate::fixed::lemma_tdiv_mul_cancel(45875, 65536);
    assert(v3_sq_sum(up) == 4294967296);
    assert(v3_sq_sum(down) == 4294967296) by {
        assert((-65536) * (-65536) == 4294967296) by (nonlinear_arith);
    }
    crate::fixed::lemma_isqrt_unique(4294967296, 65536);
    assert(v3_length(up) == FP as int);
    assert(v3_length(down) == FP as int);
    assert(v3_unit(up) == up);
    assert(v3_unit(down) == down);
    assert(fx_mul(FP_HALF as int, fx_add(FP as int, FP as int)) == FP as int);
    assert(fx_mul(FP_HALF as int, fx_add(-(FP as int), FP as int)) == 0);
    assert(v3_scale(v3_white(), 0) == v3_zero());
    assert(v3_scale(v3_sky_blue(), FP as int) == v3_sky_blue());
    assert(v3_scale(v3_white(), FP as int) == v3_white());
    assert(v3_scale(v3_sky_blue(), 0) == v3_zero());
}

/// The color seen along a ray, and the stream state left behind:
/// black when the bounce budget is spent; half the color of the diffuse
/// bounce when something is hit; the sky gradient otherwise.
pub open spec fn spec_ray_color(r: RayV, objs: Seq<HittableV>, depth: nat, s: u64) -> (V3, u64)
    decreases depth,
{
    if depth == 0 {
        (v3_zero(), s)
    } else {
        let scan = spec_list_hit(
            objs,
            objs.len() as int,
            r,
            T_MIN_BOUNCE as int,
            T_MAX_BOUNCE as int,
            spec_empty_rec(),
        );
        if scan.0 {
            let rec = scan.2;
            let draw = spec_random_unit_vector(s);
            let target = v3_add(v3_add(rec.p, rec.normal), draw.0);
            let bounce = RayV { origin: rec.p, direction: v3_sub(target, rec.p) };
            let rest = spec_ray_color(bounce, objs, (depth - 1) as nat, draw.1);
            (v3_scale(rest.0, FP_HALF as int), rest.1)
        } else {
            (spec_background(r.direction), s)
        }
    }
}

/// The color the integrator estimates stays inside the color cube:
/// black at exhausted depth, a bounded background on a miss, and half
/// of a bounded color per bounce.
pub proof fn lemma_ray_color_bounded(r: RayV, objs: Seq<HittableV>, depth: nat, s: u64)
    requires
        v3_fits(r.direction),
    ensures
        0 <= spec_ray_color(r, objs, depth, s).0.x <= FP as int,
        0 <= spec_ray_color(r, objs, depth, s).0.y <= FP as int,
        0 <= spec_ray_color(r, objs, depth, s).0.z <= FP as int,
    decreases depth,
{
    if depth > 0 {
        let scan = spec_list_hit(
            objs,
            objs.len() as int,
            r,
            T_MIN_BOUNCE as int,
            T_MAX_BOUNCE as int,
            spec_empty_rec(),
        );
        if scan.0 {
            let rec = scan.2;
            let draw = spec_random_unit_vector(s);
            let target = v3_add(v3_add(rec.p, rec.normal), draw.0);
            let bounce = RayV { origin: rec.p, direction: v3_sub(target, rec.p) };
            assert(v3_fits(bounce.direction));
            lemma_ray_color_bounded(bounce, objs, (depth - 1) as nat, draw.1);
            let rest = spec_ray_color(bounce, objs, (depth - 1) as nat, draw.1);
            lemma_half_channel(rest.0.x);
            lemma_half_channel(rest.0.y);
            lemma_half_channel(rest.0.z);
        } else {
            lemma_background_bounded(r.direction);
        }
    }
}

/// Halving a channel keeps it inside the color cube.
proof fn lemma_half_channel(c: int)
    requires
        0 <= c <= FP as int,
    ensures
        0 <= fx_mul(c, FP_HALF as int) <= FP as int,
{
    let fp = FP as int;
    assert(0 <= c * 32768 && c * 32768 <= 32768 * fp) by (nonlinear_arith)
        requires
            0 <= c <= fp,
    ;
    crate::fixed::lemma_tdiv_bounds(c * 32768, fp);
    crate::fixed::lemma_tdiv_mul_cancel(32768, fp);
    crate::fixed::lemma_tdiv_ordered(c * 32768, 32768 * fp, fp);
}

/// The color seen along `r` in the scene `world`, bouncing at most
/// `depth` times, drawing bounce directions from `rng`.
pub fn ray_color(r: Ray, world: &HittableList, depth: u32, rng: &mut Rng) -> (c: Color3)
    ensures
        c@ == spec_ray_color(r@, world@, depth as nat, old(rng).state).0,
        final(rng).state == spec_ray_color(r@, world@, depth as nat, old(rng).state).1,
        depth == 0 ==> c@ == v3_zero(),
        0 <= c.x <= FP && 0 <= c.y <= FP && 0 <= c.z <= FP,
    decreases depth,
{
    proof {
        lemma_ray_color_bounded(r@, world@, depth as nat, old(rng).state);
    }
    let mut hit_record: HitRecord = HitRecord::new();

    if depth == 0 {
        return Color3::zero();
    }
    if world.hit(r, T_MIN_BOUNCE, T_MAX_BOUNCE, &mut hit_record) {
        let draw: Vector3 = Vector3::random_unit_vector(rng);
        let target: Point3 = hit_record.p.add(hit_record.normal).add(draw);
        let bounce: Ray = Ray::new(hit_record.p, target.sub(hit_record.p));
        let rest: Color3 = ray_color(bounce, world, depth - 1, rng);
        rest.mul(FP_HALF)
    } else {
        background_color(r.direction())
    }
}

} // verus!
