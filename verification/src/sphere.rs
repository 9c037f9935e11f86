//! Spheres and the quadratic ray-sphere intersection test.

use vstd::prelude::*;

use crate::fixed::{
    add_fx, div_fx, fx_add, fx_div, fx_mul, fx_neg, fx_sqrt, fx_sub, mul_fx, neg_fx, sqrt_fx,
    sabs, sub_fx, tdiv, FP,
};
use crate::hittable::{spec_face_normal, HitRecV, HitRecord};
use crate::ray::{spec_ray_at, Ray, RayV};
use crate::vector3::{v3_div, v3_dot, v3_lensq, v3_sub, Point3, Vector3, V3};

verus! {

/// The mathematical value of a `Sphere`.
pub ghost struct SphereV {
    pub center: V3,
    pub radius: int,
}

/// A sphere, given by center and radius. A radius below one fixed-point
/// step is degenerate: such a sphere hits nothing.
pub struct Sphere {
    pub center: Point3,
    pub radius: i64,
}

impl View for Sphere {
    type V = SphereV;

    open spec fn view(&self) -> SphereV {
        SphereV { center: self.center@, radius: self.radius as int }
    }
}

/// The half-b form of the quadratic coefficients for a ray against a
/// sphere: `a = |D|^2`, `half_b = oc . D`, `c = |oc|^2 - r^2`, with
/// `oc` the origin relative to the center.
pub open spec fn spec_sphere_a(s: SphereV, r: RayV) -> int {
    v3_lensq(r.direction)
}

pub open spec fn spec_sphere_half_b(s: SphereV, r: RayV) -> int {
    v3_dot(v3_sub(r.origin, s.center), r.direction)
}

pub open spec fn spec_sphere_c(s: SphereV, r: RayV) -> int {
    fx_sub(v3_lensq(v3_sub(r.origin, s.center)), fx_mul(s.radius, s.radius))
}

/// The discriminant of the quadratic: real roots exist only when it is
/// nonnegative.
pub open spec fn spec_sphere_disc(s: SphereV, r: RayV) -> int {
    fx_sub(
        fx_mul(spec_sphere_half_b(s, r), spec_sphere_half_b(s, r)),
        fx_mul(spec_sphere_a(s, r), spec_sphere_c(s, r)),
    )
}

/// The smaller root of the quadratic.
pub open spec fn spec_sphere_root1(s: SphereV, r: RayV) -> int {
    fx_div(
        fx_sub(fx_neg(spec_sphere_half_b(s, r)), fx_sqrt(spec_sphere_disc(s, r))),
        spec_sphere_a(s, r),
    )
}

/// The larger root of the quadratic.
pub open spec fn spec_sphere_root2(s: SphereV, r: RayV) -> int {
    fx_div(
        fx_add(fx_neg(spec_sphere_half_b(s, r)), fx_sqrt(spec_sphere_disc(s, r))),
        spec_sphere_a(s, r),
    )
}

/// The record stored for a hit of sphere `s` at ray parameter `t`.
pub open spec fn spec_sphere_rec(s: SphereV, r: RayV, t: int) -> HitRecV {
    let p = spec_ray_at(r, t);
    let outward = v3_div(v3_sub(p, s.center), s.radius);
    let fnorm = spec_face_normal(r, outward);
    HitRecV { p: p, normal: fnorm.0, t: t, front_face: fnorm.1 }
}

/// The hit a sphere reports within `[t_min, t_max]`: none when the
/// sphere or the ray direction is degenerate or the discriminant is
/// negative; otherwise the smaller root if it lies in the window, else
/// the larger root if it does, else none.
#[verifier::opaque]
pub open spec fn spec_sphere_hit(s: SphereV, r: RayV, t_min: int, t_max: int) -> Option<HitRecV> {
    if s.radius < 1 || spec_sphere_a(s, r) < 1 {
        Option::None
    } else if spec_sphere_disc(s, r) < 0 {
        Option::None
    } else {
        let root1 = spec_sphere_root1(s, r);
        if t_min <= root1 && root1 <= t_max {
            Option::Some(spec_sphere_rec(s, r, root1))
        } else {
            let root2 = spec_sphere_root2(s, r);
            if t_min <= root2 && root2 <= t_max {
                Option::Some(spec_sphere_rec(s, r, root2))
            } else {
                Option::None
            }
        }
    }
}

/// Coordinates no larger than 128 world units in magnitude: far enough
/// from the saturation bounds that the quadratic's intermediate values
/// are exact.
pub open spec fn v3_bounded(a: V3) -> bool {
    &&& -8388608 <= a.x <= 8388608
    &&& -8388608 <= a.y <= 8388608
    &&& -8388608 <= a.z <= 8388608
}

/// The scaled square of a coordinate difference is exact and small.
proof fn lemma_fx_sq_bound(d: int)
    requires
        -16777216 <= d <= 16777216,
    ensures
        fx_mul(d, d) == tdiv(d * d, FP as int),
        fx_mul(-d, d) == -fx_mul(d, d),
        fx_mul(-d, -d) == fx_mul(d, d),
        0 <= fx_mul(d, d) <= 4294967296,
{
    assert(0 <= d * d <= 281474976710656) by (nonlinear_arith)
        requires
            -16777216 <= d <= 16777216,
    ;
    crate::fixed::lemma_tdiv_bounds(d * d, FP as int);
    crate::fixed::lemma_tdiv_mul_cancel(4294967296, FP as int);
    crate::fixed::lemma_tdiv_ordered(d * d, 281474976710656, FP as int);
    assert((-d) * d == -(d * d)) by (nonlinear_arith);
    assert((-d) * (-d) == d * d) by (nonlinear_arith);
}

/// A ray cast from strictly outside a sphere straight at its center
/// meets it: the discriminant is positive (the quadratic has two real
/// roots), and the hit reported for the forward window is the smaller
/// root, the nearer of the two.
pub proof fn lemma_sphere_hit_toward_center(s: SphereV, r: RayV, t_max: int)
    requires
        v3_bounded(r.origin),
        v3_bounded(s.center),
        FP as int <= s.radius <= 8388608,
        r.direction == v3_sub(s.center, r.origin),
        v3_lensq(v3_sub(r.origin, s.center)) > fx_mul(s.radius, s.radius),
        FP as int <= t_max,
    ensures
        spec_sphere_disc(s, r) >= 1,
        0 <= spec_sphere_root1(s, r) <= spec_sphere_root2(s, r),
        spec_sphere_hit(s, r, 0, t_max) == Option::Some(
            spec_sphere_rec(s, r, spec_sphere_root1(s, r)),
        ),
{
    reveal(spec_sphere_hit);
    let fp = FP as int;
    let dx = s.center.x - r.origin.x;
    let dy = s.center.y - r.origin.y;
    let dz = s.center.z - r.origin.z;
    lemma_fx_sq_bound(dx);
    lemma_fx_sq_bound(dy);
    lemma_fx_sq_bound(dz);
    let mx = fx_mul(dx, dx);
    let my = fx_mul(dy, dy);
    let mz = fx_mul(dz, dz);
    let a = spec_sphere_a(s, r);
    assert(r.direction == (V3 { x: dx, y: dy, z: dz }));
    assert(v3_sub(r.origin, s.center) == (V3 { x: -dx, y: -dy, z: -dz }));
    assert(a == mx + my + mz);
    assert(v3_lensq(v3_sub(r.origin, s.center)) == a);
    assert(spec_sphere_half_b(s, r) == -a);

    // The squared radius term: exact, and at least one unit.
    let r2 = fx_mul(s.radius, s.radius);
    assert(0 <= s.radius * s.radius <= 70368744177664) by (nonlinear_arith)
        requires
            0 <= s.radius <= 8388608,
    ;
    crate::fixed::lemma_tdiv_bounds(s.radius * s.radius, fp);
    crate::fixed::lemma_tdiv_mul_cancel(1073741824, fp);
    crate::fixed::lemma_tdiv_ordered(s.radius * s.radius, 70368744177664, fp);
    assert(fp * fp <= s.radius * s.radius) by (nonlinear_arith)
        requires
            fp <= s.radius,
            fp == 65536,
    ;
    crate::fixed::lemma_tdiv_mul_cancel(fp, fp);
    crate::fixed::lemma_tdiv_ordered(fp * fp, s.radius * s.radius, fp);
    assert(fp <= r2 <= 1073741824);

    let c = spec_sphere_c(s, r);
    assert(c == a - r2);
    assert(1 <= c);
    assert(a <= 12884901888);
    assert(fp + 1 <= a);

    // The discriminant: at least the scaled-down `a * r2`, hence positive.
    let x2 = a * a;
    let y2 = a * c;
    assert(0 <= y2 && x2 == y2 + a * r2 && a * r2 >= a * fp && x2 <= 166020696663385964544)
        by (nonlinear_arith)
        requires
            x2 == a * a,
            y2 == a * c,
            1 <= c,
            c == a - r2,
            fp <= r2,
            0 < fp,
            fp + 1 <= a <= 12884901888,
    ;
    let p1 = tdiv(x2, fp);
    let q1 = tdiv(y2, fp);
    crate::fixed::lemma_tdiv_bounds(x2, fp);
    crate::fixed::lemma_tdiv_bounds(y2, fp);
    crate::fixed::lemma_tdiv_mul_cancel(2533274790395904, fp);
    crate::fixed::lemma_tdiv_ordered(x2, 166020696663385964544, fp);
    assert(p1 <= 2533274790395904);
    crate::fixed::lemma_tdiv_ordered(y2, x2, fp);
    assert(fx_mul(-a, -a) == p1) by {
        assert((-a) * (-a) == x2) by (nonlinear_arith)
            requires
                x2 == a * a,
        ;
    }
    assert(fx_mul(a, c) == q1);
    // Floors add up: x2 = y2 + a*r2, so p1 >= q1 + floor(a*r2 / fp) >= q1 + a.
    let q2 = tdiv(a * r2, fp);
    crate::fixed::lemma_tdiv_bounds(a * r2, fp);
    assert(a * fp <= a * r2) by (nonlinear_arith)
        requires
            fp <= r2,
            0 < a,
    ;
    crate::fixed::lemma_tdiv_mul_cancel(a, fp);
    crate::fixed::lemma_tdiv_ordered(a * fp, a * r2, fp);
    assert(a <= q2);
    assert(x2 >= fp * (y2 / fp) + fp * ((a * r2) / fp)) by {
        vstd::arithmetic::div_mod::lemma_fundamental_div_mod(y2, fp);
        vstd::arithmetic::div_mod::lemma_fundamental_div_mod(a * r2, fp);
    }
    assert(p1 >= y2 / fp + (a * r2) / fp) by {
        vstd::arithmetic::div_mod::lemma_div_multiples_vanish(y2 / fp + (a * r2) / fp, fp);
        assert(fp * (y2 / fp) + fp * ((a * r2) / fp) == fp * (y2 / fp + (a * r2) / fp))
            by (nonlinear_arith);
        vstd::arithmetic::div_mod::lemma_div_is_ordered(
            fp * (y2 / fp + (a * r2) / fp),
            x2,
            fp,
        );
    }
    assert(p1 >= q1 + a);
    let disc = spec_sphere_disc(s, r);
    assert(disc == p1 - q1);
    assert(disc >= a >= fp + 1);

    // The square root of the discriminant stays below `a`, so the
    // smaller root is between zero and one unit.
    let sq = fx_sqrt(disc);
    assert(disc * fp <= x2) by {
        vstd::arithmetic::div_mod::lemma_fundamental_div_mod(x2, fp);
        assert(disc <= p1);
        assert(disc * fp <= p1 * fp) by (nonlinear_arith)
            requires
                disc <= p1,
                0 < fp,
        ;
        assert(p1 * fp <= x2) by (nonlinear_arith)
            requires
                x2 == fp * p1 + x2 % fp,
                x2 % fp >= 0,
        ;
    }
    crate::fixed::lemma_isqrt_monotone(disc * fp, x2);
    crate::fixed::lemma_isqrt_bounds(disc * fp);
    assert(crate::fixed::isqrt(x2) == a) by {
        assert(a * a <= x2 < (a + 1) * (a + 1)) by (nonlinear_arith)
            requires
                x2 == a * a,
                a >= 0,
        ;
        crate::fixed::lemma_isqrt_unique(x2, a);
    }
    assert(0 <= sq <= a);

    // Both roots are exact; the smaller lies in `[0, 1]` units.
    let root1 = spec_sphere_root1(s, r);
    let root2 = spec_sphere_root2(s, r);
    assert(fx_neg(-a) == a);
    assert(fx_sub(a, sq) == a - sq);
    assert(fx_add(a, sq) == a + sq);
    crate::fixed::lemma_tdiv_bounds((a - sq) * fp, a);
    crate::fixed::lemma_tdiv_bounds((a + sq) * fp, a);
    assert(0 <= (a - sq) * fp <= a * fp && 0 <= (a + sq) * fp <= 166020696663385964544)
        by (nonlinear_arith)
        requires
            0 <= sq <= a <= 12884901888,
            fp == 65536,
    ;
    crate::fixed::lemma_tdiv_mul_cancel(fp, a);
    crate::fixed::lemma_tdiv_ordered((a - sq) * fp, fp * a, a);
    assert(fp * a == a * fp) by (nonlinear_arith);
    assert(root1 == tdiv((a - sq) * fp, a));
    assert(0 <= root1 <= fp);
    crate::fixed::lemma_tdiv_ordered((a - sq) * fp, (a + sq) * fp, a);
    assert(root1 <= root2);
}

/// A ray whose direction is perpendicular to the line toward the
/// center, cast from strictly outside the sphere, misses it: the
/// closest approach is the ray's own origin, the discriminant is
/// negative, and no hit is reported for any window.
pub proof fn lemma_sphere_miss_perpendicular(s: SphereV, r: RayV, t_min: int, t_max: int)
    requires
        spec_sphere_half_b(s, r) == 0,
        spec_sphere_c(s, r) >= 1,
        spec_sphere_a(s, r) >= FP as int,
    ensures
        spec_sphere_disc(s, r) < 0,
        spec_sphere_hit(s, r, t_min, t_max) is None,
{
    reveal(spec_sphere_hit);
    let fp = FP as int;
    let a = spec_sphere_a(s, r);
    let c = spec_sphere_c(s, r);
    crate::fixed::lemma_tdiv_mul_cancel(0, fp);
    assert(fx_mul(0, 0) == 0);
    assert(a * c >= 1 * fp) by (nonlinear_arith)
        requires
            a >= fp,
            c >= 1,
            fp > 0,
    ;
    crate::fixed::lemma_tdiv_bounds(a * c, fp);
    crate::fixed::lemma_tdiv_mul_cancel(1, fp);
    crate::fixed::lemma_tdiv_ordered(1 * fp, a * c, fp);
    assert(fx_mul(a, c) >= 1);
    assert(spec_sphere_disc(s, r) <= -1);
}

/// The normal a sphere stores always faces back along the ray: the
/// record's normal is the outward normal or its exact negation,
/// whichever the ray opposes.
pub proof fn lemma_sphere_rec_normal_opposes(s: SphereV, r: RayV, t: int)
    ensures
        v3_dot(r.direction, spec_sphere_rec(s, r, t).normal) <= 0,
{
    let p = spec_ray_at(r, t);
    let outward = v3_div(v3_sub(p, s.center), s.radius);
    crate::hittable::lemma_face_normal_opposes_ray(r, outward);
}

/// Whether the quadratic for this sphere and ray has real roots at all.
pub open spec fn spec_sphere_nondegenerate(s: SphereV, r: RayV) -> bool {
    s.radius >= 1 && spec_sphere_a(s, r) >= 1 && spec_sphere_disc(s, r) >= 0
}

/// Whether `t` is one of the two roots the quadratic yields for this
/// sphere and ray.
pub open spec fn spec_sphere_is_root(s: SphereV, r: RayV, t: int) -> bool {
    spec_sphere_nondegenerate(s, r) && (t == spec_sphere_root1(s, r) || t == spec_sphere_root2(
        s,
        r,
    ))
}

/// The smaller root never exceeds the larger.
pub proof fn lemma_sphere_roots_ordered(s: SphereV, r: RayV)
    requires
        spec_sphere_a(s, r) >= 1,
        spec_sphere_disc(s, r) >= 0,
    ensures
        spec_sphere_root1(s, r) <= spec_sphere_root2(s, r),
{
    let a = spec_sphere_a(s, r);
    let hb = spec_sphere_half_b(s, r);
    let sq = fx_sqrt(spec_sphere_disc(s, r));
    crate::fixed::lemma_isqrt_bounds(spec_sphere_disc(s, r) * (FP as int));
    let n1 = fx_sub(fx_neg(hb), sq);
    let n2 = fx_add(fx_neg(hb), sq);
    crate::fixed::lemma_clip_monotone(fx_neg(hb) - sq, fx_neg(hb) + sq);
    assert(n1 * FP <= n2 * FP) by (nonlinear_arith)
        requires
            n1 <= n2,
            FP == 65536,
    ;
    crate::fixed::lemma_tdiv_ordered(n1 * FP, n2 * FP, a);
    crate::fixed::lemma_clip_monotone(tdiv(n1 * FP, a), tdiv(n2 * FP, a));
}

/// What a sphere's hit result says in terms of the quadratic's roots:
/// a reported hit is a root inside the window carrying that root's
/// record, and no root inside the window is nearer; no hit means no
/// root lies inside the window.
pub proof fn lemma_sphere_hit_roots(s: SphereV, r: RayV, t_min: int, t_max: int)
    ensures
        match spec_sphere_hit(s, r, t_min, t_max) {
            Option::Some(hv) => {
                &&& spec_sphere_is_root(s, r, hv.t)
                &&& hv == spec_sphere_rec(s, r, hv.t)
                &&& t_min <= hv.t <= t_max
                &&& forall|t: int|
                    spec_sphere_is_root(s, r, t) && t_min <= t <= t_max ==> hv.t <= t
            },
            Option::None => forall|t: int|
                spec_sphere_is_root(s, r, t) ==> !(t_min <= t <= t_max),
        },
{
    reveal(spec_sphere_hit);
    if s.radius >= 1 && spec_sphere_a(s, r) >= 1 && spec_sphere_disc(s, r) >= 0 {
        lemma_sphere_roots_ordered(s, r);
    }
}

/// The general miss law: whenever the quadratic's discriminant is
/// negative with a clear margin - which is what "the perpendicular
/// distance from the center to the ray's line exceeds the radius"
/// means for the scaled coefficients, wherever the origin sits along
/// that line - the sphere reports no hit in any window. The half-b
/// bound keeps the squared coefficient away from saturation (origins
/// and directions within thousands of world units are far inside it).
pub proof fn lemma_sphere_miss_negative_discriminant(s: SphereV, r: RayV, t_min: int, t_max: int)
    requires
        sabs(spec_sphere_half_b(s, r)) <= 549755813888,
        spec_sphere_half_b(s, r) * spec_sphere_half_b(s, r) + 2 * FP <= spec_sphere_a(s, r)
            * spec_sphere_c(s, r),
    ensures
        spec_sphere_disc(s, r) < 0,
        spec_sphere_hit(s, r, t_min, t_max) is None,
{
    reveal(spec_sphere_hit);
    let fp = FP as int;
    let hb = spec_sphere_half_b(s, r);
    let a = spec_sphere_a(s, r);
    let c = spec_sphere_c(s, r);
    let h2 = hb * hb;
    let ac = a * c;
    assert(0 <= h2 && h2 <= 302231454903657293676544) by (nonlinear_arith)
        requires
            sabs(hb) <= 549755813888,
            h2 == hb * hb,
    ;
    let p = tdiv(h2, fp);
    let q = tdiv(ac, fp);
    crate::fixed::lemma_tdiv_bounds(h2, fp);
    crate::fixed::lemma_tdiv_mul_cancel(4611686018427387904, fp);
    assert(4611686018427387904 * fp == 302231454903657293676544) by (nonlinear_arith)
        requires
            fp == 65536,
    ;
    crate::fixed::lemma_tdiv_ordered(h2, 302231454903657293676544, fp);
    assert(p <= 4611686018427387904);
    crate::fixed::lemma_tdiv_superadd(h2, 2 * fp, fp);
    crate::fixed::lemma_tdiv_mul_cancel(2, fp);
    crate::fixed::lemma_tdiv_ordered(h2 + 2 * fp, ac, fp);
    assert(q >= p + 2);
    assert(fx_mul(hb, hb) == p);
    assert(spec_sphere_disc(s, r) < 0);
}

impl Sphere {
    pub fn new(center: Point3, radius: i64) -> (r: Self)
        ensures
            r@ == (SphereV { center: center@, radius: radius as int }),
    {
        Sphere { center, radius }
    }

    /// The quadratic surface test, in the half-b form: finds the
    /// nearest root of `|O + tD - C|^2 = r^2` inside `[t_min, t_max]`
    /// and fills `rec` with point, oriented normal and parameter;
    /// leaves `rec` alone when there is no such root.
    pub fn hit(&self, ray: Ray, t_min: i64, t_max: i64, hr: &mut HitRecord) -> (b: bool)
        ensures
            match spec_sphere_hit(self@, ray@, t_min as int, t_max as int) {
                Option::Some(hv) => b && final(hr)@ == hv,
                Option::None => !b && *final(hr) == *old(hr),
            },
            b ==> t_min <= final(hr).t <= t_max,
    {
        proof {
            reveal(spec_sphere_hit);
        }
        if self.radius < 1 {
            return false;
        }
        let oc: Vector3 = ray.origin().sub(self.center);
        let a: i64 = ray.direction().length_squared();
        if a < 1 {
            return false;
        }
        let half_b: i64 = Vector3::dot(&oc, &ray.direction());
        let c: i64 = sub_fx(oc.length_squared(), mul_fx(self.radius, self.radius));

        let discriminant: i64 = sub_fx(mul_fx(half_b, half_b), mul_fx(a, c));
        if discriminant < 0 {
            return false;
        }
        let sqrtd: i64 = sqrt_fx(discriminant);

        // Find the nearest root that lies in the acceptable range.
        let mut root: i64 = div_fx(sub_fx(neg_fx(half_b), sqrtd), a);
        if root < t_min || t_max < root {
            root = div_fx(add_fx(neg_fx(half_b), sqrtd), a);
            if root < t_min || t_max < root {
                return false;
            }
        }
        hr.t = root;
        hr.p = ray.at(root);
        let outward_normal: Vector3 = hr.p.sub(self.center).div(self.radius);
        hr.set_face_normal(ray, outward_normal);
        true
    }
}

} // verus!
