//! Surfaces a ray can hit, hit records, and the scene that aggregates
//! nearest-hit queries over all of its objects.

use vstd::prelude::*;

use crate::ray::{Ray, RayV};
use crate::sphere::{spec_sphere_hit, Sphere, SphereV};
use crate::vector3::{v3_dot, v3_neg, v3_zero, Point3, Vector3, V3};

verus! {

/// The mathematical value of a `HitRecord`.
pub ghost struct HitRecV {
    pub p: V3,
    pub normal: V3,
    pub t: int,
    pub front_face: bool,
}

/// Where a ray met a surface: the point, the unit surface normal turned
/// against the ray, the ray parameter of the hit, and whether the ray
/// arrived from the outward-normal side.
#[derive(Clone, Copy)]
pub struct HitRecord {
    pub p: Point3,
    pub normal: Vector3,
    pub t: i64,
    pub front_face: bool,
}

impl View for HitRecord {
    type V = HitRecV;

    open spec fn view(&self) -> HitRecV {
        HitRecV { p: self.p@, normal: self.normal@, t: self.t as int, front_face: self.front_face }
    }
}

/// The record a fresh scan starts from.
pub open spec fn spec_empty_rec() -> HitRecV {
    HitRecV { p: v3_zero(), normal: v3_zero(), t: 0, front_face: false }
}

/// The normal and orientation flag stored for a hit: the outward normal
/// if the ray opposes it, else its negation, so that the stored normal
/// always faces the ray origin side.
pub open spec fn spec_face_normal(r: RayV, outward: V3) -> (V3, bool) {
    let front = v3_dot(r.direction, outward) < 0;
    (
        if front {
            outward
        } else {
            v3_neg(outward)
        },
        front,
    )
}

/// The stored normal never points with the ray: on the front face it
/// is the outward normal, which the ray opposes; on the back face it is
/// the exact negation of an outward normal the ray does not oppose.
/// (The outward normal may not sit at the far end of the range, where
/// negation saturates; normals produced by the intersection tests are
/// saturated quotients and always qualify.)
pub proof fn lemma_face_normal_opposes_ray(r: RayV, outward: V3)
    requires
        -(i64::MAX as int) <= outward.x <= i64::MAX as int,
        -(i64::MAX as int) <= outward.y <= i64::MAX as int,
        -(i64::MAX as int) <= outward.z <= i64::MAX as int,
    ensures
        v3_dot(r.direction, spec_face_normal(r, outward).0) <= 0,
{
    if v3_dot(r.direction, outward) >= 0 {
        crate::vector3::lemma_dot_with_neg(r.direction, outward);
    }
}

impl HitRecord {
    pub fn new() -> (r: Self)
        ensures
            r@ == spec_empty_rec(),
    {
        HitRecord {
            p: Vector3::new(0, 0, 0),
            normal: Vector3::new(0, 0, 0),
            t: 0,
            front_face: false,
        }
    }

    /// Stores the normal turned against the ray, and remembers which
    /// side the ray came from.
    pub fn set_face_normal(&mut self, r: Ray, outward_normal: Vector3)
        ensures
            final(self).p == old(self).p,
            final(self).t == old(self).t,
            final(self)@.normal == spec_face_normal(r@, outward_normal@).0,
            final(self).front_face == spec_face_normal(r@, outward_normal@).1,
    {
        self.front_face = Vector3::dot(&r.direction(), &outward_normal) < 0;
        if self.front_face {
            self.normal = outward_normal;
        } else {
            self.normal = outward_normal.neg();
        }
    }

    pub fn set_front_face(&mut self, v: bool)
        ensures
            *final(self) == (HitRecord { front_face: v, ..*old(self) }),
    {
        self.front_face = v
    }
}

impl Default for HitRecord {
    fn default() -> (r: Self)
        ensures
            r@ == spec_empty_rec(),
    {
        HitRecord::new()
    }
}

/// The mathematical value of a `Hittable`.
pub ghost enum HittableV {
    Sphere(SphereV),
}

/// Anything a ray can intersect: a closed set of surface variants.
pub enum Hittable {
    Sphere(Sphere),
}

impl View for Hittable {
    type V = HittableV;

    open spec fn view(&self) -> HittableV {
        match self {
            Hittable::Sphere(s) => HittableV::Sphere(s@),
        }
    }
}

/// The hit a single surface reports within the window `[t_min, t_max]`.
pub open spec fn spec_hittable_hit(h: HittableV, r: RayV, t_min: int, t_max: int) -> Option<
    HitRecV,
> {
    match h {
        HittableV::Sphere(s) => spec_sphere_hit(s, r, t_min, t_max),
    }
}

impl Hittable {
    /// Reports this surface's nearest hit within `[t_min, t_max]`,
    /// writing it into `rec`; leaves `rec` alone when there is none.
    pub fn hit(&self, ray: Ray, t_min: i64, t_max: i64, rec: &mut HitRecord) -> (b: bool)
        ensures
            match spec_hittable_hit(self@, ray@, t_min as int, t_max as int) {
                Option::Some(hv) => b && final(rec)@ == hv,
                Option::None => !b && *final(rec) == *old(rec),
            },
            b ==> t_min <= final(rec).t <= t_max,
    {
        match self {
            Hittable::Sphere(s) => s.hit(ray, t_min, t_max, rec),
        }
    }
}

/// The state of a scan over the first `n` objects: whether anything was
/// hit, the upper bound of the remaining search window, and the record
/// of the nearest hit so far (or the starting record `rec0`).
pub open spec fn spec_list_hit(
    objs: Seq<HittableV>,
    n: int,
    r: RayV,
    t_min: int,
    t_max: int,
    rec0: HitRecV,
) -> (bool, int, HitRecV)
    decreases n,
{
    if n <= 0 {
        (false, t_max, rec0)
    } else {
        let prev = spec_list_hit(objs, n - 1, r, t_min, t_max, rec0);
        match spec_hittable_hit(objs[n - 1], r, t_min, prev.1) {
            Option::Some(hv) => (true, hv.t, hv),
            Option::None => prev,
        }
    }
}

/// Whether `t` is a root that the surface's geometry yields for `r`.
pub open spec fn spec_hittable_is_root(h: HittableV, r: RayV, t: int) -> bool {
    match h {
        HittableV::Sphere(s) => crate::sphere::spec_sphere_is_root(s, r, t),
    }
}

/// The record the surface stores for a hit at `t`.
pub open spec fn spec_hittable_rec_at(h: HittableV, r: RayV, t: int) -> HitRecV {
    match h {
        HittableV::Sphere(s) => crate::sphere::spec_sphere_rec(s, r, t),
    }
}

/// What one surface's hit result says in terms of its roots.
pub proof fn lemma_hittable_hit_roots(h: HittableV, r: RayV, t_min: int, t_max: int)
    ensures
        match spec_hittable_hit(h, r, t_min, t_max) {
            Option::Some(hv) => {
                &&& spec_hittable_is_root(h, r, hv.t)
                &&& hv == spec_hittable_rec_at(h, r, hv.t)
                &&& t_min <= hv.t <= t_max
                &&& forall|t: int|
                    spec_hittable_is_root(h, r, t) && t_min <= t <= t_max ==> hv.t <= t
            },
            Option::None => forall|t: int|
                spec_hittable_is_root(h, r, t) ==> !(t_min <= t <= t_max),
        },
{
    match h {
        HittableV::Sphere(s) => crate::sphere::lemma_sphere_hit_roots(s, r, t_min, t_max),
    }
}

/// The scan over a scene returns the globally nearest hit: whatever
/// order the objects stand in, a reported record is some object's root
/// inside the original window, and no object has a nearer root there;
/// when nothing is reported, no object has a root inside the window at
/// all.
pub proof fn lemma_list_hit_nearest(
    objs: Seq<HittableV>,
    n: int,
    r: RayV,
    t_min: int,
    t_max: int,
    rec0: HitRecV,
)
    requires
        0 <= n <= objs.len(),
    ensures
        ({
            let st = spec_list_hit(objs, n, r, t_min, t_max, rec0);
            &&& st.1 <= t_max
            &&& (st.0 ==> {
                &&& t_min <= st.1 <= t_max
                &&& st.2.t == st.1
                &&& exists|j: int|
                    0 <= j < n && spec_hittable_is_root(objs[j], r, st.1) && st.2
                        == spec_hittable_rec_at(objs[j], r, st.1)
            })
            &&& (!st.0 ==> st == (false, t_max, rec0))
            &&& forall|j: int, t: int|
                0 <= j < n && spec_hittable_is_root(objs[j], r, t) && t_min <= t <= t_max
                    ==> st.1 <= t
            &&& (!st.0 ==> forall|j: int, t: int|
                0 <= j < n && spec_hittable_is_root(objs[j], r, t) ==> !(t_min <= t <= t_max))
        }),
    decreases n,
{
    if n > 0 {
        lemma_list_hit_nearest(objs, n - 1, r, t_min, t_max, rec0);
        let prev = spec_list_hit(objs, n - 1, r, t_min, t_max, rec0);
        let st = spec_list_hit(objs, n, r, t_min, t_max, rec0);
        lemma_hittable_hit_roots(objs[n - 1], r, t_min, prev.1);
        match spec_hittable_hit(objs[n - 1], r, t_min, prev.1) {
            Option::Some(hv) => {
                assert(st == (true, hv.t, hv));
                assert(spec_hittable_is_root(objs[n - 1], r, st.1) && st.2
                    == spec_hittable_rec_at(objs[n - 1], r, st.1));
                assert forall|j: int, t: int|
                    0 <= j < n && spec_hittable_is_root(objs[j], r, t) && t_min <= t
                        <= t_max implies st.1 <= t by {
                    if j < n - 1 {
                        assert(prev.1 <= t);
                    } else {
                        if t <= prev.1 {
                            assert(hv.t <= t);
                        }
                    }
                }
            },
            Option::None => {
                assert(st == prev);
                assert forall|j: int, t: int|
                    0 <= j < n && spec_hittable_is_root(objs[j], r, t) && t_min <= t
                        <= t_max implies st.1 <= t by {
                    if j == n - 1 {
                        assert(!(t_min <= t <= prev.1));
                    }
                }
                if !st.0 {
                    assert forall|j: int, t: int|
                        0 <= j < n && spec_hittable_is_root(objs[j], r, t) implies !(t_min <= t
                        <= t_max) by {
                        if j == n - 1 {
                            assert(!(t_min <= t <= prev.1));
                        }
                    }
                }
            },
        }
    }
}

/// An ordered collection of hittable objects, queried as one surface.
pub struct HittableList {
    pub objects: Vec<Hittable>,
}

impl View for HittableList {
    type V = Seq<HittableV>;

    open spec fn view(&self) -> Seq<HittableV> {
        self.objects@.map_values(|h: Hittable| h@)
    }
}

impl Default for HittableList {
    fn default() -> (r: Self)
        ensures
            r@ == Seq::<HittableV>::empty(),
    {
        let r = HittableList { objects: Vec::new() };
        proof {
            assert(r@ =~= Seq::<HittableV>::empty());
        }
        r
    }
}

impl HittableList {
    /// Appends an object to the scene.
    pub fn add(&mut self, hittable: Hittable)
        ensures
            final(self)@ == old(self)@.push(hittable@),
    {
        let ghost hv: HittableV = hittable@;
        self.objects.push(hittable);
        proof {
            assert(self@ =~= old(self)@.push(hv));
        }
    }

    /// Scans every object and reports the nearest hit within
    /// `[t_min, t_max]`, narrowing the window to the best hit found so
    /// far as it goes.
    #[verifier::loop_isolation(false)]
    pub fn hit(&self, ray: Ray, t_min: i64, t_max: i64, rec: &mut HitRecord) -> (b: bool)
        ensures
            ({
                let scan = spec_list_hit(
                    self@,
                    self@.len() as int,
                    ray@,
                    t_min as int,
                    t_max as int,
                    old(rec)@,
                );
                b == scan.0 && final(rec)@ == scan.2 && (b ==> final(rec).t as int == scan.1)
            }),
            b ==> t_min <= final(rec).t <= t_max,
    {
        let mut hit_anything: bool = false;
        let mut closest_so_far: i64 = t_max;
        let n: usize = self.objects.len();
        let mut i: usize = 0;
        while i < n
            invariant
                i <= n,
                ({
                    let scan = spec_list_hit(
                        self@,
                        i as int,
                        ray@,
                        t_min as int,
                        t_max as int,
                        old(rec)@,
                    );
                    hit_anything == scan.0 && closest_so_far as int == scan.1 && rec@ == scan.2
                }),
                hit_anything ==> closest_so_far as int == rec@.t,
            decreases n - i,
        {
            proof {
                assert(self@[i as int] == self.objects@[i as int]@);
            }
            if self.objects[i].hit(ray, t_min, closest_so_far, rec) {
                hit_anything = true;
                closest_so_far = rec.t;
            }
            i = i + 1;
        }
        proof {
            assert(self@.len() == self.objects@.len());
            lemma_list_hit_nearest(
                self@,
                self@.len() as int,
                ray@,
                t_min as int,
                t_max as int,
                old(rec)@,
            );
        }
        hit_anything
    }
}

} // verus!
