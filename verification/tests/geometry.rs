use raytracer::camera::{Camera, ASPECT_RATIO, FOCAL_LENGTH, VIEWPORT_HEIGHT, VIEWPORT_WIDTH};
use raytracer::fixed::FP;
use raytracer::hittable::{HitRecord, Hittable, HittableList};
use raytracer::ray::{background_color, ray_color, Ray};
use raytracer::rng::Rng;
use raytracer::sphere::Sphere;
use raytracer::vector3::Vector3;

/// The fixed-point form of a real value.
fn fx(v: f64) -> i64 {
    (v * 65536.0) as i64
}

#[test]
fn test_at() {}

#[test]
fn ray_at_walks_the_ray() {
    let r = Ray::new(Vector3::new(0, 0, 0), Vector3::new(0, 0, fx(-1.0)));
    assert_eq!(r.at(fx(2.5)), Vector3::new(0, 0, fx(-2.5)));
    assert_eq!(r.origin(), Vector3::new(0, 0, 0));
    assert_eq!(r.direction(), Vector3::new(0, 0, fx(-1.0)));
}

#[test]
fn sphere_hit_toward_center_picks_near_root() {
    // A unit-length ray straight at a sphere half a unit across, one
    // unit away: the near root is exactly half a unit out.
    let s = Sphere::new(Vector3::new(0, 0, fx(-1.0)), fx(0.5));
    let r = Ray::new(Vector3::new(0, 0, 0), Vector3::new(0, 0, fx(-1.0)));
    let mut rec = HitRecord::new();
    assert!(s.hit(r, 0, i64::MAX, &mut rec));
    assert_eq!(rec.t, fx(0.5));
    assert_eq!(rec.p, Vector3::new(0, 0, fx(-0.5)));
    assert_eq!(rec.normal, Vector3::new(0, 0, fx(1.0)));
    assert!(rec.front_face);
}

#[test]
fn sphere_hit_from_inside_flips_normal() {
    // From the center, the ray leaves through the far side: the stored
    // normal is turned back against the ray.
    let s = Sphere::new(Vector3::new(0, 0, 0), fx(0.5));
    let r = Ray::new(Vector3::new(0, 0, 0), Vector3::new(0, 0, fx(-1.0)));
    let mut rec = HitRecord::new();
    assert!(s.hit(r, 0, i64::MAX, &mut rec));
    assert_eq!(rec.t, fx(0.5));
    assert!(!rec.front_face);
    assert_eq!(rec.normal, Vector3::new(0, 0, fx(1.0)));
}

#[test]
fn sphere_missed_by_perpendicular_ray() {
    // The ray runs perpendicular to the line toward the center, two
    // units off a sphere of radius one: no hit, record untouched.
    let s = Sphere::new(Vector3::new(fx(2.0), 0, 0), fx(1.0));
    let r = Ray::new(Vector3::new(0, 0, 0), Vector3::new(0, fx(1.0), 0));
    let mut rec = HitRecord::new();
    let before = rec;
    assert!(!s.hit(r, 0, i64::MAX, &mut rec));
    assert_eq!(rec.t, before.t);
    assert_eq!(rec.p, before.p);
}

#[test]
fn sphere_missed_from_anywhere_on_the_line() {
    // Same perpendicular line as above, but cast from well below the
    // closest approach: the offset from the line still exceeds the
    // radius, so the sphere reports no hit wherever the origin sits.
    let s = Sphere::new(Vector3::new(fx(2.0), 0, 0), fx(1.0));
    let r = Ray::new(Vector3::new(0, fx(-3.0), 0), Vector3::new(0, fx(1.0), 0));
    let mut rec = HitRecord::new();
    assert!(!s.hit(r, 0, i64::MAX, &mut rec));
}

#[test]
fn sphere_hit_outside_window_reports_nothing() {
    let s = Sphere::new(Vector3::new(0, 0, fx(-1.0)), fx(0.5));
    let r = Ray::new(Vector3::new(0, 0, 0), Vector3::new(0, 0, fx(-1.0)));
    let mut rec = HitRecord::new();
    // Both roots (0.5 and 1.5) lie beyond a quarter-unit window.
    assert!(!s.hit(r, 0, fx(0.25), &mut rec));
}

#[test]
fn scene_returns_nearest_hit_in_any_order() {
    let near_center = Vector3::new(0, 0, fx(-1.0));
    let far_center = Vector3::new(0, 0, fx(-3.0));
    let radius = fx(0.25);
    let r = Ray::new(Vector3::new(0, 0, 0), Vector3::new(0, 0, fx(-1.0)));

    let mut scene_a = HittableList::default();
    scene_a.add(Hittable::Sphere(Sphere::new(near_center, radius)));
    scene_a.add(Hittable::Sphere(Sphere::new(far_center, radius)));
    let mut rec_a = HitRecord::new();
    assert!(scene_a.hit(r, 0, i64::MAX, &mut rec_a));

    let mut scene_b = HittableList::default();
    scene_b.add(Hittable::Sphere(Sphere::new(far_center, radius)));
    scene_b.add(Hittable::Sphere(Sphere::new(near_center, radius)));
    let mut rec_b = HitRecord::new();
    assert!(scene_b.hit(r, 0, i64::MAX, &mut rec_b));

    assert_eq!(rec_a.t, fx(0.75));
    assert_eq!(rec_b.t, rec_a.t);
    assert_eq!(rec_b.p, rec_a.p);
    assert_eq!(rec_b.normal, rec_a.normal);
}

#[test]
fn empty_scene_hits_nothing() {
    let scene = HittableList::default();
    let r = Ray::new(Vector3::new(0, 0, 0), Vector3::new(0, 0, fx(-1.0)));
    let mut rec = HitRecord::new();
    assert!(!scene.hit(r, 0, i64::MAX, &mut rec));
}

#[test]
fn set_face_normal_orients_against_ray() {
    let r = Ray::new(Vector3::new(0, 0, 0), Vector3::new(0, 0, fx(-1.0)));
    let mut rec = HitRecord::new();
    rec.set_face_normal(r, Vector3::new(0, 0, fx(1.0)));
    assert!(rec.front_face);
    assert_eq!(rec.normal, Vector3::new(0, 0, fx(1.0)));
    rec.set_face_normal(r, Vector3::new(0, 0, fx(-1.0)));
    assert!(!rec.front_face);
    assert_eq!(rec.normal, Vector3::new(0, 0, fx(1.0)));
    rec.set_front_face(true);
    assert!(rec.front_face);
}

#[test]
fn ray_color_at_zero_depth_is_black() {
    let mut scene = HittableList::default();
    scene.add(Hittable::Sphere(Sphere::new(Vector3::new(0, 0, fx(-1.0)), fx(0.5))));
    let r = Ray::new(Vector3::new(0, 0, 0), Vector3::new(0, 0, fx(-1.0)));
    let mut rng = Rng::seeded(1, 0, 0);
    let c = ray_color(r, &scene, 0, &mut rng);
    assert_eq!(c, Vector3::new(0, 0, 0));
}

#[test]
fn background_stays_inside_the_color_cube() {
    // A short, almost-downward direction normalizes exactly and reads
    // as pure white; nothing exceeds full intensity.
    let c = background_color(Vector3::new(0, -362, 0));
    assert_eq!(c, Vector3::new(fx(1.0), fx(1.0), fx(1.0)));
    let dirs = [
        Vector3::new(1, 1, 1),
        Vector3::new(fx(0.25), fx(0.1), fx(-0.3)),
        Vector3::new(fx(-3.0), fx(2.0), fx(0.5)),
        Vector3::new(0, 0, 0),
    ];
    for d in dirs {
        let b = background_color(d);
        assert!(0 <= b.x && b.x <= fx(1.0));
        assert!(0 <= b.y && b.y <= fx(1.0));
        assert!(0 <= b.z && b.z <= fx(1.0));
    }
}

#[test]
fn ray_color_stays_inside_the_color_cube() {
    let mut scene = HittableList::default();
    scene.add(Hittable::Sphere(Sphere::new(Vector3::new(0, 0, fx(-1.0)), fx(0.5))));
    scene.add(Hittable::Sphere(Sphere::new(Vector3::new(0, fx(-100.5), fx(-1.0)), fx(100.0))));
    let mut rng = Rng::seeded(3, 0, 0);
    let dirs = [
        Vector3::new(0, 0, fx(-1.0)),
        Vector3::new(0, -362, 0),
        Vector3::new(fx(0.3), fx(-0.2), fx(-1.0)),
    ];
    for d in dirs {
        let c = ray_color(Ray::new(Vector3::new(0, 0, 0), d), &scene, 16, &mut rng);
        assert!(0 <= c.x && c.x <= fx(1.0));
        assert!(0 <= c.y && c.y <= fx(1.0));
        assert!(0 <= c.z && c.z <= fx(1.0));
    }
}

#[test]
fn stored_normal_opposes_the_ray() {
    let s = Sphere::new(Vector3::new(0, 0, fx(-1.0)), fx(0.5));
    let rays = [
        // From outside, straight in: front face.
        Ray::new(Vector3::new(0, 0, 0), Vector3::new(0, 0, fx(-1.0))),
        // From the center, outward: back face, normal flipped.
        Ray::new(Vector3::new(0, 0, fx(-1.0)), Vector3::new(0, 0, fx(-1.0))),
    ];
    for r in rays {
        let mut rec = HitRecord::new();
        assert!(s.hit(r, 0, i64::MAX, &mut rec));
        assert!(Vector3::dot(&r.direction(), &rec.normal) <= 0);
    }
}

#[test]
fn background_is_sky_blue_straight_up_and_white_straight_down() {
    let up = background_color(Vector3::new(0, FP, 0));
    assert_eq!(up, Vector3::new(fx(0.5), 45875, fx(1.0)));
    let down = background_color(Vector3::new(0, -FP, 0));
    assert_eq!(down, Vector3::new(fx(1.0), fx(1.0), fx(1.0)));
}

#[test]
fn miss_returns_background() {
    let scene = HittableList::default();
    let mut rng = Rng::seeded(1, 0, 0);
    let up = Ray::new(Vector3::new(0, 0, 0), Vector3::new(0, FP, 0));
    assert_eq!(ray_color(up, &scene, 50, &mut rng), Vector3::new(fx(0.5), 45875, fx(1.0)));
    let down = Ray::new(Vector3::new(0, 0, 0), Vector3::new(0, -FP, 0));
    assert_eq!(ray_color(down, &scene, 50, &mut rng), Vector3::new(fx(1.0), fx(1.0), fx(1.0)));
}

#[test]
fn camera_geometry_matches_the_pinhole_model() {
    let cam = Camera::new(ASPECT_RATIO, VIEWPORT_HEIGHT, FOCAL_LENGTH);
    assert_eq!(cam.origin, Vector3::new(0, 0, 0));
    assert_eq!(cam.horizontal, Vector3::new(VIEWPORT_WIDTH, 0, 0));
    assert_eq!(cam.vertical, Vector3::new(0, VIEWPORT_HEIGHT, 0));
    assert_eq!(
        cam.lower_left_corner,
        Vector3::new(-VIEWPORT_WIDTH / 2, -VIEWPORT_HEIGHT / 2, -FOCAL_LENGTH)
    );
    // The ray through the viewport's center points straight down the
    // negative z axis.
    let center = cam.get_ray(fx(0.5), fx(0.5));
    assert_eq!(center.origin, Vector3::new(0, 0, 0));
    assert_eq!(center.direction, Vector3::new(0, 0, -FOCAL_LENGTH));
    // The lower-left ray points at the lower-left corner.
    let corner = cam.get_ray(0, 0);
    assert_eq!(corner.direction, cam.lower_left_corner);
}

#[test]
fn diffuse_bounce_halves_each_level() {
    // One sphere fills the view; with a fresh stream per depth the
    // first bounce escapes upward or sideways eventually, and every
    // added level can only darken by half. Check the exact two-level
    // value against an independent recomputation.
    let mut scene = HittableList::default();
    scene.add(Hittable::Sphere(Sphere::new(Vector3::new(0, 0, fx(-1.0)), fx(0.5))));
    let r = Ray::new(Vector3::new(0, 0, 0), Vector3::new(0, 0, fx(-1.0)));

    let mut rng1 = Rng::seeded(11, 0, 0);
    let c1 = ray_color(r, &scene, 1, &mut rng1);

    // Depth one: the bounce ray is cut off by the budget, so the
    // result is half of black - exactly black.
    assert_eq!(c1, Vector3::new(0, 0, 0));

    let mut rng2 = Rng::seeded(11, 0, 0);
    let c2 = ray_color(r, &scene, 50, &mut rng2);
    // Whatever the bounces did, every channel is a halved sky sample:
    // bounded by half of full intensity.
    assert!(0 <= c2.x && c2.x <= fx(0.5));
    assert!(0 <= c2.y && c2.y <= fx(0.5));
    assert!(0 <= c2.z && c2.z <= fx(0.5));
}
