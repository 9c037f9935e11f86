use raytracer::camera::{Camera, ASPECT_RATIO, FOCAL_LENGTH, VIEWPORT_HEIGHT};
use raytracer::fixed::FP;
use raytracer::hittable::{Hittable, HittableList};
use raytracer::ray::background_color;
use raytracer::sphere::Sphere;
use raytracer::vector3::Vector3;
use raytracer::{clamp, quantize, render, render_line, render_random, write_color, Jitter,
    RenderError, CLAMP_MAX};

/// The fixed-point form of a real value.
fn fx(v: f64) -> i64 {
    (v * 65536.0) as i64
}

fn test_camera() -> Camera {
    Camera::new(ASPECT_RATIO, VIEWPORT_HEIGHT, FOCAL_LENGTH)
}

#[test]
fn clamp_forces_into_interval() {
    assert_eq!(clamp(fx(1.5), 0, CLAMP_MAX), CLAMP_MAX);
    assert_eq!(clamp(fx(-0.5), 0, CLAMP_MAX), 0);
    assert_eq!(clamp(fx(0.5), 0, CLAMP_MAX), fx(0.5));
}

#[test]
fn quantize_clamps_overbright_to_255_not_256() {
    assert_eq!(quantize(fx(1.5), 1), 255);
    assert_eq!(quantize(fx(1.0), 1), 255);
    assert_eq!(quantize(fx(-0.5), 1), 0);
    assert_eq!(quantize(fx(0.5), 1), 128);
    // Averaging over samples: four quarter-intensity samples read as
    // one quarter.
    assert_eq!(quantize(4 * fx(0.25), 4), 64);
}

#[test]
fn write_color_writes_three_bytes_in_place() {
    let mut pixels = vec![9u8; 7];
    write_color(&mut pixels, Vector3::new(fx(1.5), fx(-0.5), fx(0.5)), 1, 1);
    assert_eq!(pixels, vec![9u8, 255, 0, 128, 9, 9, 9]);
}

#[test]
fn render_rejects_bad_configuration() {
    let cam = test_camera();
    let scene = HittableList::default();
    assert_eq!(
        render(&cam, &scene, 0, 2, 1, 5, Jitter::Zero),
        Err(RenderError::InvalidDimensions)
    );
    assert_eq!(
        render(&cam, &scene, 2, 1, 1, 5, Jitter::Zero),
        Err(RenderError::InvalidDimensions)
    );
    assert_eq!(
        render(&cam, &scene, 2, 2, 0, 5, Jitter::Zero),
        Err(RenderError::InvalidSampleCount)
    );
    assert_eq!(
        RenderError::InvalidDimensions.message(),
        "image dimensions must be at least 2 by 2"
    );
    assert_eq!(
        RenderError::InvalidSampleCount.message(),
        "samples per pixel must be at least 1"
    );
}

#[test]
fn two_by_two_empty_scene_reproduces_the_background() {
    let cam = test_camera();
    let scene = HittableList::default();
    let buf = render(&cam, &scene, 2, 2, 1, 5, Jitter::Zero).unwrap();
    assert_eq!(buf.len(), 12);
    // With zero jitter the corner viewport positions are exact:
    // u is 0 or 1, v is (height - row) / (height - 1), so 2 or 1.
    let mut expected: Vec<u8> = Vec::new();
    for row in 0..2u32 {
        for col in 0..2u32 {
            let u = if col == 0 { 0 } else { FP };
            let v = if row == 0 { 2 * FP } else { FP };
            let ray = cam.get_ray(u, v);
            let c = background_color(ray.direction());
            expected.push(quantize(c.x(), 1));
            expected.push(quantize(c.y(), 1));
            expected.push(quantize(c.z(), 1));
        }
    }
    assert_eq!(buf, expected);
    // The same bytes, written out: two sky-leaning pixels on the top
    // row, two lighter ones below.
    assert_eq!(buf, vec![139u8, 185, 255, 139, 185, 255, 163, 200, 255, 163, 200, 255]);
}

#[test]
fn render_is_row_major_top_row_first() {
    let cam = test_camera();
    let scene = HittableList::default();
    let buf = render(&cam, &scene, 3, 2, 1, 5, Jitter::Zero).unwrap();
    let top = render_line(&cam, &scene, 3, 2, 0, 1, 5, Jitter::Zero);
    let bottom = render_line(&cam, &scene, 3, 2, 1, 1, 5, Jitter::Zero);
    assert_eq!(&buf[0..9], &top[..]);
    assert_eq!(&buf[9..18], &bottom[..]);
}

#[test]
fn rendering_twice_with_one_seed_is_byte_identical() {
    let cam = test_camera();
    let mut scene = HittableList::default();
    scene.add(Hittable::Sphere(Sphere::new(Vector3::new(0, 0, fx(-1.0)), fx(0.5))));
    scene.add(Hittable::Sphere(Sphere::new(Vector3::new(0, fx(-100.5), fx(-1.0)), fx(100.0))));
    let a = render(&cam, &scene, 4, 4, 2, 8, Jitter::Seeded(42)).unwrap();
    let b = render(&cam, &scene, 4, 4, 2, 8, Jitter::Seeded(42)).unwrap();
    assert_eq!(a, b);
    // A different seed jitters the samples differently.
    let c = render(&cam, &scene, 4, 4, 2, 8, Jitter::Seeded(43)).unwrap();
    assert_ne!(a, c);
}

#[test]
fn random_seed_render_reports_its_seed() {
    let cam = test_camera();
    let mut scene = HittableList::default();
    scene.add(Hittable::Sphere(Sphere::new(Vector3::new(0, 0, fx(-1.0)), fx(0.5))));
    let (seed, buf) = render_random(&cam, &scene, 3, 3, 1, 4).unwrap();
    let again = render(&cam, &scene, 3, 3, 1, 4, Jitter::Seeded(seed)).unwrap();
    assert_eq!(buf, again);
    assert_eq!(
        render_random(&cam, &scene, 3, 3, 0, 4),
        Err(RenderError::InvalidSampleCount)
    );
}

#[test]
fn sphere_darkens_the_pixels_it_covers() {
    let cam = test_camera();
    let empty = HittableList::default();
    let mut scene = HittableList::default();
    scene.add(Hittable::Sphere(Sphere::new(Vector3::new(0, 0, fx(-1.0)), fx(0.5))));
    let plain = render(&cam, &empty, 5, 5, 1, 8, Jitter::Zero).unwrap();
    let with_sphere = render(&cam, &scene, 5, 5, 1, 8, Jitter::Zero).unwrap();
    assert_ne!(plain, with_sphere);
    // The center pixel looks straight at the sphere, so its color is
    // half of whatever the bounce saw: no channel above half intensity.
    let center = 3 * (5 * 2 + 2) as usize;
    for k in 0..3 {
        assert!(with_sphere[center + k] <= 128);
    }
}
