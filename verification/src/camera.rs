//! The pinhole camera: maps viewport coordinates to world-space rays.

use vstd::prelude::*;

use crate::fixed::{fx_mul, mul_fx, FP};
use crate::ray::{Ray, RayV};
use crate::vector3::{v3_add, v3_div, v3_scale, v3_sub, v3_zero, Point3, Vector3, V3};

verus! {

/// Width over height of the image, in fixed-point form (16:9).
pub const ASPECT_RATIO: i64 = 116508;

/// Height of the viewport in world units, in fixed-point form (2.0).
pub const VIEWPORT_HEIGHT: i64 = 131072;

/// Width of the viewport: the aspect ratio times the height.
pub const VIEWPORT_WIDTH: i64 = 233016;

/// Distance from the camera origin to the viewport plane (1.0).
pub const FOCAL_LENGTH: i64 = 65536;

/// The mathematical value of a `Camera`.
pub ghost struct CameraV {
    pub origin: V3,
    pub lower_left_corner: V3,
    pub horizontal: V3,
    pub vertical: V3,
}

/// A pinhole camera at the origin, looking down the negative z axis.
/// All fields are derived once at construction and never change.
pub struct Camera {
    pub origin: Point3,
    pub lower_left_corner: Point3,
    pub horizontal: Vector3,
    pub vertical: Vector3,
}

impl View for Camera {
    type V = CameraV;

    open spec fn view(&self) -> CameraV {
        CameraV {
            origin: self.origin@,
            lower_left_corner: self.lower_left_corner@,
            horizontal: self.horizontal@,
            vertical: self.vertical@,
        }
    }
}

/// The camera derived from an aspect ratio, a viewport height and a
/// focal length: a horizontal and a vertical viewport edge, and the
/// viewport's lower-left corner one focal length in front of the origin.
pub open spec fn spec_camera(aspect_ratio: int, viewport_height: int, focal_length: int) -> CameraV {
    let origin = v3_zero();
    let horizontal = V3 { x: fx_mul(aspect_ratio, viewport_height), y: 0, z: 0 };
    let vertical = V3 { x: 0, y: viewport_height, z: 0 };
    let lower_left_corner = v3_sub(
        v3_sub(v3_sub(origin, v3_div(horizontal, 2 * FP)), v3_div(vertical, 2 * FP)),
        V3 { x: 0, y: 0, z: focal_length },
    );
    CameraV { origin, lower_left_corner, horizontal, vertical }
}

/// The ray through viewport position `(u, v)`, with `(0, 0)` the lower
/// left and `(1, 1)` the upper right of the viewport.
pub open spec fn spec_get_ray(c: CameraV, u: int, v: int) -> RayV {
    RayV {
        origin: c.origin,
        direction: v3_sub(
            v3_add(v3_add(c.lower_left_corner, v3_scale(c.horizontal, u)), v3_scale(c.vertical, v)),
            c.origin,
        ),
    }
}

impl Camera {
    pub fn new(aspect_ratio: i64, viewport_height: i64, focal_length: i64) -> (r: Self)
        ensures
            r@ == spec_camera(aspect_ratio as int, viewport_height as int, focal_length as int),
    {
        let origin: Point3 = Vector3::zero();
        let horizontal: Vector3 = Vector3::new(mul_fx(aspect_ratio, viewport_height), 0, 0);
        let vertical: Vector3 = Vector3::new(0, viewport_height, 0);
        let two: i64 = 2 * FP;
        let lower_left_corner: Point3 = origin.sub(horizontal.div(two)).sub(vertical.div(two)).sub(
            Vector3::new(0, 0, focal_length),
        );
        Camera { origin, horizontal, vertical, lower_left_corner }
    }

    pub fn get_ray(&self, u: i64, v: i64) -> (r: Ray)
        ensures
            r@ == spec_get_ray(self@, u as int, v as int),
    {
        Ray::new(
            self.origin,
            self.lower_left_corner.add(self.horizontal.mul(u)).add(self.vertical.mul(v)).sub(
                self.origin,
            ),
        )
    }
}

} // verus!
