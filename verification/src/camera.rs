//! The pinhole camera: from a pixel of the sensor to a ray of the scene.
//!
//! The eye sits at the origin of the world and looks along the z axis. The
//! sensor is a grid of square pixels at the focal length in front of the eye,
//! centered on the axis; its rows count downwards while the y axis of the
//! world points upwards.

use crate::fixed::{div_floor, ONE};
use crate::geometry::{Ray, SpecRay};
use crate::vector::{
    lemma_normalized_is_unit, lemma_product_bounded, lemma_squares_in_sum, SpecVector3, Vector3, COORD_MAX,
};
use vstd::prelude::*;

verus! {

/// The least offset of a sample from the corner of its pixel: minus half a
/// pixel.
pub const JITTER_MIN: i64 = -500_000;

/// The bound that the offset of a sample stays below: half a pixel.
pub const JITTER_END: i64 = 500_000;

/// An offset of a sample within its pixel, in pixels.
pub open spec fn valid_jitter(jitter: int) -> bool {
    JITTER_MIN <= jitter < JITTER_END
}

/// The mathematical value of a [`Camera`].
pub struct SpecCamera {
    pub focal_length: int,
    pub sensor_width: int,
    pub sensor_height: int,
    pub pixel_size: int,
}

impl SpecCamera {
    /// The x coordinate of the point of the sensor at column `x`, offset by
    /// `jitter` pixels: `pixel_size * (x + jitter - sensor_width / 2)`,
    /// rounded towards minus infinity.
    pub open spec fn sample_x(self, x: int, jitter: int) -> int {
        (self.pixel_size * (2 * (x * ONE + jitter) - self.sensor_width * ONE)) / (2 * ONE)
    }

    /// The y coordinate of the point of the sensor at row `y`, offset by
    /// `jitter` pixels: `pixel_size * (sensor_height / 2 - (y + jitter))`,
    /// rounded towards minus infinity.
    pub open spec fn sample_y(self, y: int, jitter: int) -> int {
        (self.pixel_size * (self.sensor_height * ONE - 2 * (y * ONE + jitter))) / (2 * ONE)
    }

    /// The point of the sensor that a sample of the pixel `(x, y)` passes
    /// through.
    pub open spec fn sensor_point(self, x: int, y: int, jitter_x: int, jitter_y: int) -> SpecVector3 {
        SpecVector3 { x: self.sample_x(x, jitter_x), y: self.sample_y(y, jitter_y), z: self.focal_length }
    }

    /// The ray from the eye through a sample of the pixel `(x, y)`.
    pub open spec fn ray_through(self, x: int, y: int, jitter_x: int, jitter_y: int) -> SpecRay {
        SpecRay { origin: SpecVector3::zero(), direction: self.sensor_point(x, y, jitter_x, jitter_y).normalized() }
    }
}

/// A pinhole camera.
#[derive(Clone, Copy, Debug)]
pub struct Camera {
    /// The distance of the sensor from the eye.
    pub focal_length: i64,
    /// The number of columns of the sensor.
    pub sensor_width: u32,
    /// The number of rows of the sensor.
    pub sensor_height: u32,
    /// The length of the side of a pixel.
    pub pixel_size: i64,
}

impl View for Camera {
    type V = SpecCamera;

    open spec fn view(&self) -> SpecCamera {
        SpecCamera {
            focal_length: self.focal_length as int,
            sensor_width: self.sensor_width as int,
            sensor_height: self.sensor_height as int,
            pixel_size: self.pixel_size as int,
        }
    }
}

impl Camera {
    /// The focal length and the pixel size are positive, and the sensor lies
    /// within the scene.
    pub open spec fn wf(&self) -> bool {
        &&& 0 < self.focal_length <= COORD_MAX
        &&& 0 < self.pixel_size
        &&& self.pixel_size * self.sensor_width <= COORD_MAX
        &&& self.pixel_size * self.sensor_height <= COORD_MAX
    }

    /// Whether the focal length and the pixel size are positive and the
    /// sensor lies within the scene.
    pub fn is_well_formed(&self) -> (ok: bool)
        ensures
            ok == self.wf(),
    {
        if self.focal_length <= 0 || self.focal_length > COORD_MAX || self.pixel_size <= 0 {
            return false;
        }
        proof {
            lemma_product_bounded(self.pixel_size as int, self.sensor_width as int, 0x8000_0000_0000_0000);
            lemma_product_bounded(self.pixel_size as int, self.sensor_height as int, 0x8000_0000_0000_0000);
        }
        let across: i128 = (self.pixel_size as i128) * (self.sensor_width as i128);
        let down: i128 = (self.pixel_size as i128) * (self.sensor_height as i128);
        across <= COORD_MAX as i128 && down <= COORD_MAX as i128
    }

    /// The camera with the given settings, if it is well formed.
    pub fn new(focal_length: i64, sensor_width: u32, sensor_height: u32, pixel_size: i64) -> (made: Option<Camera>)
        ensures
            made is Some <==> (Camera { focal_length, sensor_width, sensor_height, pixel_size }).wf(),
            made matches Some(camera) ==> camera == (Camera { focal_length, sensor_width, sensor_height, pixel_size }),
    {
        let camera = Camera { focal_length, sensor_width, sensor_height, pixel_size };
        if camera.is_well_formed() {
            Some(camera)
        } else {
            None
        }
    }

    /// The point of the sensor that a sample of the pixel `(x, y)` passes
    /// through.
    pub fn sensor_point(&self, x: u32, y: u32, jitter_x: i64, jitter_y: i64) -> (point: Vector3)
        requires
            self.wf(),
            x < self.sensor_width,
            y < self.sensor_height,
            valid_jitter(jitter_x as int),
            valid_jitter(jitter_y as int),
        ensures
            point@ == self@.sensor_point(x as int, y as int, jitter_x as int, jitter_y as int),
            point@.within(COORD_MAX as int),
            point.z > 0,
    {
        let one: i128 = ONE as i128;
        let across: i128 = 2 * ((x as i128) * one + (jitter_x as i128)) - (self.sensor_width as i128) * one;
        let up: i128 = (self.sensor_height as i128) * one - 2 * ((y as i128) * one + (jitter_y as i128));
        proof {
            lemma_sample_bounds(self.pixel_size as int, self.sensor_width as int, across as int);
            lemma_sample_bounds(self.pixel_size as int, self.sensor_height as int, up as int);
        }
        let sample_x: i128 = div_floor((self.pixel_size as i128) * across, 2 * one);
        let sample_y: i128 = div_floor((self.pixel_size as i128) * up, 2 * one);
        Vector3 { x: sample_x as i64, y: sample_y as i64, z: self.focal_length }
    }

    /// The ray from the eye through a sample of the pixel `(x, y)`: the
    /// sample lies `jitter_x` and `jitter_y` pixels from the corner of the
    /// pixel.
    pub fn primary_ray(&self, x: u32, y: u32, jitter_x: i64, jitter_y: i64) -> (ray: Ray)
        requires
            self.wf(),
            x < self.sensor_width,
            y < self.sensor_height,
            valid_jitter(jitter_x as int),
            valid_jitter(jitter_y as int),
        ensures
            ray@ == self@.ray_through(x as int, y as int, jitter_x as int, jitter_y as int),
            ray.origin@ == SpecVector3::zero(),
            ray.direction@.is_unit(),
            ray.wf(),
    {
        let point: Vector3 = self.sensor_point(x, y, jitter_x, jitter_y);
        proof {
            lemma_squares_in_sum(point.x as int, point.y as int, point.z as int);
            assert(0 < point.z * point.z) by (nonlinear_arith)
                requires
                    point.z > 0,
            ;
        }
        Ray { origin: Vector3 { x: 0, y: 0, z: 0 }, direction: point.normalize() }
    }
}

/// Whatever the pixel and the offsets of the sample, the direction of the ray
/// that a camera with a positive focal length sends through it has length
/// one.
pub proof fn lemma_camera_ray_is_unit(camera: SpecCamera, x: int, y: int, jitter_x: int, jitter_y: int)
    requires
        0 < camera.focal_length,
    ensures
        camera.ray_through(x, y, jitter_x, jitter_y).direction.is_unit(),
{
    let point = camera.sensor_point(x, y, jitter_x, jitter_y);
    lemma_squares_in_sum(point.x, point.y, point.z);
    assert(0 < point.z * point.z) by (nonlinear_arith)
        requires
            0 < point.z,
    ;
    lemma_normalized_is_unit(point);
}

/// A sample of a pixel lies on the sensor, and the sensor within the scene.
proof fn lemma_sample_bounds(pixel_size: int, extent: int, offset: int)
    requires
        0 < pixel_size,
        0 < extent <= u32::MAX,
        pixel_size * extent <= COORD_MAX,
        -(extent + 1) * ONE <= offset <= (extent + 1) * ONE,
    ensures
        pixel_size <= COORD_MAX,
        -10_000_000_000_000_000_000_000_000_000 <= pixel_size * offset <= 10_000_000_000_000_000_000_000_000_000,
        -COORD_MAX <= (pixel_size * offset) / (2 * ONE) <= COORD_MAX,
{
    let one = ONE as int;
    let limit = COORD_MAX as int;
    assert(pixel_size <= pixel_size * extent) by (nonlinear_arith)
        requires
            0 < pixel_size,
            0 < extent,
    ;
    assert(pixel_size * ((extent + 1) * one) == (pixel_size * extent + pixel_size) * one) by (nonlinear_arith);
    assert(-(pixel_size * ((extent + 1) * one)) <= pixel_size * offset <= pixel_size * ((extent + 1) * one))
        by (nonlinear_arith)
        requires
            0 < pixel_size,
            -((extent + 1) * one) <= offset <= (extent + 1) * one,
    ;
    assert((pixel_size * extent + pixel_size) * one <= (2 * limit) * one) by (nonlinear_arith)
        requires
            pixel_size * extent + pixel_size <= 2 * limit,
            0 < one,
    ;
    assert((2 * limit) * one == limit * (2 * one)) by (nonlinear_arith);
    assert(-((2 * limit) * one) == (-limit) * (2 * one)) by (nonlinear_arith);
    vstd::arithmetic::div_mod::lemma_div_is_ordered(pixel_size * offset, limit * (2 * one), 2 * one);
    vstd::arithmetic::div_mod::lemma_div_is_ordered((-limit) * (2 * one), pixel_size * offset, 2 * one);
    vstd::arithmetic::div_mod::lemma_div_multiples_vanish(limit, 2 * one);
    vstd::arithmetic::div_mod::lemma_div_multiples_vanish(-limit, 2 * one);
}

} // verus!
