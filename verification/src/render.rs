//! The renderer: samples per pixel, their average, and the whole image.

use crate::camera::{valid_jitter, Camera, SpecCamera, JITTER_END, JITTER_MIN};
use crate::canvas::{canvas_pixels, Canvas};
use crate::fixed::ONE;
use crate::geometry::{ray_sphere_intersection, Ray, SpecSphere, Sphere};
use crate::shader::{quantize, quantized, shade, shaded, Color, SpecColor};
use crate::vector::{lemma_norm_sq_zero, lemma_normalized_is_unit, lemma_unit_within_one, Vector3};
use rand::Rng;
use vstd::prelude::*;

verus! {

/// The number of samples that are averaged into a pixel.
pub const SUPERSAMPLE: usize = 8;

/// The color that one sample of the pixel `(x, y)` contributes: the shade of
/// the sphere where the ray through the sample hits it. `None` if the ray
/// misses the sphere, and also if the representation places the hit on the
/// center of the sphere, where there is no normal.
pub open spec fn sample_color(
    camera: SpecCamera,
    sphere: SpecSphere,
    x: int,
    y: int,
    jitter_x: int,
    jitter_y: int,
) -> Option<SpecColor> {
    let ray = camera.ray_through(x, y, jitter_x, jitter_y);
    match ray.hit_distance(sphere) {
        None => None,
        Some(t) => {
            let point = ray.point_at(t);
            if point == sphere.center {
                None
            } else {
                Some(shaded(sphere.normal_at(point)))
            }
        },
    }
}

/// One pair of offsets for each sample of a pixel.
pub open spec fn valid_jitters(jitters: Seq<(i64, i64)>) -> bool {
    &&& jitters.len() == SUPERSAMPLE
    &&& forall|i: int|
        0 <= i < jitters.len() ==> valid_jitter((#[trigger] jitters[i]).0 as int) && valid_jitter(jitters[i].1 as int)
}

/// The colors that the samples of the pixel `(x, y)` contribute, one for each
/// pair of offsets.
pub open spec fn samples_of(camera: SpecCamera, sphere: SpecSphere, x: int, y: int, jitters: Seq<(i64, i64)>) -> Seq<
    Option<SpecColor>,
> {
    Seq::new(jitters.len(), |i: int| sample_color(camera, sphere, x, y, jitters[i].0 as int, jitters[i].1 as int))
}

/// What a sample adds to the sum of a pixel: its color, or nothing.
pub open spec fn contribution(sample: Option<SpecColor>) -> SpecColor {
    match sample {
        Some(color) => color,
        None => SpecColor::black(),
    }
}

/// The sum of what the samples contribute.
pub open spec fn accumulated(samples: Seq<Option<SpecColor>>) -> SpecColor
    decreases samples.len(),
{
    if samples.len() == 0 {
        SpecColor::black()
    } else {
        accumulated(samples.drop_last()).plus(contribution(samples.last()))
    }
}

/// The sum of the samples of a pixel divided by the number of samples taken,
/// whether they hit or not.
pub open spec fn averaged(sum: SpecColor) -> SpecColor {
    SpecColor { r: sum.r / (SUPERSAMPLE as int), g: sum.g / (SUPERSAMPLE as int), b: sum.b / (SUPERSAMPLE as int) }
}

/// The color of a pixel before it is reduced to 8 bits: the average of its
/// samples.
pub open spec fn pixel_color(camera: SpecCamera, sphere: SpecSphere, x: int, y: int, jitters: Seq<(i64, i64)>)
    -> SpecColor {
    averaged(accumulated(samples_of(camera, sphere, x, y, jitters)))
}

/// The pixel `(x, y)` of the image, for the given offsets of its samples.
pub open spec fn pixel_value(camera: SpecCamera, sphere: SpecSphere, x: int, y: int, jitters: Seq<(i64, i64)>) -> (
    u8,
    u8,
    u8,
) {
    quantized(pixel_color(camera, sphere, x, y, jitters))
}

/// `rgb` is the pixel `(x, y)` of the image for some offsets of its samples.
pub open spec fn is_rendering(rgb: (u8, u8, u8), camera: SpecCamera, sphere: SpecSphere, x: int, y: int) -> bool {
    exists|jitters: Seq<(i64, i64)>| #[trigger]
        valid_jitters(jitters) && rgb == pixel_value(camera, sphere, x, y, jitters)
}

/// The value of an optional color.
pub open spec fn sample_view(sample: Option<Color>) -> Option<SpecColor> {
    match sample {
        Some(color) => Some(color@),
        None => None,
    }
}

/// Where a sample hits the sphere, the normal there has length one, and the
/// color that the sample contributes lies within the gamut: every channel
/// between zero and one.
pub proof fn lemma_sample_in_gamut(camera: SpecCamera, sphere: SpecSphere, x: int, y: int, jitter_x: int, jitter_y: int)
    ensures
        match sample_color(camera, sphere, x, y, jitter_x, jitter_y) {
            Some(color) => {
                let ray = camera.ray_through(x, y, jitter_x, jitter_y);
                let point = ray.point_at(ray.hit_distance(sphere).unwrap());
                &&& sphere.normal_at(point).is_unit()
                &&& color == shaded(sphere.normal_at(point))
                &&& color.in_gamut()
            },
            None => true,
        },
{
    let ray = camera.ray_through(x, y, jitter_x, jitter_y);
    if let Some(t) = ray.hit_distance(sphere) {
        let point = ray.point_at(t);
        if point != sphere.center {
            lemma_norm_sq_zero(point.minus(sphere.center));
            lemma_normalized_is_unit(point.minus(sphere.center));
            lemma_unit_within_one(sphere.normal_at(point));
        }
    }
}

/// The sum of samples that all contribute the same color is that color times
/// their number.
proof fn lemma_accumulated_identical(samples: Seq<Option<SpecColor>>, color: SpecColor)
    requires
        forall|i: int| 0 <= i < samples.len() ==> samples[i] == Some(color),
    ensures
        accumulated(samples) == (SpecColor {
            r: samples.len() * color.r,
            g: samples.len() * color.g,
            b: samples.len() * color.b,
        }),
    decreases samples.len(),
{
    if samples.len() > 0 {
        let n = samples.len() as int;
        lemma_accumulated_identical(samples.drop_last(), color);
        assert(n * color.r == (n - 1) * color.r + color.r) by (nonlinear_arith);
        assert(n * color.g == (n - 1) * color.g + color.g) by (nonlinear_arith);
        assert(n * color.b == (n - 1) * color.b + color.b) by (nonlinear_arith);
    }
}

/// The sum of samples that all miss is black.
proof fn lemma_accumulated_misses(samples: Seq<Option<SpecColor>>)
    requires
        forall|i: int| 0 <= i < samples.len() ==> samples[i] is None,
    ensures
        accumulated(samples) == SpecColor::black(),
    decreases samples.len(),
{
    if samples.len() > 0 {
        lemma_accumulated_misses(samples.drop_last());
    }
}

/// A pixel all of whose samples contribute the same color has that color.
pub proof fn lemma_identical_samples(
    camera: SpecCamera,
    sphere: SpecSphere,
    x: int,
    y: int,
    jitters: Seq<(i64, i64)>,
    color: SpecColor,
)
    requires
        jitters.len() == SUPERSAMPLE,
        forall|i: int|
            0 <= i < jitters.len() ==> sample_color(
                camera,
                sphere,
                x,
                y,
                (#[trigger] jitters[i]).0 as int,
                jitters[i].1 as int,
            ) == Some(color),
    ensures
        pixel_color(camera, sphere, x, y, jitters) == color,
        pixel_value(camera, sphere, x, y, jitters) == quantized(color),
{
    lemma_accumulated_identical(samples_of(camera, sphere, x, y, jitters), color);
}

/// A pixel none of whose samples hits the sphere is black.
pub proof fn lemma_no_hit_is_black(camera: SpecCamera, sphere: SpecSphere, x: int, y: int, jitters: Seq<(i64, i64)>)
    requires
        forall|i: int|
            0 <= i < jitters.len() ==> sample_color(
                camera,
                sphere,
                x,
                y,
                (#[trigger] jitters[i]).0 as int,
                jitters[i].1 as int,
            ) is None,
    ensures
        pixel_color(camera, sphere, x, y, jitters) == SpecColor::black(),
        pixel_value(camera, sphere, x, y, jitters) == (0u8, 0u8, 0u8),
{
    lemma_accumulated_misses(samples_of(camera, sphere, x, y, jitters));
}

/// The color that one sample of the pixel `(x, y)` contributes, if any.
pub fn trace_sample(camera: &Camera, sphere: &Sphere, x: u32, y: u32, jitter_x: i64, jitter_y: i64) -> (sample: Option<
    Color,
>)
    requires
        camera.wf(),
        sphere.wf(),
        x < camera.sensor_width,
        y < camera.sensor_height,
        valid_jitter(jitter_x as int),
        valid_jitter(jitter_y as int),
    ensures
        sample_view(sample) == sample_color(camera@, sphere@, x as int, y as int, jitter_x as int, jitter_y as int),
        sample matches Some(color) ==> color@.in_gamut(),
{
    let ray: Ray = camera.primary_ray(x, y, jitter_x, jitter_y);
    match ray_sphere_intersection(&ray, sphere) {
        None => None,
        Some(t) => {
            let point: Vector3 = ray.at(t);
            if point == sphere.center {
                None
            } else {
                let normal: Vector3 = sphere.normal_at(&point);
                proof {
                    lemma_unit_within_one(normal@);
                }
                Some(shade(&normal))
            }
        },
    }
}

/// The running sum of the samples of one pixel.
#[derive(Clone, Copy, Debug)]
pub struct Accumulator {
    /// The sum of the colors of the samples that hit.
    pub sum: Color,
    /// The number of samples taken, whether they hit or not.
    pub samples: usize,
}

impl Accumulator {
    /// No more samples were taken than a pixel has, and each added a color
    /// of the gamut or nothing.
    pub open spec fn wf(&self) -> bool {
        &&& self.samples <= SUPERSAMPLE
        &&& self.sum@.within(self.samples * ONE)
    }

    /// The accumulator of a pixel of which no sample was taken yet.
    pub fn new() -> (acc: Accumulator)
        ensures
            acc.sum@ == SpecColor::black(),
            acc.samples == 0,
            acc.wf(),
    {
        Accumulator { sum: Color { r: 0, g: 0, b: 0 }, samples: 0 }
    }

    /// Takes one more sample into the sum.
    pub fn add(&mut self, sample: Option<Color>)
        requires
            old(self).wf(),
            old(self).samples < SUPERSAMPLE,
            sample matches Some(color) ==> color@.in_gamut(),
        ensures
            final(self).wf(),
            final(self).samples == old(self).samples + 1,
            final(self).sum@ == old(self).sum@.plus(contribution(sample_view(sample))),
    {
        match sample {
            Some(color) => {
                self.sum = Color { r: self.sum.r + color.r, g: self.sum.g + color.g, b: self.sum.b + color.b };
            },
            None => {},
        }
        self.samples = self.samples + 1;
    }

    /// The average over the samples of a pixel. The sum is divided by the
    /// number of samples that a pixel has, not by the number of those that
    /// hit.
    pub fn mean(&self) -> (color: Color)
        requires
            self.wf(),
        ensures
            color@ == averaged(self.sum@),
            color@.in_gamut(),
    {
        let n: i64 = SUPERSAMPLE as i64;
        Color { r: self.sum.r / n, g: self.sum.g / n, b: self.sum.b / n }
    }
}

/// The pixel `(x, y)` of the image: the average of its samples, which lie at
/// the given offsets, reduced to 8 bits per channel.
pub fn render_pixel(camera: &Camera, sphere: &Sphere, x: u32, y: u32, jitters: &[(i64, i64)]) -> (rgb: (u8, u8, u8))
    requires
        camera.wf(),
        sphere.wf(),
        x < camera.sensor_width,
        y < camera.sensor_height,
        valid_jitters(jitters@),
    ensures
        rgb == pixel_value(camera@, sphere@, x as int, y as int, jitters@),
{
    let ghost samples = samples_of(camera@, sphere@, x as int, y as int, jitters@);
    let mut acc: Accumulator = Accumulator::new();
    let mut i: usize = 0;
    assert(samples.take(0) =~= Seq::<Option<SpecColor>>::empty());
    while i < SUPERSAMPLE
        invariant
            camera.wf(),
            sphere.wf(),
            x < camera.sensor_width,
            y < camera.sensor_height,
            valid_jitters(jitters@),
            samples == samples_of(camera@, sphere@, x as int, y as int, jitters@),
            i <= SUPERSAMPLE,
            acc.wf(),
            acc.samples == i,
            acc.sum@ == accumulated(samples.take(i as int)),
        decreases SUPERSAMPLE - i,
    {
        let (jitter_x, jitter_y): (i64, i64) = jitters[i];
        let sample: Option<Color> = trace_sample(camera, sphere, x, y, jitter_x, jitter_y);
        proof {
            assert(samples.take(i + 1).drop_last() =~= samples.take(i as int));
            assert(samples.take(i + 1).last() == sample_view(sample));
        }
        acc.add(sample);
        i = i + 1;
    }
    assert(samples.take(SUPERSAMPLE as int) =~= samples);
    let mean: Color = acc.mean();
    quantize(&mean)
}

/// Calls `rand::Rng::gen_range` on the generator of the thread, with the
/// range from `low` up to but not including `high`. It returns a number of
/// that range, and panics if the range is empty, which the precondition
/// rules out.
#[verifier::external_body]
fn random_in_range(low: i64, high: i64) -> (drawn: i64)
    requires
        low < high,
    ensures
        low <= drawn < high,
{
    rand::thread_rng().gen_range(low..high)
}

/// Draws the offsets of the samples of one pixel at random: for each sample
/// first the offset along x, then the offset along y.
pub fn draw_jitters() -> (jitters: Vec<(i64, i64)>)
    ensures
        valid_jitters(jitters@),
{
    let mut jitters: Vec<(i64, i64)> = Vec::new();
    let mut i: usize = 0;
    while i < SUPERSAMPLE
        invariant
            i <= SUPERSAMPLE,
            jitters@.len() == i,
            forall|k: int|
                0 <= k < jitters@.len() ==> valid_jitter((#[trigger] jitters@[k]).0 as int) && valid_jitter(
                    jitters@[k].1 as int,
                ),
        decreases SUPERSAMPLE - i,
    {
        let jitter_x: i64 = random_in_range(JITTER_MIN, JITTER_END);
        let jitter_y: i64 = random_in_range(JITTER_MIN, JITTER_END);
        jitters.push((jitter_x, jitter_y));
        i = i + 1;
    }
    jitters
}

/// Renders the sphere as the camera sees it, if the scene is well formed and
/// a canvas can hold the image; `None` if not.
pub fn try_raytrace(sphere: &Sphere, camera: &Camera) -> (rendered: Option<Canvas>)
    ensures
        rendered is Some <==> sphere.wf() && camera.wf() && Canvas::fits(
            camera.sensor_width as int,
            camera.sensor_height as int,
        ),
        rendered matches Some(canvas) ==> {
            &&& canvas.spec_width() == camera.sensor_width
            &&& canvas.spec_height() == camera.sensor_height
            &&& forall|x: int, y: int|
                0 <= x < camera.sensor_width && 0 <= y < camera.sensor_height ==> is_rendering(
                    #[trigger] canvas.spec_pixel(x, y),
                    camera@,
                    sphere@,
                    x,
                    y,
                )
        },
{
    if sphere.is_well_formed() && camera.is_well_formed() && Canvas::can_hold(
        camera.sensor_width,
        camera.sensor_height,
    ) {
        Some(raytrace(sphere, camera))
    } else {
        None
    }
}

/// Renders the sphere as the camera sees it.
///
/// Every pixel of the image is the average of its samples, taken at offsets
/// that are drawn at random.
pub fn raytrace(sphere: &Sphere, camera: &Camera) -> (canvas: Canvas)
    requires
        sphere.wf(),
        camera.wf(),
        Canvas::fits(camera.sensor_width as int, camera.sensor_height as int),
    ensures
        canvas.spec_width() == camera.sensor_width,
        canvas.spec_height() == camera.sensor_height,
        forall|x: int, y: int|
            0 <= x < camera.sensor_width && 0 <= y < camera.sensor_height ==> is_rendering(
                #[trigger] canvas.spec_pixel(x, y),
                camera@,
                sphere@,
                x,
                y,
            ),
{
    let mut canvas: Canvas = Canvas::new(camera.sensor_width, camera.sensor_height).unwrap();
    let mut x: u32 = 0;
    while x < camera.sensor_width
        invariant
            sphere.wf(),
            camera.wf(),
            x <= camera.sensor_width,
            canvas.spec_width() == camera.sensor_width,
            canvas.spec_height() == camera.sensor_height,
            forall|i: int, j: int|
                0 <= i < x && 0 <= j < camera.sensor_height ==> is_rendering(
                    #[trigger] canvas.spec_pixel(i, j),
                    camera@,
                    sphere@,
                    i,
                    j,
                ),
        decreases camera.sensor_width - x,
    {
        let mut y: u32 = 0;
        while y < camera.sensor_height
            invariant
                sphere.wf(),
                camera.wf(),
                x < camera.sensor_width,
                y <= camera.sensor_height,
                canvas.spec_width() == camera.sensor_width,
                canvas.spec_height() == camera.sensor_height,
                forall|i: int, j: int|
                    0 <= i < x && 0 <= j < camera.sensor_height ==> is_rendering(
                        #[trigger] canvas.spec_pixel(i, j),
                        camera@,
                        sphere@,
                        i,
                        j,
                    ),
                forall|j: int|
                    0 <= j < y ==> is_rendering(#[trigger] canvas.spec_pixel(x as int, j), camera@, sphere@, x as int, j),
            decreases camera.sensor_height - y,
        {
            let jitters: Vec<(i64, i64)> = draw_jitters();
            let rgb: (u8, u8, u8) = render_pixel(camera, sphere, x, y, jitters.as_slice());
            assert(is_rendering(rgb, camera@, sphere@, x as int, y as int));
            let ghost before = canvas;
            canvas.set_pixel(x, y, rgb);
            assert forall|i: int, j: int| !(i == x && j == y) implies canvas.spec_pixel(i, j) == before.spec_pixel(
                i,
                j,
            ) by {}
            y = y + 1;
        }
        x = x + 1;
    }
    canvas
}

} // verus!
