//! The image that the renderer fills: a grid of pixels held in an image
//! buffer of the `image` crate.

use vstd::prelude::*;

verus! {

/// A grid of RGB pixels with 8 bits per channel.
///
/// The pixels are held in an `image::RgbImage`, which is opaque to proofs:
/// all that is known of a canvas is what the functions of this module state
/// about `canvas_size` and `canvas_pixels`, and what they state of the image
/// buffer is assumed, not proved.
#[verifier::external_body]
pub struct Canvas {
    image: image::RgbImage,
}

/// The width and the height of a canvas, in pixels.
pub uninterp spec fn canvas_size(canvas: Canvas) -> (int, int);

/// The pixels of a canvas, by column and row.
pub uninterp spec fn canvas_pixels(canvas: Canvas) -> Map<(int, int), (u8, u8, u8)>;

/// Calls `image::ImageBuffer::new`, which allocates a buffer of `width` by
/// `height` pixels with every channel zero. It panics if the channels of the
/// image are more than a vector can hold, which the precondition rules out.
#[verifier::external_body]
fn blank_image(width: u32, height: u32) -> (canvas: Canvas)
    requires
        3 * width * height <= isize::MAX,
    ensures
        canvas_size(canvas) == (width as int, height as int),
        forall|x: int, y: int|
            0 <= x < width && 0 <= y < height ==> #[trigger] canvas_pixels(canvas)[(x, y)] == (0u8, 0u8, 0u8),
{
    Canvas { image: image::ImageBuffer::new(width, height) }
}

/// Calls `image::ImageBuffer::dimensions`, which returns the width and the
/// height that the buffer was made with.
#[verifier::external_body]
fn image_dimensions(canvas: &Canvas) -> (size: (u32, u32))
    ensures
        canvas_size(*canvas) == (size.0 as int, size.1 as int),
{
    canvas.image.dimensions()
}

/// Calls `image::ImageBuffer::get_pixel`, which returns the pixel at column
/// `x` and row `y`. It panics if `(x, y)` is out of bounds, which the
/// precondition rules out.
#[verifier::external_body]
fn image_pixel(canvas: &Canvas, x: u32, y: u32) -> (rgb: (u8, u8, u8))
    requires
        x < canvas_size(*canvas).0,
        y < canvas_size(*canvas).1,
    ensures
        rgb == canvas_pixels(*canvas)[(x as int, y as int)],
{
    let pixel = canvas.image.get_pixel(x, y);
    (pixel.0[0], pixel.0[1], pixel.0[2])
}

/// Calls `image::ImageBuffer::put_pixel`, which replaces the pixel at column
/// `x` and row `y` and leaves the size and the other pixels as they are. It
/// panics if `(x, y)` is out of bounds, which the precondition rules out.
#[verifier::external_body]
fn image_put_pixel(canvas: &mut Canvas, x: u32, y: u32, rgb: (u8, u8, u8))
    requires
        x < canvas_size(*old(canvas)).0,
        y < canvas_size(*old(canvas)).1,
    ensures
        canvas_size(*final(canvas)) == canvas_size(*old(canvas)),
        canvas_pixels(*final(canvas)) == canvas_pixels(*old(canvas)).insert((x as int, y as int), rgb),
{
    canvas.image.put_pixel(x, y, image::Rgb([rgb.0, rgb.1, rgb.2]))
}

impl Canvas {
    /// The number of columns.
    pub open spec fn spec_width(self) -> int {
        canvas_size(self).0
    }

    /// The number of rows.
    pub open spec fn spec_height(self) -> int {
        canvas_size(self).1
    }

    /// The pixel at column `x` and row `y`.
    pub open spec fn spec_pixel(self, x: int, y: int) -> (u8, u8, u8) {
        canvas_pixels(self)[(x, y)]
    }

    /// Whether a vector can hold the three channels of `width` by `height`
    /// pixels.
    pub open spec fn fits(width: int, height: int) -> bool {
        3 * width * height <= isize::MAX
    }

    /// A black canvas of `width` by `height` pixels, or `None` if a vector
    /// cannot hold that many pixels.
    pub fn new(width: u32, height: u32) -> (made: Option<Canvas>)
        ensures
            made is Some <==> Canvas::fits(width as int, height as int),
            made matches Some(canvas) ==> {
                &&& canvas.spec_width() == width
                &&& canvas.spec_height() == height
                &&& forall|x: int, y: int|
                    0 <= x < width && 0 <= y < height ==> #[trigger] canvas.spec_pixel(x, y) == (0u8, 0u8, 0u8)
            },
    {
        if Canvas::can_hold(width, height) {
            Some(blank_image(width, height))
        } else {
            None
        }
    }

    /// Whether a vector can hold the three channels of `width` by `height`
    /// pixels.
    pub fn can_hold(width: u32, height: u32) -> (ok: bool)
        ensures
            ok == Canvas::fits(width as int, height as int),
    {
        assert(3 * width * height <= 3 * 0xffff_ffff * 0xffff_ffff) by (nonlinear_arith)
            requires
                width <= 0xffff_ffff,
                height <= 0xffff_ffff,
        ;
        let channels: u128 = 3 * (width as u128) * (height as u128);
        channels <= isize::MAX as u128
    }

    /// The number of columns.
    pub fn width(&self) -> (width: u32)
        ensures
            width == self.spec_width(),
    {
        image_dimensions(self).0
    }

    /// The number of rows.
    pub fn height(&self) -> (height: u32)
        ensures
            height == self.spec_height(),
    {
        image_dimensions(self).1
    }

    /// The pixel at column `x` and row `y`, or `None` if the canvas has no
    /// such pixel.
    pub fn pixel(&self, x: u32, y: u32) -> (rgb: Option<(u8, u8, u8)>)
        ensures
            rgb == if x < self.spec_width() && y < self.spec_height() {
                Some(self.spec_pixel(x as int, y as int))
            } else {
                None
            },
    {
        let (width, height): (u32, u32) = image_dimensions(self);
        if x < width && y < height {
            Some(image_pixel(self, x, y))
        } else {
            None
        }
    }

    /// Replaces the pixel at column `x` and row `y`. Returns whether the
    /// canvas has such a pixel; if not, it is left as it is.
    pub fn set_pixel(&mut self, x: u32, y: u32, rgb: (u8, u8, u8)) -> (done: bool)
        ensures
            done == (x < old(self).spec_width() && y < old(self).spec_height()),
            final(self).spec_width() == old(self).spec_width(),
            final(self).spec_height() == old(self).spec_height(),
            done ==> canvas_pixels(*final(self)) == canvas_pixels(*old(self)).insert((x as int, y as int), rgb),
            !done ==> canvas_pixels(*final(self)) == canvas_pixels(*old(self)),
    {
        let (width, height): (u32, u32) = image_dimensions(self);
        if x < width && y < height {
            image_put_pixel(self, x, y, rgb);
            true
        } else {
            false
        }
    }
}

} // verus!
