//! The pixel buffer that pictures are drawn into.
//!
//! The buffer is an `image::ImageBuffer` of `image::Rgb<u8>` pixels over a
//! `Vec<u8>`. The verifier does not look inside it: its size and its pixels
//! are named by `image_dimensions` and `image_pixels`, and the private
//! functions that call into the `image` crate are believed to do what their
//! contracts say. Everything public is proved from those contracts.

use vstd::prelude::*;
use image::{ImageBuffer, Rgb};
use crate::color::Color;

verus! {

/// A rectangle of RGB pixels, held by the `image` crate. The field is an
/// `image::ImageBuffer`, whose `Pixel` bound keeps it from being declared to
/// the verifier by itself, so the whole struct is opaque to it.
#[verifier::external_body]
pub struct RenderedImage {
    buffer: ImageBuffer<Rgb<u8>, Vec<u8>>,
}

/// Width and height of the buffer, as `image::ImageBuffer::dimensions` gives them.
pub uninterp spec fn image_dimensions(img: RenderedImage) -> (u32, u32);

/// The pixels of the buffer by coordinate `(x, y)`, `x` counting columns from
/// the left and `y` rows from the top. The map is defined at the coordinates
/// inside `image_dimensions` and nowhere else.
pub uninterp spec fn image_pixels(img: RenderedImage) -> Map<(int, int), Color>;

/// Where channel `channel` of the pixel at `(x, y)` lies in the container of a
/// buffer that is `width` pixels wide: rows follow each other from the top,
/// pixels within a row from the left, three channels per pixel.
pub open spec fn channel_index(width: int, x: int, y: int, channel: int) -> int {
    3 * (y * width + x) + channel
}

/// Whether `bytes` is the container of a buffer of the given size and
/// pixels: three channels per pixel, each at its `channel_index`.
pub open spec fn holds_pixels(
    bytes: Seq<u8>,
    dimensions: (u32, u32),
    pixels: Map<(int, int), Color>,
) -> bool {
    &&& bytes.len() == 3 * dimensions.0 * dimensions.1
    &&& forall|x: int, y: int|
        0 <= x < dimensions.0 && 0 <= y < dimensions.1 ==> {
            let c = #[trigger] pixels[(x, y)];
            &&& bytes[channel_index(dimensions.0 as int, x, y, 0)] == c.r
            &&& bytes[channel_index(dimensions.0 as int, x, y, 1)] == c.g
            &&& bytes[channel_index(dimensions.0 as int, x, y, 2)] == c.b
        }
}

impl RenderedImage {
    /// The pixel at `(x, y)`, or nothing when `(x, y)` lies outside the raster.
    pub fn get_pixel(&self, x: u32, y: u32) -> (pixel: Option<Color>)
        ensures
            pixel == (if x < image_dimensions(*self).0 && y < image_dimensions(*self).1 {
                Some(image_pixels(*self)[(x as int, y as int)])
            } else {
                None
            }),
    {
        let (width, height) = self.size();
        if x < width && y < height {
            Some(self.get(x, y))
        } else {
            None
        }
    }

    /// Takes the raster apart into its width, its height and the bytes of its
    /// pixels: row after row from the top, each row from the left, three
    /// channels per pixel.
    pub fn into_parts(self) -> (parts: (u32, u32, Vec<u8>))
        ensures
            (parts.0, parts.1) == image_dimensions(self),
            holds_pixels(parts.2@, image_dimensions(self), image_pixels(self)),
    {
        let (width, height) = self.size();
        let bytes = self.container();
        (width, height, bytes)
    }

    /// Calls `image::ImageBuffer::new`, which allocates a buffer of the given
    /// width and height with every channel of every pixel zero.
    ///
    /// The outside function panics when the container would be larger than a
    /// `Vec` can be; the precondition leaves those sizes out.
    #[verifier::external_body]
    pub(crate) fn blank(width: u32, height: u32) -> (img: RenderedImage)
        requires
            3 * width * height <= isize::MAX,
        ensures
            image_dimensions(img) == (width, height),
            forall|x: int, y: int|
                0 <= x < width && 0 <= y < height ==> #[trigger] image_pixels(img)[(x, y)] == (
                Color { r: 0, g: 0, b: 0 }),
    {
        RenderedImage { buffer: ImageBuffer::new(width, height) }
    }

    /// Calls `image::ImageBuffer::put_pixel`, which stores a pixel at `(x, y)`
    /// and leaves every other pixel and the buffer's size as they were.
    ///
    /// The outside function panics when `(x, y)` lies outside the buffer; the
    /// precondition leaves those coordinates out.
    #[verifier::external_body]
    pub(crate) fn put(&mut self, x: u32, y: u32, color: Color)
        requires
            x < image_dimensions(*old(self)).0,
            y < image_dimensions(*old(self)).1,
        ensures
            image_dimensions(*final(self)) == image_dimensions(*old(self)),
            image_pixels(*final(self)) == image_pixels(*old(self)).insert(
                (x as int, y as int),
                color,
            ),
    {
        self.buffer.put_pixel(x, y, Rgb([color.r, color.g, color.b]))
    }

    /// Calls `image::ImageBuffer::get_pixel`, which reads the pixel at `(x, y)`.
    ///
    /// The outside function panics when `(x, y)` lies outside the buffer; the
    /// precondition leaves those coordinates out.
    #[verifier::external_body]
    pub(crate) fn get(&self, x: u32, y: u32) -> (color: Color)
        requires
            x < image_dimensions(*self).0,
            y < image_dimensions(*self).1,
        ensures
            color == image_pixels(*self)[(x as int, y as int)],
    {
        let pixel = self.buffer.get_pixel(x, y);
        Color { r: pixel.0[0], g: pixel.0[1], b: pixel.0[2] }
    }

    /// Calls `image::ImageBuffer::dimensions`, which gives width and height.
    #[verifier::external_body]
    pub(crate) fn size(&self) -> (d: (u32, u32))
        ensures
            d == image_dimensions(*self),
    {
        self.buffer.dimensions()
    }

    /// Calls `image::ImageBuffer::into_raw`, which gives up the container. It
    /// holds the channels of all pixels at the places that `channel_index`
    /// names, and nothing else: `blank` is the only way to make a buffer, and
    /// it makes the container exactly as long as the pixels need.
    #[verifier::external_body]
    pub(crate) fn container(self) -> (bytes: Vec<u8>)
        ensures
            holds_pixels(bytes@, image_dimensions(self), image_pixels(self)),
    {
        self.buffer.into_raw()
    }
}

} // verus!
