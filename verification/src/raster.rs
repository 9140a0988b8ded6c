//! Pixel rasters: the canvas that a mosaic is assembled on, and the decoded
//! tiles that are copied onto it. Both are kept by the `image` crate; this
//! file states what its operations do to their pixels.

use vstd::prelude::*;

verus! {

/// One pixel: red, green, blue, alpha.
pub type Rgba8 = (u8, u8, u8, u8);

/// The pixel positions of a raster `width` wide and `height` high: column
/// first, row second.
pub open spec fn raster_positions(width: int, height: int) -> Set<(int, int)> {
    Set::new(|p: (int, int)| 0 <= p.0 < width && 0 <= p.1 < height)
}

/// A raster of the given size with every pixel zero.
pub open spec fn blank_pixels(width: int, height: int) -> Map<(int, int), Rgba8> {
    Map::new(|p: (int, int)| raster_positions(width, height).contains(p), |p: (int, int)| (0u8, 0u8, 0u8, 0u8))
}

/// The pixels `base` with the `width` x `height` raster `top` laid over
/// them, its upper left corner at column `x` and row `y`.
pub open spec fn overlay(
    base: Map<(int, int), Rgba8>,
    top: Map<(int, int), Rgba8>,
    width: int,
    height: int,
    x: int,
    y: int,
) -> Map<(int, int), Rgba8> {
    Map::new(
        |p: (int, int)| base.dom().contains(p),
        |p: (int, int)|
            if x <= p.0 < x + width && y <= p.1 < y + height {
                top[(p.0 - x, p.1 - y)]
            } else {
                base[p]
            },
    )
}

/// An RGBA raster with eight bits to the channel, held by the `image` crate
/// as an `RgbaImage`. The buffer is hidden from the verifier: its size and
/// pixels go by the names below, and only the functions of this file touch
/// it.
#[verifier::external_body]
pub struct Canvas {
    buf: image::RgbaImage,
}

/// `image::DynamicImage`, a decoded image of any pixel format. Its size and
/// pixels go by the names below.
#[verifier::external_type_specification]
#[verifier::external_body]
pub struct ExDynamicImage(image::DynamicImage);

/// `image::ImageError`, the reason why an operation on an image failed.
/// Nothing is known of what is inside.
#[verifier::external_type_specification]
#[verifier::external_body]
pub struct ExImageError(image::ImageError);

/// The number of pixel columns of a canvas.
pub uninterp spec fn canvas_width(canvas: Canvas) -> int;

/// The number of pixel rows of a canvas.
pub uninterp spec fn canvas_height(canvas: Canvas) -> int;

/// The pixels of a canvas by position.
pub uninterp spec fn canvas_pixels(canvas: Canvas) -> Map<(int, int), Rgba8>;

/// The number of pixel columns of a decoded image.
pub uninterp spec fn image_width(image: image::DynamicImage) -> int;

/// The number of pixel rows of a decoded image.
pub uninterp spec fn image_height(image: image::DynamicImage) -> int;

/// The pixels of a decoded image by position, each as the RGBA value that
/// the image hands out for it.
pub uninterp spec fn image_pixels(image: image::DynamicImage) -> Map<(int, int), Rgba8>;

/// Whether a decoded image keeps its samples as floating-point numbers: the
/// variants `ImageRgb32F` and `ImageRgba32F` of `DynamicImage`.
pub uninterp spec fn image_has_float_samples(image: image::DynamicImage) -> bool;

/// What `image::load_from_memory_with_format` makes of a run of bytes when
/// the format is PNG: the decoded
/// image, or why there is none.
pub uninterp spec fn decoded_png(bytes: Seq<u8>) -> Result<image::DynamicImage, image::ImageError>;

impl Canvas {
    /// Makes a canvas with `ImageBuffer::new`, which fills it with zeros.
    /// The contract claims the size asked for and a zero in every channel of
    /// every pixel. `ImageBuffer::new` panics where four bytes to the pixel
    /// do not fit in `usize`; `requires` leaves such a size out.
    #[verifier::external_body]
    pub(crate) fn blank(width: u32, height: u32) -> (canvas: Canvas)
        requires
            4 * width * height <= usize::MAX,
        ensures
            canvas_width(canvas) == width,
            canvas_height(canvas) == height,
            canvas_pixels(canvas) == blank_pixels(width as int, height as int),
    {
        Canvas { buf: image::ImageBuffer::new(width, height) }
    }

    /// Copies `tile` onto the canvas with `GenericImage::copy_from`, its
    /// upper left corner at column `x` and row `y`. The contract claims what
    /// the source of `copy_from` shows: it fails, and changes nothing, where
    /// the tile does not lie within the canvas; else every pixel under the
    /// tile becomes the tile's pixel and the others stay. The sums that
    /// `copy_from` forms must fit in 32 bits: `requires` says so. It also
    /// leaves out a tile with floating-point samples, whose conversion to
    /// eight bits panics on a sample that is no number.
    #[verifier::external_body]
    pub(crate) fn place(&mut self, tile: &image::DynamicImage, x: u32, y: u32) -> (r: Result<
        (),
        image::ImageError,
    >)
        requires
            !image_has_float_samples(*tile),
            image_width(*tile) + x <= u32::MAX,
            image_height(*tile) + y <= u32::MAX,
        ensures
            canvas_width(*final(self)) == canvas_width(*old(self)),
            canvas_height(*final(self)) == canvas_height(*old(self)),
            r is Ok <==> image_width(*tile) + x <= canvas_width(*old(self)) && image_height(*tile)
                + y <= canvas_height(*old(self)),
            r is Ok ==> canvas_pixels(*final(self)) == overlay(
                canvas_pixels(*old(self)),
                image_pixels(*tile),
                image_width(*tile),
                image_height(*tile),
                x as int,
                y as int,
            ),
            r is Err ==> canvas_pixels(*final(self)) == canvas_pixels(*old(self)),
    {
        image::GenericImage::copy_from(&mut self.buf, tile, x, y)
    }

    /// Reads the pixel at column `x` and row `y` with
    /// `ImageBuffer::get_pixel`, which panics outside the canvas; `requires`
    /// leaves such a position out.
    #[verifier::external_body]
    pub(crate) fn pixel(&self, x: u32, y: u32) -> (p: Rgba8)
        requires
            x < canvas_width(*self),
            y < canvas_height(*self),
        ensures
            p == canvas_pixels(*self)[(x as int, y as int)],
    {
        let p = self.buf.get_pixel(x, y);
        (p[0], p[1], p[2], p[3])
    }

    /// Hands the canvas over as a `DynamicImage`, wrapped in its variant
    /// `ImageRgba8`. The contract claims that size and pixels are kept: for
    /// that variant the image hands out its pixels unconverted.
    #[verifier::external_body]
    pub(crate) fn into_image(self) -> (image: image::DynamicImage)
        ensures
            !image_has_float_samples(image),
            image_width(image) == canvas_width(self),
            image_height(image) == canvas_height(self),
            image_pixels(image) == canvas_pixels(self),
    {
        image::DynamicImage::ImageRgba8(self.buf)
    }
}

/// Decodes a PNG image from its encoded bytes with
/// `image::load_from_memory_with_format`, the format fixed to PNG. The
/// contract gives the outcome its name, and claims that a decoded image
/// keeps no floating-point samples: the PNG decoder yields samples of 8 or
/// 16 bits only. Bytes in any other format, JPEG among them, are no image
/// to this call.
#[verifier::external_body]
pub(crate) fn decode_png(bytes: &[u8]) -> (r: Result<image::DynamicImage, image::ImageError>)
    ensures
        r == decoded_png(bytes@),
        r matches Ok(image) ==> !image_has_float_samples(image),
{
    image::load_from_memory_with_format(bytes, image::ImageFormat::Png)
}

/// Reads the size of a decoded image with `GenericImageView::dimensions`:
/// width first, height second.
#[verifier::external_body]
pub(crate) fn image_size(image: &image::DynamicImage) -> (size: (u32, u32))
    ensures
        size.0 == image_width(*image),
        size.1 == image_height(*image),
{
    image::GenericImageView::dimensions(image)
}

} // verus!
