//! The backing raster: an RGB image of the `image` crate with one byte per
//! sample. Verus does not look inside it. What this library assumes of the
//! crate is stated here, over the three names below, and nowhere else.

use vstd::prelude::*;

verus! {

/// An RGB raster with one byte per sample, held by `image::RgbImage`.
#[verifier::external_body]
pub struct Raster {
    image: image::RgbImage,
}

/// The number of pixels in a row of the raster.
pub uninterp spec fn raster_width(raster: Raster) -> nat;

/// The number of rows of the raster.
pub uninterp spec fn raster_height(raster: Raster) -> nat;

/// The samples that the raster holds: row after row from the top, within a
/// row pixel after pixel from the left, and for each pixel red, green, blue.
pub uninterp spec fn raster_samples(raster: Raster) -> Seq<u8>;

/// Where the red sample of the pixel `(x, y)` stands among the samples of a
/// raster that is `width` pixels wide.
pub open spec fn pixel_start(width: int, x: int, y: int) -> int {
    3 * (y * width + x)
}

/// `ImageBuffer::new`: a raster of the given size with every sample zero.
/// The call panics where the samples would not fit a vector, which the
/// precondition rules out.
#[verifier::external_body]
pub(crate) fn blank_image(width: u32, height: u32) -> (raster: Raster)
    requires
        3 * width * height <= isize::MAX,
    ensures
        raster_width(raster) == width,
        raster_height(raster) == height,
        raster_samples(raster) == Seq::new((3 * width * height) as nat, |i: int| 0u8),
{
    Raster { image: image::ImageBuffer::new(width, height) }
}

/// `ImageBuffer::width`: the width that the raster was made with.
#[verifier::external_body]
pub(crate) fn image_width(raster: &Raster) -> (width: u32)
    ensures
        width == raster_width(*raster),
{
    raster.image.width()
}

/// `ImageBuffer::height`: the height that the raster was made with.
#[verifier::external_body]
pub(crate) fn image_height(raster: &Raster) -> (height: u32)
    ensures
        height == raster_height(*raster),
{
    raster.image.height()
}

/// `ImageBuffer::get_pixel`: the three samples of the pixel `(x, y)`. The
/// call panics outside the raster, which the precondition rules out.
#[verifier::external_body]
pub(crate) fn image_pixel(raster: &Raster, x: u32, y: u32) -> (pixel: [u8; 3])
    requires
        x < raster_width(*raster),
        y < raster_height(*raster),
    ensures
        forall|channel: int|
            0 <= channel < 3 ==> #[trigger] pixel[channel] == raster_samples(*raster)[pixel_start(
                raster_width(*raster) as int,
                x as int,
                y as int,
            ) + channel],
{
    raster.image.get_pixel(x, y).0
}

/// `ImageBuffer::get_pixel_mut`, written through: one sample of the pixel
/// `(x, y)` takes the given value and nothing else changes. The call panics
/// outside the raster, which the precondition rules out.
#[verifier::external_body]
pub(crate) fn set_image_sample(raster: &mut Raster, x: u32, y: u32, channel: usize, value: u8)
    requires
        x < raster_width(*old(raster)),
        y < raster_height(*old(raster)),
        channel < 3,
    ensures
        raster_width(*final(raster)) == raster_width(*old(raster)),
        raster_height(*final(raster)) == raster_height(*old(raster)),
        raster_samples(*final(raster)) == raster_samples(*old(raster)).update(
            pixel_start(raster_width(*old(raster)) as int, x as int, y as int) + channel,
            value,
        ),
    no_unwind
{
    raster.image.get_pixel_mut(x, y).0[channel] = value;
}

/// `ImageBuffer::put_pixel`: the three samples of the pixel `(x, y)` take
/// the given values and nothing else changes. The call panics outside the
/// raster, which the precondition rules out.
#[verifier::external_body]
pub(crate) fn put_image_pixel(raster: &mut Raster, x: u32, y: u32, pixel: [u8; 3])
    requires
        x < raster_width(*old(raster)),
        y < raster_height(*old(raster)),
    ensures
        raster_width(*final(raster)) == raster_width(*old(raster)),
        raster_height(*final(raster)) == raster_height(*old(raster)),
        raster_samples(*final(raster)) == raster_samples(*old(raster)).update(
            pixel_start(raster_width(*old(raster)) as int, x as int, y as int),
            pixel[0],
        ).update(
            pixel_start(raster_width(*old(raster)) as int, x as int, y as int) + 1,
            pixel[1],
        ).update(pixel_start(raster_width(*old(raster)) as int, x as int, y as int) + 2, pixel[2]),
    no_unwind
{
    raster.image.put_pixel(x, y, image::Rgb(pixel));
}

/// `ImageBuffer::into_raw`: the samples of the raster as a vector.
#[verifier::external_body]
pub(crate) fn image_into_raw(raster: Raster) -> (samples: Vec<u8>)
    ensures
        samples@ == raster_samples(raster),
{
    raster.image.into_raw()
}

impl Raster {
    /// The number of pixels in a row.
    pub fn width(&self) -> (width: u32)
        ensures
            width == raster_width(*self),
    {
        image_width(self)
    }

    /// The number of rows.
    pub fn height(&self) -> (height: u32)
        ensures
            height == raster_height(*self),
    {
        image_height(self)
    }

    /// The red, green and blue sample of the pixel `(x, y)`, or nothing
    /// where the raster has no such pixel.
    pub fn get_pixel(&self, x: u32, y: u32) -> (pixel: Option<[u8; 3]>)
        ensures
            pixel is Some <==> x < raster_width(*self) && y < raster_height(*self),
            pixel matches Some(samples) ==> forall|channel: int|
                0 <= channel < 3 ==> #[trigger] samples[channel] == raster_samples(
                    *self,
                )[pixel_start(raster_width(*self) as int, x as int, y as int) + channel],
    {
        if x < image_width(self) && y < image_height(self) {
            Some(image_pixel(self, x, y))
        } else {
            None
        }
    }

    /// Gives up the raster for its samples.
    pub fn into_raw(self) -> (samples: Vec<u8>)
        ensures
            samples@ == raster_samples(self),
    {
        image_into_raw(self)
    }
}

} // verus!
