//! The drawing surface: a monochrome buffer whose columns are the subpixels
//! of the RGB raster that backs it, so that it is three times as wide as the
//! image it stores.

use vstd::prelude::*;
use crate::gamma::subpixel_intensity;
use crate::layout::{backing_columns, backing_width, subpixel_channel, Channel};
use crate::perceived_brightness::{evenly_lit, evenly_lit_pixel};
use crate::raster::{
    blank_image,
    image_height,
    image_pixel,
    image_width,
    put_image_pixel,
    raster_height,
    raster_samples,
    raster_width,
    set_image_sample,
    Raster,
};
use crate::surface::{
    enlarged,
    enlarged_up_to,
    first_negative,
    lemma_first_negative,
    lemma_pixel_in_range,
    lemma_sample_index_in_range,
    painted,
    written,
};

verus! {

/// Why a pixel could not be drawn.
#[derive(Clone, Copy, Debug, PartialEq, Eq, Structural)]
pub enum DrawError {
    /// The pixel lies left of or above the surface.
    NegativeCoordinate,
}

/// A pixel of the surface and whether it is to be switched on.
#[derive(Clone, Copy, Debug, PartialEq, Eq, Structural)]
pub struct BinaryPixel {
    pub x: i32,
    pub y: i32,
    pub on: bool,
}

/// A monochrome buffer that stores an image a third as wide as the surface
/// it offers, by treating subpixels as pixels.
pub struct SubpixelImageBuffer {
    /// The largest sample that is written to each channel.
    reference_pixel: [u8; 3],
    /// Whether a column of the surface is a subpixel of the stored image,
    /// and not a whole pixel of it.
    subpixels: bool,
    /// The stored image.
    buffer: Raster,
}

impl View for SubpixelImageBuffer {
    type V = Seq<u8>;

    /// The samples of the stored image: row after row from the top, within
    /// a row pixel after pixel from the left, and for each pixel red, green,
    /// blue.
    closed spec fn view(&self) -> Seq<u8> {
        raster_samples(self.buffer)
    }
}

impl SubpixelImageBuffer {
    #[verifier::type_invariant]
    spec fn well_formed(self) -> bool {
        &&& self.reference_pixel@ == evenly_lit()
        &&& self.subpixels ==> 3 * raster_width(self.buffer) <= u32::MAX
        &&& raster_samples(self.buffer).len() == 3 * raster_width(self.buffer) * raster_height(
            self.buffer,
        )
    }

    /// Whether a column of the surface is a subpixel of the stored image,
    /// and not a whole pixel of it.
    pub closed spec fn packs_subpixels(self) -> bool {
        self.subpixels
    }

    /// The number of pixels in a row of the stored image.
    pub closed spec fn backing_width(self) -> nat {
        raster_width(self.buffer)
    }

    /// The number of rows of the stored image, and of the surface.
    pub closed spec fn backing_height(self) -> nat {
        raster_height(self.buffer)
    }

    /// The number of columns of the surface.
    pub open spec fn width(self) -> nat {
        if self.packs_subpixels() {
            3 * self.backing_width()
        } else {
            self.backing_width()
        }
    }

    /// Whether the surface has a pixel `(x, y)`.
    pub open spec fn contains(self, x: int, y: int) -> bool {
        0 <= x < self.width() && 0 <= y < self.backing_height()
    }

    /// A dark surface of `height` rows whose columns are subpixels. Its
    /// width is `width` rounded up to the next multiple of three.
    pub fn new(width: u32, height: u32) -> (surface: Self)
        requires
            3 * backing_columns(width as nat) * height <= isize::MAX,
        ensures
            surface.packs_subpixels(),
            surface.backing_width() == backing_columns(width as nat),
            surface.backing_height() == height,
            surface@ == Seq::new(
                (3 * backing_columns(width as nat) * height) as nat,
                |i: int| 0u8,
            ),
    {
        SubpixelImageBuffer::with_subpixels(width, height, true)
    }

    /// A dark surface of `height` rows. With `subpixels` its columns are
    /// the subpixels of the stored image, and its width is `width` rounded up
    /// to the next multiple of three. Without, its columns are the pixels of
    /// the stored image, and its width is `width`.
    pub fn with_subpixels(width: u32, height: u32, subpixels: bool) -> (surface: Self)
        requires
            subpixels ==> 3 * backing_columns(width as nat) * height <= isize::MAX,
            !subpixels ==> 3 * width * height <= isize::MAX,
        ensures
            surface.packs_subpixels() == subpixels,
            surface.backing_width() == if subpixels {
                backing_columns(width as nat)
            } else {
                width as nat
            },
            surface.backing_height() == height,
            surface@ == Seq::new(
                (3 * surface.backing_width() * height) as nat,
                |i: int| 0u8,
            ),
    {
        let columns: u32 = if subpixels {
            backing_width(width)
        } else {
            width
        };
        SubpixelImageBuffer {
            reference_pixel: evenly_lit_pixel(),
            subpixels,
            buffer: blank_image(columns, height),
        }
    }

    /// The stored image.
    pub fn into_inner(self) -> (raster: Raster)
        ensures
            raster_width(raster) == self.backing_width(),
            raster_height(raster) == self.backing_height(),
            raster_samples(raster) == self@,
            self@.len() == 3 * self.backing_width() * self.backing_height(),
    {
        proof {
            use_type_invariant(&self);
        }
        self.buffer
    }

    /// The stored image, enlarged three times in each direction so that
    /// every subpixel can be told apart: each pixel becomes a block of three
    /// by three, in which the first column shows its red sample, the second
    /// its green sample and the third its blue sample.
    pub fn to_non_subpixel_image(&self) -> (image: Raster)
        requires
            3 * self.backing_width() <= u32::MAX,
            3 * self.backing_height() <= u32::MAX,
            27 * self.backing_width() * self.backing_height() <= isize::MAX,
        ensures
            raster_width(image) == 3 * self.backing_width(),
            raster_height(image) == 3 * self.backing_height(),
            raster_samples(image) == enlarged(
                self@,
                self.backing_width() as int,
                self.backing_height() as int,
            ),
    {
        proof {
            use_type_invariant(self);
        }
        let width: u32 = image_width(&self.buffer);
        let height: u32 = image_height(&self.buffer);
        assert(3 * (width * 3) * (height * 3) == 27 * width * height) by (nonlinear_arith);
        let mut image: Raster = blank_image(width * 3, height * 3);
        let mut y: u32 = 0;
        while y < height * 3
            invariant
                width == self.backing_width(),
                height == self.backing_height(),
                3 * width <= u32::MAX,
                3 * height <= u32::MAX,
                y <= height * 3,
                raster_width(image) == 3 * width,
                raster_height(image) == 3 * height,
                raster_samples(image) == enlarged_up_to(
                    self@,
                    width as int,
                    height as int,
                    y * (3 * width),
                ),
            decreases height * 3 - y,
        {
            let mut x: u32 = 0;
            while x < width * 3
                invariant
                    width == self.backing_width(),
                    height == self.backing_height(),
                    3 * width <= u32::MAX,
                    3 * height <= u32::MAX,
                    y < height * 3,
                    x <= width * 3,
                    raster_width(image) == 3 * width,
                    raster_height(image) == 3 * height,
                    raster_samples(image) == enlarged_up_to(
                        self@,
                        width as int,
                        height as int,
                        y * (3 * width) + x,
                    ),
                decreases width * 3 - x,
            {
                let channel: usize = (x % 3) as usize;
                let pixel: [u8; 3] = image_pixel(&self.buffer, x / 3, y / 3);
                let ghost done: int = y * (3 * width) + x;
                proof {
                    lemma_pixel_in_range(3 * width, 3 * height, x as int, y as int);
                    assert(3 * (y * (3 * width)) == 3 * done - 3 * x) by (nonlinear_arith)
                        requires
                            done == y * (3 * width) + x,
                    ;
                    assert(3 * (3 * width) * (3 * height) == 27 * width * height)
                        by (nonlinear_arith);
                    vstd::arithmetic::div_mod::lemma_fundamental_div_mod_converse(
                        done,
                        3 * width,
                        y as int,
                        x as int,
                    );
                }
                if pixel[channel] != 0 {
                    let mut output: [u8; 3] = [0, 0, 0];
                    output[channel] = pixel[channel];
                    put_image_pixel(&mut image, x, y, output);
                }
                proof {
                    assert(raster_samples(image) =~= enlarged_up_to(
                        self@,
                        width as int,
                        height as int,
                        done + 1,
                    )) by {
                        assert forall|place: int| 3 * done <= place < 3 * done + 3 implies place
                            / 3 == done && #[trigger] (place % 3) == place - 3 * done by {}
                    }
                }
                x = x + 1;
            }
            proof {
                assert(y * (3 * width) + 3 * width == (y + 1) * (3 * width))
                    by (nonlinear_arith);
            }
            y = y + 1;
        }
        proof {
            assert((3 * height) * (3 * width) >= 0) by (nonlinear_arith);
            assert(3 * ((3 * height) * (3 * width)) == 27 * width * height) by (nonlinear_arith);
        }
        image
    }

    /// The width and the height of the surface.
    pub fn size(&self) -> (size: (u32, u32))
        ensures
            size.0 == self.width(),
            size.1 == self.backing_height(),
    {
        proof {
            use_type_invariant(self);
        }
        let columns: u32 = if self.subpixels {
            image_width(&self.buffer) * 3
        } else {
            image_width(&self.buffer)
        };
        (columns, image_height(&self.buffer))
    }

    /// Switches the pixel `(x, y)` of the surface on or off.
    pub fn put_pixel(&mut self, x: u32, y: u32, on: bool)
        requires
            old(self).contains(x as int, y as int),
        ensures
            final(self).packs_subpixels() == old(self).packs_subpixels(),
            final(self).backing_width() == old(self).backing_width(),
            final(self).backing_height() == old(self).backing_height(),
            final(self)@ == written(
                old(self)@,
                old(self).backing_width() as int,
                old(self).packs_subpixels(),
                x as int,
                y as int,
                on,
            ),
    {
        proof {
            use_type_invariant(&*self);
        }
        if self.subpixels {
            let channel: Channel = subpixel_channel(x);
            let value: u8 = subpixel_intensity(&self.reference_pixel, channel, on);
            proof {
                lemma_sample_index_in_range(
                    self.backing_width() as int,
                    self.backing_height() as int,
                    x as int,
                    y as int,
                );
            }
            set_image_sample(&mut self.buffer, x / 3, y, channel.index(), value);
        } else {
            let color: [u8; 3] = if on {
                self.reference_pixel
            } else {
                [0, 0, 0]
            };
            proof {
                lemma_pixel_in_range(
                    self.backing_width() as int,
                    self.backing_height() as int,
                    x as int,
                    y as int,
                );
            }
            put_image_pixel(&mut self.buffer, x, y, color);
        }
    }

    /// Switches the pixel `(x, y)` of the surface on or off, unless it lies
    /// left of or above the surface.
    pub fn set_pixel(&mut self, x: i32, y: i32, on: bool) -> (result: Result<(), DrawError>)
        requires
            x >= 0 && y >= 0 ==> old(self).contains(x as int, y as int),
        ensures
            final(self).packs_subpixels() == old(self).packs_subpixels(),
            final(self).backing_width() == old(self).backing_width(),
            final(self).backing_height() == old(self).backing_height(),
            x < 0 || y < 0 ==> result == Err::<(), DrawError>(DrawError::NegativeCoordinate)
                && final(self)@ == old(self)@,
            x >= 0 && y >= 0 ==> result == Ok::<(), DrawError>(()) && final(self)@ == written(
                old(self)@,
                old(self).backing_width() as int,
                old(self).packs_subpixels(),
                x as int,
                y as int,
                on,
            ),
    {
        if x < 0 || y < 0 {
            return Err(DrawError::NegativeCoordinate);
        }
        self.put_pixel(x as u32, y as u32, on);
        Ok(())
    }

    /// Draws the pixels one after the other, and stops at the first that
    /// lies left of or above the surface: those before it are drawn, it and
    /// those after it are not.
    pub fn draw_iter(&mut self, pixels: &Vec<BinaryPixel>) -> (result: Result<(), DrawError>)
        requires
            forall|place: int|
                0 <= place < first_negative(pixels@, 0) ==> old(self).contains(
                    (#[trigger] pixels@[place]).x as int,
                    pixels@[place].y as int,
                ),
        ensures
            final(self).packs_subpixels() == old(self).packs_subpixels(),
            final(self).backing_width() == old(self).backing_width(),
            final(self).backing_height() == old(self).backing_height(),
            final(self)@ == painted(
                old(self)@,
                old(self).backing_width() as int,
                old(self).packs_subpixels(),
                pixels@,
                first_negative(pixels@, 0),
            ),
            result == if first_negative(pixels@, 0) == pixels@.len() {
                Ok::<(), DrawError>(())
            } else {
                Err::<(), DrawError>(DrawError::NegativeCoordinate)
            },
    {
        let mut drawn: usize = 0;
        while drawn < pixels.len()
            invariant
                drawn <= pixels.len(),
                first_negative(pixels@, 0) == first_negative(pixels@, drawn as int),
                forall|place: int|
                    0 <= place < first_negative(pixels@, 0) ==> old(self).contains(
                        (#[trigger] pixels@[place]).x as int,
                        pixels@[place].y as int,
                    ),
                self.packs_subpixels() == old(self).packs_subpixels(),
                self.backing_width() == old(self).backing_width(),
                self.backing_height() == old(self).backing_height(),
                self@ == painted(
                    old(self)@,
                    old(self).backing_width() as int,
                    old(self).packs_subpixels(),
                    pixels@,
                    drawn as int,
                ),
            decreases pixels.len() - drawn,
        {
            let pixel: BinaryPixel = pixels[drawn];
            proof {
                lemma_first_negative(pixels@, drawn as int + 1, drawn as int);
            }
            match self.set_pixel(pixel.x, pixel.y, pixel.on) {
                Ok(()) => {},
                Err(error) => {
                    return Err(error);
                },
            }
            drawn = drawn + 1;
        }
        Ok(())
    }
}

} // verus!
