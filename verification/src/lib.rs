//! A monochrome drawing surface that addresses the red, green and blue
//! subpixels of an RGB raster as three separate pixels.
//!
//! Drawing code sees a surface three times as wide as the image that is
//! stored. Column `x` of the surface is the subpixel of channel `x % 3` in
//! the pixel `x / 3` of the stored image. A pixel that is switched on is not
//! stored at full intensity: each channel is dimmed until it looks as bright
//! as blue alone at full intensity, and is then put under the gamma of its
//! channel.
//!
//! All arithmetic is exact and in integers. Samples run from 0 to 255,
//! luminance weights are counted in thousandths and gammas in fifths, and a
//! square root or a fractional power that is rounded down is found as the
//! largest sample whose power stays within a bound.
//!
//! - [`quantize`]: powers, and the largest sample whose power is within a
//!   bound.
//! - [`perceived_brightness`]: the luminance weights and the evenly lit
//!   color.
//! - [`gamma`]: the gamma of each channel and the sample that a subpixel is
//!   stored with.
//! - [`layout`]: which column lights which channel, and how many pixels
//!   hold a number of columns.
//! - [`raster`]: the stored image, an RGB image of the `image` crate, and
//!   what is assumed of that crate.
//! - [`surface`]: what drawing does to the samples of the stored image, and
//!   the laws that hold of it.
//! - [`subpixel_image_buffer`]: the surface itself.

pub mod gamma;
pub mod layout;
pub mod perceived_brightness;
pub mod quantize;
pub mod raster;
pub mod subpixel_image_buffer;
pub mod surface;
