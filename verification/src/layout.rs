//! How the columns that drawing code sees map to the subpixels of the
//! backing raster: three columns share one backing pixel, and each column
//! owns one of its channels.

use vstd::prelude::*;

verus! {

/// A color channel of an RGB pixel.
#[derive(Clone, Copy, PartialEq, Eq, Debug, Structural)]
pub enum Channel {
    Red,
    Green,
    Blue,
}

/// The number of subpixels that make up one pixel of the display.
pub const SUBPIXELS_PER_PIXEL: u32 = 3;

/// The channels of the subpixels of one pixel of the display, from left to
/// right. This is the geometry of the panel.
pub const SUBPIXEL_ORDER: [Channel; 3] = [Channel::Red, Channel::Green, Channel::Blue];

impl Channel {
    /// Where the sample of this channel stands within an RGB pixel.
    pub open spec fn offset(self) -> nat {
        match self {
            Channel::Red => 0,
            Channel::Green => 1,
            Channel::Blue => 2,
        }
    }

    /// Where the sample of this channel stands within an RGB pixel.
    pub fn index(self) -> (i: usize)
        ensures
            i == self.offset(),
    {
        match self {
            Channel::Red => 0,
            Channel::Green => 1,
            Channel::Blue => 2,
        }
    }
}

/// The channel that column `x` of the drawing surface lights.
pub open spec fn column_channel(x: nat) -> Channel {
    SUBPIXEL_ORDER[(x % 3) as int]
}

/// The number of backing pixels that hold `width` columns: a third of it,
/// rounded up.
pub open spec fn backing_columns(width: nat) -> nat {
    (width + 2) / 3
}

/// The channel that column `x` of the drawing surface lights.
pub fn subpixel_channel(x: u32) -> (channel: Channel)
    ensures
        channel == column_channel(x as nat),
        channel.offset() == x % 3,
{
    SUBPIXEL_ORDER[(x % SUBPIXELS_PER_PIXEL) as usize]
}

/// The number of backing pixels that hold `width` columns.
pub fn backing_width(width: u32) -> (columns: u32)
    ensures
        columns == backing_columns(width as nat),
        columns * 3 <= u32::MAX,
{
    let extra: u32 = if width % SUBPIXELS_PER_PIXEL != 0 {
        1
    } else {
        0
    };
    width / SUBPIXELS_PER_PIXEL + extra
}

/// The backing width is a third of the width rounded up: its subpixels
/// cover every column, and no smaller number of pixels does.
pub proof fn lemma_backing_columns_is_ceiling(width: nat, columns: nat)
    ensures
        3 * backing_columns(width) >= width,
        3 * columns >= width ==> columns >= backing_columns(width),
{
}

/// The channels repeat every three columns in the order red, green, blue.
pub proof fn lemma_channels_cycle(x: nat)
    ensures
        column_channel(x).offset() == x % 3,
        column_channel(x + 3) == column_channel(x),
        x % 3 == 0 ==> column_channel(x) == Channel::Red,
        x % 3 == 1 ==> column_channel(x) == Channel::Green,
        x % 3 == 2 ==> column_channel(x) == Channel::Blue,
{
}

} // verus!
