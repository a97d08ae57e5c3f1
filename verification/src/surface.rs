//! What drawing does to the samples of the stored image, as functions on
//! sequences of samples, and the laws that hold of them.

use vstd::prelude::*;
use crate::gamma::{lemma_off_is_dark, stored_sample};
use crate::layout::column_channel;
use crate::perceived_brightness::evenly_lit;
use crate::raster::pixel_start;
use crate::subpixel_image_buffer::BinaryPixel;

verus! {

/// Where the sample of column `x` in row `y` of the surface stands among
/// the samples of a raster that is `backing_width` pixels wide: in the pixel
/// `(x / 3, y)`, at the channel of the column.
pub open spec fn sample_index(backing_width: int, x: int, y: int) -> int {
    pixel_start(backing_width, x / 3, y) + column_channel(x as nat).offset()
}

/// The samples after the subpixel at column `x` of row `y` was switched on
/// or off: its one sample holds the corrected intensity of its channel.
pub open spec fn written_subpixel(samples: Seq<u8>, backing_width: int, x: int, y: int, on: bool)
    -> Seq<u8> {
    samples.update(
        sample_index(backing_width, x, y),
        stored_sample(evenly_lit(), column_channel(x as nat), on),
    )
}

/// The samples after the whole pixel `(x, y)` was switched on or off: it
/// holds the evenly lit color, or black.
pub open spec fn written_pixel(samples: Seq<u8>, backing_width: int, x: int, y: int, on: bool)
    -> Seq<u8> {
    let start = pixel_start(backing_width, x, y);
    let color = if on {
        evenly_lit()
    } else {
        seq![0u8, 0u8, 0u8]
    };
    samples.update(start, color[0]).update(start + 1, color[1]).update(start + 2, color[2])
}

/// The samples after the pixel `(x, y)` of the surface was switched on or
/// off.
pub open spec fn written(
    samples: Seq<u8>,
    backing_width: int,
    subpixels: bool,
    x: int,
    y: int,
    on: bool,
) -> Seq<u8> {
    if subpixels {
        written_subpixel(samples, backing_width, x, y, on)
    } else {
        written_pixel(samples, backing_width, x, y, on)
    }
}

/// Whether the pixel lies left of or above the surface.
pub open spec fn is_negative(pixel: BinaryPixel) -> bool {
    pixel.x < 0 || pixel.y < 0
}

/// The place of the first pixel from `from` on that has a negative
/// coordinate, and the length of `pixels` where there is none.
pub open spec fn first_negative(pixels: Seq<BinaryPixel>, from: int) -> int
    decreases pixels.len() - from,
{
    if from < 0 || from >= pixels.len() {
        pixels.len() as int
    } else if is_negative(pixels[from]) {
        from
    } else {
        first_negative(pixels, from + 1)
    }
}

/// The samples after the first `count` of `pixels` were written, one after
/// the other.
pub open spec fn painted(
    samples: Seq<u8>,
    backing_width: int,
    subpixels: bool,
    pixels: Seq<BinaryPixel>,
    count: int,
) -> Seq<u8>
    decreases count,
{
    if count <= 0 {
        samples
    } else {
        written(
            painted(samples, backing_width, subpixels, pixels, count - 1),
            backing_width,
            subpixels,
            pixels[count - 1].x as int,
            pixels[count - 1].y as int,
            pixels[count - 1].on,
        )
    }
}

/// Sample `place` of the enlarged image of a raster that is `backing_width`
/// pixels wide. The enlarged image is three times as wide and as high. Its
/// pixel `(x, y)` shows one channel of the pixel `(x / 3, y / 3)` of the
/// raster, the one at offset `x % 3`, and is dark in its other two channels.
pub open spec fn enlarged_sample(samples: Seq<u8>, backing_width: int, place: int) -> u8 {
    let x = (place / 3) % (3 * backing_width);
    let y = (place / 3) / (3 * backing_width);
    if place % 3 == x % 3 {
        samples[pixel_start(backing_width, x / 3, y / 3) + place % 3]
    } else {
        0
    }
}

/// The samples of the enlarged image of which the first `done` pixels are
/// drawn and the others are dark.
pub open spec fn enlarged_up_to(
    samples: Seq<u8>,
    backing_width: int,
    backing_height: int,
    done: int,
) -> Seq<u8> {
    Seq::new(
        (27 * backing_width * backing_height) as nat,
        |place: int|
            if place < 3 * done {
                enlarged_sample(samples, backing_width, place)
            } else {
                0u8
            },
    )
}

/// The samples of the enlarged image of a raster.
pub open spec fn enlarged(samples: Seq<u8>, backing_width: int, backing_height: int) -> Seq<u8> {
    Seq::new(
        (27 * backing_width * backing_height) as nat,
        |place: int| enlarged_sample(samples, backing_width, place),
    )
}

/// The three samples of a pixel of a raster stand among its samples.
pub proof fn lemma_pixel_in_range(width: int, height: int, x: int, y: int)
    requires
        0 <= x < width,
        0 <= y < height,
    ensures
        pixel_start(width, x, y) == 3 * (y * width) + 3 * x,
        0 <= pixel_start(width, x, y),
        pixel_start(width, x, y) + 3 <= 3 * width * height,
{
    assert(y * width >= 0) by (nonlinear_arith)
        requires
            y >= 0,
            width >= 0,
    ;
    assert(y * width + width <= height * width) by (nonlinear_arith)
        requires
            y + 1 <= height,
            width >= 0,
    ;
    assert(3 * (height * width) == 3 * width * height) by (nonlinear_arith);
}

/// The sample of a subpixel stands among the samples of the backing raster,
/// and the samples of one row stand side by side in the order of the columns.
pub proof fn lemma_sample_index_in_range(backing_width: int, height: int, x: int, y: int)
    requires
        0 <= x < 3 * backing_width,
        0 <= y < height,
    ensures
        sample_index(backing_width, x, y) == y * (3 * backing_width) + x,
        0 <= sample_index(backing_width, x, y) < 3 * backing_width * height,
{
    lemma_pixel_in_range(backing_width, height, x / 3, y);
    assert(3 * (y * backing_width) == y * (3 * backing_width)) by (nonlinear_arith);
}

/// Whether `samples` are those of a raster of the given size, and `(x, y)`
/// is a pixel of the surface over it.
pub open spec fn is_pixel_of(
    samples: Seq<u8>,
    backing_width: int,
    height: int,
    subpixels: bool,
    x: int,
    y: int,
) -> bool {
    &&& samples.len() == 3 * backing_width * height
    &&& 0 <= y < height
    &&& 0 <= x < if subpixels {
        3 * backing_width
    } else {
        backing_width
    }
}

/// Switching a pixel off stores zero: in the one sample of a subpixel, and
/// in all three samples of a whole pixel.
pub proof fn lemma_switched_off_is_dark(
    samples: Seq<u8>,
    backing_width: int,
    height: int,
    subpixels: bool,
    x: int,
    y: int,
)
    requires
        is_pixel_of(samples, backing_width, height, subpixels, x, y),
    ensures
        subpixels ==> written(samples, backing_width, subpixels, x, y, false)[sample_index(
            backing_width,
            x,
            y,
        )] == 0,
        !subpixels ==> forall|channel: int|
            0 <= channel < 3 ==> #[trigger] written(
                samples,
                backing_width,
                subpixels,
                x,
                y,
                false,
            )[pixel_start(backing_width, x, y) + channel] == 0,
{
    if subpixels {
        lemma_sample_index_in_range(backing_width, height, x, y);
        lemma_off_is_dark(evenly_lit(), column_channel(x as nat));
    } else {
        lemma_pixel_in_range(backing_width, height, x, y);
    }
}

/// Of two writes to the same pixel the second alone decides what is stored:
/// nothing of the first is left.
pub proof fn lemma_last_write_wins(
    samples: Seq<u8>,
    backing_width: int,
    height: int,
    subpixels: bool,
    x: int,
    y: int,
    first: bool,
    second: bool,
)
    requires
        is_pixel_of(samples, backing_width, height, subpixels, x, y),
    ensures
        written(
            written(samples, backing_width, subpixels, x, y, first),
            backing_width,
            subpixels,
            x,
            y,
            second,
        ) == written(samples, backing_width, subpixels, x, y, second),
{
    if subpixels {
        lemma_sample_index_in_range(backing_width, height, x, y);
    } else {
        lemma_pixel_in_range(backing_width, height, x, y);
    }
    assert(written(
        written(samples, backing_width, subpixels, x, y, first),
        backing_width,
        subpixels,
        x,
        y,
        second,
    ) =~= written(samples, backing_width, subpixels, x, y, second));
}

/// Writing the same value to a pixel a second time changes nothing.
pub proof fn lemma_write_is_idempotent(
    samples: Seq<u8>,
    backing_width: int,
    height: int,
    subpixels: bool,
    x: int,
    y: int,
    on: bool,
)
    requires
        is_pixel_of(samples, backing_width, height, subpixels, x, y),
    ensures
        written(
            written(samples, backing_width, subpixels, x, y, on),
            backing_width,
            subpixels,
            x,
            y,
            on,
        ) == written(samples, backing_width, subpixels, x, y, on),
{
    lemma_last_write_wins(samples, backing_width, height, subpixels, x, y, on, on);
}

/// A write keeps the number of samples and changes none but those of its
/// pixel: the one sample of a subpixel, or the three of a whole pixel.
pub proof fn lemma_write_leaves_the_rest(
    samples: Seq<u8>,
    backing_width: int,
    height: int,
    subpixels: bool,
    x: int,
    y: int,
    on: bool,
    place: int,
)
    requires
        is_pixel_of(samples, backing_width, height, subpixels, x, y),
        0 <= place < samples.len(),
        subpixels ==> place != sample_index(backing_width, x, y),
        !subpixels ==> !(pixel_start(backing_width, x, y) <= place < pixel_start(
            backing_width,
            x,
            y,
        ) + 3),
    ensures
        written(samples, backing_width, subpixels, x, y, on).len() == samples.len(),
        written(samples, backing_width, subpixels, x, y, on)[place] == samples[place],
{
    if subpixels {
        lemma_sample_index_in_range(backing_width, height, x, y);
    } else {
        lemma_pixel_in_range(backing_width, height, x, y);
    }
}

/// The pixel `(x, row)` of the enlarged image shows the pixel
/// `(x, row / 3)` of a surface of subpixels: in the channel of its column,
/// and dark in the other two.
pub proof fn lemma_enlarged_shows_each_subpixel(
    samples: Seq<u8>,
    backing_width: int,
    height: int,
    x: int,
    row: int,
    channel: int,
)
    requires
        0 <= x < 3 * backing_width,
        0 <= row < 3 * height,
        0 <= channel < 3,
    ensures
        0 <= pixel_start(3 * backing_width, x, row) + channel < 27 * backing_width * height,
        enlarged(samples, backing_width, height)[pixel_start(3 * backing_width, x, row) + channel]
            == if channel == column_channel(x as nat).offset() {
            samples[sample_index(backing_width, x, row / 3)]
        } else {
            0u8
        },
{
    let place = pixel_start(3 * backing_width, x, row) + channel;
    lemma_pixel_in_range(3 * backing_width, 3 * height, x, row);
    assert(3 * (3 * backing_width) * (3 * height) == 27 * backing_width * height)
        by (nonlinear_arith);
    vstd::arithmetic::div_mod::lemma_fundamental_div_mod_converse(
        place / 3,
        3 * backing_width,
        row,
        x,
    );
}

/// No pixel before the first with a negative coordinate has one, and that
/// first one, where there is one, has.
pub proof fn lemma_first_negative(pixels: Seq<BinaryPixel>, from: int, place: int)
    requires
        0 <= from <= pixels.len(),
    ensures
        from <= first_negative(pixels, from) <= pixels.len(),
        from <= place < first_negative(pixels, from) ==> !is_negative(pixels[place]),
        first_negative(pixels, from) < pixels.len() ==> is_negative(
            pixels[first_negative(pixels, from)],
        ),
    decreases pixels.len() - from,
{
    if from < pixels.len() && !is_negative(pixels[from]) {
        lemma_first_negative(pixels, from + 1, place);
    }
}

} // verus!
