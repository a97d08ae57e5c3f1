use subpixel_buffer::layout::{
    backing_width, subpixel_channel, Channel, SUBPIXELS_PER_PIXEL, SUBPIXEL_ORDER,
};

#[test]
fn backing_width_is_a_third_rounded_up() {
    assert_eq!(backing_width(200), 67);
    assert_eq!(backing_width(201), 67);
    assert_eq!(backing_width(202), 68);
    assert_eq!(backing_width(0), 0);
    assert_eq!(backing_width(1), 1);
    assert_eq!(backing_width(2), 1);
    assert_eq!(backing_width(3), 1);
    assert_eq!(backing_width(4), 2);
    assert_eq!(backing_width(9), 3);
}

#[test]
fn backing_width_of_the_widest_surface() {
    assert_eq!(backing_width(u32::MAX), 1_431_655_765);
    assert_eq!(backing_width(u32::MAX - 1), 1_431_655_765);
    assert_eq!(backing_width(u32::MAX - 2), 1_431_655_765);
    assert_eq!(backing_width(u32::MAX - 3), 1_431_655_764);
}

#[test]
fn backing_width_covers_every_column() {
    for width in 0..100u32 {
        let columns = backing_width(width);
        assert!(columns * 3 >= width);
        assert!(columns == 0 || (columns - 1) * 3 < width);
    }
}

#[test]
fn channels_cycle_red_green_blue() {
    assert_eq!(subpixel_channel(0), Channel::Red);
    assert_eq!(subpixel_channel(1), Channel::Green);
    assert_eq!(subpixel_channel(2), Channel::Blue);
    assert_eq!(subpixel_channel(3), Channel::Red);
    assert_eq!(subpixel_channel(4), Channel::Green);
    assert_eq!(subpixel_channel(5), Channel::Blue);
    assert_eq!(subpixel_channel(u32::MAX), Channel::Red);
    for x in 0..300u32 {
        assert_eq!(subpixel_channel(x), subpixel_channel(x + 3));
        assert_eq!(subpixel_channel(x).index(), (x % 3) as usize);
    }
}

#[test]
fn subpixel_order_is_that_of_the_samples() {
    assert_eq!(SUBPIXELS_PER_PIXEL, 3);
    assert_eq!(SUBPIXEL_ORDER, [Channel::Red, Channel::Green, Channel::Blue]);
    assert_eq!(Channel::Red.index(), 0);
    assert_eq!(Channel::Green.index(), 1);
    assert_eq!(Channel::Blue.index(), 2);
}
