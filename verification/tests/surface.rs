use subpixel_buffer::subpixel_image_buffer::{BinaryPixel, DrawError, SubpixelImageBuffer};

const LIT: [u8; 3] = [157, 120, 255];

fn pixel(x: i32, y: i32, on: bool) -> BinaryPixel {
    BinaryPixel { x, y, on }
}

#[test]
fn new_surface_is_dark() {
    let surface = SubpixelImageBuffer::new(9, 2);
    assert_eq!(surface.size(), (9, 2));
    let raster = surface.into_inner();
    assert_eq!(raster.width(), 3);
    assert_eq!(raster.height(), 2);
    assert_eq!(raster.into_raw(), vec![0u8; 18]);
}

#[test]
fn width_is_rounded_up_to_a_multiple_of_three() {
    assert_eq!(SubpixelImageBuffer::new(200, 50).size(), (201, 50));
    assert_eq!(SubpixelImageBuffer::new(201, 50).size(), (201, 50));
    assert_eq!(SubpixelImageBuffer::new(202, 50).size(), (204, 50));
    assert_eq!(SubpixelImageBuffer::new(200, 50).into_inner().width(), 67);
    assert_eq!(SubpixelImageBuffer::new(201, 50).into_inner().width(), 67);
    assert_eq!(SubpixelImageBuffer::new(202, 50).into_inner().width(), 68);
}

#[test]
fn empty_surfaces_have_no_samples() {
    let flat = SubpixelImageBuffer::new(9, 0);
    assert_eq!(flat.size(), (9, 0));
    assert_eq!(flat.into_inner().into_raw(), Vec::<u8>::new());
    let thin = SubpixelImageBuffer::new(0, 5);
    assert_eq!(thin.size(), (0, 5));
    let raster = thin.into_inner();
    assert_eq!((raster.width(), raster.height()), (0, 5));
    assert_eq!(raster.into_raw(), Vec::<u8>::new());
}

#[test]
fn lights_the_three_subpixels_of_the_first_pixel() {
    let mut surface = SubpixelImageBuffer::new(9, 1);
    assert_eq!(surface.set_pixel(0, 0, true), Ok(()));
    assert_eq!(surface.set_pixel(1, 0, true), Ok(()));
    assert_eq!(surface.set_pixel(2, 0, true), Ok(()));
    let raster = surface.into_inner();
    assert_eq!(raster.get_pixel(0, 0), Some(LIT));
    assert_eq!(raster.get_pixel(1, 0), Some([0, 0, 0]));
    assert_eq!(raster.get_pixel(2, 0), Some([0, 0, 0]));
}

#[test]
fn every_third_column_lights_the_red_channel_of_the_next_pixel() {
    let mut surface = SubpixelImageBuffer::new(9, 1);
    assert_eq!(surface.set_pixel(0, 0, true), Ok(()));
    assert_eq!(surface.set_pixel(3, 0, true), Ok(()));
    assert_eq!(surface.set_pixel(6, 0, true), Ok(()));
    let raster = surface.into_inner();
    assert_eq!(raster.get_pixel(0, 0), Some([157, 0, 0]));
    assert_eq!(raster.get_pixel(1, 0), Some([157, 0, 0]));
    assert_eq!(raster.get_pixel(2, 0), Some([157, 0, 0]));
}

#[test]
fn columns_map_to_samples_in_order() {
    for x in 0..9u32 {
        let mut surface = SubpixelImageBuffer::new(9, 2);
        surface.put_pixel(x, 1, true);
        let mut expected = vec![0u8; 18];
        expected[9 + x as usize] = LIT[(x % 3) as usize];
        assert_eq!(surface.into_inner().into_raw(), expected);
    }
}

#[test]
fn switching_off_stores_zero() {
    for x in 0..6i32 {
        let mut surface = SubpixelImageBuffer::new(6, 1);
        assert_eq!(surface.set_pixel(x, 0, true), Ok(()));
        assert_eq!(surface.set_pixel(x, 0, false), Ok(()));
        assert_eq!(surface.into_inner().into_raw(), vec![0u8; 6]);
    }
}

#[test]
fn switching_off_leaves_the_neighbours() {
    let mut surface = SubpixelImageBuffer::new(3, 1);
    surface.put_pixel(0, 0, true);
    surface.put_pixel(1, 0, true);
    surface.put_pixel(2, 0, true);
    surface.put_pixel(1, 0, false);
    assert_eq!(surface.into_inner().into_raw(), vec![157, 0, 255]);
}

#[test]
fn switching_on_twice_is_switching_on_once() {
    let mut once = SubpixelImageBuffer::new(9, 3);
    let mut twice = SubpixelImageBuffer::new(9, 3);
    assert_eq!(once.set_pixel(4, 2, true), Ok(()));
    assert_eq!(twice.set_pixel(4, 2, true), Ok(()));
    assert_eq!(twice.set_pixel(4, 2, true), Ok(()));
    let once = once.into_inner().into_raw();
    assert_eq!(once[2 * 9 + 4], 120);
    assert_eq!(once, twice.into_inner().into_raw());
}

#[test]
fn negative_x_is_refused() {
    let mut surface = SubpixelImageBuffer::new(9, 1);
    surface.put_pixel(5, 0, true);
    assert_eq!(surface.set_pixel(-1, 0, true), Err(DrawError::NegativeCoordinate));
    assert_eq!(surface.set_pixel(i32::MIN, 0, false), Err(DrawError::NegativeCoordinate));
    assert_eq!(surface.size(), (9, 1));
    assert_eq!(surface.into_inner().into_raw(), vec![0, 0, 0, 0, 0, 255, 0, 0, 0]);
}

#[test]
fn negative_y_is_refused() {
    let mut surface = SubpixelImageBuffer::new(9, 1);
    surface.put_pixel(5, 0, true);
    assert_eq!(surface.set_pixel(0, -1, true), Err(DrawError::NegativeCoordinate));
    assert_eq!(surface.set_pixel(5, -7, false), Err(DrawError::NegativeCoordinate));
    assert_eq!(surface.set_pixel(-2, -2, true), Err(DrawError::NegativeCoordinate));
    assert_eq!(surface.set_pixel(1000, -1, true), Err(DrawError::NegativeCoordinate));
    assert_eq!(surface.into_inner().into_raw(), vec![0, 0, 0, 0, 0, 255, 0, 0, 0]);
}

#[test]
fn draw_iter_draws_every_pixel_in_order() {
    let mut surface = SubpixelImageBuffer::new(6, 2);
    let pixels = vec![
        pixel(0, 0, true),
        pixel(4, 0, true),
        pixel(5, 1, true),
        pixel(4, 0, false),
        pixel(1, 1, true),
        pixel(0, 0, true),
    ];
    assert_eq!(surface.draw_iter(&pixels), Ok(()));
    assert_eq!(
        surface.into_inner().into_raw(),
        vec![157, 0, 0, 0, 0, 0, 0, 120, 0, 0, 0, 255]
    );
}

#[test]
fn draw_iter_of_nothing_changes_nothing() {
    let mut surface = SubpixelImageBuffer::new(3, 1);
    surface.put_pixel(2, 0, true);
    assert_eq!(surface.draw_iter(&Vec::new()), Ok(()));
    assert_eq!(surface.into_inner().into_raw(), vec![0, 0, 255]);
}

#[test]
fn draw_iter_stops_at_the_first_negative_coordinate() {
    let mut surface = SubpixelImageBuffer::new(6, 1);
    let pixels = vec![
        pixel(0, 0, true),
        pixel(1, 0, true),
        pixel(2, -1, true),
        pixel(3, 0, true),
        pixel(-1, 0, true),
    ];
    assert_eq!(surface.draw_iter(&pixels), Err(DrawError::NegativeCoordinate));
    assert_eq!(surface.into_inner().into_raw(), vec![157, 120, 0, 0, 0, 0]);
}

#[test]
fn draw_iter_ignores_what_follows_a_negative_coordinate() {
    let mut surface = SubpixelImageBuffer::new(3, 1);
    let pixels = vec![pixel(-1, 0, true), pixel(700, 900, true)];
    assert_eq!(surface.draw_iter(&pixels), Err(DrawError::NegativeCoordinate));
    assert_eq!(surface.into_inner().into_raw(), vec![0, 0, 0]);
}

#[test]
fn enlarged_image_shows_each_subpixel_in_a_column_of_its_own() {
    let mut surface = SubpixelImageBuffer::new(6, 1);
    surface.put_pixel(0, 0, true);
    surface.put_pixel(4, 0, true);
    surface.put_pixel(5, 0, true);
    let image = surface.to_non_subpixel_image();
    assert_eq!((image.width(), image.height()), (6, 3));
    for y in 0..3 {
        assert_eq!(image.get_pixel(0, y), Some([157, 0, 0]));
        assert_eq!(image.get_pixel(1, y), Some([0, 0, 0]));
        assert_eq!(image.get_pixel(2, y), Some([0, 0, 0]));
        assert_eq!(image.get_pixel(3, y), Some([0, 0, 0]));
        assert_eq!(image.get_pixel(4, y), Some([0, 120, 0]));
        assert_eq!(image.get_pixel(5, y), Some([0, 0, 255]));
    }
    assert_eq!(image.get_pixel(0, 3), None);
    assert_eq!(surface.into_inner().into_raw(), vec![157, 0, 0, 0, 120, 255]);
}

#[test]
fn enlarged_image_keeps_the_rows_apart() {
    let mut surface = SubpixelImageBuffer::new(3, 2);
    surface.put_pixel(1, 1, true);
    let image = surface.to_non_subpixel_image();
    assert_eq!((image.width(), image.height()), (3, 6));
    let mut expected = vec![0u8; 3 * 3 * 6];
    for y in 3..6 {
        expected[3 * (y * 3 + 1) + 1] = 120;
    }
    assert_eq!(image.into_raw(), expected);
}

#[test]
fn enlarged_image_of_an_empty_surface_is_empty() {
    let image = SubpixelImageBuffer::new(0, 4).to_non_subpixel_image();
    assert_eq!((image.width(), image.height()), (0, 12));
    assert_eq!(image.into_raw(), Vec::<u8>::new());
}

#[test]
fn whole_pixels_are_as_wide_as_the_stored_image() {
    let surface = SubpixelImageBuffer::with_subpixels(4, 2, false);
    assert_eq!(surface.size(), (4, 2));
    let raster = surface.into_inner();
    assert_eq!((raster.width(), raster.height()), (4, 2));
    assert_eq!(raster.into_raw(), vec![0u8; 24]);
}

#[test]
fn whole_pixels_take_the_evenly_lit_color_or_black() {
    let mut surface = SubpixelImageBuffer::with_subpixels(4, 2, false);
    assert_eq!(surface.set_pixel(1, 0, true), Ok(()));
    assert_eq!(surface.set_pixel(3, 1, true), Ok(()));
    assert_eq!(surface.set_pixel(2, 1, true), Ok(()));
    assert_eq!(surface.set_pixel(2, 1, false), Ok(()));
    assert_eq!(surface.set_pixel(-1, 1, true), Err(DrawError::NegativeCoordinate));
    let raster = surface.into_inner();
    assert_eq!(raster.get_pixel(0, 0), Some([0, 0, 0]));
    assert_eq!(raster.get_pixel(1, 0), Some([157, 112, 255]));
    assert_eq!(raster.get_pixel(2, 1), Some([0, 0, 0]));
    assert_eq!(raster.get_pixel(3, 1), Some([157, 112, 255]));
    let mut expected = vec![0u8; 24];
    expected[3..6].copy_from_slice(&[157, 112, 255]);
    expected[21..24].copy_from_slice(&[157, 112, 255]);
    assert_eq!(raster.into_raw(), expected);
}

#[test]
fn with_subpixels_is_new() {
    let mut packed = SubpixelImageBuffer::with_subpixels(7, 1, true);
    let mut plain = SubpixelImageBuffer::new(7, 1);
    assert_eq!(packed.size(), plain.size());
    packed.put_pixel(8, 0, true);
    plain.put_pixel(8, 0, true);
    assert_eq!(packed.into_inner().into_raw(), plain.into_inner().into_raw());
}
