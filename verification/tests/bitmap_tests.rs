use rustex::Bitmap;

#[test]
fn new_canvas_is_zero_filled() {
    let b = Bitmap::new(3, 2);
    assert_eq!(b.width, 3);
    assert_eq!(b.height, 2);
    assert_eq!(b.data, vec![0u8; 6]);
}

#[test]
fn from_data_keeps_buffer() {
    let b = Bitmap::from_data(vec![1, 2, 3, 4, 5, 6], 3, 2);
    assert_eq!(b.get_pixel(0, 0), 1);
    assert_eq!(b.get_pixel(2, 1), 6);
}

#[test]
fn get_pixel_out_of_bounds_is_zero() {
    let b = Bitmap::from_data(vec![9; 4], 2, 2);
    assert_eq!(b.get_pixel(2, 0), 0);
    assert_eq!(b.get_pixel(0, 2), 0);
}

#[test]
fn set_pixel_writes_in_bounds_and_ignores_outside() {
    let mut b = Bitmap::new(2, 2);
    b.set_pixel(1, 0, 7);
    b.set_pixel(5, 5, 9);
    assert_eq!(b.get_pixel(1, 0), 7);
    assert_eq!(b.data, vec![0, 7, 0, 0]);
}

#[test]
fn overlay_center_of_larger_canvas() {
    let mut dst = Bitmap::new(4, 4);
    let src = Bitmap::from_data(vec![255; 4], 2, 2);
    dst.overlay(&src, 1, 1);
    for y in 0..4 {
        for x in 0..4 {
            let expected = if (1..3).contains(&x) && (1..3).contains(&y) { 255 } else { 0 };
            assert_eq!(dst.get_pixel(x, y), expected, "pixel ({}, {})", x, y);
        }
    }
}

#[test]
fn overlay_preserves_pixels_outside_window() {
    let mut dst = Bitmap::from_data(vec![9; 9], 3, 3);
    let src = Bitmap::from_data(vec![1], 1, 1);
    dst.overlay(&src, 2, 0);
    assert_eq!(dst.get_pixel(2, 0), 1);
    assert_eq!(dst.get_pixel(0, 0), 9);
    assert_eq!(dst.get_pixel(2, 2), 9);
}

#[test]
fn rgb888_replicates_each_byte_three_times() {
    let b = Bitmap::from_data(vec![10, 20, 30, 40], 2, 2);
    let rgb = b.to_rgb888();
    assert_eq!(rgb, vec![10, 10, 10, 20, 20, 20, 30, 30, 30, 40, 40, 40]);
}

#[test]
fn hairline_covers_exactly_the_segment() {
    let mut b = Bitmap::new(5, 5);
    b.draw_line(1, 2, 3, 2, 1, 255);
    for y in 0..5 {
        for x in 0..5 {
            let expected = if y == 2 && (1..=3).contains(&x) { 255 } else { 0 };
            assert_eq!(b.get_pixel(x, y), expected, "pixel ({}, {})", x, y);
        }
    }
}

#[test]
fn thicker_line_fades_at_its_edge() {
    let mut b = Bitmap::new(7, 7);
    b.draw_line(0, 3, 6, 3, 2, 255);
    // Core row at full intensity; neighbors inside the one-pixel band are
    // dimmer but not blank; two rows away nothing.
    assert_eq!(b.get_pixel(3, 3), 255);
    assert!(b.get_pixel(3, 2) > 0);
    assert!(b.get_pixel(3, 2) < 255);
    assert_eq!(b.get_pixel(3, 1), 0);
    assert_eq!(b.get_pixel(3, 5), 0);
}

#[test]
fn degenerate_segment_draws_nothing() {
    let mut b = Bitmap::new(3, 3);
    b.draw_line(1, 1, 1, 1, 5, 255);
    assert_eq!(b.data, vec![0u8; 9]);
}

#[test]
fn blend_pixel_mixes_toward_color() {
    let mut b = Bitmap::new(1, 1);
    b.blend_pixel(0, 0, 200, 128);
    // Half coverage of 200 over 0, rounded to nearest.
    assert_eq!(b.get_pixel(0, 0), 100);
}

#[test]
fn sixel_encoding_of_small_canvas_succeeds() {
    let mut b = Bitmap::new(8, 8);
    b.draw_line(0, 4, 7, 4, 2, 255);
    let encoded = b.to_sixel().expect("encoding a small canvas");
    // A real sixel sequence opens with the terminal's control introducer;
    // this fails if the encoder were handed back its input unchanged.
    assert!(encoded.starts_with('\x1b'));
    assert!(!encoded.is_empty());
}

#[test]
fn sixel_encoding_rejects_empty_canvas() {
    let b = Bitmap::new(0, 5);
    assert!(b.to_sixel().is_err());
}
