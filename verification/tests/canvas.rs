use ohlc::ChartBuffer;
use ohlc::Margin;
use ohlc::canvas::blend;

fn small_canvas() -> ChartBuffer {
    ChartBuffer::new(
        100,
        100,
        Margin { top: 10, bottom: 10, left: 10, right: 10 },
        100,
        0,
        1000,
        0xFFFFFFFF,
    )
}

fn pixel(c: &ChartBuffer, x: usize, y: usize) -> (u8, u8, u8) {
    let idx = 3 * (y * c.width + x);
    (c.buffer[idx], c.buffer[idx + 1], c.buffer[idx + 2])
}

#[test]
fn new_fills_background() {
    let c = ChartBuffer::new(
        4,
        3,
        Margin { top: 1, bottom: 1, left: 1, right: 1 },
        10,
        0,
        60,
        0x112233FF,
    );
    assert_eq!(c.buffer.len(), 4 * 3 * 3);
    for y in 0..3 {
        for x in 0..4 {
            assert_eq!(pixel(&c, x, y), (0x11, 0x22, 0x33));
        }
    }
}

#[test]
fn to_pixel_maps_high_to_top_and_low_to_bottom() {
    let c = small_canvas();
    let (_, y_high) = c.to_pixel(100, 0);
    let (_, y_low) = c.to_pixel(0, 0);
    assert_eq!(y_high, 10); // top margin
    assert_eq!(y_low, 90); // height - bottom margin
}

#[test]
fn to_pixel_is_antitone_in_price() {
    let c = small_canvas();
    let mut last_y = usize::MAX;
    for price in [0, 10, 25, 50, 75, 90, 100] {
        let (_, y) = c.to_pixel(price, 0);
        assert!(y <= last_y);
        last_y = y;
    }
}

#[test]
fn to_pixel_is_monotone_in_time() {
    let c = small_canvas();
    let mut last_x = 0;
    for t in [0, 1, 250, 500, 999, 1000] {
        let (x, _) = c.to_pixel(50, t);
        assert!(x >= last_x);
        last_x = x;
    }
    assert_eq!(c.to_pixel(50, 0).0, 10); // left margin
    assert_eq!(c.to_pixel(50, 1000).0, 90); // width - right margin
}

#[test]
fn to_pixel_clamps_out_of_range_inputs() {
    let c = small_canvas();
    assert_eq!(c.to_pixel(200, 0), c.to_pixel(100, 0));
    assert_eq!(c.to_pixel(-50, 0), c.to_pixel(0, 0));
    assert_eq!(c.to_pixel(50, -7), c.to_pixel(50, 0));
    assert_eq!(c.to_pixel(50, 2000), c.to_pixel(50, 1000));
}

#[test]
fn to_pixel_flat_range_hits_the_middle_row() {
    let c = ChartBuffer::new(
        100,
        100,
        Margin { top: 10, bottom: 10, left: 10, right: 10 },
        42,
        42,
        1000,
        0xFFFFFFFF,
    );
    let (_, y) = c.to_pixel(42, 0);
    assert_eq!(y, 10 + 80 / 2);
}

#[test]
fn set_pixel_writes_colour_channels() {
    let mut c = small_canvas();
    c.set_pixel(5, 7, 0x11223344);
    assert_eq!(pixel(&c, 5, 7), (0x11, 0x22, 0x33));
}

#[test]
fn set_pixel_skips_zero_alpha() {
    let mut c = small_canvas();
    c.set_pixel(5, 7, 0x11223300);
    assert_eq!(pixel(&c, 5, 7), (0xFF, 0xFF, 0xFF));
}

#[test]
fn set_pixel_ignores_out_of_bounds() {
    let mut c = small_canvas();
    let before = c.buffer.clone();
    c.set_pixel(100, 5, 0x112233FF);
    c.set_pixel(5, 100, 0x112233FF);
    assert_eq!(c.buffer, before);
}

#[test]
fn later_write_overwrites_earlier_write() {
    let mut c = small_canvas();
    c.set_pixel(20, 20, 0xFF0000FF);
    c.set_pixel(20, 20, 0x0000FFFF);
    assert_eq!(pixel(&c, 20, 20), (0x00, 0x00, 0xFF));
}

#[test]
fn rect_fills_inside_and_leaves_outside() {
    let mut c = small_canvas();
    c.rect((20, 20), (25, 23), 0x00FF00FF);
    assert_eq!(pixel(&c, 20, 20), (0x00, 0xFF, 0x00));
    assert_eq!(pixel(&c, 25, 23), (0x00, 0xFF, 0x00));
    assert_eq!(pixel(&c, 22, 21), (0x00, 0xFF, 0x00));
    assert_eq!(pixel(&c, 19, 20), (0xFF, 0xFF, 0xFF));
    assert_eq!(pixel(&c, 26, 23), (0xFF, 0xFF, 0xFF));
    assert_eq!(pixel(&c, 20, 24), (0xFF, 0xFF, 0xFF));
}

#[test]
fn rect_accepts_swapped_corners() {
    let mut c = small_canvas();
    c.rect((25, 23), (20, 20), 0x00FF00FF);
    assert_eq!(pixel(&c, 22, 21), (0x00, 0xFF, 0x00));
}

#[test]
fn line_paints_endpoints_and_stays_in_the_bounding_box() {
    let mut c = small_canvas();
    c.line((10, 10), (30, 20), 0xAA5500FF);
    assert_eq!(pixel(&c, 10, 10), (0xAA, 0x55, 0x00));
    assert_eq!(pixel(&c, 30, 20), (0xAA, 0x55, 0x00));
    for y in 0..100 {
        for x in 0..100 {
            if !(10 <= x && x <= 30 && 10 <= y && y <= 20) {
                assert_eq!(pixel(&c, x, y), (0xFF, 0xFF, 0xFF));
            }
        }
    }
}

#[test]
fn line_single_point_draws_one_pixel() {
    let mut c = small_canvas();
    c.line((40, 40), (40, 40), 0x123456FF);
    assert_eq!(pixel(&c, 40, 40), (0x12, 0x34, 0x56));
    assert_eq!(pixel(&c, 41, 40), (0xFF, 0xFF, 0xFF));
}

#[test]
fn blend_interpolates_between_background_and_ink() {
    assert_eq!(blend(255, 0x12, 0x99), 0x12);
    assert_eq!(blend(0, 0x12, 0x99), 0x99);
    assert_eq!(blend(128, 255, 0), 128);
    assert_eq!(blend(128, 0, 255), 127);
}

#[test]
fn text_inks_glyph_pixels_and_backgrounds_the_rest() {
    let mut c = small_canvas();
    // The glyph for '1' has its top row 0b00100: only column 2 inked.
    c.text((0, 0), "1", 0x000000FF);
    assert_eq!(pixel(&c, 2, 0), (0x00, 0x00, 0x00));
    assert_eq!(pixel(&c, 0, 0), (0xFF, 0xFF, 0xFF));
    assert_eq!(pixel(&c, 4, 0), (0xFF, 0xFF, 0xFF));
}

#[test]
fn text_leaves_the_pitch_gap_columns_alone() {
    let mut c = small_canvas();
    c.rect((0, 0), (15, 10), 0x00FF00FF);
    c.text((0, 0), "11", 0x000000FF);
    // Column 5 is the gap between the first and second glyph cell;
    // whatever was drawn there before stays.
    assert_eq!(pixel(&c, 5, 0), (0x00, 0xFF, 0x00));
    assert_eq!(pixel(&c, 11, 6), (0x00, 0xFF, 0x00));
    // The second cell's glyph pixels render like the first's.
    assert_eq!(pixel(&c, 8, 0), (0x00, 0x00, 0x00));
}

#[test]
fn text_blends_against_background_not_prior_content() {
    let mut c = small_canvas();
    // Paint under the glyph box first; uncovered glyph pixels must
    // come back as the configured background, not the green paint.
    c.rect((0, 0), (10, 10), 0x00FF00FF);
    c.text((0, 0), "1", 0x000000FF);
    assert_eq!(pixel(&c, 2, 0), (0x00, 0x00, 0x00));
    assert_eq!(pixel(&c, 0, 0), (0xFF, 0xFF, 0xFF));
}
