use ohlc::BasicIndicativeLines;
use ohlc::BollingerBands;
use ohlc::ChartBuffer;
use ohlc::ChartError;
use ohlc::GridLines;
use ohlc::Margin;
use ohlc::OHLC;
use ohlc::OHLCCandles;
use ohlc::OHLCRenderOptions;
use ohlc::RendererExtension;
use ohlc::TestText;
use ohlc::label::i64_string;
use ohlc::label::u64_string;
use ohlc::fonts::glyph_key;

fn bar(o: i64, h: i64, l: i64, c: i64) -> OHLC {
    OHLC { o, h, l, c }
}

fn sample_series() -> Vec<OHLC> {
    vec![
        bar(10000, 14000, 9000, 12000),
        bar(12000, 15000, 11000, 11500),
        bar(11500, 13000, 10000, 12500),
        bar(12500, 16000, 12000, 15500),
        bar(15500, 17000, 14000, 14500),
        bar(14500, 15000, 13000, 13500),
    ]
}

fn small_canvas() -> ChartBuffer {
    ChartBuffer::new(
        100,
        100,
        Margin { top: 10, bottom: 10, left: 10, right: 10 },
        20000,
        5000,
        21600,
        0xFFFFFFFF,
    )
}

#[test]
fn render_buffer_succeeds_on_valid_series() {
    let options = OHLCRenderOptions::new();
    let buf = options.render_buffer(&sample_series()).unwrap();
    assert_eq!(buf.len(), 1310 * 650 * 3);
}

#[test]
fn render_buffer_rejects_empty_series() {
    let options = OHLCRenderOptions::new();
    let r = options.render_buffer(&vec![]);
    assert_eq!(r, Err(ChartError::EmptySeries));
}

#[test]
fn render_buffer_reports_the_violated_relation() {
    let options = OHLCRenderOptions::new();
    let mut data = sample_series();
    data[2].c = data[2].h + 1;
    assert_eq!(options.render_buffer(&data), Err(ChartError::CloseAboveHigh));
}

#[test]
fn render_buffer_is_deterministic() {
    let options = OHLCRenderOptions::new()
        .title("DETERMINISM", 0x000000FF)
        .add_extension(BollingerBands::new(3, 2, 0x0000FFFF))
        .add_extension(TestText);
    let data = sample_series();
    let first = options.render_buffer(&data).unwrap();
    let second = options.render_buffer(&data).unwrap();
    assert_eq!(first, second);
}

#[test]
fn render_buffer_background_fills_unpainted_corner() {
    let options = OHLCRenderOptions::new().background_colour(0x11223344);
    let buf = options.render_buffer(&sample_series()).unwrap();
    // The bottom-right corner pixel sits in the margin, below every
    // label row, and stays untouched background.
    let idx = 3 * ((650 - 1) * 1310 + (1310 - 1));
    assert_eq!((buf[idx], buf[idx + 1], buf[idx + 2]), (0x11, 0x22, 0x33));
}

#[test]
fn render_buffer_paints_the_current_value_row() {
    let options = OHLCRenderOptions::new();
    let buf = options.render_buffer(&sample_series()).unwrap();
    // high 17000, low 9000, last close 13500 on the 1310 x 650
    // canvas with margins 60/35/12/113.
    let row: usize = 60 + (17000 - 13500) * (650 - 60 - 35) / (17000 - 9000);
    assert_eq!(row, 302);
    for px in 12..=(1310 - 113) {
        let idx = 3 * (row * 1310 + px);
        assert_eq!((buf[idx], buf[idx + 1], buf[idx + 2]), (0x2E, 0x44, 0xEA));
    }
}

#[test]
fn render_buffer_survives_a_flat_price_range() {
    // Every price equal: the mapper must fall back to the middle
    // row instead of dividing by a zero range.
    let options = OHLCRenderOptions::new();
    let data = vec![bar(5000, 5000, 5000, 5000), bar(5000, 5000, 5000, 5000)];
    let buf = options.render_buffer(&data).unwrap();
    assert_eq!(buf.len(), 1310 * 650 * 3);
}

#[test]
fn render_buffer_survives_a_single_bar() {
    let options = OHLCRenderOptions::new();
    let data = vec![bar(10000, 14000, 9000, 12000)];
    assert!(options.render_buffer(&data).is_ok());
}

#[test]
fn resource_and_codec_errors_carry_their_messages() {
    assert_eq!(
        ChartError::Resource.message(),
        "Failed to create a temporary directory."
    );
    assert_eq!(ChartError::Codec.message(), "Image write error.");
}

#[test]
fn later_layer_overwrites_earlier_layer_at_shared_pixels() {
    let mut c = small_canvas();
    // Two layers painting the same region in different colours: the
    // one that runs later shows at every shared pixel.
    c.rect((20, 20), (40, 40), 0xFF0000FF);
    c.rect((30, 30), (50, 50), 0x0000FFFF);
    let idx = 3 * (35 * c.width + 35);
    assert_eq!(
        (c.buffer[idx], c.buffer[idx + 1], c.buffer[idx + 2]),
        (0x00, 0x00, 0xFF)
    );
}

#[test]
fn bollinger_bands_short_series_draws_nothing() {
    let bb = BollingerBands::new(5, 2, 0x0000FFFF);
    let mut c = small_canvas();
    let data = vec![bar(10000, 14000, 9000, 12000), bar(12000, 15000, 11000, 11500)];
    let before = c.buffer.clone();
    bb.apply(&mut c, &data);
    assert_eq!(c.buffer, before);
}

#[test]
fn bollinger_bands_window_count() {
    let bb = BollingerBands::new(2, 2, 0x0000FFFF);
    let data = sample_series();
    let bands = bb.band_points(&data);
    assert_eq!(bands.len(), data.len() - 2);
    let none = bb.band_points(&vec![bar(1, 2, 0, 1), bar(1, 2, 0, 1)]);
    assert_eq!(none.len(), 0);
}

#[test]
fn bollinger_band_values_bracket_the_mean() {
    let bb = BollingerBands::new(3, 2, 0x0000FFFF);
    let bands = bb.band_points(&sample_series());
    for b in bands {
        assert!(b.lower <= b.median && b.median <= b.higher);
    }
}

#[test]
fn bollinger_draw_changes_the_canvas_when_bands_exist() {
    let bb = BollingerBands::new(2, 2, 0x0000FFFF);
    let mut c = small_canvas();
    let before = c.buffer.clone();
    bb.apply(&mut c, &sample_series());
    assert_ne!(c.buffer, before);
}

#[test]
fn layer_names_and_legend_colours() {
    let bb = BollingerBands::new(20, 2, 0x0000FFFF);
    assert_eq!(bb.name().as_str(), "BB(20, 2)");
    assert_eq!(bb.lore_colour(), Some(0x0000FFFF));
    assert_eq!(TestText.name().as_str(), "TEST_Text()");
    assert_eq!(TestText.lore_colour(), None);
    let grid = GridLines::new(0xFFFFFFAA, true, 1, 24);
    assert_eq!(grid.name().as_str(), "GridLines");
    assert_eq!(grid.lore_colour(), Some(0xFFFFFFAA));
    let candles = OHLCCandles::new(0x27A819FF, 0xD33040FF);
    assert_eq!(candles.name().as_str(), "OHLCCandles");
    assert_eq!(candles.lore_colour(), None);
    let lines = BasicIndicativeLines::new(0x27A819FF, 0xD33040FF, 0x2E44EAFF);
    assert_eq!(lines.name().as_str(), "BasicIndicativeLines");
    assert_eq!(lines.lore_colour(), Some(0x2E44EAFF));
}

#[test]
fn grid_draws_every_price_line_row_across_the_drawable_width() {
    let mut c = small_canvas();
    let grid = GridLines::new(0x11223344, false, 5000, 0);
    grid.apply(&mut c, &sample_series());
    // The multiples of 5000 inside [5000, 20000] are 5000, 10000,
    // 15000 and 20000; every one of their rows is painted.
    let (_, y0) = c.to_pixel(5000, 0);
    assert_eq!(y0, 90);
    for price in [5000, 10000, 15000, 20000] {
        let (_, y) = c.to_pixel(price, 0);
        for px in 10..=90 {
            let idx = 3 * (y * c.width + px);
            assert_eq!(
                (c.buffer[idx], c.buffer[idx + 1], c.buffer[idx + 2]),
                (0x11, 0x22, 0x33)
            );
        }
    }
    // Nothing left of the left margin is touched.
    for py in 0..100 {
        for px in 0..10 {
            let idx = 3 * (py * c.width + px);
            assert_eq!(
                (c.buffer[idx], c.buffer[idx + 1], c.buffer[idx + 2]),
                (0xFF, 0xFF, 0xFF)
            );
        }
    }
}

#[test]
fn bollinger_paints_its_band_points() {
    let bb = BollingerBands::new(2, 2, 0x00AA55FF);
    let data = sample_series();
    let bands = bb.band_points(&data);
    let mut c = small_canvas();
    bb.apply(&mut c, &data);
    // Band 0 is plotted at the half-period offset
    // (2 * 2 + 1) * 21600 / (2 * 6) = 9000 seconds.
    let (x, y) = c.to_pixel(bands[0].higher, 9000);
    let idx = 3 * (y * c.width + x);
    assert_eq!(
        (c.buffer[idx], c.buffer[idx + 1], c.buffer[idx + 2]),
        (0x00, 0xAA, 0x55)
    );
    let (x, y) = c.to_pixel(bands[0].lower, 9000);
    let idx = 3 * (y * c.width + x);
    assert_eq!(
        (c.buffer[idx], c.buffer[idx + 1], c.buffer[idx + 2]),
        (0x00, 0xAA, 0x55)
    );
}

#[test]
fn indicative_lines_paint_the_marker_cross() {
    let mut c = small_canvas();
    let lines = BasicIndicativeLines::new(0x27A819FF, 0xD33040FF, 0x2E44EAFF);
    let data = sample_series();
    lines.apply(&mut c, &data);
    // The marker sits at the last bar's position:
    // (2 * 6 - 1) * 21600 / (2 * 6) = 19800 seconds.
    let (mx, _) = c.to_pixel(13500, 19800);
    let (_, my) = c.to_pixel(13500, 0);
    for py in [my - 1, my, my + 1] {
        let idx = 3 * (py * c.width + mx);
        assert_eq!(
            (c.buffer[idx], c.buffer[idx + 1], c.buffer[idx + 2]),
            (0x2E, 0x44, 0xEA)
        );
    }
}

#[test]
fn candles_paint_only_inside_the_drawable_area() {
    let mut c = small_canvas();
    let candles = OHLCCandles::new(0x27A819FF, 0xD33040FF);
    candles.apply(&mut c, &sample_series());
    // A corner pixel in the margin stays background.
    let idx = 3 * (1 * c.width + 1);
    assert_eq!(
        (c.buffer[idx], c.buffer[idx + 1], c.buffer[idx + 2]),
        (0xFF, 0xFF, 0xFF)
    );
    // Something was painted in the plot area.
    let before = small_canvas();
    assert_ne!(c.buffer, before.buffer);
}

#[test]
fn indicative_lines_paint_the_last_close_row() {
    let mut c = small_canvas();
    let lines = BasicIndicativeLines::new(0x27A819FF, 0xD33040FF, 0x2E44EAFF);
    let data = sample_series();
    lines.apply(&mut c, &data);
    let (_, y) = c.to_pixel(13500, 0);
    let idx = 3 * (y * c.width + 50);
    assert_eq!(
        (c.buffer[idx], c.buffer[idx + 1], c.buffer[idx + 2]),
        (0x2E, 0x44, 0xEA)
    );
}

#[test]
fn builder_methods_update_their_fields() {
    let options = OHLCRenderOptions::new();
    assert_eq!(options.background_colour, 0xDDDDDDFF);
    assert_eq!(options.time_units, 3600);
    assert_eq!(options.price_line_interval, 1);
    assert_eq!(options.time_line_interval, 24);
    let options = options
        .title("HELLO", 0x000000FF)
        .indicator_colours(1, 2, 3)
        .line(4, 500, 6)
        .background_colour(7)
        .time_units(60);
    assert_eq!(options.title.as_str(), "HELLO");
    assert_eq!(options.title_colour, 0x000000FF);
    assert_eq!(options.current_value_colour, 1);
    assert_eq!(options.down_colour, 2);
    assert_eq!(options.up_colour, 3);
    assert_eq!(options.line_colour, 4);
    assert_eq!(options.price_line_interval, 500);
    assert_eq!(options.time_line_interval, 6);
    assert_eq!(options.background_colour, 7);
    assert_eq!(options.time_units, 60);
    assert_eq!(options.render_extensions.len(), 0);
    let options = options.add_extension(TestText);
    assert_eq!(options.render_extensions.len(), 1);
}

#[test]
fn labels_render_decimal_strings() {
    assert_eq!(u64_string(0).as_str(), "0");
    assert_eq!(u64_string(907).as_str(), "907");
    assert_eq!(i64_string(-123).as_str(), "-123");
    assert_eq!(i64_string(45).as_str(), "45");
}

#[test]
fn glyph_key_folds_case_and_substitutes_space() {
    assert_eq!(glyph_key(b'a'), b'A');
    assert_eq!(glyph_key(b'z'), b'Z');
    assert_eq!(glyph_key(b'7'), b'7');
    assert_eq!(glyph_key(0x07), b' ');
    assert_eq!(glyph_key(0xC3), b' ');
}

#[test]
fn test_text_layer_stamps_its_message() {
    let mut c = small_canvas();
    let before = c.buffer.clone();
    TestText.apply(&mut c, &sample_series());
    assert_ne!(c.buffer, before);
    assert_eq!(TestText, TestText);
}
