//! Renders a chronological series of open/high/low/close price bars
//! into a raster chart: validation, aggregate statistics, a shared
//! pixel canvas with a data-to-pixel coordinate mapper, a primitive
//! rasterizer and glyph renderer, and an ordered pipeline of
//! rendering layers.  Everything here is pure computation over plain
//! values; encoding the finished buffer to an image file is the
//! caller's business.

use vstd::prelude::*;

pub mod bollinger_bands;
pub mod canvas;
pub mod data;
pub mod fonts;
pub mod label;
pub mod layers;
pub mod stats;
pub mod test_text;

pub use bollinger_bands::BandPoints;
pub use bollinger_bands::BollingerBands;
pub use canvas::ChartBuffer;
pub use canvas::Margin;
pub use data::AggregateSummary;
pub use data::ChartError;
pub use data::OHLC;
pub use data::summarize;
pub use data::validate;
pub use layers::BasicIndicativeLines;
pub use layers::GridLines;
pub use layers::OHLCCandles;
pub use layers::RendererExtension;
pub use test_text::TestText;

use crate::canvas::TIME_MAX;
use crate::data::bar_in_bounds;
use crate::data::spec_validate;
use crate::stats::MAX_BARS;

verus! {

/// Width of every rendered chart, in pixels.
pub const WIDTH: usize = 1310;

/// Height of every rendered chart, in pixels.
pub const HEIGHT: usize = 650;

/// Chart configuration: colours, intervals, the time unit each bar
/// spans, and the ordered extension layers.  Built through the
/// chained builder methods; immutable once a render begins.
pub struct OHLCRenderOptions {
    /// Title of the chart.
    pub title: String,
    /// Colour for the title of the chart.
    pub title_colour: u32,
    /// Background tint of the entire chart.
    pub background_colour: u32,
    /// Colour for the "current value" marker and line across the chart.
    pub current_value_colour: u32,
    /// The amount of time, in seconds, each OHLC bar represents.
    pub time_units: u64,
    /// Colour for axes labels and grid lines.
    pub line_colour: u32,
    /// Interval for drawing price lines, in price units.
    pub price_line_interval: i64,
    /// Interval for time lines, in time units.
    pub time_line_interval: i64,
    /// RGBA colour for when the bar indicates a fall.
    pub down_colour: u32,
    /// RGBA colour for when the bar indicates a rise.
    pub up_colour: u32,
    /// Additional rendering extensions, run after the built-in
    /// layers, in registration order.
    pub render_extensions: Vec<Box<dyn RendererExtension>>,
}

impl OHLCRenderOptions {
    /// Creates an options object with default parameters.
    pub fn new() -> (r: OHLCRenderOptions)
        ensures
            r.title@ == Seq::<char>::empty(),
            r.title_colour == 0,
            r.background_colour == 0xDDDDDDFFu32,
            r.current_value_colour == 0x2E44EAFFu32,
            r.time_units == 3600,
            r.line_colour == 0xFFFFFFAAu32,
            r.price_line_interval == 1,
            r.time_line_interval == 24,
            r.down_colour == 0xD33040FFu32,
            r.up_colour == 0x27A819FFu32,
            r.render_extensions@.len() == 0,
    {
        OHLCRenderOptions {
            title: String::new(),
            title_colour: 0,
            background_colour: 0xDDDDDDFF,
            current_value_colour: 0x2E44EAFF,
            // Default is 1 hour
            time_units: 3600,
            line_colour: 0xFFFFFFAA,
            price_line_interval: 1,
            time_line_interval: 24,
            down_colour: 0xD33040FF,
            up_colour: 0x27A819FF,
            render_extensions: Vec::new(),
        }
    }

    /// Sets the title and its colour.
    pub fn title(self, title: &str, colour: u32) -> (r: Self)
        ensures
            r.title@ == title@,
            r.title_colour == colour,
            r.background_colour == self.background_colour,
            r.current_value_colour == self.current_value_colour,
            r.time_units == self.time_units,
            r.line_colour == self.line_colour,
            r.price_line_interval == self.price_line_interval,
            r.time_line_interval == self.time_line_interval,
            r.down_colour == self.down_colour,
            r.up_colour == self.up_colour,
            r.render_extensions == self.render_extensions,
    {
        let mut s = self;
        s.title = title.to_owned();
        s.title_colour = colour;
        s
    }

    /// Sets the colours of the current-value marker and of falling
    /// and rising candles.
    pub fn indicator_colours(self, current_val: u32, down: u32, up: u32) -> (r: Self)
        ensures
            r.current_value_colour == current_val,
            r.down_colour == down,
            r.up_colour == up,
            r.title == self.title,
            r.title_colour == self.title_colour,
            r.background_colour == self.background_colour,
            r.time_units == self.time_units,
            r.line_colour == self.line_colour,
            r.price_line_interval == self.price_line_interval,
            r.time_line_interval == self.time_line_interval,
            r.render_extensions == self.render_extensions,
    {
        let mut s = self;
        s.current_value_colour = current_val;
        s.down_colour = down;
        s.up_colour = up;
        s
    }

    /// Sets the grid-line colour and the price and time intervals.
    pub fn line(self, colour: u32, price_interval: i64, time_interval: u64) -> (r: Self)
        requires
            time_interval <= i64::MAX,
        ensures
            r.line_colour == colour,
            r.price_line_interval == price_interval,
            r.time_line_interval == time_interval,
            r.title == self.title,
            r.title_colour == self.title_colour,
            r.background_colour == self.background_colour,
            r.current_value_colour == self.current_value_colour,
            r.time_units == self.time_units,
            r.down_colour == self.down_colour,
            r.up_colour == self.up_colour,
            r.render_extensions == self.render_extensions,
    {
        let mut s = self;
        s.line_colour = colour;
        s.price_line_interval = price_interval;
        s.time_line_interval = time_interval as i64;
        s
    }

    /// Sets the background colour.
    pub fn background_colour(self, colour: u32) -> (r: Self)
        ensures
            r.background_colour == colour,
            r.title == self.title,
            r.title_colour == self.title_colour,
            r.current_value_colour == self.current_value_colour,
            r.time_units == self.time_units,
            r.line_colour == self.line_colour,
            r.price_line_interval == self.price_line_interval,
            r.time_line_interval == self.time_line_interval,
            r.down_colour == self.down_colour,
            r.up_colour == self.up_colour,
            r.render_extensions == self.render_extensions,
    {
        let mut s = self;
        s.background_colour = colour;
        s
    }

    /// Sets the amount of time each bar represents, in seconds.
    pub fn time_units(self, time_units: u64) -> (r: Self)
        ensures
            r.time_units == time_units,
            r.title == self.title,
            r.title_colour == self.title_colour,
            r.background_colour == self.background_colour,
            r.current_value_colour == self.current_value_colour,
            r.line_colour == self.line_colour,
            r.price_line_interval == self.price_line_interval,
            r.time_line_interval == self.time_line_interval,
            r.down_colour == self.down_colour,
            r.up_colour == self.up_colour,
            r.render_extensions == self.render_extensions,
    {
        let mut s = self;
        s.time_units = time_units;
        s
    }

    /// Appends a rendering extension; extensions run after the
    /// built-in layers, in registration order: the ones already
    /// registered survive unchanged, in order, as a prefix.
    pub fn add_extension<RE: RendererExtension + 'static>(self, extension: RE) -> (r: Self)
        ensures
            r.render_extensions@.len() == self.render_extensions@.len() + 1,
            r.render_extensions@.subrange(0, self.render_extensions@.len() as int)
                == self.render_extensions@,
            r.title == self.title,
            r.title_colour == self.title_colour,
            r.background_colour == self.background_colour,
            r.current_value_colour == self.current_value_colour,
            r.time_units == self.time_units,
            r.line_colour == self.line_colour,
            r.price_line_interval == self.price_line_interval,
            r.time_line_interval == self.time_line_interval,
            r.down_colour == self.down_colour,
            r.up_colour == self.up_colour,
    {
        let mut s = self;
        let b: Box<dyn RendererExtension> = Box::new(extension);
        s.render_extensions.push(b);
        proof {
            vstd::seq::axiom_seq_push_len(self.render_extensions@, b);
            let pre = self.render_extensions@;
            assert forall|k: int| 0 <= k < pre.len() implies s.render_extensions@.subrange(
                0,
                pre.len() as int,
            )[k] == pre[k] by {
                vstd::seq::axiom_seq_push_index_different(pre, b, k);
            }
            assert(s.render_extensions@.subrange(0, pre.len() as int) =~= pre);
        }
        s
    }

    /// Validates the series, computes its aggregate summary,
    /// allocates a background-filled canvas, runs the fixed built-in
    /// layers (grid, candles, current-value markers), then the
    /// registered extensions in order, draws the title last, and
    /// hands back the finished RGB pixel buffer.  Succeeds exactly
    /// on series that validate; on any other input it returns the
    /// validator's error and touches nothing.  The pipeline calls
    /// nothing outside this library — no clock, no randomness, no
    /// I/O — so identical options and data always produce
    /// byte-identical buffers.
    pub fn render_buffer(&self, data: &Vec<OHLC>) -> (r: Result<Vec<u8>, ChartError>)
        requires
            data@.len() <= MAX_BARS,
            forall|k: int| 0 <= k < data@.len() ==> bar_in_bounds(#[trigger] data@[k]),
            1 <= self.time_units,
            self.time_units as int * data@.len() <= TIME_MAX as int,
        ensures
            r is Ok <==> spec_validate(data@) is Ok,
            r matches Err(e) ==> spec_validate(data@) == Err::<(), ChartError>(e),
            r matches Ok(buf) ==> buf@.len() == 3 * (WIDTH * HEIGHT),
            // With no extension layers registered and a visible
            // current-value colour, the finished buffer really shows
            // the current-value line: the last close's pixel row is
            // that colour across the whole drawable width.
            spec_validate(data@) is Ok && self.render_extensions@.len() == 0
                && crate::canvas::spec_alpha(self.current_value_colour) != 0 ==> (r matches Ok(buf)
                && forall|px: int|
                12 <= px <= WIDTH - 113 ==> #[trigger] crate::canvas::spec_pixel_at(
                    buf@,
                    WIDTH as int,
                    px,
                    crate::canvas::spec_price_row_geom(
                        60,
                        35,
                        HEIGHT as int,
                        crate::data::seq_high(data@),
                        crate::data::seq_low(data@),
                        data@.last().c as int,
                    ),
                ) == crate::canvas::spec_rgb(self.current_value_colour)),
            // With no extension layers registered, the left margin
            // below the title rows keeps the untouched background:
            // every layer stays out of the leftmost eleven columns,
            // and the title occupies only rows eight to fourteen.
            spec_validate(data@) is Ok && self.render_extensions@.len() == 0 ==> (r matches Ok(buf)
                && forall|px: int, py: int|
                0 <= px < 11 && 15 <= py < HEIGHT ==> #[trigger] crate::canvas::spec_pixel_at(
                    buf@,
                    WIDTH as int,
                    px,
                    py,
                ) == crate::canvas::spec_rgb(self.background_colour)),
    {
        if let Err(e) = validate(data) {
            return Err(e);
        }
        let summary = summarize(data);
        proof {
            data::lemma_validate_ok_iff_all_valid(data@);
            data::lemma_summary_low_le_high(data@);
            data::lemma_summary_bounds(data@);
            assert(1 <= self.time_units as int * data@.len()) by (nonlinear_arith)
                requires
                    1 <= self.time_units,
                    1 <= data@.len(),
            ;
        }
        let timeframe: i64 = (self.time_units * data.len() as u64) as i64;
        let margin = Margin { top: 60, bottom: 35, left: 12, right: 113 };
        let mut chart = ChartBuffer::new(
            WIDTH,
            HEIGHT,
            margin,
            summary.high,
            summary.low,
            timeframe,
            self.background_colour,
        );
        // The configured time-line interval is in time units; the
        // grid wants seconds.  An interval past the whole timeframe
        // or below one second draws no extra lines, so clamping the
        // product there keeps the arithmetic in range without
        // changing the picture.
        let tli: i64 = if self.time_line_interval < 1 {
            0
        } else if self.time_line_interval > TIME_MAX || self.time_units > TIME_MAX as u64 {
            TIME_MAX
        } else {
            proof {
                assert(0 <= self.time_line_interval as int * self.time_units as int
                    <= TIME_MAX as int * TIME_MAX as int) by (nonlinear_arith)
                    requires
                        1 <= self.time_line_interval <= TIME_MAX,
                        1 <= self.time_units <= TIME_MAX,
                ;
            }
            let wide: i128 = self.time_line_interval as i128 * self.time_units as i128;
            if wide > TIME_MAX as i128 {
                TIME_MAX
            } else {
                wide as i64
            }
        };
        let ghost g0 = chart;
        let grid = GridLines::new(self.line_colour, true, self.price_line_interval, tli);
        grid.apply(&mut chart, data);
        let ghost g1 = chart;
        let candles = OHLCCandles::new(self.up_colour, self.down_colour);
        candles.apply(&mut chart, data);
        let indicative = BasicIndicativeLines::new(
            self.up_colour,
            self.down_colour,
            self.current_value_colour,
        );
        let ghost c2 = chart;
        indicative.apply(&mut chart, data);
        let ghost spec_row = crate::canvas::spec_price_row_geom(
            60,
            35,
            HEIGHT as int,
            crate::data::seq_high(data@),
            crate::data::seq_low(data@),
            data@.last().c as int,
        );
        proof {
            crate::canvas::lemma_price_row_ge_top(
                60,
                35,
                HEIGHT as int,
                c2.h as int,
                c2.l as int,
                data@.last().c as int,
            );
            crate::canvas::lemma_price_row_le_bottom(
                60,
                35,
                HEIGHT as int,
                c2.h as int,
                c2.l as int,
                data@.last().c as int,
            );
            assert(crate::data::min_i(c2.spec_pixel_y(data@.last().c as int), c2.height - 1)
                == spec_row);
        }
        let ghost c3 = chart;
        let mut i: usize = 0;
        let n = self.render_extensions.len();
        while i < n
            invariant
                chart.wf(),
                chart.width == WIDTH,
                chart.height == HEIGHT,
                n == self.render_extensions@.len(),
                0 <= i <= n,
                data@.len() <= MAX_BARS,
                forall|k: int| 0 <= k < data@.len() ==> bar_in_bounds(#[trigger] data@[k]),
                n == 0 ==> chart == c3,
            decreases n - i,
        {
            let ext = &self.render_extensions[i];
            ext.apply(&mut chart, data);
            i = i + 1;
        }
        let ghost c4 = chart;
        chart.text((8, 8), self.title.as_str(), self.title_colour);
        proof {
            if n == 0 && crate::canvas::spec_alpha(self.current_value_colour) != 0 {
                assert forall|px: int| 12 <= px <= WIDTH - 113 implies
                    #[trigger] crate::canvas::spec_pixel_at(
                    chart.buffer@,
                    WIDTH as int,
                    px,
                    spec_row,
                ) == crate::canvas::spec_rgb(self.current_value_colour) by {
                    assert(crate::canvas::spec_pixel_at(c4.buffer@, WIDTH as int, px, spec_row)
                        == crate::canvas::spec_rgb(self.current_value_colour));
                }
            }
            if n == 0 {
                assert forall|px: int, py: int| 0 <= px < 11 && 15 <= py < HEIGHT implies
                    #[trigger] crate::canvas::spec_pixel_at(chart.buffer@, WIDTH as int, px, py)
                    == crate::canvas::spec_rgb(self.background_colour) by {
                    assert(crate::canvas::spec_pixel_at(g1.buffer@, WIDTH as int, px, py)
                        == crate::canvas::spec_pixel_at(g0.buffer@, WIDTH as int, px, py));
                    assert(crate::canvas::spec_pixel_at(c2.buffer@, WIDTH as int, px, py)
                        == crate::canvas::spec_pixel_at(g1.buffer@, WIDTH as int, px, py));
                    assert(crate::canvas::spec_pixel_at(c3.buffer@, WIDTH as int, px, py)
                        == crate::canvas::spec_pixel_at(c2.buffer@, WIDTH as int, px, py));
                    assert(crate::canvas::spec_pixel_at(c4.buffer@, WIDTH as int, px, py)
                        == crate::canvas::spec_pixel_at(c3.buffer@, WIDTH as int, px, py));
                    assert(crate::canvas::spec_pixel_at(chart.buffer@, WIDTH as int, px, py)
                        == crate::canvas::spec_pixel_at(c4.buffer@, WIDTH as int, px, py));
                }
            }
        }
        Ok(chart.buffer)
    }
}

} // verus!
