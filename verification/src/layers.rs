//! The rendering layers: the capability every layer offers, and the
//! built-in grid, candle and current-value layers that run, in that
//! order, before any user-supplied extension.

use vstd::prelude::*;
use crate::canvas::ChartBuffer;
use crate::data::OHLC;
use crate::data::bar_in_bounds;
use crate::stats::MAX_BARS;

verus! {

/// The capability set of one rendering layer: a side-effecting draw
/// over the shared canvas, an optional legend colour, and a
/// diagnostic label.  Every layer preserves the canvas geometry and
/// configuration; it may only paint pixels.
pub trait RendererExtension {
    fn apply(&self, buffer: &mut ChartBuffer, data: &Vec<OHLC>)
        requires
            old(buffer).wf(),
            data@.len() <= MAX_BARS,
            forall|k: int| 0 <= k < data@.len() ==> bar_in_bounds(#[trigger] data@[k]),
        ensures
            final(buffer).wf(),
            old(buffer).same_config(*final(buffer)),
    ;

    fn lore_colour(&self) -> Option<u32>;

    fn name(&self) -> String;
}

/// The smallest multiple of `itv` at or above the canvas's low
/// price: the price of the first horizontal grid line.
pub open spec fn first_price_line(c: ChartBuffer, itv: int) -> int {
    itv * crate::stats::div_floor(c.l + itv - 1, itv)
}

/// The pixel row of a price line, clipped into the canvas.
pub open spec fn price_row(c: ChartBuffer, price: int) -> int {
    crate::data::min_i(c.spec_pixel_y(price), c.height - 1)
}

/// Every pixel of row `row` across the drawable width of `geom`
/// carries `colour` in canvas `c`.
pub open spec fn row_painted(c: ChartBuffer, geom: ChartBuffer, row: int, colour: u32) -> bool {
    forall|px: int|
        geom.margin.left <= px <= crate::data::min_i(
            geom.width - geom.margin.right,
            geom.width - 1,
        ) ==> #[trigger] crate::canvas::spec_pixel_at(c.buffer@, geom.width as int, px, row)
            == crate::canvas::spec_rgb(colour)
}

/// The part of the canvas the grid may paint: at or right of the
/// left margin, from three rows above the top of the drawable
/// rectangle down to eight rows below its bottom.  Lines stay inside
/// the drawable rectangle; price labels sit up to three rows above
/// their line in the right margin, and time labels up to eight rows
/// below the drawable bottom.
pub open spec fn grid_region(geom: ChartBuffer, px: int, py: int) -> bool {
    &&& geom.margin.left <= px
    &&& geom.margin.top - 3 <= py <= geom.height - geom.margin.bottom + 8
}

/// Grid lines at fixed price and time intervals, with optional
/// labels in the margins.
pub struct GridLines {
    pub line_colour: u32,
    pub draw_labels: bool,
    /// Spacing of horizontal price lines, in price units.
    pub price_interval: i64,
    /// Spacing of vertical time lines, in seconds.
    pub time_interval: i64,
}

impl GridLines {
    pub fn new(line_colour: u32, draw_labels: bool, price_interval: i64, time_interval: i64) -> (r:
        GridLines)
        ensures
            r == (GridLines { line_colour, draw_labels, price_interval, time_interval }),
    {
        GridLines { line_colour, draw_labels, price_interval, time_interval }
    }
}

impl ChartBuffer {
    /// The position forced inside the canvas, for handing a mapped
    /// coordinate to the rasterizer.
    pub fn clip(&self, p: (usize, usize)) -> (r: (usize, usize))
        requires
            self.wf(),
        ensures
            r.0 == crate::data::min_i(p.0 as int, self.width - 1),
            r.1 == crate::data::min_i(p.1 as int, self.height - 1),
            r.0 < self.width,
            r.1 < self.height,
    {
        let x = if p.0 >= self.width {
            self.width - 1
        } else {
            p.0
        };
        let y = if p.1 >= self.height {
            self.height - 1
        } else {
            p.1
        };
        (x, y)
    }
}

impl RendererExtension for GridLines {
    #[verifier::rlimit(100)]
    fn apply(&self, buffer: &mut ChartBuffer, data: &Vec<OHLC>)
        // With neither interval positive there is nothing to draw.
        // The grid never touches a pixel outside its region, and
        // when price lines are drawn at all (positive interval, no
        // denser than one line per pixel row, visible colour), every
        // multiple of the interval inside the plotted range has its
        // whole row painted across the drawable width.
        ensures
            self.price_interval < 1 && self.time_interval < 1 ==> final(buffer).buffer@ == old(
                buffer,
            ).buffer@,
            forall|px: int, py: int|
                0 <= px < old(buffer).width && 0 <= py < old(buffer).height && !grid_region(
                    *old(buffer),
                    px,
                    py,
                ) ==> #[trigger] crate::canvas::spec_pixel_at(
                    final(buffer).buffer@,
                    old(buffer).width as int,
                    px,
                    py,
                ) == crate::canvas::spec_pixel_at(old(buffer).buffer@, old(buffer).width as int, px, py),
            self.price_interval >= 1 && (old(buffer).h - old(buffer).l) / (
            self.price_interval as int) <= 0x4000 && crate::canvas::spec_alpha(self.line_colour)
                != 0 ==> forall|k: int|
                0 <= k && first_price_line(*old(buffer), self.price_interval as int) + k * (
                self.price_interval as int) <= old(buffer).h ==> #[trigger] row_painted(
                    *final(buffer),
                    *old(buffer),
                    price_row(
                        *old(buffer),
                        first_price_line(*old(buffer), self.price_interval as int) + k * (
                        self.price_interval as int),
                    ),
                    self.line_colour,
                ),
    {
        let width = buffer.width;
        let height = buffer.height;
        let left = buffer.margin.left;
        let right = buffer.margin.right;
        let top = buffer.margin.top;
        let bottom = buffer.margin.bottom;
        let ghost me = *old(buffer);
        let ghost orig = old(buffer).buffer@;
        // Horizontal price lines at multiples of the price interval,
        // skipped when they would be denser than one per pixel row.
        if self.price_interval >= 1 && (buffer.h - buffer.l) as u64 / (self.price_interval as u64)
            <= 0x4000 {
            let itv = self.price_interval;
            let a: i128 = buffer.l as i128 + itv as i128 - 1;
            let k0 = crate::stats::div_floor_exec(a, itv as i128);
            proof {
                crate::stats::lemma_div_floor_mul_bounds(a as int, itv as int);
                vstd::arithmetic::mul::lemma_mul_is_commutative(
                    itv as int,
                    crate::stats::div_floor(a as int, itv as int),
                );
            }
            let mut p: i128 = k0 * itv as i128;
            let ghost m0: int = first_price_line(me, itv as int);
            let ghost mut kc: int = 0;
            proof {
                assert(p as int == m0);
                assert(m0 + kc * (itv as int) == p as int) by (nonlinear_arith)
                    requires
                        kc == 0,
                        m0 == p as int,
                ;
            }
            while p <= buffer.h as i128
                invariant
                    me.wf(),
                    buffer.wf(),
                    me.same_config(*buffer),
                    orig.len() == 3 * (me.width * me.height),
                    width == me.width,
                    height == me.height,
                    left == me.margin.left,
                    right == me.margin.right,
                    top == me.margin.top,
                    bottom == me.margin.bottom,
                    1 <= itv,
                    itv == self.price_interval,
                    buffer.l as i128 - itv as i128 <= p,
                    me.l as int <= m0 <= p as int,
                    m0 == first_price_line(me, itv as int),
                    0 <= kc,
                    m0 + kc * (itv as int) == p as int,
                    forall|px: int, py: int|
                        0 <= px < me.width && 0 <= py < me.height && !grid_region(me, px, py)
                            ==> #[trigger] crate::canvas::spec_pixel_at(
                            buffer.buffer@,
                            me.width as int,
                            px,
                            py,
                        ) == crate::canvas::spec_pixel_at(orig, me.width as int, px, py),
                    crate::canvas::spec_alpha(self.line_colour) != 0 ==> forall|k: int|
                        0 <= k < kc && m0 + k * (itv as int) <= me.h ==> #[trigger] row_painted(
                            *buffer,
                            me,
                            price_row(me, m0 + k * (itv as int)),
                            self.line_colour,
                        ) && 0 <= price_row(me, m0 + k * (itv as int)) <= me.height
                            - me.margin.bottom,
                decreases buffer.h as i128 + itv as i128 - p,
            {
                if p >= buffer.l as i128 {
                    let price = p as i64;
                    let pos = buffer.to_pixel(price, 0);
                    let y = pos.1;
                    let pa = buffer.clip((left, y));
                    let pb = buffer.clip((width - right, y));
                    let ghost bl = *buffer;
                    buffer.line(pa, pb, self.line_colour);
                    proof {
                        assert forall|px: int, py: int|
                            0 <= px < me.width && 0 <= py < me.height && !grid_region(me, px, py)
                                implies #[trigger] crate::canvas::spec_pixel_at(
                            buffer.buffer@,
                            me.width as int,
                            px,
                            py,
                        ) == crate::canvas::spec_pixel_at(orig, me.width as int, px, py) by {
                            assert(crate::canvas::spec_pixel_at(bl.buffer@, me.width as int, px, py)
                                == crate::canvas::spec_pixel_at(orig, me.width as int, px, py));
                        }
                        if crate::canvas::spec_alpha(self.line_colour) != 0 {
                            assert(buffer.spec_pixel_y(p as int) == me.spec_pixel_y(p as int));
                            assert(pa.1 == pb.1 && pa.1 == price_row(me, p as int));
                            assert(pa.0 == left as int && pb.0 == crate::data::min_i(
                                width - right,
                                width - 1,
                            ));
                            assert(row_painted(*buffer, me, price_row(me, p as int),
                                self.line_colour));
                            assert forall|k: int|
                                0 <= k < kc && m0 + k * (itv as int) <= me.h implies
                                #[trigger] row_painted(
                                *buffer,
                                me,
                                price_row(me, m0 + k * (itv as int)),
                                self.line_colour,
                            ) && 0 <= price_row(me, m0 + k * (itv as int)) <= me.height
                                - me.margin.bottom by {
                                let m = m0 + k * (itv as int);
                                assert(row_painted(bl, me, price_row(me, m), self.line_colour));
                                assert forall|px: int|
                                    me.margin.left <= px <= crate::data::min_i(
                                        me.width - me.margin.right,
                                        me.width - 1,
                                    ) implies #[trigger] crate::canvas::spec_pixel_at(
                                    buffer.buffer@,
                                    me.width as int,
                                    px,
                                    price_row(me, m),
                                ) == crate::canvas::spec_rgb(self.line_colour) by {
                                    assert(crate::canvas::spec_pixel_at(
                                        bl.buffer@,
                                        me.width as int,
                                        px,
                                        price_row(me, m),
                                    ) == crate::canvas::spec_rgb(self.line_colour));
                                }
                            }
                        }
                    }
                    if self.draw_labels {
                        let label_x = width - right + 2;
                        let label_y = if y >= 3 {
                            y - 3
                        } else {
                            0
                        };
                        if label_x <= crate::canvas::DIM_MAX && label_y <= crate::canvas::DIM_MAX {
                            let label = crate::label::i64_string(price);
                            let ghost bt = *buffer;
                            buffer.text((label_x, label_y), label.as_str(), self.line_colour);
                            proof {
                                assert forall|px: int, py: int|
                                    0 <= px < me.width && 0 <= py < me.height && !grid_region(
                                        me,
                                        px,
                                        py,
                                    ) implies #[trigger] crate::canvas::spec_pixel_at(
                                    buffer.buffer@,
                                    me.width as int,
                                    px,
                                    py,
                                ) == crate::canvas::spec_pixel_at(orig, me.width as int, px, py) by {
                                    assert(crate::canvas::spec_pixel_at(
                                        bt.buffer@,
                                        me.width as int,
                                        px,
                                        py,
                                    ) == crate::canvas::spec_pixel_at(orig, me.width as int, px, py));
                                }
                                if crate::canvas::spec_alpha(self.line_colour) != 0 {
                                    assert forall|k: int|
                                        0 <= k < kc + 1 && m0 + k * (itv as int) <= me.h implies
                                        #[trigger] row_painted(
                                        *buffer,
                                        me,
                                        price_row(me, m0 + k * (itv as int)),
                                        self.line_colour,
                                    ) && 0 <= price_row(me, m0 + k * (itv as int)) <= me.height
                                        - me.margin.bottom by {
                                        let m = m0 + k * (itv as int);
                                        assert(row_painted(bt, me, price_row(me, m),
                                            self.line_colour));
                                        assert forall|px: int|
                                            me.margin.left <= px <= crate::data::min_i(
                                                me.width - me.margin.right,
                                                me.width - 1,
                                            ) implies #[trigger] crate::canvas::spec_pixel_at(
                                            buffer.buffer@,
                                            me.width as int,
                                            px,
                                            price_row(me, m),
                                        ) == crate::canvas::spec_rgb(self.line_colour) by {
                                            assert(px < label_x);
                                            assert(crate::canvas::spec_pixel_at(
                                                bt.buffer@,
                                                me.width as int,
                                                px,
                                                price_row(me, m),
                                            ) == crate::canvas::spec_rgb(self.line_colour));
                                        }
                                    }
                                }
                            }
                        }
                    }
                }
                proof {
                    if crate::canvas::spec_alpha(self.line_colour) != 0 {
                        assert forall|k: int|
                            0 <= k < kc + 1 && m0 + k * (itv as int) <= me.h implies
                            #[trigger] row_painted(
                            *buffer,
                            me,
                            price_row(me, m0 + k * (itv as int)),
                            self.line_colour,
                        ) && 0 <= price_row(me, m0 + k * (itv as int)) <= me.height
                            - me.margin.bottom by {
                            if k == kc {
                                assert(m0 + k * (itv as int) == p as int);
                                assert(p as int >= me.l);
                            }
                        }
                    }
                    assert((kc + 1) * (itv as int) == kc * (itv as int) + itv) by (nonlinear_arith);
                    kc = kc + 1;
                }
                p = p + itv as i128;
            }
            proof {
                if crate::canvas::spec_alpha(self.line_colour) != 0 {
                    assert forall|k: int| 0 <= k && m0 + k * (itv as int) <= me.h implies
                        #[trigger] row_painted(
                        *buffer,
                        me,
                        price_row(me, m0 + k * (itv as int)),
                        self.line_colour,
                    ) && 0 <= price_row(me, m0 + k * (itv as int)) <= me.height - me.margin.bottom
                        by {
                        if k >= kc {
                            vstd::arithmetic::mul::lemma_mul_inequality(kc, k, itv as int);
                            assert(m0 + k * (itv as int) >= p as int);
                            assert(false);
                        }
                    }
                }
            }
        }
        let ghost painted_cond = self.price_interval >= 1 && (me.h - me.l) / (
        self.price_interval as int) <= 0x4000 && crate::canvas::spec_alpha(self.line_colour) != 0;
        let ghost itv0: int = self.price_interval as int;
        let ghost m0g: int = first_price_line(me, itv0);
        if self.time_interval >= 1 && (buffer.timeframe as u64) / (self.time_interval as u64)
            <= 0x4000 {
            let itv = self.time_interval;
            let mut t: i128 = 0;
            while t <= buffer.timeframe as i128
                invariant
                    me.wf(),
                    buffer.wf(),
                    me.same_config(*buffer),
                    orig.len() == 3 * (me.width * me.height),
                    width == me.width,
                    height == me.height,
                    left == me.margin.left,
                    right == me.margin.right,
                    top == me.margin.top,
                    bottom == me.margin.bottom,
                    1 <= itv,
                    t >= 0,
                    itv0 == self.price_interval as int,
                    m0g == first_price_line(me, itv0),
                    forall|px: int, py: int|
                        0 <= px < me.width && 0 <= py < me.height && !grid_region(me, px, py)
                            ==> #[trigger] crate::canvas::spec_pixel_at(
                            buffer.buffer@,
                            me.width as int,
                            px,
                            py,
                        ) == crate::canvas::spec_pixel_at(orig, me.width as int, px, py),
                    painted_cond ==> forall|k: int|
                        0 <= k && m0g + k * itv0 <= me.h ==> #[trigger] row_painted(
                            *buffer,
                            me,
                            price_row(me, m0g + k * itv0),
                            self.line_colour,
                        ) && 0 <= price_row(me, m0g + k * itv0) <= me.height - me.margin.bottom,
                decreases buffer.timeframe as i128 + itv as i128 - t,
            {
                let time = t as i64;
                let pos = buffer.to_pixel(buffer.l, time);
                let x = pos.0;
                let pa = buffer.clip((x, top));
                let pb = buffer.clip((x, height - bottom));
                let ghost bl = *buffer;
                buffer.line(pa, pb, self.line_colour);
                proof {
                    assert forall|px: int, py: int|
                        0 <= px < me.width && 0 <= py < me.height && !grid_region(me, px, py)
                            implies #[trigger] crate::canvas::spec_pixel_at(
                        buffer.buffer@,
                        me.width as int,
                        px,
                        py,
                    ) == crate::canvas::spec_pixel_at(orig, me.width as int, px, py) by {
                        assert(crate::canvas::spec_pixel_at(bl.buffer@, me.width as int, px, py)
                            == crate::canvas::spec_pixel_at(orig, me.width as int, px, py));
                    }
                    if painted_cond {
                        assert forall|k: int| 0 <= k && m0g + k * itv0 <= me.h implies
                            #[trigger] row_painted(
                            *buffer,
                            me,
                            price_row(me, m0g + k * itv0),
                            self.line_colour,
                        ) && 0 <= price_row(me, m0g + k * itv0) <= me.height - me.margin.bottom by {
                            let m = m0g + k * itv0;
                            assert(row_painted(bl, me, price_row(me, m), self.line_colour));
                            assert forall|px: int|
                                me.margin.left <= px <= crate::data::min_i(
                                    me.width - me.margin.right,
                                    me.width - 1,
                                ) implies #[trigger] crate::canvas::spec_pixel_at(
                                buffer.buffer@,
                                me.width as int,
                                px,
                                price_row(me, m),
                            ) == crate::canvas::spec_rgb(self.line_colour) by {
                                assert(crate::canvas::spec_pixel_at(
                                    bl.buffer@,
                                    me.width as int,
                                    px,
                                    price_row(me, m),
                                ) == crate::canvas::spec_rgb(self.line_colour));
                            }
                        }
                    }
                }
                if self.draw_labels {
                    let label_x = x + 2;
                    let label_y = height - bottom + 2;
                    if label_x <= crate::canvas::DIM_MAX && label_y <= crate::canvas::DIM_MAX {
                        let label = crate::label::i64_string(time);
                        let ghost bt = *buffer;
                        buffer.text((label_x, label_y), label.as_str(), self.line_colour);
                        proof {
                            assert forall|px: int, py: int|
                                0 <= px < me.width && 0 <= py < me.height && !grid_region(me, px, py)
                                    implies #[trigger] crate::canvas::spec_pixel_at(
                                buffer.buffer@,
                                me.width as int,
                                px,
                                py,
                            ) == crate::canvas::spec_pixel_at(orig, me.width as int, px, py) by {
                                assert(crate::canvas::spec_pixel_at(bt.buffer@, me.width as int, px, py)
                                    == crate::canvas::spec_pixel_at(orig, me.width as int, px, py));
                            }
                            if painted_cond {
                                assert forall|k: int| 0 <= k && m0g + k * itv0 <= me.h implies
                                    #[trigger] row_painted(
                                    *buffer,
                                    me,
                                    price_row(me, m0g + k * itv0),
                                    self.line_colour,
                                ) && 0 <= price_row(me, m0g + k * itv0) <= me.height
                                    - me.margin.bottom by {
                                    let m = m0g + k * itv0;
                                    assert(row_painted(bt, me, price_row(me, m), self.line_colour));
                                    assert forall|px: int|
                                        me.margin.left <= px <= crate::data::min_i(
                                            me.width - me.margin.right,
                                            me.width - 1,
                                        ) implies #[trigger] crate::canvas::spec_pixel_at(
                                        buffer.buffer@,
                                        me.width as int,
                                        px,
                                        price_row(me, m),
                                    ) == crate::canvas::spec_rgb(self.line_colour) by {
                                        assert(price_row(me, m) < label_y);
                                        assert(crate::canvas::spec_pixel_at(
                                            bt.buffer@,
                                            me.width as int,
                                            px,
                                            price_row(me, m),
                                        ) == crate::canvas::spec_rgb(self.line_colour));
                                    }
                                }
                            }
                        }
                    }
                }
                t = t + itv as i128;
            }
        }
        let _ = data;
    }

    fn lore_colour(&self) -> (r: Option<u32>)
        ensures
            r == Some(self.line_colour),
    {
        Some(self.line_colour)
    }

    fn name(&self) -> (r: String)
        ensures
            r@ == "GridLines"@,
    {
        String::from_str("GridLines")
    }
}

/// One filled body from open to close and a thinner centred wick
/// from low to high, for every bar.
pub struct OHLCCandles {
    pub up_colour: u32,
    pub down_colour: u32,
}

/// Bar `i`'s candle is on the canvas: its filled body spans the
/// mapped open-to-close rows over the bar's columns (inset by one
/// pixel on wide bodies), its centred one-pixel wick spans the
/// mapped low-to-high rows, and every pixel of both carries the
/// up/down colour chosen by `open > close` — provided that colour is
/// not transparent.
pub open spec fn candle_painted(
    cur: ChartBuffer,
    geom: ChartBuffer,
    data: Seq<OHLC>,
    up: u32,
    down: u32,
    i: int,
) -> bool {
    let bar = data[i];
    let colour = if bar.o > bar.c {
        down
    } else {
        up
    };
    let tf = geom.timeframe as int;
    let len = data.len() as int;
    let t1 = (i * tf) / len;
    let t2 = ((i + 1) * tf) / len;
    let x1 = crate::data::min_i(geom.spec_pixel_x(t1), geom.width - 1);
    let x2 = crate::data::min_i(geom.spec_pixel_x(t2), geom.width - 1);
    let y_top = crate::data::min_i(
        geom.spec_pixel_y(crate::data::max_i(bar.o as int, bar.c as int)),
        geom.height - 1,
    );
    let y_bot = crate::data::min_i(
        geom.spec_pixel_y(crate::data::min_i(bar.o as int, bar.c as int)),
        geom.height - 1,
    );
    let bx1 = if x1 + 2 < x2 {
        x1 + 1
    } else {
        x1
    };
    let bx2 = if x1 + 2 < x2 {
        x2 - 1
    } else {
        x2
    };
    let xm = (x1 + x2) / 2;
    let wy1 = crate::data::min_i(geom.spec_pixel_y(bar.h as int), geom.height - 1);
    let wy2 = crate::data::min_i(geom.spec_pixel_y(bar.l as int), geom.height - 1);
    &&& (crate::canvas::spec_alpha(colour) != 0 ==> forall|px: int, py: int|
        crate::canvas::in_bbox(px, py, bx1, y_top, bx2, y_bot)
            ==> #[trigger] crate::canvas::spec_pixel_at(cur.buffer@, geom.width as int, px, py)
            == crate::canvas::spec_rgb(colour))
    &&& (crate::canvas::spec_alpha(colour) != 0 ==> forall|px: int, py: int|
        crate::canvas::in_bbox(px, py, xm, wy1, xm, wy2) ==> #[trigger] crate::canvas::spec_pixel_at(
            cur.buffer@,
            geom.width as int,
            px,
            py,
        ) == crate::canvas::spec_rgb(colour))
}

impl OHLCCandles {
    pub fn new(up_colour: u32, down_colour: u32) -> (r: OHLCCandles)
        ensures
            r == (OHLCCandles { up_colour, down_colour }),
    {
        OHLCCandles { up_colour, down_colour }
    }
}

impl RendererExtension for OHLCCandles {
    fn apply(&self, buffer: &mut ChartBuffer, data: &Vec<OHLC>)
        // Candles live entirely in the drawable rectangle: every
        // pixel in the margins keeps its previous value.  And the
        // last bar's candle — body and wick, in the colour chosen by
        // its open and close — really stands on the canvas (earlier
        // bars' candles may be partly overdrawn by later ones when
        // columns collide, so only the last is claimed).
        ensures
            forall|px: int, py: int|
                0 <= px < old(buffer).width && 0 <= py < old(buffer).height && !old(
                    buffer,
                ).in_drawable(px, py) ==> #[trigger] crate::canvas::spec_pixel_at(
                    final(buffer).buffer@,
                    old(buffer).width as int,
                    px,
                    py,
                ) == crate::canvas::spec_pixel_at(old(buffer).buffer@, old(buffer).width as int, px, py),
            data@.len() > 0 ==> candle_painted(
                *final(buffer),
                *old(buffer),
                data@,
                self.up_colour,
                self.down_colour,
                data@.len() - 1,
            ),
    {
        let ghost me = *old(buffer);
        let ghost orig = old(buffer).buffer@;
        let len = data.len();
        if len == 0 {
            return ;
        }
        let tf = buffer.timeframe;
        let mut i: usize = 0;
        while i < len
            invariant
                me.wf(),
                buffer.wf(),
                me.same_config(*buffer),
                orig.len() == 3 * (me.width * me.height),
                tf == me.timeframe,
                0 <= i <= len,
                len == data@.len(),
                len <= MAX_BARS,
                forall|k: int| 0 <= k < data@.len() ==> bar_in_bounds(#[trigger] data@[k]),
                forall|px: int, py: int|
                    0 <= px < me.width && 0 <= py < me.height && !me.in_drawable(px, py)
                        ==> #[trigger] crate::canvas::spec_pixel_at(
                        buffer.buffer@,
                        me.width as int,
                        px,
                        py,
                    ) == crate::canvas::spec_pixel_at(orig, me.width as int, px, py),
                i > 0 ==> candle_painted(
                    *buffer,
                    me,
                    data@,
                    self.up_colour,
                    self.down_colour,
                    i - 1,
                ),
            decreases len - i,
        {
            let bar = data[i];
            let colour = if bar.o > bar.c {
                self.down_colour
            } else {
                self.up_colour
            };
            proof {
                assert(0 <= i as int * tf as int && 0 <= (i + 1) as int * tf as int && i as int
                    * tf as int <= MAX_BARS as int * crate::canvas::TIME_MAX as int && (i + 1) as int
                    * tf as int <= MAX_BARS as int * crate::canvas::TIME_MAX as int)
                    by (nonlinear_arith)
                    requires
                        0 <= i,
                        i + 1 <= MAX_BARS,
                        0 <= tf <= crate::canvas::TIME_MAX,
                ;
                vstd::arithmetic::div_mod::lemma_div_nonincreasing(
                    i as int * tf as int,
                    len as int,
                );
                vstd::arithmetic::div_mod::lemma_div_nonincreasing(
                    (i + 1) as int * tf as int,
                    len as int,
                );
                vstd::arithmetic::div_mod::lemma_div_pos_is_pos(i as int * tf as int, len as int);
                vstd::arithmetic::div_mod::lemma_div_pos_is_pos(
                    (i + 1) as int * tf as int,
                    len as int,
                );
            }
            let t1: i64 = ((i as u64 * tf as u64) / len as u64) as i64;
            let t2: i64 = (((i as u64 + 1) * tf as u64) / len as u64) as i64;
            let body_top = if bar.o >= bar.c {
                bar.o
            } else {
                bar.c
            };
            let body_bot = if bar.o >= bar.c {
                bar.c
            } else {
                bar.o
            };
            let p_a = buffer.to_pixel(body_top, t1);
            let p_b = buffer.to_pixel(body_bot, t2);
            let (x1, y_top) = buffer.clip(p_a);
            let (x2, y_bot) = buffer.clip(p_b);
            // Inset wide bodies by one pixel on each side so
            // neighbouring candles stay visually separate.
            let (bx1, bx2) = if x1 + 2 < x2 {
                (x1 + 1, x2 - 1)
            } else {
                (x1, x2)
            };
            buffer.rect((bx1, y_top), (bx2, y_bot), colour);
            let ghost after_body = *buffer;
            let xm = (x1 + x2) / 2;
            let w_a = buffer.to_pixel(bar.h, t1);
            let w_b = buffer.to_pixel(bar.l, t1);
            let (_, wy1) = buffer.clip(w_a);
            let (_, wy2) = buffer.clip(w_b);
            buffer.rect((xm, wy1), (xm, wy2), colour);
            proof {
                if crate::canvas::spec_alpha(colour) != 0 {
                    let rgb = crate::canvas::spec_rgb(colour);
                    let w = me.width as int;
                    assert forall|px: int, py: int|
                        crate::canvas::in_bbox(px, py, bx1 as int, y_top as int, bx2 as int,
                            y_bot as int) implies #[trigger] crate::canvas::spec_pixel_at(
                        buffer.buffer@,
                        w,
                        px,
                        py,
                    ) == rgb by {
                        assert(crate::canvas::spec_pixel_at(after_body.buffer@, w, px, py) == rgb);
                    }
                    assert forall|px: int, py: int|
                        crate::canvas::in_bbox(px, py, xm as int, wy1 as int, xm as int,
                            wy2 as int) implies #[trigger] crate::canvas::spec_pixel_at(
                        buffer.buffer@,
                        w,
                        px,
                        py,
                    ) == rgb by {}
                    assert(candle_painted(
                        *buffer,
                        me,
                        data@,
                        self.up_colour,
                        self.down_colour,
                        i as int,
                    ));
                }
                if crate::canvas::spec_alpha(colour) == 0 {
                    assert(candle_painted(
                        *buffer,
                        me,
                        data@,
                        self.up_colour,
                        self.down_colour,
                        i as int,
                    ));
                }
            }
            i = i + 1;
        }
    }

    fn lore_colour(&self) -> (r: Option<u32>)
        ensures
            r is None,
    {
        None
    }

    fn name(&self) -> (r: String)
        ensures
            r@ == "OHLCCandles"@,
    {
        String::from_str("OHLCCandles")
    }
}

/// A horizontal line across the drawable width at the last close,
/// with a small cross marker at the last bar's position.
pub struct BasicIndicativeLines {
    pub up_colour: u32,
    pub down_colour: u32,
    pub current_value_colour: u32,
}

impl BasicIndicativeLines {
    pub fn new(up_colour: u32, down_colour: u32, current_value_colour: u32) -> (r:
        BasicIndicativeLines)
        ensures
            r == (BasicIndicativeLines { up_colour, down_colour, current_value_colour }),
    {
        BasicIndicativeLines { up_colour, down_colour, current_value_colour }
    }
}

impl RendererExtension for BasicIndicativeLines {
    fn apply(&self, buffer: &mut ChartBuffer, data: &Vec<OHLC>)
        // The whole drawable width of the last close's pixel row
        // carries the current-value colour when that colour is not
        // transparent; so does the cross marker's vertical arm at
        // the last bar's position.  And the layer touches nothing
        // more than one pixel outside the drawable rectangle.
        ensures
            data@.len() > 0 && crate::canvas::spec_alpha(self.current_value_colour) != 0
                ==> forall|px: int|
                old(buffer).margin.left <= px <= crate::data::min_i(
                    old(buffer).width - old(buffer).margin.right,
                    old(buffer).width - 1,
                ) ==> #[trigger] crate::canvas::spec_pixel_at(
                    final(buffer).buffer@,
                    old(buffer).width as int,
                    px,
                    crate::data::min_i(
                        old(buffer).spec_pixel_y(data@.last().c as int),
                        old(buffer).height - 1,
                    ),
                ) == crate::canvas::spec_rgb(self.current_value_colour),
            data@.len() > 0 && crate::canvas::spec_alpha(self.current_value_colour) != 0 ==> ({
                let row = crate::data::min_i(
                    old(buffer).spec_pixel_y(data@.last().c as int),
                    old(buffer).height - 1,
                );
                let t = ((2 * data@.len() - 1) * (old(buffer).timeframe as int)) / (2 * (
                data@.len() as int));
                let mx = crate::data::min_i(old(buffer).spec_pixel_x(t), old(buffer).width - 1);
                let my0 = if row >= 1 {
                    row - 1
                } else {
                    row
                };
                let my1 = if row + 1 < old(buffer).height {
                    row + 1
                } else {
                    row
                };
                forall|py: int|
                    my0 <= py <= my1 ==> #[trigger] crate::canvas::spec_pixel_at(
                        final(buffer).buffer@,
                        old(buffer).width as int,
                        mx,
                        py,
                    ) == crate::canvas::spec_rgb(self.current_value_colour)
            }),
            forall|px: int, py: int|
                0 <= px < old(buffer).width && 0 <= py < old(buffer).height && !(old(
                    buffer,
                ).margin.left - 1 <= px && old(buffer).margin.top - 1 <= py <= old(buffer).height
                    - old(buffer).margin.bottom + 1) ==> #[trigger] crate::canvas::spec_pixel_at(
                    final(buffer).buffer@,
                    old(buffer).width as int,
                    px,
                    py,
                ) == crate::canvas::spec_pixel_at(old(buffer).buffer@, old(buffer).width as int, px, py),
    {
        let ghost me = *old(buffer);
        let ghost orig = old(buffer).buffer@;
        let len = data.len();
        if len == 0 {
            return ;
        }
        let last = data[len - 1];
        let width = buffer.width;
        let height = buffer.height;
        let left = buffer.margin.left;
        let right = buffer.margin.right;
        let tf = buffer.timeframe;
        let pos = buffer.to_pixel(last.c, 0);
        let (_, y) = buffer.clip(pos);
        let pa = buffer.clip((left, y));
        let pb = buffer.clip((width - right, y));
        let ghost s0 = *buffer;
        buffer.line(pa, pb, self.current_value_colour);
        proof {
            assert((2 * len - 1) as int * tf as int <= 2 * MAX_BARS as int
                * crate::canvas::TIME_MAX as int) by (nonlinear_arith)
                requires
                    1 <= len <= MAX_BARS,
                    0 <= tf <= crate::canvas::TIME_MAX,
            ;
            assert((2 * len - 1) as int * tf as int >= 0) by (nonlinear_arith)
                requires
                    1 <= len,
                    0 <= tf,
            ;
        }
        // A small cross marker at the last bar's position on the
        // same row.
        let t: i64 = (((2 * len as u64 - 1) * tf as u64) / (2 * len as u64)) as i64;
        let mpos = buffer.to_pixel(last.c, t);
        let (mx, my) = buffer.clip(mpos);
        let mx0 = if mx >= 1 {
            mx - 1
        } else {
            mx
        };
        let mx1 = if mx + 1 < width {
            mx + 1
        } else {
            mx
        };
        let my0 = if my >= 1 {
            my - 1
        } else {
            my
        };
        let my1 = if my + 1 < height {
            my + 1
        } else {
            my
        };
        let ghost s1 = *buffer;
        buffer.line((mx0, my), (mx1, my), self.current_value_colour);
        let ghost s2 = *buffer;
        buffer.line((mx, my0), (mx, my1), self.current_value_colour);
        proof {
            // The vertical arm is the last draw; its column and rows
            // match the specified marker position.
            assert(my as int == crate::data::min_i(
                me.spec_pixel_y(data@.last().c as int),
                me.height - 1,
            ));
            assert(mx as int == crate::data::min_i(
                me.spec_pixel_x(
                    ((2 * data@.len() - 1) * (me.timeframe as int)) / (2 * (data@.len() as int)),
                ),
                me.width - 1,
            ));
            // Confinement: every draw stays within one pixel of the
            // drawable rectangle.
            assert forall|px: int, py: int|
                0 <= px < me.width && 0 <= py < me.height && !(me.margin.left - 1 <= px
                    && me.margin.top - 1 <= py <= me.height - me.margin.bottom + 1) implies
                #[trigger] crate::canvas::spec_pixel_at(buffer.buffer@, me.width as int, px, py)
                == crate::canvas::spec_pixel_at(orig, me.width as int, px, py) by {
                assert(crate::canvas::spec_pixel_at(s1.buffer@, me.width as int, px, py)
                    == crate::canvas::spec_pixel_at(s0.buffer@, me.width as int, px, py));
                assert(crate::canvas::spec_pixel_at(s2.buffer@, me.width as int, px, py)
                    == crate::canvas::spec_pixel_at(s1.buffer@, me.width as int, px, py));
            }
        }
    }

    fn lore_colour(&self) -> (r: Option<u32>)
        ensures
            r == Some(self.current_value_colour),
    {
        Some(self.current_value_colour)
    }

    fn name(&self) -> (r: String)
        ensures
            r@ == "BasicIndicativeLines"@,
    {
        String::from_str("BasicIndicativeLines")
    }
}

} // verus!
