//! The chart canvas: a mutable RGB pixel buffer together with its
//! geometry and price/time ranges, the data-space-to-pixel-space
//! mapper, and the primitive rasterizer.

use vstd::prelude::*;
use vstd::string::StringSliceAdditionalSpecFns;
use crate::data::PRICE_LIMIT;
use vstd::arithmetic::div_mod::lemma_div_is_ordered;
use vstd::arithmetic::div_mod::lemma_div_by_multiple;
use vstd::arithmetic::div_mod::lemma_div_pos_is_pos;
use vstd::arithmetic::mul::lemma_mul_inequality;
use vstd::arithmetic::mul::lemma_mul_is_commutative;

verus! {

/// Largest canvas side length, in pixels.
pub const DIM_MAX: usize = 0x4000;

/// Largest total time span, in seconds, a canvas may cover.
pub const TIME_MAX: i64 = 0x100_0000_0000;

/// Pixel insets that reserve space for axes and labels around the
/// drawable rectangle.
#[derive(Clone, Copy, PartialEq, Eq, Structural, Debug)]
pub struct Margin {
    pub top: usize,
    pub bottom: usize,
    pub left: usize,
    pub right: usize,
}

/// The red channel of a packed RGBA colour.
pub open spec fn spec_red(c: u32) -> u8 {
    (c >> 24) as u8
}

/// The green channel of a packed RGBA colour.
pub open spec fn spec_green(c: u32) -> u8 {
    ((c >> 16) & 0xff) as u8
}

/// The blue channel of a packed RGBA colour.
pub open spec fn spec_blue(c: u32) -> u8 {
    ((c >> 8) & 0xff) as u8
}

/// The alpha channel of a packed RGBA colour; zero means the colour
/// is skipped entirely when plotting.
pub open spec fn spec_alpha(c: u32) -> u8 {
    (c & 0xff) as u8
}

/// The three colour bytes of a packed RGBA colour, in buffer order.
pub open spec fn spec_rgb(c: u32) -> (u8, u8, u8) {
    (spec_red(c), spec_green(c), spec_blue(c))
}

/// The byte offset of pixel `(x, y)` in a row-major RGB buffer.
pub open spec fn pixel_index(width: int, x: int, y: int) -> int {
    3 * (y * width + x)
}

/// The three bytes of the pixel at offset `p` pixels into the buffer.
pub open spec fn pixel_triple(buf: Seq<u8>, p: int) -> (u8, u8, u8) {
    (buf[3 * p], buf[3 * p + 1], buf[3 * p + 2])
}

/// The three bytes of pixel `(x, y)` in a row-major RGB buffer.
pub open spec fn spec_pixel_at(buf: Seq<u8>, width: int, x: int, y: int) -> (u8, u8, u8) {
    pixel_triple(buf, y * width + x)
}

/// A pixel's byte offset stays inside a `width` by `height` buffer.
pub proof fn lemma_pixel_index_bounds(width: int, height: int, x: int, y: int)
    requires
        0 <= x < width,
        0 <= y < height,
    ensures
        0 <= pixel_index(width, x, y),
        pixel_index(width, x, y) + 2 < 3 * (width * height),
{
    assert(0 <= y * width + x && y * width + x < width * height) by (nonlinear_arith)
        requires
            0 <= x < width,
            0 <= y < height,
    ;
}

/// Distinct coordinates use disjoint byte ranges.
pub proof fn lemma_pixel_index_injective(width: int, x1: int, y1: int, x2: int, y2: int)
    requires
        0 <= x1 < width,
        0 <= x2 < width,
        0 <= y1,
        0 <= y2,
        (x1, y1) != (x2, y2),
    ensures
        pixel_index(width, x1, y1) + 2 < pixel_index(width, x2, y2) || pixel_index(
            width,
            x2,
            y2,
        ) + 2 < pixel_index(width, x1, y1),
{
    assert(y1 * width + x1 != y2 * width + x2 ==> 3 * (y1 * width + x1) + 2 < 3 * (y2 * width + x2)
        || 3 * (y2 * width + x2) + 2 < 3 * (y1 * width + x1));
    assert(y1 * width + x1 != y2 * width + x2) by (nonlinear_arith)
        requires
            0 <= x1 < width,
            0 <= x2 < width,
            0 <= y1,
            0 <= y2,
            (x1, y1) != (x2, y2),
    ;
}

/// What one plotting write does to the buffer: out-of-bounds targets
/// and fully transparent colours leave it untouched, anything else
/// overwrites the three bytes of the target pixel.
pub open spec fn spec_set_pixel(
    buf: Seq<u8>,
    width: int,
    height: int,
    x: int,
    y: int,
    colour: u32,
) -> Seq<u8> {
    if 0 <= x < width && 0 <= y < height && spec_alpha(colour) != 0 {
        let idx = pixel_index(width, x, y);
        buf.update(idx, spec_red(colour)).update(idx + 1, spec_green(colour)).update(
            idx + 2,
            spec_blue(colour),
        )
    } else {
        buf
    }
}

/// Later draws win: after two writes to the same pixel, the buffer
/// shows the second colour wherever the second write was not skipped.
pub proof fn lemma_painter_overwrite(
    buf: Seq<u8>,
    width: int,
    height: int,
    x: int,
    y: int,
    c1: u32,
    c2: u32,
)
    requires
        buf.len() == 3 * (width * height),
        0 <= x < width,
        0 <= y < height,
        spec_alpha(c2) != 0,
    ensures
        spec_pixel_at(
            spec_set_pixel(spec_set_pixel(buf, width, height, x, y, c1), width, height, x, y, c2),
            width,
            x,
            y,
        ) == spec_rgb(c2),
{
    lemma_pixel_index_bounds(width, height, x, y);
}

/// The chart canvas: pixel buffer, dimensions, margins, price range,
/// time span, and background colour.  Created once per render call
/// and mutated by every layer in sequence.
pub struct ChartBuffer {
    /// Row-major RGB bytes, three per pixel.
    pub buffer: Vec<u8>,
    pub width: usize,
    pub height: usize,
    pub margin: Margin,
    /// The top of the plotted price range.
    pub h: i64,
    /// The bottom of the plotted price range.
    pub l: i64,
    /// The total elapsed time the drawable width spans, in seconds.
    pub timeframe: i64,
    pub background_colour: u32,
}

impl ChartBuffer {
    /// The geometry and range invariants every canvas operation
    /// relies on and preserves.
    pub open spec fn wf(self) -> bool {
        &&& 0 < self.width <= DIM_MAX
        &&& 0 < self.height <= DIM_MAX
        &&& self.margin.left + self.margin.right < self.width
        &&& self.margin.top + self.margin.bottom < self.height
        &&& -PRICE_LIMIT <= self.l <= self.h <= PRICE_LIMIT
        &&& 1 <= self.timeframe <= TIME_MAX
        &&& self.buffer@.len() == 3 * (self.width * self.height)
    }

    /// Everything but the pixel bytes is unchanged.
    pub open spec fn same_config(self, other: ChartBuffer) -> bool {
        &&& self.width == other.width
        &&& self.height == other.height
        &&& self.margin == other.margin
        &&& self.h == other.h
        &&& self.l == other.l
        &&& self.timeframe == other.timeframe
        &&& self.background_colour == other.background_colour
    }

    /// The pixel lies in the margin-inset drawing rectangle, where
    /// the coordinate mapper places every data point.
    pub open spec fn in_drawable(self, px: int, py: int) -> bool {
        &&& self.margin.left <= px <= self.width - self.margin.right
        &&& self.margin.top <= py <= self.height - self.margin.bottom
    }

    /// Width of the drawable rectangle inside the margins.
    pub open spec fn drawable_width(self) -> int {
        self.width - self.margin.left - self.margin.right
    }

    /// Height of the drawable rectangle inside the margins.
    pub open spec fn drawable_height(self) -> int {
        self.height - self.margin.top - self.margin.bottom
    }

    /// Allocates a canvas and fills every pixel with the background
    /// colour.
    pub fn new(
        width: usize,
        height: usize,
        margin: Margin,
        h: i64,
        l: i64,
        timeframe: i64,
        background_colour: u32,
    ) -> (c: ChartBuffer)
        requires
            0 < width <= DIM_MAX,
            0 < height <= DIM_MAX,
            margin.left + margin.right < width,
            margin.top + margin.bottom < height,
            -PRICE_LIMIT <= l <= h <= PRICE_LIMIT,
            1 <= timeframe <= TIME_MAX,
        ensures
            c.wf(),
            c.width == width,
            c.height == height,
            c.margin == margin,
            c.h == h,
            c.l == l,
            c.timeframe == timeframe,
            c.background_colour == background_colour,
            forall|x: int, y: int|
                0 <= x < width && 0 <= y < height ==> #[trigger] spec_pixel_at(
                    c.buffer@,
                    width as int,
                    x,
                    y,
                ) == spec_rgb(background_colour),
    {
        let r = red(background_colour);
        let g = green(background_colour);
        let b = blue(background_colour);
        let mut buffer: Vec<u8> = Vec::new();
        let mut i: usize = 0;
        proof {
            assert(width * height <= DIM_MAX * DIM_MAX) by (nonlinear_arith)
                requires
                    0 < width <= DIM_MAX,
                    0 < height <= DIM_MAX,
            ;
        }
        let total = width * height;
        while i < total
            invariant
                0 <= i <= total,
                total == width * height,
                total <= DIM_MAX * DIM_MAX,
                buffer@.len() == 3 * i,
                r == spec_red(background_colour),
                g == spec_green(background_colour),
                b == spec_blue(background_colour),
                forall|p: int|
                    0 <= p < i ==> #[trigger] pixel_triple(buffer@, p) == spec_rgb(
                        background_colour,
                    ),
            decreases total - i,
        {
            let ghost pre = buffer@;
            buffer.push(r);
            buffer.push(g);
            buffer.push(b);
            proof {
                assert forall|p: int| 0 <= p < i + 1 implies #[trigger] pixel_triple(buffer@, p)
                    == spec_rgb(background_colour) by {
                    if p < i {
                        assert(pixel_triple(pre, p) == spec_rgb(background_colour));
                        assert(buffer@[3 * p] == pre[3 * p]);
                        assert(buffer@[3 * p + 1] == pre[3 * p + 1]);
                        assert(buffer@[3 * p + 2] == pre[3 * p + 2]);
                    } else {
                        assert(3 * p == pre.len());
                    }
                }
            }
            i = i + 1;
        }
        let c = ChartBuffer { buffer, width, height, margin, h, l, timeframe, background_colour };
        proof {
            assert forall|x: int, y: int| 0 <= x < width && 0 <= y < height implies
                #[trigger] spec_pixel_at(c.buffer@, width as int, x, y) == spec_rgb(
                background_colour,
            ) by {
                lemma_pixel_index_bounds(width as int, height as int, x, y);
                assert(pixel_triple(c.buffer@, y * width + x) == spec_rgb(background_colour));
            }
        }
        c
    }

    /// Writes one pixel, unless the target is outside the canvas or
    /// the colour's alpha channel is zero.
    pub fn set_pixel(&mut self, x: usize, y: usize, colour: u32)
        requires
            old(self).wf(),
        ensures
            final(self).wf(),
            old(self).same_config(*final(self)),
            final(self).buffer@ == spec_set_pixel(
                old(self).buffer@,
                old(self).width as int,
                old(self).height as int,
                x as int,
                y as int,
                colour,
            ),
    {
        if x < self.width && y < self.height && alpha(colour) != 0 {
            proof {
                lemma_pixel_index_bounds(self.width as int, self.height as int, x as int, y as int);
                assert(y * self.width + x < 0x1000_0000) by (nonlinear_arith)
                    requires
                        x < self.width <= 0x4000,
                        y < self.height <= 0x4000,
                ;
            }
            let idx = 3 * (y * self.width + x);
            self.buffer[idx] = red(colour);
            self.buffer[idx + 1] = green(colour);
            self.buffer[idx + 2] = blue(colour);
        }
    }

    /// The pixel column for an elapsed time, clamped into the
    /// drawable rectangle: `left + elapsed / timeframe * drawable
    /// width`.
    pub open spec fn spec_pixel_x(self, t: int) -> int {
        let tc = clamp_int(t, 0, self.timeframe as int);
        self.margin.left + (tc * self.drawable_width()) / (self.timeframe as int)
    }

    /// The pixel row for a price, clamped into the drawable
    /// rectangle: `top + (high - price) / (high - low) * drawable
    /// height`, with the midpoint when the price range is flat.
    pub open spec fn spec_pixel_y(self, p: int) -> int {
        spec_price_row_geom(
            self.margin.top as int,
            self.margin.bottom as int,
            self.height as int,
            self.h as int,
            self.l as int,
            p,
        )
    }

    /// Maps a (price, elapsed seconds) pair to a pixel position
    /// inside the margin-inset drawing rectangle.  A price at the
    /// range's high lands on the top drawable row, one at the
    /// range's low on the bottom drawable row.
    pub fn to_pixel(&self, price: i64, time: i64) -> (p: (usize, usize))
        requires
            self.wf(),
        ensures
            p.0 == self.spec_pixel_x(time as int),
            p.1 == self.spec_pixel_y(price as int),
            self.margin.left <= p.0 <= self.width - self.margin.right,
            self.margin.top <= p.1 <= self.height - self.margin.bottom,
            self.h > self.l && price == self.h ==> p.1 == self.margin.top,
            self.h > self.l && price == self.l ==> p.1 == self.height - self.margin.bottom,
    {
        let dw = self.width - self.margin.left - self.margin.right;
        let dh = self.height - self.margin.top - self.margin.bottom;
        let tc: i64 = if time < 0 {
            0
        } else if time > self.timeframe {
            self.timeframe
        } else {
            time
        };
        proof {
            assert(0 <= tc as int * dw as int <= TIME_MAX * 0x4000) by (nonlinear_arith)
                requires
                    0 <= tc <= TIME_MAX,
                    0 <= dw <= 0x4000,
            ;
            lemma_mul_inequality(tc as int, self.timeframe as int, dw as int);
            lemma_mul_is_commutative(self.timeframe as int, dw as int);
            lemma_div_by_multiple(dw as int, self.timeframe as int);
            lemma_div_is_ordered(
                tc as int * dw as int,
                self.timeframe as int * dw as int,
                self.timeframe as int,
            );
            lemma_div_pos_is_pos(tc as int * dw as int, self.timeframe as int);
        }
        let xoff_wide: u64 = (tc as u64 * dw as u64) / (self.timeframe as u64);
        let x = self.margin.left + xoff_wide as usize;
        let y: usize = if self.h == self.l {
            self.margin.top + dh / 2
        } else {
            let pc: i64 = if price < self.l {
                self.l
            } else if price > self.h {
                self.h
            } else {
                price
            };
            let num: u64 = (self.h - pc) as u64;
            let range: u64 = (self.h - self.l) as u64;
            proof {
                assert(0 <= num as int * dh as int <= 2 * PRICE_LIMIT * 0x4000) by (nonlinear_arith)
                    requires
                        0 <= num <= 2 * PRICE_LIMIT,
                        0 <= dh <= 0x4000,
                ;
                lemma_mul_inequality(num as int, range as int, dh as int);
                lemma_mul_is_commutative(range as int, dh as int);
                lemma_div_by_multiple(dh as int, range as int);
                lemma_div_is_ordered(num as int * dh as int, range as int * dh as int, range as int);
                lemma_div_pos_is_pos(num as int * dh as int, range as int);
                vstd::arithmetic::div_mod::lemma_div_of0(range as int);
            }
            let yoff: u64 = (num * dh as u64) / range;
            self.margin.top + yoff as usize
        };
        (x, y)
    }
}

/// One plotting write never disturbs any other pixel, and paints its
/// own target exactly when it is inside the canvas and not skipped.
pub proof fn lemma_set_pixel_frame(
    buf: Seq<u8>,
    width: int,
    height: int,
    x: int,
    y: int,
    colour: u32,
)
    requires
        buf.len() == 3 * (width * height),
    ensures
        spec_set_pixel(buf, width, height, x, y, colour).len() == buf.len(),
        forall|px: int, py: int|
            0 <= px < width && 0 <= py < height && (px, py) != (x, y) ==> #[trigger] spec_pixel_at(
                spec_set_pixel(buf, width, height, x, y, colour),
                width,
                px,
                py,
            ) == spec_pixel_at(buf, width, px, py),
        0 <= x < width && 0 <= y < height && spec_alpha(colour) != 0 ==> spec_pixel_at(
            spec_set_pixel(buf, width, height, x, y, colour),
            width,
            x,
            y,
        ) == spec_rgb(colour),
        spec_alpha(colour) == 0 ==> spec_set_pixel(buf, width, height, x, y, colour) == buf,
{
    if 0 <= x < width && 0 <= y < height && spec_alpha(colour) != 0 {
        lemma_pixel_index_bounds(width, height, x, y);
        assert forall|px: int, py: int|
            0 <= px < width && 0 <= py < height && (px, py) != (x, y) implies #[trigger] spec_pixel_at(
            spec_set_pixel(buf, width, height, x, y, colour),
            width,
            px,
            py,
        ) == spec_pixel_at(buf, width, px, py) by {
            lemma_pixel_index_bounds(width, height, px, py);
            lemma_pixel_index_injective(width, px, py, x, y);
        }
    }
}

/// The pixel lies inside the axis-aligned box spanned by the two
/// corner points, whichever way round they are given.
pub open spec fn in_bbox(px: int, py: int, x1: int, y1: int, x2: int, y2: int) -> bool {
    &&& crate::data::min_i(x1, x2) <= px <= crate::data::max_i(x1, x2)
    &&& crate::data::min_i(y1, y2) <= py <= crate::data::max_i(y1, y2)
}

impl ChartBuffer {
    /// Fills the axis-aligned rectangle spanned by the two corner
    /// points, pixel by pixel.  A colour with zero alpha leaves the
    /// buffer untouched.
    pub fn rect(&mut self, p1: (usize, usize), p2: (usize, usize), colour: u32)
        requires
            old(self).wf(),
            p1.0 < old(self).width,
            p2.0 < old(self).width,
            p1.1 < old(self).height,
            p2.1 < old(self).height,
        ensures
            final(self).wf(),
            old(self).same_config(*final(self)),
            forall|px: int, py: int|
                0 <= px < old(self).width && 0 <= py < old(self).height ==> #[trigger] spec_pixel_at(
                    final(self).buffer@,
                    old(self).width as int,
                    px,
                    py,
                ) == (if in_bbox(px, py, p1.0 as int, p1.1 as int, p2.0 as int, p2.1 as int)
                    && spec_alpha(colour) != 0 {
                    spec_rgb(colour)
                } else {
                    spec_pixel_at(old(self).buffer@, old(self).width as int, px, py)
                }),
            spec_alpha(colour) == 0 ==> final(self).buffer@ == old(self).buffer@,
    {
        let ghost orig = self.buffer@;
        let ghost me = *old(self);
        let xlo = if p1.0 <= p2.0 {
            p1.0
        } else {
            p2.0
        };
        let xhi = if p1.0 <= p2.0 {
            p2.0
        } else {
            p1.0
        };
        let ylo = if p1.1 <= p2.1 {
            p1.1
        } else {
            p2.1
        };
        let yhi = if p1.1 <= p2.1 {
            p2.1
        } else {
            p1.1
        };
        let mut cy = ylo;
        while cy <= yhi
            invariant
                me.wf(),
                self.wf(),
                me.same_config(*self),
                self.buffer@.len() == orig.len(),
                orig.len() == 3 * (me.width * me.height),
                ylo <= cy <= yhi + 1,
                yhi < me.height,
                xlo <= xhi < me.width,
                xlo == crate::data::min_i(p1.0 as int, p2.0 as int),
                xhi == crate::data::max_i(p1.0 as int, p2.0 as int),
                ylo == crate::data::min_i(p1.1 as int, p2.1 as int),
                yhi == crate::data::max_i(p1.1 as int, p2.1 as int),
                forall|px: int, py: int|
                    0 <= px < me.width && 0 <= py < me.height ==> #[trigger] spec_pixel_at(
                        self.buffer@,
                        me.width as int,
                        px,
                        py,
                    ) == (if xlo <= px <= xhi && ylo <= py < cy && spec_alpha(colour) != 0 {
                        spec_rgb(colour)
                    } else {
                        spec_pixel_at(orig, me.width as int, px, py)
                    }),
                spec_alpha(colour) == 0 ==> self.buffer@ == orig,
            decreases yhi + 1 - cy,
        {
            let mut cx = xlo;
            while cx <= xhi
                invariant
                    me.wf(),
                    self.wf(),
                    me.same_config(*self),
                    self.buffer@.len() == orig.len(),
                    orig.len() == 3 * (me.width * me.height),
                    ylo <= cy <= yhi,
                    yhi < me.height,
                    xlo <= cx <= xhi + 1,
                    xlo <= xhi < me.width,
                    forall|px: int, py: int|
                        0 <= px < me.width && 0 <= py < me.height ==> #[trigger] spec_pixel_at(
                            self.buffer@,
                            me.width as int,
                            px,
                            py,
                        ) == (if (xlo <= px <= xhi && ylo <= py < cy && spec_alpha(colour) != 0)
                            || (xlo <= px < cx && py == cy && spec_alpha(colour) != 0) {
                            spec_rgb(colour)
                        } else {
                            spec_pixel_at(orig, me.width as int, px, py)
                        }),
                    spec_alpha(colour) == 0 ==> self.buffer@ == orig,
                decreases xhi + 1 - cx,
            {
                let ghost pre = self.buffer@;
                self.set_pixel(cx, cy, colour);
                proof {
                    lemma_set_pixel_frame(
                        pre,
                        me.width as int,
                        me.height as int,
                        cx as int,
                        cy as int,
                        colour,
                    );
                }
                cx = cx + 1;
            }
            cy = cy + 1;
        }
        proof {
            assert forall|px: int, py: int| 0 <= px < me.width && 0 <= py < me.height implies
                #[trigger] spec_pixel_at(final(self).buffer@, me.width as int, px, py) == (if in_bbox(
                px,
                py,
                p1.0 as int,
                p1.1 as int,
                p2.0 as int,
                p2.1 as int,
            ) && spec_alpha(colour) != 0 {
                spec_rgb(colour)
            } else {
                spec_pixel_at(orig, me.width as int, px, py)
            }) by {}
        }
    }

    /// Rasterizes a straight segment between two pixel positions.
    /// Every pixel it touches lies in the bounding box of the two
    /// endpoints and is painted in the given colour; both endpoints
    /// are painted.  A colour with zero alpha leaves the buffer
    /// untouched.
    pub fn line(&mut self, p1: (usize, usize), p2: (usize, usize), colour: u32)
        requires
            old(self).wf(),
            p1.0 < old(self).width,
            p2.0 < old(self).width,
            p1.1 < old(self).height,
            p2.1 < old(self).height,
        ensures
            final(self).wf(),
            old(self).same_config(*final(self)),
            forall|px: int, py: int|
                0 <= px < old(self).width && 0 <= py < old(self).height ==> #[trigger] spec_pixel_at(
                    final(self).buffer@,
                    old(self).width as int,
                    px,
                    py,
                ) == spec_pixel_at(old(self).buffer@, old(self).width as int, px, py) || (in_bbox(
                    px,
                    py,
                    p1.0 as int,
                    p1.1 as int,
                    p2.0 as int,
                    p2.1 as int,
                ) && spec_pixel_at(final(self).buffer@, old(self).width as int, px, py) == spec_rgb(
                    colour,
                )),
            spec_alpha(colour) != 0 ==> spec_pixel_at(
                final(self).buffer@,
                old(self).width as int,
                p1.0 as int,
                p1.1 as int,
            ) == spec_rgb(colour) && spec_pixel_at(
                final(self).buffer@,
                old(self).width as int,
                p2.0 as int,
                p2.1 as int,
            ) == spec_rgb(colour),
            spec_alpha(colour) != 0 && p1.1 == p2.1 ==> forall|px: int|
                crate::data::min_i(p1.0 as int, p2.0 as int) <= px <= crate::data::max_i(
                    p1.0 as int,
                    p2.0 as int,
                ) ==> spec_pixel_at(final(self).buffer@, old(self).width as int, px, p1.1 as int)
                    == spec_rgb(colour),
            spec_alpha(colour) != 0 && p1.0 == p2.0 ==> forall|py: int|
                crate::data::min_i(p1.1 as int, p2.1 as int) <= py <= crate::data::max_i(
                    p1.1 as int,
                    p2.1 as int,
                ) ==> spec_pixel_at(final(self).buffer@, old(self).width as int, p1.0 as int, py)
                    == spec_rgb(colour),
            spec_alpha(colour) == 0 ==> final(self).buffer@ == old(self).buffer@,
    {
        let ghost orig = self.buffer@;
        let ghost me = *old(self);
        let (x1, y1) = p1;
        let (x2, y2) = p2;
        let adx = if x2 >= x1 {
            x2 - x1
        } else {
            x1 - x2
        };
        let ady = if y2 >= y1 {
            y2 - y1
        } else {
            y1 - y2
        };
        let steps = if adx >= ady {
            adx
        } else {
            ady
        };
        let mut t: usize = 0;
        while t < steps
            invariant
                me.wf(),
                self.wf(),
                me.same_config(*self),
                self.buffer@.len() == orig.len(),
                orig.len() == 3 * (me.width * me.height),
                0 <= t <= steps,
                steps < me.width + me.height,
                x1 < me.width,
                x2 < me.width,
                y1 < me.height,
                y2 < me.height,
                adx == (if x2 >= x1 {
                    x2 - x1
                } else {
                    x1 - x2
                }),
                ady == (if y2 >= y1 {
                    y2 - y1
                } else {
                    y1 - y2
                }),
                steps == crate::data::max_i(adx as int, ady as int),
                forall|px: int, py: int|
                    0 <= px < me.width && 0 <= py < me.height ==> #[trigger] spec_pixel_at(
                        self.buffer@,
                        me.width as int,
                        px,
                        py,
                    ) == spec_pixel_at(orig, me.width as int, px, py) || (in_bbox(
                        px,
                        py,
                        x1 as int,
                        y1 as int,
                        x2 as int,
                        y2 as int,
                    ) && spec_pixel_at(self.buffer@, me.width as int, px, py) == spec_rgb(colour)),
                spec_alpha(colour) != 0 && t > 0 ==> spec_pixel_at(
                    self.buffer@,
                    me.width as int,
                    x1 as int,
                    y1 as int,
                ) == spec_rgb(colour),
                spec_alpha(colour) != 0 && ady == 0 ==> forall|px: int|
                    crate::data::min_i(x1 as int, x2 as int) <= px <= crate::data::max_i(
                        x1 as int,
                        x2 as int,
                    ) && (if px >= x1 {
                        px - x1
                    } else {
                        x1 - px
                    }) < t ==> spec_pixel_at(self.buffer@, me.width as int, px, y1 as int)
                        == spec_rgb(colour),
                spec_alpha(colour) != 0 && adx == 0 ==> forall|py: int|
                    crate::data::min_i(y1 as int, y2 as int) <= py <= crate::data::max_i(
                        y1 as int,
                        y2 as int,
                    ) && (if py >= y1 {
                        py - y1
                    } else {
                        y1 - py
                    }) < t ==> spec_pixel_at(self.buffer@, me.width as int, x1 as int, py)
                        == spec_rgb(colour),
                spec_alpha(colour) == 0 ==> self.buffer@ == orig,
            decreases steps - t,
        {
            proof {
                assert(t * adx <= steps * adx && t * ady <= steps * ady) by (nonlinear_arith)
                    requires
                        0 <= t <= steps,
                        0 <= adx,
                        0 <= ady,
                ;
                assert(steps * adx <= 0x4000 * 0x8000 && steps * ady <= 0x4000 * 0x8000)
                    by (nonlinear_arith)
                    requires
                        0 <= adx <= 0x4000,
                        0 <= ady <= 0x4000,
                        0 <= steps <= 0x8000,
                ;
                lemma_div_is_ordered(t as int * adx as int, steps as int * adx as int, steps as int);
                lemma_mul_is_commutative(steps as int, adx as int);
                lemma_div_by_multiple(adx as int, steps as int);
                lemma_div_pos_is_pos(t as int * adx as int, steps as int);
                lemma_div_is_ordered(t as int * ady as int, steps as int * ady as int, steps as int);
                lemma_mul_is_commutative(steps as int, ady as int);
                lemma_div_by_multiple(ady as int, steps as int);
                lemma_div_pos_is_pos(t as int * ady as int, steps as int);
                lemma_div_by_multiple(t as int, steps as int);
            }
            let xo = (t * adx) / steps;
            let yo = (t * ady) / steps;
            let cx = if x2 >= x1 {
                x1 + xo
            } else {
                x1 - xo
            };
            let cy = if y2 >= y1 {
                y1 + yo
            } else {
                y1 - yo
            };
            let ghost pre = self.buffer@;
            self.set_pixel(cx, cy, colour);
            proof {
                lemma_set_pixel_frame(
                    pre,
                    me.width as int,
                    me.height as int,
                    cx as int,
                    cy as int,
                    colour,
                );
                if spec_alpha(colour) != 0 && ady == 0 {
                    assert(cy == y1 && (if cx >= x1 { cx - x1 } else { x1 - cx }) == t as int);
                    assert forall|px: int|
                        crate::data::min_i(x1 as int, x2 as int) <= px <= crate::data::max_i(
                            x1 as int,
                            x2 as int,
                        ) && (if px >= x1 {
                            px - x1
                        } else {
                            x1 - px
                        }) < t + 1 implies spec_pixel_at(self.buffer@, me.width as int, px, y1 as int)
                        == spec_rgb(colour) by {
                        if px != cx {
                            assert(spec_pixel_at(pre, me.width as int, px, y1 as int) == spec_rgb(
                                colour,
                            ));
                        }
                    }
                }
                if spec_alpha(colour) != 0 && adx == 0 {
                    assert(cx == x1 && (if cy >= y1 { cy - y1 } else { y1 - cy }) == t as int);
                    assert forall|py: int|
                        crate::data::min_i(y1 as int, y2 as int) <= py <= crate::data::max_i(
                            y1 as int,
                            y2 as int,
                        ) && (if py >= y1 {
                            py - y1
                        } else {
                            y1 - py
                        }) < t + 1 implies spec_pixel_at(self.buffer@, me.width as int, x1 as int, py)
                        == spec_rgb(colour) by {
                        if py != cy {
                            assert(spec_pixel_at(pre, me.width as int, x1 as int, py) == spec_rgb(
                                colour,
                            ));
                        }
                    }
                }
            }
            t = t + 1;
        }
        let ghost pre = self.buffer@;
        self.set_pixel(x2, y2, colour);
        proof {
            lemma_set_pixel_frame(
                pre,
                me.width as int,
                me.height as int,
                x2 as int,
                y2 as int,
                colour,
            );
            if steps == 0 {
                assert(x1 == x2 && y1 == y2);
            }
            if spec_alpha(colour) != 0 && y1 == y2 {
                assert forall|px: int|
                    crate::data::min_i(x1 as int, x2 as int) <= px <= crate::data::max_i(
                        x1 as int,
                        x2 as int,
                    ) implies spec_pixel_at(self.buffer@, me.width as int, px, y1 as int)
                    == spec_rgb(colour) by {
                    if px != x2 {
                        assert((if px >= x1 {
                            px - x1
                        } else {
                            x1 - px
                        }) < steps);
                        assert(spec_pixel_at(pre, me.width as int, px, y1 as int) == spec_rgb(
                            colour,
                        ));
                    }
                }
            }
            if spec_alpha(colour) != 0 && x1 == x2 {
                assert forall|py: int|
                    crate::data::min_i(y1 as int, y2 as int) <= py <= crate::data::max_i(
                        y1 as int,
                        y2 as int,
                    ) implies spec_pixel_at(self.buffer@, me.width as int, x1 as int, py)
                    == spec_rgb(colour) by {
                    if py != y2 {
                        assert((if py >= y1 {
                            py - y1
                        } else {
                            y1 - py
                        }) < steps);
                        assert(spec_pixel_at(pre, me.width as int, x1 as int, py) == spec_rgb(
                            colour,
                        ));
                    }
                }
            }
        }
    }
}

/// The channel value of one glyph pixel: a linear interpolation
/// between background and ink weighted by the coverage, rounded to
/// the nearest integer.
pub open spec fn spec_blend(cov: u8, ink: u8, bg: u8) -> u8 {
    (((cov as int) * (ink as int) + (255 - cov as int) * (bg as int) + 127) / 255) as u8
}

/// The blend numerator stays below 255 * 256, so the blended channel
/// fits a byte.
pub proof fn lemma_blend_bounds(cov: u8, ink: u8, bg: u8)
    ensures
        0 <= (cov as int) * (ink as int) + (255 - cov as int) * (bg as int) + 127 < 255 * 256,
        0 <= spec_blend(cov, ink, bg) <= 255,
{
    assert(0 <= (cov as int) * (ink as int) + (255 - cov as int) * (bg as int) <= 255 * 255)
        by (nonlinear_arith)
        requires
            0 <= cov <= 255,
            0 <= ink <= 255,
            0 <= bg <= 255,
    ;
    lemma_div_pos_is_pos((cov as int) * (ink as int) + (255 - cov as int) * (bg as int) + 127, 255);
    lemma_div_is_ordered(
        (cov as int) * (ink as int) + (255 - cov as int) * (bg as int) + 127,
        255int * 255 + 127,
        255,
    );
}

/// The channel value of one glyph pixel.
pub fn blend(cov: u8, ink: u8, bg: u8) -> (r: u8)
    ensures
        r == spec_blend(cov, ink, bg),
{
    proof {
        lemma_blend_bounds(cov, ink, bg);
    }
    (((cov as u32) * (ink as u32) + (255 - cov as u32) * (bg as u32) + 127) / 255) as u8
}

/// The three channels of one glyph pixel of character `ch`, blended
/// between the ink colour and the configured background colour.
pub open spec fn spec_glyph_rgb(ch: u8, row: int, col: int, ink: u32, bg: u32) -> (u8, u8, u8) {
    let cov = crate::fonts::spec_coverage(ch, row, col);
    (
        spec_blend(cov, spec_red(ink), spec_red(bg)),
        spec_blend(cov, spec_green(ink), spec_green(bg)),
        spec_blend(cov, spec_blue(ink), spec_blue(bg)),
    )
}

/// What one unconditional pixel write does to the buffer:
/// out-of-bounds targets leave it untouched, anything else
/// overwrites the three bytes of the target pixel.
pub open spec fn spec_put(
    buf: Seq<u8>,
    width: int,
    height: int,
    x: int,
    y: int,
    rgb: (u8, u8, u8),
) -> Seq<u8> {
    if 0 <= x < width && 0 <= y < height {
        let idx = pixel_index(width, x, y);
        buf.update(idx, rgb.0).update(idx + 1, rgb.1).update(idx + 2, rgb.2)
    } else {
        buf
    }
}

/// One unconditional pixel write never disturbs any other pixel, and
/// stores its triple wherever the target is inside the canvas.
pub proof fn lemma_put_frame(buf: Seq<u8>, width: int, height: int, x: int, y: int, rgb: (u8, u8, u8))
    requires
        buf.len() == 3 * (width * height),
    ensures
        spec_put(buf, width, height, x, y, rgb).len() == buf.len(),
        forall|px: int, py: int|
            0 <= px < width && 0 <= py < height && (px, py) != (x, y) ==> #[trigger] spec_pixel_at(
                spec_put(buf, width, height, x, y, rgb),
                width,
                px,
                py,
            ) == spec_pixel_at(buf, width, px, py),
        0 <= x < width && 0 <= y < height ==> spec_pixel_at(
            spec_put(buf, width, height, x, y, rgb),
            width,
            x,
            y,
        ) == rgb,
{
    if 0 <= x < width && 0 <= y < height {
        lemma_pixel_index_bounds(width, height, x, y);
        assert forall|px: int, py: int|
            0 <= px < width && 0 <= py < height && (px, py) != (x, y) implies #[trigger] spec_pixel_at(
            spec_put(buf, width, height, x, y, rgb),
            width,
            px,
            py,
        ) == spec_pixel_at(buf, width, px, py) by {
            lemma_pixel_index_bounds(width, height, px, py);
            lemma_pixel_index_injective(width, px, py, x, y);
        }
    }
}

impl ChartBuffer {
    /// Stores a colour triple at one pixel, skipping targets outside
    /// the canvas.
    fn put_pixel(&mut self, x: usize, y: usize, rgb: (u8, u8, u8))
        requires
            old(self).wf(),
        ensures
            final(self).wf(),
            old(self).same_config(*final(self)),
            final(self).buffer@ == spec_put(
                old(self).buffer@,
                old(self).width as int,
                old(self).height as int,
                x as int,
                y as int,
                rgb,
            ),
    {
        if x < self.width && y < self.height {
            proof {
                lemma_pixel_index_bounds(self.width as int, self.height as int, x as int, y as int);
                assert(y * self.width + x < 0x1000_0000) by (nonlinear_arith)
                    requires
                        x < self.width <= 0x4000,
                        y < self.height <= 0x4000,
                ;
            }
            let idx = 3 * (y * self.width + x);
            self.buffer[idx] = rgb.0;
            self.buffer[idx + 1] = rgb.1;
            self.buffer[idx + 2] = rgb.2;
        }
    }

    /// Blits the 5-by-7 glyph of byte `ch` with its top-left corner
    /// at `(cx0, oy)`, blending every glyph pixel between the ink
    /// colour and the configured background colour.  Glyph pixels
    /// outside the canvas are skipped.
    fn blit_glyph(&mut self, cx0: usize, oy: usize, ch: u8, colour: u32)
        requires
            old(self).wf(),
            cx0 <= DIM_MAX,
            oy <= DIM_MAX,
        ensures
            final(self).wf(),
            old(self).same_config(*final(self)),
            forall|r: int, c: int|
                0 <= r < 7 && 0 <= c < 5 && cx0 + c < old(self).width && oy + r < old(self).height
                    ==> spec_pixel_at(
                    final(self).buffer@,
                    old(self).width as int,
                    cx0 + c,
                    oy + r,
                ) == #[trigger] spec_glyph_rgb(ch, r, c, colour, old(self).background_colour),
            forall|px: int, py: int|
                0 <= px < old(self).width && 0 <= py < old(self).height && !(cx0 <= px < cx0 + 5
                    && oy <= py < oy + 7) ==> #[trigger] spec_pixel_at(
                    final(self).buffer@,
                    old(self).width as int,
                    px,
                    py,
                ) == spec_pixel_at(old(self).buffer@, old(self).width as int, px, py),
    {
        let ghost orig = self.buffer@;
        let ghost me = *old(self);
        let ink_r = red(colour);
        let ink_g = green(colour);
        let ink_b = blue(colour);
        let bg_r = red(self.background_colour);
        let bg_g = green(self.background_colour);
        let bg_b = blue(self.background_colour);
        let mut r: usize = 0;
        while r < 7
            invariant
                me.wf(),
                self.wf(),
                me.same_config(*self),
                self.buffer@.len() == orig.len(),
                orig.len() == 3 * (me.width * me.height),
                cx0 <= DIM_MAX,
                oy <= DIM_MAX,
                0 <= r <= 7,
                ink_r == spec_red(colour),
                ink_g == spec_green(colour),
                ink_b == spec_blue(colour),
                bg_r == spec_red(me.background_colour),
                bg_g == spec_green(me.background_colour),
                bg_b == spec_blue(me.background_colour),
                forall|r2: int, c2: int|
                    0 <= r2 < r && 0 <= c2 < 5 && cx0 + c2 < me.width && oy + r2 < me.height
                        ==> spec_pixel_at(self.buffer@, me.width as int, cx0 + c2, oy + r2)
                        == #[trigger] spec_glyph_rgb(ch, r2, c2, colour, me.background_colour),
                forall|px: int, py: int|
                    0 <= px < me.width && 0 <= py < me.height && !(cx0 <= px < cx0 + 5 && oy <= py
                        < oy + r) ==> #[trigger] spec_pixel_at(self.buffer@, me.width as int, px, py)
                        == spec_pixel_at(orig, me.width as int, px, py),
            decreases 7 - r,
        {
            let mut c: usize = 0;
            while c < 5
                invariant
                    me.wf(),
                    self.wf(),
                    me.same_config(*self),
                    self.buffer@.len() == orig.len(),
                    orig.len() == 3 * (me.width * me.height),
                    cx0 <= DIM_MAX,
                    oy <= DIM_MAX,
                    0 <= r < 7,
                    0 <= c <= 5,
                    ink_r == spec_red(colour),
                    ink_g == spec_green(colour),
                    ink_b == spec_blue(colour),
                    bg_r == spec_red(me.background_colour),
                    bg_g == spec_green(me.background_colour),
                    bg_b == spec_blue(me.background_colour),
                    forall|r2: int, c2: int|
                        0 <= r2 < 7 && 0 <= c2 < 5 && (r2 < r || (r2 == r && c2 < c)) && cx0 + c2
                            < me.width && oy + r2 < me.height ==> spec_pixel_at(
                            self.buffer@,
                            me.width as int,
                            cx0 + c2,
                            oy + r2,
                        ) == #[trigger] spec_glyph_rgb(ch, r2, c2, colour, me.background_colour),
                    forall|px: int, py: int|
                        0 <= px < me.width && 0 <= py < me.height && !(cx0 <= px < cx0 + 5 && oy
                            <= py < oy + r + 1) ==> #[trigger] spec_pixel_at(
                            self.buffer@,
                            me.width as int,
                            px,
                            py,
                        ) == spec_pixel_at(orig, me.width as int, px, py),
                decreases 5 - c,
            {
                let cov = crate::fonts::coverage(ch, r, c);
                let rgb = (blend(cov, ink_r, bg_r), blend(cov, ink_g, bg_g), blend(cov, ink_b, bg_b));
                let ghost pre = self.buffer@;
                self.put_pixel(cx0 + c, oy + r, rgb);
                proof {
                    lemma_put_frame(
                        pre,
                        me.width as int,
                        me.height as int,
                        (cx0 + c) as int,
                        (oy + r) as int,
                        rgb,
                    );
                    assert(rgb == spec_glyph_rgb(ch, r as int, c as int, colour, me.background_colour));
                }
                c = c + 1;
            }
            r = r + 1;
        }
    }

    /// Draws a string of text with its top-left corner at `origin`,
    /// one 5-by-7 glyph per byte at a fixed horizontal pitch of six
    /// pixels.  Every glyph pixel is blended between the ink colour
    /// and the configured background colour, never against what was
    /// previously drawn at that pixel; text is meant to sit in the
    /// margin, over flat background.
    pub fn text(&mut self, origin: (usize, usize), s: &str, colour: u32)
        requires
            old(self).wf(),
            origin.0 <= DIM_MAX,
            origin.1 <= DIM_MAX,
        ensures
            final(self).wf(),
            old(self).same_config(*final(self)),
            forall|ci: int, r: int, c: int|
                0 <= ci < s.spec_bytes().len() && 0 <= r < 7 && 0 <= c < 5 && origin.0 + 6 * ci + c
                    < old(self).width && origin.1 + r < old(self).height ==> spec_pixel_at(
                    final(self).buffer@,
                    old(self).width as int,
                    origin.0 + 6 * ci + c,
                    origin.1 + r,
                ) == #[trigger] spec_glyph_rgb(
                    s.spec_bytes()[ci],
                    r,
                    c,
                    colour,
                    old(self).background_colour,
                ),
            forall|px: int, py: int|
                0 <= px < old(self).width && 0 <= py < old(self).height && !(origin.0 <= px
                    < origin.0 + 6 * s.spec_bytes().len() && origin.1 <= py < origin.1 + 7)
                    ==> #[trigger] spec_pixel_at(final(self).buffer@, old(self).width as int, px, py)
                    == spec_pixel_at(old(self).buffer@, old(self).width as int, px, py),
            forall|ci: int, r: int|
                0 <= ci < s.spec_bytes().len() && 0 <= r < 7 && origin.0 + 6 * ci + 5 < old(
                    self,
                ).width && origin.1 + r < old(self).height ==> #[trigger] spec_pixel_at(
                    final(self).buffer@,
                    old(self).width as int,
                    origin.0 + 6 * ci + 5,
                    origin.1 + r,
                ) == spec_pixel_at(
                    old(self).buffer@,
                    old(self).width as int,
                    origin.0 + 6 * ci + 5,
                    origin.1 + r,
                ),
    {
        let ghost orig = self.buffer@;
        let ghost me = *old(self);
        let bytes: &[u8] = s.as_bytes();
        let n = bytes.len();
        let mut ci: usize = 0;
        let mut cx0: usize = origin.0;
        while ci < n && cx0 < self.width
            invariant
                me.wf(),
                self.wf(),
                me.same_config(*self),
                self.buffer@.len() == orig.len(),
                orig.len() == 3 * (me.width * me.height),
                bytes@ == s.spec_bytes(),
                n == bytes@.len(),
                origin.0 <= DIM_MAX,
                origin.1 <= DIM_MAX,
                0 <= ci <= n,
                cx0 == origin.0 + 6 * ci,
                cx0 <= origin.0 + 6 * n,
                forall|ci2: int, r: int, c: int|
                    0 <= ci2 < ci && 0 <= r < 7 && 0 <= c < 5 && origin.0 + 6 * ci2 + c < me.width
                        && origin.1 + r < me.height ==> spec_pixel_at(
                        self.buffer@,
                        me.width as int,
                        origin.0 + 6 * ci2 + c,
                        origin.1 + r,
                    ) == #[trigger] spec_glyph_rgb(bytes@[ci2], r, c, colour, me.background_colour),
                forall|px: int, py: int|
                    0 <= px < me.width && 0 <= py < me.height && !(origin.0 <= px < cx0 && origin.1
                        <= py < origin.1 + 7) ==> #[trigger] spec_pixel_at(
                        self.buffer@,
                        me.width as int,
                        px,
                        py,
                    ) == spec_pixel_at(orig, me.width as int, px, py),
                forall|ci2: int, r: int|
                    0 <= ci2 < ci && 0 <= r < 7 && origin.0 + 6 * ci2 + 5 < me.width && origin.1 + r
                        < me.height ==> #[trigger] spec_pixel_at(
                        self.buffer@,
                        me.width as int,
                        origin.0 + 6 * ci2 + 5,
                        origin.1 + r,
                    ) == spec_pixel_at(orig, me.width as int, origin.0 + 6 * ci2 + 5, origin.1 + r),
            decreases n - ci,
        {
            let ch = bytes[ci];
            let ghost pre = self.buffer@;
            self.blit_glyph(cx0, origin.1, ch, colour);
            proof {
                assert forall|ci2: int, r: int, c: int|
                    0 <= ci2 < ci + 1 && 0 <= r < 7 && 0 <= c < 5 && origin.0 + 6 * ci2 + c
                        < me.width && origin.1 + r < me.height implies spec_pixel_at(
                    self.buffer@,
                    me.width as int,
                    origin.0 + 6 * ci2 + c,
                    origin.1 + r,
                ) == #[trigger] spec_glyph_rgb(bytes@[ci2], r, c, colour, me.background_colour) by {
                    if ci2 < ci {
                        assert(origin.0 + 6 * ci2 + c < cx0);
                        assert(spec_pixel_at(pre, me.width as int, origin.0 + 6 * ci2 + c, origin.1 + r)
                            == spec_glyph_rgb(bytes@[ci2], r, c, colour, me.background_colour));
                    } else {
                        assert(origin.0 + 6 * ci2 + c == cx0 + c);
                    }
                }
                assert forall|ci2: int, r: int|
                    0 <= ci2 < ci + 1 && 0 <= r < 7 && origin.0 + 6 * ci2 + 5 < me.width && origin.1
                        + r < me.height implies #[trigger] spec_pixel_at(
                    self.buffer@,
                    me.width as int,
                    origin.0 + 6 * ci2 + 5,
                    origin.1 + r,
                ) == spec_pixel_at(orig, me.width as int, origin.0 + 6 * ci2 + 5, origin.1 + r) by {
                    if ci2 < ci {
                        assert(origin.0 + 6 * ci2 + 5 < cx0);
                        assert(spec_pixel_at(pre, me.width as int, origin.0 + 6 * ci2 + 5, origin.1
                            + r) == spec_pixel_at(
                            orig,
                            me.width as int,
                            origin.0 + 6 * ci2 + 5,
                            origin.1 + r,
                        ));
                    } else {
                        assert(origin.0 + 6 * ci2 + 5 == cx0 + 5);
                        assert(spec_pixel_at(pre, me.width as int, cx0 + 5, origin.1 + r)
                            == spec_pixel_at(orig, me.width as int, cx0 + 5, origin.1 + r));
                    }
                }
            }
            ci = ci + 1;
            cx0 = cx0 + 6;
        }
        proof {
            assert(cx0 == origin.0 + 6 * ci);
            if ci < n {
                assert(cx0 >= me.width);
            }
            assert forall|ci2: int, r: int, c: int|
                0 <= ci2 < n && 0 <= r < 7 && 0 <= c < 5 && origin.0 + 6 * ci2 + c < me.width
                    && origin.1 + r < me.height implies spec_pixel_at(
                final(self).buffer@,
                me.width as int,
                origin.0 + 6 * ci2 + c,
                origin.1 + r,
            ) == #[trigger] spec_glyph_rgb(bytes@[ci2], r, c, colour, me.background_colour) by {
                if ci2 >= ci {
                    assert(6 * ci2 >= 6 * ci);
                    assert(origin.0 + 6 * ci2 + c >= cx0);
                    assert(false);
                }
            }
            assert forall|ci2: int, r: int|
                0 <= ci2 < n && 0 <= r < 7 && origin.0 + 6 * ci2 + 5 < me.width && origin.1 + r
                    < me.height implies #[trigger] spec_pixel_at(
                final(self).buffer@,
                me.width as int,
                origin.0 + 6 * ci2 + 5,
                origin.1 + r,
            ) == spec_pixel_at(orig, me.width as int, origin.0 + 6 * ci2 + 5, origin.1 + r) by {
                if ci2 >= ci {
                    assert(6 * ci2 >= 6 * ci);
                    assert(origin.0 + 6 * ci2 + 5 >= cx0);
                    assert(false);
                }
            }
        }
    }
}

/// The pixel row a price maps to, for a given vertical geometry and
/// price range: `top + (high - price) / (high - low) * drawable
/// height`, with the midpoint when the price range is flat, and the
/// price clamped into the range first.
pub open spec fn spec_price_row_geom(
    top: int,
    bottom: int,
    height: int,
    h: int,
    l: int,
    p: int,
) -> int {
    if h == l {
        top + (height - top - bottom) / 2
    } else {
        let pc = clamp_int(p, l, h);
        top + ((h - pc) * (height - top - bottom)) / (h - l)
    }
}

/// A mapped pixel row never rises above the top margin.
pub proof fn lemma_price_row_ge_top(top: int, bottom: int, height: int, h: int, l: int, p: int)
    requires
        l <= h,
        top + bottom <= height,
    ensures
        spec_price_row_geom(top, bottom, height, h, l, p) >= top,
{
    let dh = height - top - bottom;
    if h == l {
        lemma_div_pos_is_pos(dh, 2);
    } else {
        let pc = clamp_int(p, l, h);
        assert((h - pc) * dh >= 0) by (nonlinear_arith)
            requires
                h - pc >= 0,
                dh >= 0,
        ;
        lemma_div_pos_is_pos((h - pc) * dh, h - l);
    }
}

/// A mapped pixel row never sinks below the bottom margin.
pub proof fn lemma_price_row_le_bottom(top: int, bottom: int, height: int, h: int, l: int, p: int)
    requires
        l <= h,
        top + bottom <= height,
    ensures
        spec_price_row_geom(top, bottom, height, h, l, p) <= height - bottom,
{
    let dh = height - top - bottom;
    if h == l {
        vstd::arithmetic::div_mod::lemma_div_nonincreasing(dh, 2);
    } else {
        let pc = clamp_int(p, l, h);
        lemma_mul_inequality(h - pc, h - l, dh);
        lemma_mul_is_commutative(h - l, dh);
        lemma_div_by_multiple(dh, h - l);
        lemma_div_is_ordered((h - pc) * dh, (h - l) * dh, h - l);
    }
}

/// `v` forced into the closed interval `[lo, hi]`.
pub open spec fn clamp_int(v: int, lo: int, hi: int) -> int {
    if v < lo {
        lo
    } else if v > hi {
        hi
    } else {
        v
    }
}

/// Mapping a higher price never yields a larger pixel row: price
/// increases run up the canvas.
pub proof fn lemma_pixel_y_antitone(c: ChartBuffer, p1: int, p2: int)
    requires
        c.wf(),
        p1 <= p2,
    ensures
        c.spec_pixel_y(p2) <= c.spec_pixel_y(p1),
{
    if c.h != c.l {
        let pc1 = clamp_int(p1, c.l as int, c.h as int);
        let pc2 = clamp_int(p2, c.l as int, c.h as int);
        assert(pc1 <= pc2);
        lemma_mul_inequality(c.h - pc2, c.h - pc1, c.drawable_height());
        lemma_div_is_ordered(
            (c.h - pc2) * c.drawable_height(),
            (c.h - pc1) * c.drawable_height(),
            c.h - c.l,
        );
        assert((c.h - pc2) * c.drawable_height() >= 0) by (nonlinear_arith)
            requires
                c.h - pc2 >= 0,
                c.drawable_height() >= 0,
        ;
    }
}

/// Mapping a later elapsed time never yields a smaller pixel column.
pub proof fn lemma_pixel_x_monotone(c: ChartBuffer, t1: int, t2: int)
    requires
        c.wf(),
        t1 <= t2,
    ensures
        c.spec_pixel_x(t1) <= c.spec_pixel_x(t2),
{
    let tc1 = clamp_int(t1, 0, c.timeframe as int);
    let tc2 = clamp_int(t2, 0, c.timeframe as int);
    assert(tc1 <= tc2);
    lemma_mul_inequality(tc1, tc2, c.drawable_width());
    lemma_div_is_ordered(
        tc1 * c.drawable_width(),
        tc2 * c.drawable_width(),
        c.timeframe as int,
    );
    assert(tc1 * c.drawable_width() >= 0) by (nonlinear_arith)
        requires
            tc1 >= 0,
            c.drawable_width() >= 0,
    ;
}

/// The red channel of a packed RGBA colour.
pub fn red(c: u32) -> (r: u8)
    ensures
        r == spec_red(c),
{
    (c >> 24) as u8
}

/// The green channel of a packed RGBA colour.
pub fn green(c: u32) -> (r: u8)
    ensures
        r == spec_green(c),
{
    ((c >> 16) & 0xff) as u8
}

/// The blue channel of a packed RGBA colour.
pub fn blue(c: u32) -> (r: u8)
    ensures
        r == spec_blue(c),
{
    ((c >> 8) & 0xff) as u8
}

/// The alpha channel of a packed RGBA colour.
pub fn alpha(c: u32) -> (r: u8)
    ensures
        r == spec_alpha(c),
{
    (c & 0xff) as u8
}

} // verus!
