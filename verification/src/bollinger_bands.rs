//! The Bollinger Bands statistical overlay: for every sliding window
//! of `periods` bars, the mean and sample standard deviation of the
//! bars' representative prices give an upper, middle and lower band,
//! drawn as connected line segments.

use vstd::prelude::*;
use crate::canvas::ChartBuffer;
use crate::canvas::clamp_int;
use crate::data::OHLC;
use crate::data::PRICE_LIMIT;
use crate::data::bar_in_bounds;
use crate::layers::RendererExtension;
use crate::stats::MAX_BARS;
use crate::stats::avg;
use crate::stats::median_list;
use crate::stats::spec_mean;
use crate::stats::spec_median;
use crate::stats::spec_std_dev;
use crate::stats::std_dev;

verus! {

/// One window's computed band values.
#[derive(Clone, Copy, PartialEq, Eq, Structural, Debug)]
pub struct BandPoints {
    pub higher: i64,
    pub median: i64,
    pub lower: i64,
}

/// The Bollinger Bands overlay layer.
#[derive(Clone, Copy, Debug)]
pub struct BollingerBands {
    /// Window length, in bars.
    pub periods: usize,
    /// The band half-width, in sample standard deviations.
    pub standard_deviations: usize,
    pub line_colour: u32,
}

/// The representative price of every bar of a series, as a sequence
/// of prices.
pub open spec fn spec_median_seq(s: Seq<OHLC>) -> Seq<i64> {
    Seq::new(s.len(), |i: int| spec_median(s[i]) as i64)
}

/// A band value forced into the representable price range; the
/// coordinate mapper clamps into the plotted range anyway, so this
/// loses nothing visible.
pub open spec fn clamp_price(v: int) -> int {
    clamp_int(v, -PRICE_LIMIT as int, PRICE_LIMIT as int)
}

/// The band triple of the window of `periods` bars ending just
/// before bar `k + periods`: the mean of the window's representative
/// prices plus `devs` sample standard deviations, the mean itself,
/// and the mean minus `devs` sample standard deviations, the outer
/// two forced into the representable price range.
pub open spec fn spec_band(data: Seq<OHLC>, k: int, periods: int, devs: int) -> (int, int, int) {
    let w = spec_median_seq(data.subrange(k, k + periods));
    let m = spec_mean(w);
    let sd = spec_std_dev(w);
    (clamp_price(m + devs * sd), m, clamp_price(m - devs * sd))
}

/// The plotted time of band index `i` on a series of `len` bars: the
/// window's position, time-shifted forward by half a period
/// (`floor((periods + 1/2) * timeframe / len)` seconds).
pub open spec fn spec_band_time(tf: int, len: int, periods: int, i: int) -> int {
    (i * tf) / len + ((2 * periods + 1) * tf) / (2 * len)
}

/// Where a band value is plotted: the mapped pixel position, forced
/// into the canvas.
pub open spec fn spec_clipped_px(c: ChartBuffer, price: int, t: int) -> (int, int) {
    (
        crate::data::min_i(c.spec_pixel_x(t), c.width - 1),
        crate::data::min_i(c.spec_pixel_y(price), c.height - 1),
    )
}

/// Band index `j` is on the canvas: the plotted pixels of its upper,
/// middle and lower values lie inside the canvas and carry the line
/// colour.
pub open spec fn band_endpoint_painted(
    cur: ChartBuffer,
    geom: ChartBuffer,
    data: Seq<OHLC>,
    periods: int,
    devs: int,
    colour: u32,
    j: int,
) -> bool {
    let b = spec_band(data, j, periods, devs);
    let t = spec_band_time(geom.timeframe as int, data.len() as int, periods, j);
    let ph = spec_clipped_px(geom, b.0, t);
    let pm = spec_clipped_px(geom, b.1, t);
    let pl = spec_clipped_px(geom, b.2, t);
    &&& 0 <= ph.0 < geom.width && 0 <= ph.1 < geom.height
    &&& 0 <= pm.0 < geom.width && 0 <= pm.1 < geom.height
    &&& 0 <= pl.0 < geom.width && 0 <= pl.1 < geom.height
    &&& crate::canvas::spec_pixel_at(cur.buffer@, geom.width as int, ph.0, ph.1)
        == crate::canvas::spec_rgb(colour)
    &&& crate::canvas::spec_pixel_at(cur.buffer@, geom.width as int, pm.0, pm.1)
        == crate::canvas::spec_rgb(colour)
    &&& crate::canvas::spec_pixel_at(cur.buffer@, geom.width as int, pl.0, pl.1)
        == crate::canvas::spec_rgb(colour)
}

/// Representative prices of in-bounds bars are themselves in
/// bounds.
pub proof fn lemma_median_seq_in_bounds(s: Seq<OHLC>)
    requires
        forall|k: int| 0 <= k < s.len() ==> bar_in_bounds(#[trigger] s[k]),
    ensures
        spec_median_seq(s).len() == s.len(),
        forall|k: int|
            0 <= k < s.len() ==> crate::data::price_in_bounds(#[trigger] spec_median_seq(s)[k]),
{
    assert forall|k: int| 0 <= k < s.len() implies crate::data::price_in_bounds(
        #[trigger] spec_median_seq(s)[k],
    ) by {
        crate::stats::lemma_div_floor_bounds(
            s[k].o + s[k].h + s[k].l + s[k].c,
            4,
            PRICE_LIMIT as int,
        );
    }
}

/// The middle band value, the mean of the window's representative
/// prices, stays inside the representable price range.
pub proof fn lemma_band_median_in_bounds(data: Seq<OHLC>, j: int, periods: int, devs: int)
    requires
        periods >= 1,
        0 <= j,
        j + periods <= data.len(),
        forall|k: int| 0 <= k < data.len() ==> bar_in_bounds(#[trigger] data[k]),
    ensures
        -PRICE_LIMIT <= spec_band(data, j, periods, devs).1 <= PRICE_LIMIT,
{
    let win = data.subrange(j, j + periods);
    lemma_median_seq_in_bounds(win);
    crate::stats::lemma_mean_in_bounds(spec_median_seq(win));
}

/// The bands are symmetric about the middle value: the middle band
/// sits between the lower and the upper, and where the
/// representable-range clamp does not engage, the upper and lower
/// values average to exactly the middle one.
pub proof fn lemma_band_symmetric(data: Seq<OHLC>, j: int, periods: int, devs: int)
    requires
        periods >= 1,
        devs >= 0,
        0 <= j,
        j + periods <= data.len(),
        forall|k: int| 0 <= k < data.len() ==> bar_in_bounds(#[trigger] data[k]),
    ensures
        ({
            let b = spec_band(data, j, periods, devs);
            b.2 <= b.1 <= b.0
        }),
        ({
            let b = spec_band(data, j, periods, devs);
            let w = spec_median_seq(data.subrange(j, j + periods));
            let d = devs * spec_std_dev(w);
            -PRICE_LIMIT <= b.1 - d && b.1 + d <= PRICE_LIMIT ==> b.0 + b.2 == 2 * b.1
        }),
{
    let w = spec_median_seq(data.subrange(j, j + periods));
    lemma_band_median_in_bounds(data, j, periods, devs);
    crate::stats::lemma_std_dev_nonneg(w);
    let sd = spec_std_dev(w);
    assert(devs * sd >= 0) by (nonlinear_arith)
        requires
            devs >= 0,
            sd >= 0,
    ;
}

fn clamp_price_exec(v: i128) -> (r: i64)
    ensures
        r as int == clamp_price(v as int),
{
    if v < -PRICE_LIMIT as i128 {
        -PRICE_LIMIT
    } else if v > PRICE_LIMIT as i128 {
        PRICE_LIMIT
    } else {
        v as i64
    }
}

impl BollingerBands {
    pub fn new(periods: usize, standard_deviations: usize, line_colour: u32) -> (r: BollingerBands)
        ensures
            r == (BollingerBands { periods, standard_deviations, line_colour }),
    {
        BollingerBands { periods, standard_deviations, line_colour }
    }

    /// The band triple of every full window: one per window of
    /// `periods` consecutive bars, oldest first, and none at all
    /// when the series has no more bars than one window.
    pub fn band_points(&self, data: &Vec<OHLC>) -> (r: Vec<BandPoints>)
        requires
            1 <= self.periods,
            data@.len() <= MAX_BARS,
            forall|k: int| 0 <= k < data@.len() ==> bar_in_bounds(#[trigger] data@[k]),
        ensures
            r@.len() == (if data@.len() > self.periods {
                data@.len() - self.periods
            } else {
                0int
            }),
            forall|k: int|
                0 <= k < r@.len() ==> {
                    let b = spec_band(
                        data@,
                        k,
                        self.periods as int,
                        self.standard_deviations as int,
                    );
                    #[trigger] r@[k] == (BandPoints {
                        higher: b.0 as i64,
                        median: b.1 as i64,
                        lower: b.2 as i64,
                    })
                },
    {
        let periods = self.periods;
        let devs = self.standard_deviations;
        let mut out: Vec<BandPoints> = Vec::new();
        if data.len() <= periods {
            return out;
        }
        let mut i: usize = periods;
        while i < data.len()
            invariant
                1 <= periods < data@.len() <= MAX_BARS,
                devs == self.standard_deviations,
                periods == self.periods,
                periods <= i <= data@.len(),
                forall|k: int| 0 <= k < data@.len() ==> bar_in_bounds(#[trigger] data@[k]),
                out@.len() == i - periods,
                forall|k: int|
                    0 <= k < out@.len() ==> {
                        let b = spec_band(data@, k, periods as int, devs as int);
                        #[trigger] out@[k] == (BandPoints {
                            higher: b.0 as i64,
                            median: b.1 as i64,
                            lower: b.2 as i64,
                        })
                    },
            decreases data@.len() - i,
        {
            let lo = i - periods;
            let mut window: Vec<OHLC> = Vec::new();
            let mut j: usize = 0;
            while j < periods
                invariant
                    periods <= i <= data@.len(),
                    lo == i - periods,
                    0 <= j <= periods,
                    forall|k: int| 0 <= k < data@.len() ==> bar_in_bounds(#[trigger] data@[k]),
                    window@ =~= data@.subrange(lo as int, lo + j),
                decreases periods - j,
            {
                window.push(data[lo + j]);
                proof {
                    assert(window@ =~= data@.subrange(lo as int, lo + j + 1));
                }
                j = j + 1;
            }
            let meds = median_list(&window);
            proof {
                assert(meds@ =~= spec_median_seq(data@.subrange(lo as int, i as int)));
            }
            let m = avg(&meds);
            let sd = std_dev(&meds);
            proof {
                let ghost d = devs as int;
                assert(d < 0x1_0000_0000_0000_0000);
                assert(0 <= d * (sd as int) <= 0x8_0000_0000_0000_0000_0000_0000_0000int)
                    by (nonlinear_arith)
                    requires
                        0 <= d < 0x1_0000_0000_0000_0000,
                        0 <= sd <= 0x8_0000_0000_0000,
                ;
            }
            let scaled: i128 = devs as i128 * sd as i128;
            let higher = clamp_price_exec(m as i128 + scaled);
            let lower = clamp_price_exec(m as i128 - scaled);
            out.push(BandPoints { higher, median: m, lower });
            i = i + 1;
        }
        out
    }

    /// Computes the bands and draws the three connected polylines.
    /// A series with no more bars than one window yields zero
    /// segments: nothing is drawn and nothing fails.  When there are
    /// at least two windows and the line colour is visible, every
    /// band's three plotted points really carry the line colour.
    #[verifier::rlimit(100)]
    pub fn draw(&self, buffer: &mut ChartBuffer, data: &Vec<OHLC>)
        requires
            old(buffer).wf(),
            data@.len() <= MAX_BARS,
            forall|k: int| 0 <= k < data@.len() ==> bar_in_bounds(#[trigger] data@[k]),
        ensures
            final(buffer).wf(),
            old(buffer).same_config(*final(buffer)),
            data@.len() <= self.periods || self.periods == 0 ==> final(buffer).buffer@ == old(
                buffer,
            ).buffer@,
            forall|px: int, py: int|
                0 <= px < old(buffer).width && 0 <= py < old(buffer).height && !old(
                    buffer,
                ).in_drawable(px, py) ==> #[trigger] crate::canvas::spec_pixel_at(
                    final(buffer).buffer@,
                    old(buffer).width as int,
                    px,
                    py,
                ) == crate::canvas::spec_pixel_at(old(buffer).buffer@, old(buffer).width as int, px, py),
            data@.len() > self.periods + 1 && self.periods >= 1 && crate::canvas::spec_alpha(
                self.line_colour,
            ) != 0 ==> forall|j: int|
                0 <= j < data@.len() - self.periods ==> #[trigger] band_endpoint_painted(
                    *final(buffer),
                    *old(buffer),
                    data@,
                    self.periods as int,
                    self.standard_deviations as int,
                    self.line_colour,
                    j,
                ),
    {
        let ghost me = *old(buffer);
        let ghost orig = old(buffer).buffer@;
        let len = data.len();
        if self.periods == 0 || len <= self.periods {
            return ;
        }
        let bands = self.band_points(data);
        let tf = buffer.timeframe;
        proof {
            assert(0 <= (2 * self.periods + 1) as int * tf as int <= (2 * MAX_BARS + 1) as int
                * crate::canvas::TIME_MAX as int) by (nonlinear_arith)
                requires
                    1 <= self.periods <= MAX_BARS,
                    1 <= tf <= crate::canvas::TIME_MAX,
            ;
        }
        // The window's band is plotted half a period past its start:
        // floor((periods + 1/2) * timeframe / len).
        let offset: u64 = ((2 * self.periods as u64 + 1) * tf as u64) / (2 * len as u64);
        proof {
            vstd::arithmetic::mul::lemma_mul_inequality(
                (2 * self.periods + 1) as int,
                2 * len as int,
                tf as int,
            );
            vstd::arithmetic::mul::lemma_mul_is_commutative(2 * len as int, tf as int);
            vstd::arithmetic::div_mod::lemma_div_by_multiple(tf as int, 2 * len as int);
            vstd::arithmetic::div_mod::lemma_div_is_ordered(
                (2 * self.periods + 1) as int * tf as int,
                (2 * len as int) * tf as int,
                2 * len as int,
            );
            vstd::arithmetic::div_mod::lemma_div_pos_is_pos(
                (2 * self.periods + 1) as int * tf as int,
                2 * len as int,
            );
        }
        let ghost periods_g: int = self.periods as int;
        let ghost devs_g: int = self.standard_deviations as int;
        let nseg = bands.len() - 1;
        let mut i: usize = 0;
        while i < nseg
            invariant
                me.wf(),
                buffer.wf(),
                me.same_config(*buffer),
                orig.len() == 3 * (me.width * me.height),
                tf == me.timeframe,
                0 <= i <= nseg,
                nseg == bands@.len() - 1,
                bands@.len() <= MAX_BARS,
                1 <= len <= MAX_BARS,
                offset <= crate::canvas::TIME_MAX as u64,
                periods_g == self.periods as int,
                devs_g == self.standard_deviations as int,
                1 <= periods_g,
                forall|k: int| 0 <= k < data@.len() ==> bar_in_bounds(#[trigger] data@[k]),
                len == data@.len(),
                len > self.periods,
                bands@.len() == len - self.periods,
                offset as int == ((2 * periods_g + 1) * (tf as int)) / (2 * len as int),
                forall|k: int|
                    0 <= k < bands@.len() ==> {
                        let b = spec_band(data@, k, periods_g, devs_g);
                        #[trigger] bands@[k] == (BandPoints {
                            higher: b.0 as i64,
                            median: b.1 as i64,
                            lower: b.2 as i64,
                        })
                    },
                forall|px: int, py: int|
                    0 <= px < me.width && 0 <= py < me.height && !me.in_drawable(px, py)
                        ==> #[trigger] crate::canvas::spec_pixel_at(
                        buffer.buffer@,
                        me.width as int,
                        px,
                        py,
                    ) == crate::canvas::spec_pixel_at(orig, me.width as int, px, py),
                crate::canvas::spec_alpha(self.line_colour) != 0 && i > 0 ==> forall|j: int|
                    0 <= j <= i ==> #[trigger] band_endpoint_painted(
                        *buffer,
                        me,
                        data@,
                        periods_g,
                        devs_g,
                        self.line_colour,
                        j,
                    ),
            decreases nseg - i,
        {
            proof {
                assert(0 <= i as int * tf as int <= MAX_BARS as int
                    * crate::canvas::TIME_MAX as int && 0 <= (i + 1) as int * tf as int
                    <= MAX_BARS as int * crate::canvas::TIME_MAX as int) by (nonlinear_arith)
                    requires
                        0 <= i,
                        i + 1 <= MAX_BARS,
                        0 <= tf <= crate::canvas::TIME_MAX,
                ;
                vstd::arithmetic::div_mod::lemma_div_nonincreasing(
                    i as int * tf as int,
                    len as int,
                );
                vstd::arithmetic::div_mod::lemma_div_nonincreasing(
                    (i + 1) as int * tf as int,
                    len as int,
                );
                vstd::arithmetic::div_mod::lemma_div_pos_is_pos(i as int * tf as int, len as int);
                vstd::arithmetic::div_mod::lemma_div_pos_is_pos(
                    (i + 1) as int * tf as int,
                    len as int,
                );
            }
            let t_a: i64 = ((i as u64 * tf as u64) / len as u64 + offset) as i64;
            let t_b: i64 = (((i as u64 + 1) * tf as u64) / len as u64 + offset) as i64;
            let b0 = bands[i];
            let b1 = bands[i + 1];
            proof {
                assert(t_a as int == spec_band_time(tf as int, len as int, periods_g, i as int));
                assert(t_b as int == spec_band_time(tf as int, len as int, periods_g, i + 1));
            }
            let ghost s0 = *buffer;
            let p1_h = buffer.clip(buffer.to_pixel(b0.higher, t_a));
            let p2_h = buffer.clip(buffer.to_pixel(b1.higher, t_b));
            buffer.line(p1_h, p2_h, self.line_colour);
            let ghost s1 = *buffer;
            let p1_m = buffer.clip(buffer.to_pixel(b0.median, t_a));
            let p2_m = buffer.clip(buffer.to_pixel(b1.median, t_b));
            buffer.line(p1_m, p2_m, self.line_colour);
            let ghost s2 = *buffer;
            let p1_l = buffer.clip(buffer.to_pixel(b0.lower, t_a));
            let p2_l = buffer.clip(buffer.to_pixel(b1.lower, t_b));
            buffer.line(p1_l, p2_l, self.line_colour);
            proof {
                if crate::canvas::spec_alpha(self.line_colour) != 0 {
                    let rgb = crate::canvas::spec_rgb(self.line_colour);
                    let w = me.width as int;
                    assert forall|j: int| 0 <= j <= i + 1 implies #[trigger] band_endpoint_painted(
                        *buffer,
                        me,
                        data@,
                        periods_g,
                        devs_g,
                        self.line_colour,
                        j,
                    ) by {
                        let b = spec_band(data@, j, periods_g, devs_g);
                        let t = spec_band_time(me.timeframe as int, data@.len() as int, periods_g, j);
                        let ph = spec_clipped_px(me, b.0, t);
                        let pm = spec_clipped_px(me, b.1, t);
                        let pl = spec_clipped_px(me, b.2, t);
                        if j < i {
                            assert(band_endpoint_painted(
                                s0,
                                me,
                                data@,
                                periods_g,
                                devs_g,
                                self.line_colour,
                                j,
                            ));
                            assert(crate::canvas::spec_pixel_at(s1.buffer@, w, ph.0, ph.1) == rgb);
                            assert(crate::canvas::spec_pixel_at(s1.buffer@, w, pm.0, pm.1) == rgb);
                            assert(crate::canvas::spec_pixel_at(s1.buffer@, w, pl.0, pl.1) == rgb);
                            assert(crate::canvas::spec_pixel_at(s2.buffer@, w, ph.0, ph.1) == rgb);
                            assert(crate::canvas::spec_pixel_at(s2.buffer@, w, pm.0, pm.1) == rgb);
                            assert(crate::canvas::spec_pixel_at(s2.buffer@, w, pl.0, pl.1) == rgb);
                        } else if j == i {
                            lemma_band_median_in_bounds(data@, j, periods_g, devs_g);
                            assert(p1_h.0 as int == ph.0 && p1_h.1 as int == ph.1);
                            assert(p1_m.0 as int == pm.0 && p1_m.1 as int == pm.1);
                            assert(p1_l.0 as int == pl.0 && p1_l.1 as int == pl.1);
                            assert(crate::canvas::spec_pixel_at(s1.buffer@, w, ph.0, ph.1) == rgb);
                            assert(crate::canvas::spec_pixel_at(s2.buffer@, w, ph.0, ph.1) == rgb);
                            assert(crate::canvas::spec_pixel_at(s2.buffer@, w, pm.0, pm.1) == rgb);
                        } else {
                            lemma_band_median_in_bounds(data@, j, periods_g, devs_g);
                            assert(p2_h.0 as int == ph.0 && p2_h.1 as int == ph.1);
                            assert(p2_m.0 as int == pm.0 && p2_m.1 as int == pm.1);
                            assert(p2_l.0 as int == pl.0 && p2_l.1 as int == pl.1);
                            assert(crate::canvas::spec_pixel_at(s1.buffer@, w, ph.0, ph.1) == rgb);
                            assert(crate::canvas::spec_pixel_at(s2.buffer@, w, ph.0, ph.1) == rgb);
                            assert(crate::canvas::spec_pixel_at(s2.buffer@, w, pm.0, pm.1) == rgb);
                        }
                    }
                }
            }
            i = i + 1;
        }
    }
}

impl RendererExtension for BollingerBands {
    fn apply(&self, buffer: &mut ChartBuffer, data: &Vec<OHLC>)
        // Everything `draw` promises holds at the layer surface too:
        // a series with no more bars than one window leaves the
        // buffer byte-identical, the margins are never touched, and
        // with at least two windows and a visible colour every
        // band's three plotted points carry the line colour.
        ensures
            data@.len() <= self.periods || self.periods == 0 ==> final(buffer).buffer@ == old(
                buffer,
            ).buffer@,
            forall|px: int, py: int|
                0 <= px < old(buffer).width && 0 <= py < old(buffer).height && !old(
                    buffer,
                ).in_drawable(px, py) ==> #[trigger] crate::canvas::spec_pixel_at(
                    final(buffer).buffer@,
                    old(buffer).width as int,
                    px,
                    py,
                ) == crate::canvas::spec_pixel_at(old(buffer).buffer@, old(buffer).width as int, px, py),
            data@.len() > self.periods + 1 && self.periods >= 1 && crate::canvas::spec_alpha(
                self.line_colour,
            ) != 0 ==> forall|j: int|
                0 <= j < data@.len() - self.periods ==> #[trigger] band_endpoint_painted(
                    *final(buffer),
                    *old(buffer),
                    data@,
                    self.periods as int,
                    self.standard_deviations as int,
                    self.line_colour,
                    j,
                ),
    {
        self.draw(buffer, data);
    }

    fn lore_colour(&self) -> (r: Option<u32>)
        ensures
            r == Some(self.line_colour),
    {
        Some(self.line_colour)
    }

    fn name(&self) -> (r: String)
        ensures
            r@ == "BB("@ + crate::label::spec_digits(self.periods as int) + ", "@
                + crate::label::spec_digits(self.standard_deviations as int) + ")"@,
    {
        let mut s = String::from_str("BB(");
        s.append(crate::label::u64_string(self.periods as u64).as_str());
        s.append(", ");
        s.append(crate::label::u64_string(self.standard_deviations as u64).as_str());
        s.append(")");
        proof {
            assert(s@ =~= "BB("@ + crate::label::spec_digits(self.periods as int) + ", "@
                + crate::label::spec_digits(self.standard_deviations as int) + ")"@);
        }
        s
    }
}

} // verus!
