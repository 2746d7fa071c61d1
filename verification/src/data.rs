//! Bar data, validation, and the aggregate summary that sizes a chart.

use vstd::prelude::*;

verus! {

/// Largest magnitude a price (in fixed-point price units) may have.
/// Keeping prices within this bound lets every coordinate computation
/// stay inside `i64`/`i128` arithmetic.
pub const PRICE_LIMIT: i64 = 0x100_0000_0000;

/// One time period's open, high, low and close prices, in fixed-point
/// price units (the caller picks the scale; every price is an integer
/// number of units).
#[derive(Clone, Copy, PartialEq, Eq, Structural, Debug)]
pub struct OHLC {
    pub o: i64,
    pub h: i64,
    pub l: i64,
    pub c: i64,
}

/// The ordering invariant a bar must satisfy: open and close lie
/// between low and high.
pub open spec fn valid_bar(b: OHLC) -> bool {
    b.l <= b.o && b.o <= b.h && b.l <= b.c && b.c <= b.h
}

pub open spec fn price_in_bounds(p: i64) -> bool {
    -PRICE_LIMIT <= p && p <= PRICE_LIMIT
}

pub open spec fn bar_in_bounds(b: OHLC) -> bool {
    price_in_bounds(b.o) && price_in_bounds(b.h) && price_in_bounds(b.l) && price_in_bounds(b.c)
}

/// Everything that can end a render call early.
#[derive(Clone, Copy, PartialEq, Eq, Structural, Debug)]
pub enum ChartError {
    /// The series holds no bars at all.
    EmptySeries,
    /// A bar's opening value is higher than its high value.
    OpenAboveHigh,
    /// A bar's closing value is higher than its high value.
    CloseAboveHigh,
    /// A bar's low value is higher than its high value.
    LowAboveHigh,
    /// A bar's opening value is lower than its low value.
    OpenBelowLow,
    /// A bar's closing value is lower than its low value.
    CloseBelowLow,
    /// A transient staging location could not be set up.
    Resource,
    /// The external image codec or file writer failed.
    Codec,
}

/// The message text of each error.
pub open spec fn spec_message(e: ChartError) -> Seq<char> {
    match e {
        ChartError::EmptySeries => "Data set is empty."@,
        ChartError::OpenAboveHigh => "Opening value is higher than high value."@,
        ChartError::CloseAboveHigh => "Closing value is higher than high value."@,
        ChartError::LowAboveHigh => "Low value is higher than high value."@,
        ChartError::OpenBelowLow => "Opening value is lower than low value."@,
        ChartError::CloseBelowLow => "Closing value is lower than low value."@,
        ChartError::Resource => "Failed to create a temporary directory."@,
        ChartError::Codec => "Image write error."@,
    }
}

impl ChartError {
    /// The human-readable message for this error.
    pub fn message(&self) -> (r: &'static str)
        ensures
            r@ == spec_message(*self),
    {
        match self {
            ChartError::EmptySeries => "Data set is empty.",
            ChartError::OpenAboveHigh => "Opening value is higher than high value.",
            ChartError::CloseAboveHigh => "Closing value is higher than high value.",
            ChartError::LowAboveHigh => "Low value is higher than high value.",
            ChartError::OpenBelowLow => "Opening value is lower than low value.",
            ChartError::CloseBelowLow => "Closing value is lower than low value.",
            ChartError::Resource => "Failed to create a temporary directory.",
            ChartError::Codec => "Image write error.",
        }
    }
}

/// The first failed check of a single bar, in the fixed priority order:
/// open above high, close above high, low above high, open below low,
/// close below low.
pub open spec fn bar_error(b: OHLC) -> Option<ChartError> {
    if b.o > b.h {
        Some(ChartError::OpenAboveHigh)
    } else if b.c > b.h {
        Some(ChartError::CloseAboveHigh)
    } else if b.l > b.h {
        Some(ChartError::LowAboveHigh)
    } else if b.o < b.l {
        Some(ChartError::OpenBelowLow)
    } else if b.c < b.l {
        Some(ChartError::CloseBelowLow)
    } else {
        None
    }
}

/// A bar passes the per-bar checks exactly when it satisfies the
/// ordering invariant.
pub proof fn lemma_bar_error_none_iff_valid(b: OHLC)
    ensures
        bar_error(b) is None <==> valid_bar(b),
{
}

/// The error of the first bar that fails a check, scanning left to
/// right; `Ok` when every bar is clean.
pub open spec fn spec_scan(s: Seq<OHLC>) -> Result<(), ChartError>
    decreases s.len(),
{
    if s.len() == 0 {
        Ok(())
    } else {
        match bar_error(s[0]) {
            Some(e) => Err(e),
            None => spec_scan(s.skip(1)),
        }
    }
}

/// What `validate` returns: an empty series is its own error, and a
/// non-empty one is scanned for the first violating bar.
pub open spec fn spec_validate(s: Seq<OHLC>) -> Result<(), ChartError> {
    if s.len() == 0 {
        Err(ChartError::EmptySeries)
    } else {
        spec_scan(s)
    }
}

proof fn lemma_scan_clean_prefix(s: Seq<OHLC>, i: int)
    requires
        0 <= i <= s.len(),
        forall|k: int| 0 <= k < i ==> bar_error(s[k]) is None,
    ensures
        spec_scan(s) == spec_scan(s.skip(i)),
    decreases i,
{
    if i > 0 {
        assert(spec_scan(s) == spec_scan(s.skip(1)));
        lemma_scan_clean_prefix(s.skip(1), i - 1);
        assert(s.skip(1).skip(i - 1) =~= s.skip(i));
    } else {
        assert(s.skip(0) =~= s);
    }
}

/// Checks every bar against the ordering invariant, in order, and
/// reports the first violated relation; an empty series is a distinct
/// error.  Bars after a failing one are never inspected.
pub fn validate(data: &Vec<OHLC>) -> (r: Result<(), ChartError>)
    ensures
        r == spec_validate(data@),
{
    if data.len() == 0 {
        return Err(ChartError::EmptySeries);
    }
    let ghost s = data@;
    for i in 0..data.len()
        invariant
            s == data@,
            forall|k: int| 0 <= k < i ==> bar_error(s[k]) is None,
    {
        let b = data[i];
        proof {
            lemma_scan_clean_prefix(s, i as int);
            assert(s.skip(i as int)[0] == s[i as int]);
        }
        if b.o > b.h {
            return Err(ChartError::OpenAboveHigh);
        } else if b.c > b.h {
            return Err(ChartError::CloseAboveHigh);
        } else if b.l > b.h {
            return Err(ChartError::LowAboveHigh);
        } else if b.o < b.l {
            return Err(ChartError::OpenBelowLow);
        } else if b.c < b.l {
            return Err(ChartError::CloseBelowLow);
        }
    }
    proof {
        lemma_scan_clean_prefix(s, s.len() as int);
    }
    Ok(())
}

/// A non-empty series validates exactly when every bar satisfies the
/// ordering invariant.
pub proof fn lemma_validate_ok_iff_all_valid(s: Seq<OHLC>)
    requires
        s.len() > 0,
    ensures
        spec_validate(s) is Ok <==> forall|k: int| 0 <= k < s.len() ==> valid_bar(s[k]),
    decreases s.len(),
{
    if spec_scan(s) is Ok {
        assert forall|k: int| 0 <= k < s.len() implies valid_bar(s[k]) by {
            lemma_scan_ok_all_clean(s, k);
        }
    } else {
        if forall|k: int| 0 <= k < s.len() ==> valid_bar(s[k]) {
            lemma_scan_all_clean_ok(s);
        }
    }
}

proof fn lemma_scan_ok_all_clean(s: Seq<OHLC>, k: int)
    requires
        spec_scan(s) is Ok,
        0 <= k < s.len(),
    ensures
        valid_bar(s[k]),
    decreases k,
{
    if k == 0 {
        assert(bar_error(s[0]) is None);
    } else {
        lemma_scan_ok_all_clean(s.skip(1), k - 1);
    }
}

proof fn lemma_scan_all_clean_ok(s: Seq<OHLC>)
    requires
        forall|k: int| 0 <= k < s.len() ==> valid_bar(s[k]),
    ensures
        spec_scan(s) is Ok,
    decreases s.len(),
{
    if s.len() > 0 {
        lemma_scan_all_clean_ok(s.skip(1));
    }
}

/// When the bars before position `j` are all clean and bar `j` breaks
/// the invariant, validation reports exactly bar `j`'s first failed
/// check.
pub proof fn lemma_validate_first_violation(s: Seq<OHLC>, j: int)
    requires
        0 <= j < s.len(),
        forall|k: int| 0 <= k < j ==> valid_bar(s[k]),
        !valid_bar(s[j]),
    ensures
        bar_error(s[j]) is Some,
        spec_validate(s) == Err::<(), ChartError>(bar_error(s[j]).unwrap()),
{
    assert(forall|k: int| 0 <= k < j ==> bar_error(s[k]) is None);
    lemma_scan_clean_prefix(s, j);
    assert(s.skip(j)[0] == s[j]);
}

/// Summary statistics of a whole series: overall high, overall low,
/// last close, and the price range they span.
#[derive(Clone, Copy, PartialEq, Eq, Structural, Debug)]
pub struct AggregateSummary {
    pub high: i64,
    pub low: i64,
    pub last_close: i64,
    pub range: i64,
}

pub open spec fn max_i(a: int, b: int) -> int {
    if a >= b {
        a
    } else {
        b
    }
}

pub open spec fn min_i(a: int, b: int) -> int {
    if a <= b {
        a
    } else {
        b
    }
}

/// The largest high value over a non-empty series.
pub open spec fn seq_high(s: Seq<OHLC>) -> int
    recommends
        s.len() > 0,
    decreases s.len(),
{
    if s.len() <= 1 {
        s[0].h as int
    } else {
        max_i(seq_high(s.drop_last()), s.last().h as int)
    }
}

/// The smallest low value over a non-empty series.
pub open spec fn seq_low(s: Seq<OHLC>) -> int
    recommends
        s.len() > 0,
    decreases s.len(),
{
    if s.len() <= 1 {
        s[0].l as int
    } else {
        min_i(seq_low(s.drop_last()), s.last().l as int)
    }
}

/// The overall high bounds every bar's high, and the overall low
/// bounds every bar's low; each is attained by some bar.
pub proof fn lemma_summary_bounds(s: Seq<OHLC>)
    requires
        s.len() > 0,
    ensures
        forall|k: int| 0 <= k < s.len() ==> #[trigger] s[k].h <= seq_high(s),
        forall|k: int| 0 <= k < s.len() ==> #[trigger] s[k].l >= seq_low(s),
        exists|k: int| 0 <= k < s.len() && s[k].h == seq_high(s),
        exists|k: int| 0 <= k < s.len() && s[k].l == seq_low(s),
    decreases s.len(),
{
    if s.len() == 1 {
        assert(s[0].h == seq_high(s));
        assert(s[0].l == seq_low(s));
    } else {
        lemma_summary_bounds(s.drop_last());
        assert(forall|k: int| 0 <= k < s.len() - 1 ==> s[k] == s.drop_last()[k]);
        let last = s.len() - 1;
        if seq_high(s) == s[last].h {
            assert(0 <= last < s.len() && s[last].h == seq_high(s));
        } else {
            let k = choose|k: int| 0 <= k < s.len() - 1 && s.drop_last()[k].h == seq_high(
                s.drop_last(),
            );
            assert(0 <= k < s.len() && s[k].h == seq_high(s));
        }
        if seq_low(s) == s[last].l {
            assert(0 <= last < s.len() && s[last].l == seq_low(s));
        } else {
            let k = choose|k: int| 0 <= k < s.len() - 1 && s.drop_last()[k].l == seq_low(
                s.drop_last(),
            );
            assert(0 <= k < s.len() && s[k].l == seq_low(s));
        }
    }
}

/// With every bar valid, the overall low never exceeds the overall
/// high, so the price range of the summary is well defined.
pub proof fn lemma_summary_low_le_high(s: Seq<OHLC>)
    requires
        s.len() > 0,
        forall|k: int| 0 <= k < s.len() ==> valid_bar(#[trigger] s[k]),
    ensures
        seq_low(s) <= seq_high(s),
{
    lemma_summary_bounds(s);
    assert(s[0].l >= seq_low(s));
    assert(s[0].h <= seq_high(s));
}

/// Scans the series once and produces the overall high, the overall
/// low, the last close, and the range between high and low.
pub fn summarize(data: &Vec<OHLC>) -> (s: AggregateSummary)
    requires
        data@.len() > 0,
        forall|k: int| 0 <= k < data@.len() ==> bar_in_bounds(#[trigger] data@[k]),
    ensures
        s.high == seq_high(data@),
        s.low == seq_low(data@),
        s.last_close == data@.last().c,
        s.range == s.high - s.low,
{
    let ghost full = data@;
    let first = data[0];
    let mut high: i64 = first.h;
    let mut low: i64 = first.l;
    assert(full.take(1) =~= seq![full[0]]);
    let mut i: usize = 1;
    while i < data.len()
        invariant
            full == data@,
            1 <= i <= full.len(),
            forall|k: int| 0 <= k < full.len() ==> bar_in_bounds(#[trigger] full[k]),
            high == seq_high(full.take(i as int)),
            low == seq_low(full.take(i as int)),
        decreases full.len() - i,
    {
        let b = data[i];
        proof {
            let t = full.take(i as int + 1);
            assert(t.drop_last() =~= full.take(i as int));
            assert(t.last() == full[i as int]);
        }
        if b.h > high {
            high = b.h;
        }
        if b.l < low {
            low = b.l;
        }
        i = i + 1;
    }
    proof {
        assert(full.take(full.len() as int) =~= full);
        lemma_summary_bounds(full);
        let kh = choose|k: int| 0 <= k < full.len() && full[k].h == seq_high(full);
        let kl = choose|k: int| 0 <= k < full.len() && full[k].l == seq_low(full);
        assert(bar_in_bounds(full[kh]));
        assert(bar_in_bounds(full[kl]));
    }
    AggregateSummary { high, low, last_close: data[data.len() - 1].c, range: high - low }
}

} // verus!
