use ohlc::ChartError;
use ohlc::OHLC;
use ohlc::summarize;
use ohlc::validate;

fn bar(o: i64, h: i64, l: i64, c: i64) -> OHLC {
    OHLC { o, h, l, c }
}

#[test]
fn validate_accepts_well_ordered_bars() {
    let data = vec![bar(1, 4, 0, 2), bar(2, 5, 1, 3), bar(3, 3, 3, 3)];
    assert_eq!(validate(&data), Ok(()));
}

#[test]
fn validate_rejects_empty_series() {
    let data: Vec<OHLC> = vec![];
    assert_eq!(validate(&data), Err(ChartError::EmptySeries));
    assert_eq!(ChartError::EmptySeries.message(), "Data set is empty.");
}

#[test]
fn validate_reports_open_above_high() {
    let data = vec![bar(6, 5, 1, 3)];
    assert_eq!(validate(&data), Err(ChartError::OpenAboveHigh));
    assert_eq!(
        ChartError::OpenAboveHigh.message(),
        "Opening value is higher than high value."
    );
}

#[test]
fn validate_reports_close_above_high() {
    let data = vec![bar(4, 5, 1, 6)];
    assert_eq!(validate(&data), Err(ChartError::CloseAboveHigh));
    assert_eq!(
        ChartError::CloseAboveHigh.message(),
        "Closing value is higher than high value."
    );
}

#[test]
fn validate_reports_low_above_high() {
    let data = vec![bar(1, 2, 3, 1)];
    assert_eq!(validate(&data), Err(ChartError::LowAboveHigh));
    assert_eq!(
        ChartError::LowAboveHigh.message(),
        "Low value is higher than high value."
    );
}

#[test]
fn validate_reports_open_below_low() {
    let data = vec![bar(0, 5, 1, 2)];
    assert_eq!(validate(&data), Err(ChartError::OpenBelowLow));
    assert_eq!(
        ChartError::OpenBelowLow.message(),
        "Opening value is lower than low value."
    );
}

#[test]
fn validate_reports_close_below_low() {
    let data = vec![bar(2, 5, 1, 0)];
    assert_eq!(validate(&data), Err(ChartError::CloseBelowLow));
    assert_eq!(
        ChartError::CloseBelowLow.message(),
        "Closing value is lower than low value."
    );
}

#[test]
fn validate_checks_relations_in_priority_order() {
    // This bar breaks several relations at once; the first check in
    // the fixed order (open above high) wins.
    let data = vec![bar(6, 5, 7, 8)];
    assert_eq!(validate(&data), Err(ChartError::OpenAboveHigh));
    // Close above high beats low above high when open is in order.
    let data = vec![bar(1, 5, 6, 7)];
    assert_eq!(validate(&data), Err(ChartError::CloseAboveHigh));
}

#[test]
fn validate_stops_at_first_violating_bar() {
    let data = vec![bar(1, 4, 0, 2), bar(2, 5, 1, 0), bar(9, 5, 1, 3)];
    assert_eq!(validate(&data), Err(ChartError::CloseBelowLow));
}

#[test]
fn summarize_two_bars() {
    let data = vec![bar(1, 4, 0, 2), bar(2, 5, 1, 3)];
    let s = summarize(&data);
    assert_eq!(s.high, 5);
    assert_eq!(s.low, 0);
    assert_eq!(s.last_close, 3);
    assert_eq!(s.range, 5);
}

#[test]
fn summarize_single_bar() {
    let data = vec![bar(3, 7, 2, 5)];
    let s = summarize(&data);
    assert_eq!(s.high, 7);
    assert_eq!(s.low, 2);
    assert_eq!(s.last_close, 5);
    assert_eq!(s.range, 5);
}
