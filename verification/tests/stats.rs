use ohlc::OHLC;
use ohlc::stats::avg;
use ohlc::stats::div_floor_exec;
use ohlc::stats::isqrt;
use ohlc::stats::median;
use ohlc::stats::median_list;
use ohlc::stats::std_dev;

#[test]
fn sample_stddev_of_one_to_five() {
    // Prices carry four decimal places as fixed-point units, so the
    // series 1, 2, 3, 4, 5 is stored scaled by 10000 and its sample
    // standard deviation 1.5811... comes back as 15811 units.
    let prices = vec![10000, 20000, 30000, 40000, 50000];
    assert_eq!(std_dev(&prices), 15811);
}

#[test]
fn sample_stddev_of_empty_is_zero() {
    let prices: Vec<i64> = vec![];
    assert_eq!(std_dev(&prices), 0);
}

#[test]
fn sample_stddev_of_singleton_is_zero() {
    let prices = vec![7];
    assert_eq!(std_dev(&prices), 0);
}

#[test]
fn sample_stddev_of_constant_series_is_zero() {
    let prices = vec![42, 42, 42, 42];
    assert_eq!(std_dev(&prices), 0);
}

#[test]
fn avg_truncates_toward_negative_infinity() {
    assert_eq!(avg(&vec![1, 2, 3, 4]), 2);
    assert_eq!(avg(&vec![-3, -4]), -4);
    assert_eq!(avg(&vec![10, 20, 30]), 20);
}

#[test]
fn div_floor_matches_floor_semantics() {
    assert_eq!(div_floor_exec(7, 2), 3);
    assert_eq!(div_floor_exec(-7, 2), -4);
    assert_eq!(div_floor_exec(-8, 2), -4);
    assert_eq!(div_floor_exec(0, 5), 0);
}

#[test]
fn isqrt_brackets_squares() {
    assert_eq!(isqrt(0), 0);
    assert_eq!(isqrt(1), 1);
    assert_eq!(isqrt(15), 3);
    assert_eq!(isqrt(16), 4);
    assert_eq!(isqrt(17), 4);
    assert_eq!(isqrt(1_000_000), 1000);
}

#[test]
fn median_is_mean_of_the_four_fields() {
    let b = OHLC { o: 1, h: 4, l: 0, c: 2 };
    assert_eq!(median(&b), 1); // floor(7 / 4)
    let b = OHLC { o: 2, h: 5, l: 1, c: 3 };
    assert_eq!(median(&b), 2); // floor(11 / 4)
}

#[test]
fn median_list_maps_every_bar() {
    let data = vec![
        OHLC { o: 1, h: 4, l: 0, c: 2 },
        OHLC { o: 2, h: 5, l: 1, c: 3 },
    ];
    assert_eq!(median_list(&data), vec![1, 2]);
}
