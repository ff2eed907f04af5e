use esp_pulser::bpm::{
    beats_per_minute, Band, BpmEstimator, MILLIS_PER_MINUTE, NARROW_HIGH, NARROW_LOW, WIDE_HIGH,
    WIDE_LOW,
};

#[test]
fn rate_is_the_rounded_down_quotient() {
    assert_eq!(beats_per_minute(MILLIS_PER_MINUTE, 1000), Some(60));
    assert_eq!(beats_per_minute(MILLIS_PER_MINUTE, 833), Some(72));
    assert_eq!(beats_per_minute(MILLIS_PER_MINUTE, 60_001), Some(0));
    assert_eq!(beats_per_minute(1500, 21), Some(71));
    assert_eq!(beats_per_minute(u32::MAX, 1), Some(u32::MAX));
}

#[test]
fn no_rate_for_an_interval_of_zero() {
    assert_eq!(beats_per_minute(MILLIS_PER_MINUTE, 0), None);
    assert_eq!(beats_per_minute(0, 0), None);
}

#[test]
fn the_two_bands() {
    assert_eq!(Band::wide(), Band { low: 40, high: 200 });
    assert_eq!(Band::narrow(), Band { low: 60, high: 180 });
    assert_eq!((WIDE_LOW, WIDE_HIGH, NARROW_LOW, NARROW_HIGH), (40, 200, 60, 180));
}

#[test]
fn band_includes_both_ends() {
    let b = Band::wide();
    assert!(!b.contains(39));
    assert!(b.contains(40));
    assert!(b.contains(200));
    assert!(!b.contains(201));
    let n = Band::narrow();
    assert!(!n.contains(59));
    assert!(n.contains(60));
    assert!(n.contains(180));
    assert!(!n.contains(181));
}

#[test]
fn rate_of_250_is_not_reported() {
    assert_eq!(Band::wide().accept(250), None);
    assert_eq!(Band::narrow().accept(250), None);
    assert_eq!(Band::wide().accept(72), Some(72));
    assert_eq!(Band::narrow().accept(50), None);
    assert_eq!(Band::wide().accept(50), Some(50));
}

#[test]
fn empty_band_reports_nothing() {
    let b = Band { low: 100, high: 90 };
    assert_eq!(b.accept(95), None);
    assert_eq!(b.accept(100), None);
    assert_eq!(b.accept(90), None);
}

#[test]
fn estimator_starts_without_a_rate() {
    let e = BpmEstimator::new(Band::wide());
    assert_eq!(e.current(), None);
}

#[test]
fn estimator_keeps_the_last_rate_in_the_band() {
    let mut e = BpmEstimator::new(Band::wide());
    assert_eq!(e.observe(Some(72)), Some(72));
    // a missed window keeps the rate
    assert_eq!(e.observe(None), Some(72));
    // so does a rate outside the band
    assert_eq!(e.observe(Some(250)), Some(72));
    assert_eq!(e.observe(Some(39)), Some(72));
    assert_eq!(e.current(), Some(72));
    assert_eq!(e.observe(Some(200)), Some(200));
    assert_eq!(e.observe(Some(40)), Some(40));
}

#[test]
fn estimator_without_a_rate_does_not_take_one_outside_the_band() {
    let mut e = BpmEstimator::new(Band::narrow());
    assert_eq!(e.observe(Some(250)), None);
    assert_eq!(e.observe(Some(59)), None);
    assert_eq!(e.current(), None);
}

#[test]
fn estimator_forgets_on_clear() {
    let mut e = BpmEstimator::new(Band::wide());
    e.observe(Some(80));
    e.clear();
    assert_eq!(e.current(), None);
    assert_eq!(e.observe(None), None);
    assert_eq!(e.observe(Some(81)), Some(81));
}
