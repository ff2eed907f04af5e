use esp_pulser::batch::{
    accepted, typical_distance, BatchDetector, DistanceStore, DEFAULT_MIN_BEATS, DISTANCE_CAPACITY,
};
use esp_pulser::bpm::Band;
use esp_pulser::signal::{Heartbeat, HeartbeatItr};

fn beat(high: usize, low: usize) -> Heartbeat<f32> {
    Heartbeat { high_idx: high, high_value: 1.0, low_idx: low, low_value: -1.0 }
}

fn beats_at(lows: &[usize]) -> Vec<Heartbeat<f32>> {
    lows.iter().map(|&l| beat(l.saturating_sub(3), l)).collect()
}

#[test]
fn accepted_keeps_the_flagged_beats_in_order() {
    let beats = beats_at(&[10, 30, 50, 70]);
    let kept = accepted(&beats, &[true, false, true, true]);
    assert_eq!(kept, beats_at(&[10, 50, 70]));
}

#[test]
fn beat_without_a_flag_is_dropped() {
    let beats = beats_at(&[10, 30, 50]);
    assert_eq!(accepted(&beats, &[true]), beats_at(&[10]));
    assert_eq!(accepted(&beats, &[]), vec![]);
    assert_eq!(accepted(&beats, &[false, true, true, true, true]), beats_at(&[30, 50]));
}

#[test]
fn store_hands_out_the_largest_first() {
    let mut s = DistanceStore::new();
    assert!(s.is_empty());
    assert_eq!(s.peek_max(), None);
    assert_eq!(s.pop_max(), None);
    for d in [20, 22, 21, 40, 19] {
        assert!(s.push(d));
    }
    assert_eq!(s.len(), 5);
    assert_eq!(s.to_vec(), vec![19, 20, 21, 22, 40]);
    assert_eq!(s.peek_max(), Some(40));
    assert_eq!(s.pop_max(), Some(40));
    assert_eq!(s.pop_max(), Some(22));
    assert_eq!(s.peek_max(), Some(21));
    assert_eq!(s.to_vec(), vec![19, 20, 21]);
}

#[test]
fn store_keeps_equal_distances() {
    let mut s = DistanceStore::new();
    for d in [5, 5, 3, 5] {
        s.push(d);
    }
    assert_eq!(s.to_vec(), vec![3, 5, 5, 5]);
}

#[test]
fn store_takes_sixteen_and_no_more() {
    let mut s = DistanceStore::new();
    for d in 0..DISTANCE_CAPACITY {
        assert!(s.push(100 - d));
    }
    assert_eq!(s.len(), 16);
    assert!(!s.push(1));
    assert!(!s.push(1000));
    assert_eq!(s.len(), 16);
    assert_eq!(s.peek_max(), Some(100));
    assert_eq!(s.to_vec()[0], 85);
    // room again after a pop
    assert_eq!(s.pop_max(), Some(100));
    assert!(s.push(1));
    assert_eq!(s.to_vec()[0], 1);
}

#[test]
fn typical_sets_the_upper_half_aside() {
    let mut s = DistanceStore::new();
    assert_eq!(s.typical(), None);
    s.push(20);
    assert_eq!(s.typical(), Some(20));
    s.push(30);
    // of two, one is set aside
    assert_eq!(s.typical(), Some(20));
    s.push(10);
    assert_eq!(s.typical(), Some(20));
    s.push(40);
    assert_eq!(s.typical(), Some(20));
    s.push(50);
    // of five, two are set aside and the largest of the other three is taken
    assert_eq!(s.typical(), Some(30));
}

#[test]
fn typical_distance_is_measured_between_lows() {
    assert_eq!(typical_distance(&beats_at(&[])), None);
    assert_eq!(typical_distance(&beats_at(&[7])), None);
    assert_eq!(typical_distance(&beats_at(&[7, 27])), Some(20));
    // distances 20, 22, 21, 40, 19
    assert_eq!(typical_distance(&beats_at(&[5, 25, 47, 68, 108, 127])), Some(21));
    // the order of the beats does not matter for a single distance
    assert_eq!(typical_distance(&beats_at(&[27, 7])), Some(20));
}

#[test]
fn only_the_first_sixteen_distances_count() {
    // sixteen distances of 10, then ten distances of 50
    let mut lows = vec![0usize];
    for k in 1..=16 {
        lows.push(10 * k);
    }
    for k in 1..=10 {
        lows.push(160 + 50 * k);
    }
    assert_eq!(typical_distance(&beats_at(&lows)), Some(10));
}

#[test]
fn detector_for_a_sampling_rate() {
    let d = BatchDetector::new(25, Band::wide());
    assert_eq!(
        d,
        BatchDetector { samples_per_minute: 1500, band: Band::wide(), min_beats: DEFAULT_MIN_BEATS }
    );
    assert_eq!(DEFAULT_MIN_BEATS, 3);
    assert_eq!(BatchDetector::new(71_582_788, Band::narrow()).samples_per_minute, 4_294_967_280);
}

#[test]
fn rate_is_samples_per_minute_over_the_typical_distance() {
    let d = BatchDetector::new(25, Band::wide());
    // distances 21, 21, 20: typical 21, 1500 / 21 = 71
    assert_eq!(d.rate(&beats_at(&[16, 37, 58, 78]), true), Some(71));
    // distances 20, 20: typical 20, 1500 / 20 = 75
    assert_eq!(d.rate(&beats_at(&[16, 36, 56]), true), Some(75));
}

#[test]
fn rate_needs_enough_beats_and_a_signal() {
    let d = BatchDetector::new(25, Band::wide());
    assert_eq!(d.rate(&beats_at(&[16, 36]), true), None);
    assert_eq!(d.rate(&beats_at(&[16, 36, 56]), false), None);
    let lenient = BatchDetector { min_beats: 2, ..d };
    assert_eq!(lenient.rate(&beats_at(&[16, 36]), true), Some(75));
    let none_needed = BatchDetector { min_beats: 0, ..d };
    assert_eq!(none_needed.rate(&beats_at(&[]), true), None);
    assert_eq!(none_needed.rate(&beats_at(&[16]), true), None);
}

#[test]
fn rate_outside_the_band_is_not_reported() {
    let wide = BatchDetector::new(25, Band::wide());
    // 1500 / 6 = 250
    assert_eq!(wide.rate(&beats_at(&[10, 16, 22, 28]), true), None);
    // 1500 / 7 = 214
    assert_eq!(wide.rate(&beats_at(&[10, 17, 24, 31]), true), None);
    // 1500 / 8 = 187: in the wide band, not in the narrow one
    assert_eq!(wide.rate(&beats_at(&[10, 18, 26, 34]), true), Some(187));
    let narrow = BatchDetector::new(25, Band::narrow());
    assert_eq!(narrow.rate(&beats_at(&[10, 18, 26, 34]), true), None);
    // 1500 / 38 = 39
    assert_eq!(wide.rate(&beats_at(&[10, 48, 86, 124]), true), None);
    // 1500 / 37 = 40
    assert_eq!(wide.rate(&beats_at(&[10, 47, 84, 121]), true), Some(40));
}

#[test]
fn beats_on_one_spot_give_no_rate() {
    let d = BatchDetector::new(25, Band { low: 0, high: u32::MAX });
    assert_eq!(d.rate(&beats_at(&[10, 10, 10]), true), None);
}

fn rising_flags(data: &[f32]) -> Vec<bool> {
    data.windows(2).map(|w| w[1] - w[0] >= 0.0).collect()
}

fn strong_flags(data: &[f32], beats: &[Heartbeat<f32>]) -> Vec<bool> {
    let max = data.iter().cloned().fold(f32::MIN, f32::max);
    let min = data.iter().cloned().fold(f32::MAX, f32::min);
    let floor = (max - min) / 4.0;
    beats.iter().map(|b| b.high_value - b.low_value >= floor).collect()
}

#[test]
fn wiggles_below_a_quarter_of_the_range_give_no_beats_and_no_rate() {
    // one large swing sets the range; everything else wiggles by a tenth of it
    let mut data = [0.0f32; 100];
    for (i, v) in data.iter_mut().enumerate() {
        *v = match i % 4 {
            0 => 0.0,
            1 => 1.0,
            2 => 2.0,
            _ => 1.0,
        };
    }
    data[98] = 20.0;
    data[99] = 21.0;
    let rising = rising_flags(&data);
    let beats = HeartbeatItr::new(&data, &rising).collect();
    assert!(beats.len() > 10);
    let strong = strong_flags(&data, &beats);
    assert!(strong.iter().all(|s| !s));
    let kept = accepted(&beats, &strong);
    assert_eq!(kept, vec![]);
    assert_eq!(BatchDetector::new(25, Band::wide()).rate(&kept, true), None);
}

fn detrend(data: &[f32; 100]) -> [f32; 100] {
    let n = data.len() as f32;
    let (mut sx, mut sxx, mut sy, mut sxy) = (0.0f32, 0.0f32, 0.0f32, 0.0f32);
    for (i, y) in data.iter().enumerate() {
        let x = i as f32;
        sx += x;
        sxx += x * x;
        sy += y;
        sxy += x * y;
    }
    let den = n * sxx - sx * sx;
    let intercept = (sy * sxx - sx * sxy) / den;
    let slope = (n * sxy - sx * sy) / den;
    let mut out = [0.0f32; 100];
    for (i, y) in data.iter().enumerate() {
        out[i] = y - (intercept + slope * i as f32);
    }
    out
}

#[test]
fn clean_waveform_at_72_beats_per_minute() {
    let mut raw = [0.0f32; 100];
    for (i, v) in raw.iter_mut().enumerate() {
        let turns = 72.0 / 60.0 * (i as f64) / 25.0;
        let wave = 1000.0 * (2.0 * std::f64::consts::PI * turns).sin()
            + 300.0 * (4.0 * std::f64::consts::PI * turns + 0.8).sin();
        *v = (50_000.0 + 30.0 * (i as f64) + wave) as f32;
    }
    let data = detrend(&raw);
    let rising = rising_flags(&data);
    let beats = HeartbeatItr::new(&data, &rising).collect();
    let strong = strong_flags(&data, &beats);
    let kept = accepted(&beats, &strong);
    assert!(kept.len() >= 3);
    let rate = BatchDetector::new(25, Band::wide()).rate(&kept, true);
    let bpm = rate.expect("one confident rate");
    assert!((68..=76).contains(&bpm), "rate {}", bpm);
    assert_eq!(bpm, 71);
}

#[test]
fn heartbeats_20_to_22_samples_apart_give_one_rate_of_68_to_75() {
    let d = BatchDetector::new(25, Band::wide());
    for lows in [
        vec![3usize, 23, 43, 63, 83],
        vec![3, 25, 47, 69, 91],
        vec![3, 24, 45, 66, 87],
        vec![3, 23, 45, 66],
        vec![3, 25, 45, 67, 88],
        vec![10, 32, 52],
    ] {
        let bpm = d.rate(&beats_at(&lows), true).expect("a rate");
        assert!((68..=75).contains(&bpm), "rate {} for {:?}", bpm, lows);
        assert_eq!(d.rate(&beats_at(&lows), false), None);
    }
}
