use esp_pulser::adaptive::{AdaptiveDetector, BeatEvent};
use esp_pulser::bpm::{Band, BpmEstimator};

#[test]
fn new_detector_sits_at_its_seeds() {
    let d = AdaptiveDetector::new(512, 600);
    assert_eq!(d.threshold(), 512);
    assert_eq!(d.ibi(), 600);
    assert_eq!(d.bpm(), None);
    assert_eq!(d.amplitude(), 0);
    assert!(!d.in_pulse());
}

#[test]
fn first_two_beats_fill_all_ten_intervals() {
    let mut d = AdaptiveDetector::new(512, 600);
    assert_eq!(d.process_signal(100, 0), None);
    // 400 ms: past the refractory time and past three fifths of 600 ms
    assert_eq!(d.process_signal(900, 400), Some(BeatEvent { time: 400, bpm: Some(150) }));
    assert!(d.in_pulse());
    assert_eq!(d.ibi(), 400);
    // falling through the threshold ends the pulse and re-centres it
    assert_eq!(d.process_signal(100, 500), None);
    assert!(!d.in_pulse());
    assert_eq!(d.amplitude(), 388);
    assert_eq!(d.threshold(), 706);
    // the second beat replaces all ten intervals, so the rate is 60000 / 1000
    assert_eq!(d.process_signal(900, 1400), Some(BeatEvent { time: 1400, bpm: Some(60) }));
    assert_eq!(d.ibi(), 1000);
    assert_eq!(d.bpm(), Some(60));
}

#[test]
fn later_beats_average_the_last_ten_intervals() {
    let mut d = AdaptiveDetector::new(512, 600);
    let steps: [(u64, u32); 10] = [
        (0, 100),
        (400, 900),
        (500, 100),
        (1400, 900),
        (1500, 100),
        (2200, 100),
        (2400, 900),
        (2500, 100),
        (3300, 50),
        (3350, 950),
    ];
    let mut events = Vec::new();
    for (t, s) in steps {
        if let Some(e) = d.process_signal(s, t) {
            events.push(e);
        }
    }
    assert_eq!(
        events,
        vec![
            BeatEvent { time: 400, bpm: Some(150) },
            BeatEvent { time: 1400, bpm: Some(60) },
            BeatEvent { time: 2400, bpm: Some(60) },
            // nine intervals of 1000 ms and one of 950 ms: mean 995, rate 60
            BeatEvent { time: 3350, bpm: Some(60) },
        ]
    );
    assert_eq!(d.ibi(), 950);
    assert_eq!(d.threshold(), 500);
    assert_eq!(d.process_signal(40, 3400), None);
    assert_eq!(d.amplitude(), 900);
    assert_eq!(d.threshold(), 500);
}

#[test]
fn no_beat_inside_the_refractory_time() {
    let mut d = AdaptiveDetector::new(512, 100);
    assert_eq!(d.process_signal(900, 250), None);
    assert_eq!(d.process_signal(900, 251), Some(BeatEvent { time: 251, bpm: Some(239) }));
}

#[test]
fn no_beat_before_three_fifths_of_the_last_interval() {
    let mut d = AdaptiveDetector::new(512, 1000);
    assert_eq!(d.process_signal(900, 600), None);
    assert_eq!(d.process_signal(900, 601), Some(BeatEvent { time: 601, bpm: Some(99) }));
}

#[test]
fn no_second_beat_while_the_pulse_lasts() {
    let mut d = AdaptiveDetector::new(512, 600);
    assert!(d.process_signal(900, 400).is_some());
    assert_eq!(d.process_signal(950, 700), None);
    assert_eq!(d.process_signal(990, 1000), None);
    assert!(d.in_pulse());
}

#[test]
fn silence_of_more_than_two_and_a_half_seconds_starts_over() {
    let mut d = AdaptiveDetector::new(512, 600);
    for (t, s) in [(0u64, 100u32), (400, 900), (500, 100), (1400, 900), (1500, 100)] {
        d.process_signal(s, t);
    }
    assert_eq!(d.bpm(), Some(60));
    assert_eq!(d.threshold(), 803);
    // 2500 ms after the last beat is not yet a timeout
    assert_eq!(d.process_signal(100, 3900), None);
    assert_eq!(d.bpm(), Some(60));
    assert_eq!(d.process_signal(100, 3901), None);
    assert_eq!(d.bpm(), None);
    assert_eq!(d.threshold(), 512);
    assert_eq!(d.ibi(), 600);
    // the beat that breaks the silence is reported without a rate
    assert_eq!(d.process_signal(600, 6000), Some(BeatEvent { time: 6000, bpm: None }));
    assert_eq!(d.process_signal(100, 6020), None);
    // and the next one fills the intervals anew
    assert_eq!(d.process_signal(900, 6400), Some(BeatEvent { time: 6400, bpm: Some(150) }));
}

#[test]
fn time_that_runs_backwards_counts_as_no_time() {
    let mut d = AdaptiveDetector::new(512, 600);
    assert!(d.process_signal(900, 1000).is_some());
    assert_eq!(d.process_signal(100, 900), None);
    assert_eq!(d.process_signal(900, 900), None);
}

fn sine_sample(t_ms: u64) -> u32 {
    let phase = 2.0 * std::f64::consts::PI * (t_ms as f64) / 1000.0;
    (512.0 - 511.0 * phase.cos()).round() as u32
}

#[test]
fn sine_at_sixty_beats_per_minute_is_read_as_sixty() {
    let mut d = AdaptiveDetector::new(512, 600);
    let mut events = Vec::new();
    let mut t = 0u64;
    while t < 8000 {
        if let Some(e) = d.process_signal(sine_sample(t), t) {
            events.push(e);
        }
        t += 10;
    }
    assert!(events.len() >= 7);
    for e in &events[2..] {
        let bpm = e.bpm.unwrap();
        assert!((57..=63).contains(&bpm), "rate {} at {}", bpm, e.time);
    }
    // beats settle one period apart
    let n = events.len();
    assert_eq!(events[n - 1].time - events[n - 2].time, 1000);
}

#[test]
fn estimator_follows_the_streamed_rate() {
    let mut d = AdaptiveDetector::new(512, 600);
    let mut est = BpmEstimator::new(Band::wide());
    let mut e = d.process_signal(900, 400).unwrap();
    assert_eq!(est.observe(e.bpm), Some(150));
    d.process_signal(100, 500);
    e = d.process_signal(900, 760).unwrap();
    // 60000 / 360 = 166
    assert_eq!(e.bpm, Some(166));
    assert_eq!(est.observe(e.bpm), Some(166));
    d.process_signal(100, 800);
    e = d.process_signal(900, 1020).unwrap();
    // nine intervals of 360 ms and one of 260 ms: mean 350, rate 171
    assert_eq!(e.bpm, Some(171));
    assert_eq!(est.observe(e.bpm), Some(171));
}
