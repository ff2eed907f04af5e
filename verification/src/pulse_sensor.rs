//! Edge-crossing beat detector for a filtered pulse signal.
//!
//! The detector sees two things of every sample: whether the raw value says
//! that a finger is on the sensor, and, once a finger has been there long
//! enough, the sign and steepness of the filtered signal's derivative. A beat
//! is the steep falling edge that follows a peak. The caller owns the clock
//! and the filters; times are nanoseconds since an origin of its choosing.

use crate::bpm::{beats_per_minute, spec_beats_per_minute, Band, MILLIS_PER_MINUTE};
use vstd::prelude::*;

verus! {

/// How long a finger must have been present before samples are tracked.
pub const FINGER_COOLDOWN_MS: u64 = 1000;

/// Two beats closer together than this do not yield a rate.
pub const MIN_BEAT_GAP_MS: u64 = 300;

/// Nanoseconds in one millisecond.
pub const NANOS_PER_MILLI: u64 = 1_000_000;

/// Whole milliseconds that pass from `from` to `to`; zero if `to` is not
/// later than `from`.
pub open spec fn spec_whole_millis(from: u64, to: u64) -> u64 {
    if to >= from {
        ((to - from) / (NANOS_PER_MILLI as int)) as u64
    } else {
        0
    }
}

/// Whole milliseconds that pass from `from` to `to`, both in nanoseconds.
pub fn whole_millis(from: u64, to: u64) -> (ms: u64)
    ensures
        ms == spec_whole_millis(from, to),
{
    if to >= from {
        (to - from) / NANOS_PER_MILLI
    } else {
        0
    }
}

/// The rate that a gap of `gap_ms` between two beats stands for, if it is a
/// plausible one: sixty thousand over the gap, rounded down, kept if it lies
/// in the band.
pub open spec fn spec_gap_rate(band: Band, gap_ms: u64) -> Option<u32> {
    match spec_beats_per_minute(MILLIS_PER_MINUTE, gap_ms) {
        Some(bpm) => band.spec_accept(bpm),
        None => None,
    }
}

/// The rate that a gap of `gap_ms` milliseconds between two beats stands
/// for, if it lies in the band.
pub fn gap_rate(band: Band, gap_ms: u64) -> (r: Option<u32>)
    ensures
        r == spec_gap_rate(band, gap_ms),
        r matches Some(bpm) ==> band.spec_contains(bpm as int),
{
    match beats_per_minute(MILLIS_PER_MINUTE, gap_ms) {
        Some(bpm) => band.accept(bpm),
        None => None,
    }
}

/// A gap yields a rate exactly if sixty thousand over the gap, rounded down,
/// lies in the band, and that is then the rate.
pub proof fn lemma_gap_rate_range(band: Band, gap_ms: u64)
    requires
        gap_ms > 0,
    ensures
        spec_gap_rate(band, gap_ms) is Some <==> band.spec_contains(60_000int / (gap_ms as int)),
        spec_gap_rate(band, gap_ms) matches Some(bpm) ==> band.spec_contains(bpm as int) && bpm
            == 60_000int / (gap_ms as int),
{
    let g = gap_ms as int;
    assert(0 <= 60_000int / g <= 60_000) by (nonlinear_arith)
        requires
            g > 0,
    ;
}

/// With the band from 40 to 200 a gap yields a rate exactly if it lasts from
/// 299 ms to 1500 ms.
pub proof fn lemma_wide_gap_rate_range(gap_ms: u64)
    ensures
        spec_gap_rate(Band { low: 40, high: 200 }, gap_ms) is Some <==> 299 <= gap_ms <= 1500,
{
    let g = gap_ms as int;
    if g > 0 {
        lemma_gap_rate_range(Band { low: 40, high: 200 }, gap_ms);
        assert(g >= 299 ==> 60_000int / g <= 200) by (nonlinear_arith)
            requires
                g > 0,
        ;
        assert(g < 299 ==> 60_000int / g > 200) by (nonlinear_arith)
            requires
                g > 0,
        ;
        assert(g <= 1500 ==> 60_000int / g >= 40) by (nonlinear_arith)
            requires
                g > 0,
        ;
        assert(g > 1500 ==> 60_000int / g < 40) by (nonlinear_arith)
            requires
                g > 0,
        ;
    }
}

/// Gaps that lie between two bounds stand for rates that lie between the
/// rates of the bounds: a gap of 938 ms to 1052 ms, for one, stands for 57 to
/// 63 beats per minute.
pub proof fn lemma_rate_of_gap_between(gap_ms: u64, shortest: u64, longest: u64)
    requires
        0 < shortest <= gap_ms <= longest,
    ensures
        60_000int / (longest as int) <= 60_000int / (gap_ms as int) <= 60_000int / (
        shortest as int),
        shortest == 938 && longest == 1052 ==> 57 <= 60_000int / (gap_ms as int) <= 63,
{
    let g = gap_ms as int;
    let a = shortest as int;
    let b = longest as int;
    vstd::arithmetic::div_mod::lemma_div_is_ordered_by_denominator(60_000, g, b);
    vstd::arithmetic::div_mod::lemma_div_is_ordered_by_denominator(60_000, a, g);
    assert(60_000int / 938 == 63 && 60_000int / 1052 == 57);
}

/// What the detector reads of one value of the derivative: whether it is
/// above zero, whether it is below zero, and whether it is below the edge
/// threshold.
#[derive(Clone, Copy, Debug, PartialEq, Eq, Structural)]
pub struct Slope {
    pub positive: bool,
    pub negative: bool,
    pub steep: bool,
}

/// What the caller does with the sample that it has just announced.
#[derive(Clone, Copy, Debug, PartialEq, Eq, Structural)]
pub enum Gate {
    /// No finger: the detector has cleared itself, the caller clears its
    /// filters and passes the raw sample on.
    Reset,
    /// A finger, but not for long enough: the raw sample passes on.
    Wait,
    /// A finger for long enough: the caller filters the sample and reports
    /// the derivative of the result.
    Track,
}

/// State of the edge-crossing detector.
#[derive(Clone, Copy, Debug, PartialEq, Eq, Structural)]
pub struct SampleData {
    /// When the last beat was registered.
    pub last_heartbeat: Option<u64>,
    /// When the detector was created or last cleared.
    pub fingerprint_timestamp: u64,
    /// Whether a finger has been present for long enough.
    pub finger_detected: bool,
    /// The derivative seen with the previous tracked sample.
    pub last_diff: Option<Slope>,
    /// Whether the derivative has gone from positive to negative and has not
    /// been positive since.
    pub crossed: bool,
    /// When it last went from positive to negative.
    pub crossed_time: Option<u64>,
    /// The rate computed at the last beat that yielded one.
    pub bpm: Option<u32>,
    /// The rates that the detector keeps.
    pub band: Band,
}

impl SampleData {
    /// The state of a detector created at `now` that keeps the rates of
    /// `band`: nothing seen, nothing held.
    pub open spec fn fresh(now: u64, band: Band) -> SampleData {
        SampleData {
            last_heartbeat: None,
            fingerprint_timestamp: now,
            finger_detected: false,
            last_diff: None,
            crossed: false,
            crossed_time: None,
            bpm: None,
            band,
        }
    }

    /// The state after clearing at `now`: that of a detector created then
    /// with the same band.
    pub open spec fn cleared(self, now: u64) -> SampleData {
        Self::fresh(now, self.band)
    }

    /// The rate held, if any, lies in the band.
    pub open spec fn rate_in_band(self) -> bool {
        self.bpm matches Some(b) ==> self.band.spec_contains(b as int)
    }

    /// The state after a sample has been announced at `now`.
    pub open spec fn spec_run(self, finger_present: bool, now: u64) -> SampleData {
        if !finger_present {
            self.cleared(now)
        } else if spec_whole_millis(self.fingerprint_timestamp, now) > FINGER_COOLDOWN_MS {
            SampleData { finger_detected: true, ..self }
        } else {
            self
        }
    }

    /// Whether derivative `d` completes a change from positive to negative.
    pub open spec fn crosses(self, d: Slope) -> bool {
        self.last_diff matches Some(l) && l.positive && d.negative
    }

    /// Whether, with derivative `d`, the signal is on the falling side of a
    /// peak: it has crossed, now or earlier, and `d` is not positive.
    pub open spec fn falling_from_peak(self, d: Slope) -> bool {
        (self.crossed || self.crosses(d)) && !d.positive
    }

    /// The time of the latest crossing once `d` has been seen at `now`.
    pub open spec fn crossing_time(self, d: Slope, now: u64) -> Option<u64> {
        if self.crosses(d) {
            Some(now)
        } else {
            self.crossed_time
        }
    }

    /// Whether derivative `d` registers a beat: a finger is tracked, there is
    /// an earlier derivative to compare with, the signal is falling from a
    /// peak, and `d` is steep.
    pub open spec fn beats(self, d: Slope) -> bool {
        self.finger_detected && self.last_diff is Some && self.falling_from_peak(d) && d.steep
    }

    /// The rate after a beat whose crossing was at `crossing`: a new one if
    /// the last beat is more than 300 ms before the crossing, nothing if that
    /// gap stands for a rate outside the band, the old one if there is no
    /// such gap.
    pub open spec fn rate_after_beat(self, crossing: Option<u64>) -> Option<u32> {
        match (self.last_heartbeat, crossing) {
            (Some(last), Some(at)) => if spec_whole_millis(last, at) > MIN_BEAT_GAP_MS {
                spec_gap_rate(self.band, spec_whole_millis(last, at))
            } else {
                self.bpm
            },
            _ => self.bpm,
        }
    }

    /// The state after the derivative of a tracked sample has been reported
    /// at `now`.
    pub open spec fn spec_track(self, diff: Option<Slope>, now: u64) -> SampleData {
        if !self.finger_detected {
            self
        } else {
            match diff {
                Some(d) => if self.last_diff is None {
                    SampleData { last_diff: diff, ..self }
                } else if self.beats(d) {
                    SampleData {
                        last_heartbeat: self.crossing_time(d, now),
                        last_diff: diff,
                        crossed: false,
                        crossed_time: self.crossing_time(d, now),
                        bpm: self.rate_after_beat(self.crossing_time(d, now)),
                        ..self
                    }
                } else {
                    SampleData {
                        last_diff: diff,
                        crossed: self.falling_from_peak(d),
                        crossed_time: self.crossing_time(d, now),
                        ..self
                    }
                },
                None => SampleData { last_diff: None, ..self },
            }
        }
    }

    /// A detector that starts at `now` with no finger seen and keeps the
    /// rates of `band`.
    pub fn new(now: u64, band: Band) -> (r: Self)
        ensures
            r == Self::fresh(now, band),
    {
        SampleData {
            last_heartbeat: None,
            fingerprint_timestamp: now,
            finger_detected: false,
            last_diff: None,
            crossed: false,
            crossed_time: None,
            bpm: None,
            band,
        }
    }

    /// Announces a sample: `finger_present` says whether its raw value is
    /// above the presence threshold. The result tells the caller what to do
    /// with the sample.
    pub fn run(&mut self, finger_present: bool, now: u64) -> (g: Gate)
        ensures
            *final(self) == old(self).spec_run(finger_present, now),
            g == if !finger_present {
                Gate::Reset
            } else if final(self).finger_detected {
                Gate::Track
            } else {
                Gate::Wait
            },
    {
        if finger_present {
            if whole_millis(self.fingerprint_timestamp, now) > FINGER_COOLDOWN_MS {
                self.finger_detected = true;
            }
            if self.finger_detected {
                Gate::Track
            } else {
                Gate::Wait
            }
        } else {
            self.reset_state(now);
            Gate::Reset
        }
    }

    /// Reports the derivative of the filtered signal at a tracked sample,
    /// `None` while the differentiator has no history. Returns whether this
    /// sample registers a beat.
    pub fn track(&mut self, diff: Option<Slope>, now: u64) -> (beat: bool)
        ensures
            *final(self) == old(self).spec_track(diff, now),
            beat == (diff matches Some(d) && old(self).beats(d)),
    {
        let mut beat = false;
        if self.finger_detected {
            match (diff, self.last_diff) {
                (Some(d), Some(last)) => {
                    if last.positive && d.negative {
                        self.crossed = true;
                        self.crossed_time = Some(now);
                    }
                    if d.positive {
                        self.crossed = false;
                    }
                    if self.crossed && d.steep {
                        match (self.last_heartbeat, self.crossed_time) {
                            (Some(last_beat), Some(at)) => {
                                let gap = whole_millis(last_beat, at);
                                if gap > MIN_BEAT_GAP_MS {
                                    self.bpm = gap_rate(self.band, gap);
                                }
                            },
                            _ => {},
                        }
                        self.crossed = false;
                        self.last_heartbeat = self.crossed_time;
                        beat = true;
                    }
                },
                _ => {},
            }
            self.last_diff = diff;
        }
        beat
    }

    /// Clears the detector at `now`: it is again as it was made, with
    /// nothing seen and no rate held.
    pub fn reset_state(&mut self, now: u64)
        ensures
            *final(self) == Self::fresh(now, old(self).band),
            *final(self) == old(self).cleared(now),
    {
        self.last_heartbeat = None;
        self.fingerprint_timestamp = now;
        self.finger_detected = false;
        self.last_diff = None;
        self.crossed = false;
        self.crossed_time = None;
        self.bpm = None;
    }

    /// The detector never holds a rate outside its band: if the rate held
    /// lies in the band, so does the rate held after a sample has been
    /// announced and after a derivative has been reported, and the band is
    /// the same. A rate is replaced only by a computed rate inside the band
    /// or by none.
    pub proof fn lemma_rate_stays_in_band(
        self,
        finger_present: bool,
        diff: Option<Slope>,
        now: u64,
    )
        requires
            self.rate_in_band(),
        ensures
            self.spec_run(finger_present, now).rate_in_band(),
            self.spec_run(finger_present, now).band == self.band,
            self.spec_track(diff, now).rate_in_band(),
            self.spec_track(diff, now).band == self.band,
            self.spec_track(diff, now).bpm == self.bpm || self.spec_track(diff, now).bpm is None
                || (self.spec_track(diff, now).bpm matches Some(b) && self.band.spec_contains(
                b as int,
            )),
    {
    }

    /// A rate outside the band is not kept: a beat whose gap to the last one
    /// is more than 300 ms and stands for a rate outside the band leaves the
    /// detector without a rate.
    pub proof fn lemma_rate_outside_band_is_dropped(self, d: Slope, now: u64)
        requires
            self.beats(d),
            self.last_heartbeat matches Some(last) && self.crossing_time(d, now) matches Some(at)
                && spec_whole_millis(last, at) > MIN_BEAT_GAP_MS && !self.band.spec_contains(
                60_000int / (spec_whole_millis(last, at) as int),
            ),
        ensures
            self.spec_track(Some(d), now).bpm is None,
    {
        lemma_gap_rate_range(
            self.band,
            spec_whole_millis(self.last_heartbeat.unwrap(), self.crossing_time(d, now).unwrap()),
        );
    }

    /// Whatever came before, a beat whose crossing lies between `shortest`
    /// and `longest` milliseconds after the last beat leaves a rate between
    /// those that the two bounds stand for, if the band holds these rates.
    /// Beats a second apart, give or take a twentieth, are read as 57 to 63
    /// beats per minute.
    pub proof fn lemma_steady_beats_give_steady_rate(
        self,
        d: Slope,
        now: u64,
        shortest: u64,
        longest: u64,
    )
        requires
            self.beats(d),
            MIN_BEAT_GAP_MS < shortest <= longest,
            self.last_heartbeat matches Some(last) && self.crossing_time(d, now) matches Some(at)
                && shortest <= spec_whole_millis(last, at) <= longest,
            self.band.low <= 60_000int / (longest as int),
            60_000int / (shortest as int) <= self.band.high,
        ensures
            self.spec_track(Some(d), now).bpm matches Some(b) && 60_000int / (longest as int) <= b
                <= 60_000int / (shortest as int),
            shortest == 938 && longest == 1052 ==> (self.spec_track(Some(d), now).bpm matches Some(
                b,
            ) && 57 <= b <= 63),
    {
        let gap = spec_whole_millis(
            self.last_heartbeat.unwrap(),
            self.crossing_time(d, now).unwrap(),
        );
        lemma_rate_of_gap_between(gap, shortest, longest);
        lemma_gap_rate_range(self.band, gap);
    }

    /// A beat is registered only on a steep derivative that is not positive,
    /// and never on two reports in a row without a new crossing in between.
    pub proof fn lemma_beat_needs_crossing(self, d: Slope, now: u64, d2: Slope, now2: u64)
        requires
            self.beats(d),
        ensures
            d.steep && !d.positive,
            !self.spec_track(Some(d), now).crossed,
            self.spec_track(Some(d), now).beats(d2) ==> d.positive && d2.negative,
    {
    }
}

} // verus!
