//! Adaptive-threshold beat detector for a stream of raw samples.
//!
//! The detector follows the signal's peak and trough, keeps its threshold
//! halfway between them, and declares a beat when the signal rises through
//! the threshold, with hysteresis: no second beat while the pulse lasts, none
//! within 250 ms of the last one, none before three fifths of the last
//! interval have passed. The rate comes from the mean of the last ten
//! intervals. Samples are raw sensor counts, times are milliseconds.

use crate::bpm::{beats_per_minute, spec_beats_per_minute, MILLIS_PER_MINUTE};
use crate::circ::Circ;
use vstd::prelude::*;

verus! {

/// No beat is declared within this many milliseconds of the last one.
pub const REFRACTORY_MS: u64 = 250;

/// After this many milliseconds without a beat the detector starts over.
pub const TIMEOUT_MS: u64 = 2500;

/// How many intervals the rate is taken from.
pub const IBI_DEPTH: usize = 10;

/// Sum of a run of intervals.
pub open spec fn total(s: Seq<u64>) -> int
    decreases s.len(),
{
    if s.len() == 0 {
        0
    } else {
        s[0] + total(s.drop_first())
    }
}

/// Mean of a run of intervals, rounded down; zero for an empty run.
pub open spec fn mean(s: Seq<u64>) -> int {
    if s.len() == 0 {
        0
    } else {
        total(s) / (s.len() as int)
    }
}

/// The rate that goes with a run of intervals: the number of milliseconds in
/// a minute over their mean, rounded down. There is none if the mean is zero.
pub open spec fn spec_rate(s: Seq<u64>) -> Option<u32> {
    spec_beats_per_minute(MILLIS_PER_MINUTE, mean(s) as u64)
}

/// The sum of intervals that are all longer than `low` is more than `low`
/// times their number, and no more than the largest interval there can be
/// times their number.
pub proof fn lemma_total_bounds(s: Seq<u64>, low: int)
    requires
        forall|i: int| 0 <= i < s.len() ==> s[i] > low,
    ensures
        total(s) >= (low + 1) * s.len(),
        total(s) <= u64::MAX * s.len(),
        s.len() == 0 ==> total(s) == 0,
    decreases s.len(),
{
    if s.len() > 0 {
        lemma_total_bounds(s.drop_first(), low);
        assert((low + 1) * s.len() == (low + 1) * (s.len() - 1) + (low + 1)) by (nonlinear_arith);
        assert(u64::MAX * s.len() == u64::MAX * (s.len() - 1) + u64::MAX) by (nonlinear_arith);
    }
}

/// The sum of intervals that all lie between two bounds lies between the
/// bounds times their number.
pub proof fn lemma_total_between(s: Seq<u64>, shortest: u64, longest: u64)
    requires
        forall|i: int| 0 <= i < s.len() ==> shortest <= #[trigger] s[i] <= longest,
    ensures
        shortest * s.len() <= total(s) <= longest * s.len(),
    decreases s.len(),
{
    if s.len() > 0 {
        let rest = s.drop_first();
        assert forall|i: int| 0 <= i < rest.len() implies shortest <= #[trigger] rest[i]
            <= longest by {
            assert(rest[i] == s[i + 1]);
        }
        lemma_total_between(rest, shortest, longest);
        assert(shortest <= s[0] <= longest);
        assert(shortest * s.len() == shortest * (s.len() - 1) + shortest) by (nonlinear_arith);
        assert(longest * s.len() == longest * (s.len() - 1) + longest) by (nonlinear_arith);
    } else {
        assert(shortest * s.len() == 0 && longest * s.len() == 0) by (nonlinear_arith)
            requires
                s.len() == 0,
        ;
    }
}

/// Intervals that all lie between two bounds have a mean between the bounds
/// and stand for a rate between the rates of the bounds: intervals of 938 ms
/// to 1052 ms, for one, stand for 57 to 63 beats per minute.
pub proof fn lemma_rate_between(s: Seq<u64>, shortest: u64, longest: u64)
    requires
        s.len() > 0,
        0 < shortest <= longest,
        forall|i: int| 0 <= i < s.len() ==> shortest <= #[trigger] s[i] <= longest,
    ensures
        shortest <= mean(s) <= longest,
        spec_rate(s) == Some((60_000int / mean(s)) as u32),
        spec_rate(s) matches Some(b) && 60_000int / (longest as int) <= b <= 60_000int / (
        shortest as int),
        shortest == 938 && longest == 1052 ==> (spec_rate(s) matches Some(b) && 57 <= b <= 63),
{
    lemma_total_between(s, shortest, longest);
    let n = s.len() as int;
    let sum = total(s);
    let m = sum / n;
    assert(shortest <= m <= longest) by (nonlinear_arith)
        requires
            n > 0,
            m == sum / n,
            shortest * n <= sum <= longest * n,
    ;
    vstd::arithmetic::div_mod::lemma_div_is_ordered_by_denominator(60_000, m, longest as int);
    vstd::arithmetic::div_mod::lemma_div_is_ordered_by_denominator(60_000, shortest as int, m);
    assert(0 <= 60_000int / m <= 60_000) by (nonlinear_arith)
        requires
            m > 0,
    ;
    assert(60_000int / 938 == 63 && 60_000int / 1052 == 57);
}

/// A beat that the detector has declared.
#[derive(Clone, Copy, Debug, PartialEq, Eq, Structural)]
pub struct BeatEvent {
    /// When the beat started.
    pub time: u64,
    /// The rate held once the sample was dealt with.
    pub bpm: Option<u32>,
}

/// What the detector knows at one moment.
pub struct AdaptiveModel {
    /// The level at which peak, trough and threshold start.
    pub seed_level: u32,
    /// The interval that is assumed before any beat.
    pub seed_ibi: u64,
    /// Highest sample above the threshold in this cycle.
    pub peak: u32,
    /// Lowest sample below the threshold in this cycle.
    pub trough: u32,
    /// The level that a sample must pass to start or end a pulse.
    pub thresh: u32,
    /// Swing from trough to peak in the last cycle.
    pub amp: u32,
    /// Whether a pulse is under way.
    pub pulse: bool,
    /// When the last beat started.
    pub last_beat_time: u64,
    /// The interval between the last two beats.
    pub ibi: u64,
    /// The last ten intervals, oldest first.
    pub intervals: Seq<u64>,
    /// How many beats have come since the detector last started over, up to
    /// two.
    pub beats_seen: nat,
    /// The rate computed at the last beat.
    pub bpm: Option<u32>,
}

impl AdaptiveModel {
    /// The detector as it starts: everything at its seed.
    pub open spec fn seeded(seed_level: u32, seed_ibi: u64) -> AdaptiveModel {
        AdaptiveModel {
            seed_level,
            seed_ibi,
            peak: seed_level,
            trough: seed_level,
            thresh: seed_level,
            amp: 0,
            pulse: false,
            last_beat_time: 0,
            ibi: seed_ibi,
            intervals: Seq::new(IBI_DEPTH as nat, |i: int| seed_ibi),
            beats_seen: 0,
            bpm: None,
        }
    }

    /// The threshold lies between trough and peak, there are ten intervals,
    /// and once a beat has come each of them is longer than the refractory
    /// time.
    pub open spec fn wf(self) -> bool {
        &&& self.trough <= self.thresh <= self.peak
        &&& self.intervals.len() == IBI_DEPTH
        &&& self.beats_seen <= 2
        &&& self.beats_seen >= 1 ==> forall|i: int|
            0 <= i < self.intervals.len() ==> self.intervals[i] > REFRACTORY_MS
    }

    /// Milliseconds from the last beat to `t`.
    pub open spec fn since_beat(self, t: u64) -> u64 {
        if t >= self.last_beat_time {
            (t - self.last_beat_time) as u64
        } else {
            0
        }
    }

    /// Whether more than three fifths of the last interval have passed.
    pub open spec fn past_notch(self, n: u64) -> bool {
        5 * n > 3 * self.ibi
    }

    /// The trough follows a sample below the threshold, once past the notch.
    pub open spec fn track_trough(self, s: u32, n: u64) -> AdaptiveModel {
        if s < self.thresh && self.past_notch(n) && s < self.trough {
            AdaptiveModel { trough: s, ..self }
        } else {
            self
        }
    }

    /// The peak follows a sample above the threshold.
    pub open spec fn track_peak(self, s: u32) -> AdaptiveModel {
        if s > self.thresh && s > self.peak {
            AdaptiveModel { peak: s, ..self }
        } else {
            self
        }
    }

    /// Whether sample `s`, `n` milliseconds after the last beat, starts a
    /// beat.
    pub open spec fn beat_starts(self, s: u32, n: u64) -> bool {
        n > REFRACTORY_MS && s > self.thresh && !self.pulse && self.past_notch(n)
    }

    /// The intervals once a beat has come `n` milliseconds after the last:
    /// the first two beats fill all ten places with `n`, later ones push the
    /// oldest interval out.
    pub open spec fn intervals_after(self, n: u64) -> Seq<u64> {
        if self.beats_seen < 2 {
            Seq::new(IBI_DEPTH as nat, |i: int| n)
        } else {
            self.intervals.drop_first().push(n)
        }
    }

    /// The detector after a beat has started at `t`, `n` milliseconds after
    /// the last.
    pub open spec fn begin_beat(self, n: u64, t: u64) -> AdaptiveModel {
        AdaptiveModel {
            pulse: true,
            ibi: n,
            last_beat_time: t,
            intervals: self.intervals_after(n),
            beats_seen: if self.beats_seen < 2 {
                self.beats_seen + 1
            } else {
                2
            },
            bpm: spec_rate(self.intervals_after(n)),
            ..self
        }
    }

    /// Whether sample `s` ends the pulse.
    pub open spec fn pulse_ends(self, s: u32) -> bool {
        s < self.thresh && self.pulse
    }

    /// The detector after the pulse has ended: the swing is noted, and
    /// threshold, peak and trough all move halfway between peak and trough.
    pub open spec fn end_pulse(self) -> AdaptiveModel {
        AdaptiveModel {
            pulse: false,
            amp: (self.peak - self.trough) as u32,
            thresh: ((self.peak + self.trough) / 2) as u32,
            peak: ((self.peak + self.trough) / 2) as u32,
            trough: ((self.peak + self.trough) / 2) as u32,
            ..self
        }
    }

    /// The detector after it has started over: threshold, peak, trough,
    /// interval and rate are back at their seeds, and the next two beats fill
    /// the intervals anew.
    pub open spec fn reseed(self) -> AdaptiveModel {
        AdaptiveModel {
            thresh: self.seed_level,
            peak: self.seed_level,
            trough: self.seed_level,
            ibi: self.seed_ibi,
            bpm: None,
            beats_seen: 0,
            ..self
        }
    }

    /// The detector after sample `s` has come at time `t`.
    pub open spec fn step(self, s: u32, t: u64) -> AdaptiveModel {
        let n = self.since_beat(t);
        let followed = self.track_trough(s, n).track_peak(s);
        let started = if followed.beat_starts(s, n) {
            followed.begin_beat(n, t)
        } else {
            followed
        };
        let ended = if started.pulse_ends(s) {
            started.end_pulse()
        } else {
            started
        };
        if n > TIMEOUT_MS {
            ended.reseed()
        } else {
            ended
        }
    }

    /// The beat that sample `s` at time `t` gives rise to, if any.
    pub open spec fn event(self, s: u32, t: u64) -> Option<BeatEvent> {
        if self.beat_starts(s, self.since_beat(t)) {
            Some(BeatEvent { time: t, bpm: self.step(s, t).bpm })
        } else {
            None
        }
    }

    /// The detector after a run of samples, each with its time, has come.
    pub open spec fn run(self, samples: Seq<(u32, u64)>) -> AdaptiveModel
        decreases samples.len(),
    {
        if samples.len() == 0 {
            self
        } else {
            self.run(samples.drop_last()).step(samples.last().0, samples.last().1)
        }
    }

    /// How many beats a run of samples gives rise to.
    pub open spec fn beats_in(self, samples: Seq<(u32, u64)>) -> nat
        decreases samples.len(),
    {
        if samples.len() == 0 {
            0
        } else if self.run(samples.drop_last()).event(samples.last().0, samples.last().1)
            is Some {
            self.beats_in(samples.drop_last()) + 1
        } else {
            self.beats_in(samples.drop_last())
        }
    }

    /// Sample `k` of a run comes no later than the timeout after the last
    /// beat before it.
    pub open spec fn in_time_at(self, samples: Seq<(u32, u64)>, k: int) -> bool {
        self.run(samples.take(k)).since_beat(samples[k].1) <= TIMEOUT_MS
    }

    /// If sample `k` of a run starts a beat that is not the first since the
    /// detector started over, the beat comes between `shortest` and
    /// `longest` milliseconds after the beat before it.
    pub open spec fn spaced_at(
        self,
        samples: Seq<(u32, u64)>,
        k: int,
        shortest: u64,
        longest: u64,
    ) -> bool {
        self.run(samples.take(k)).event(samples[k].0, samples[k].1) is Some && self.run(
            samples.take(k),
        ).beats_seen >= 1 ==> shortest <= self.run(samples.take(k)).since_beat(samples[k].1)
            <= longest
    }

    /// No sample of the run comes later than the timeout after the last beat
    /// before it.
    pub open spec fn in_time(self, samples: Seq<(u32, u64)>) -> bool {
        forall|k: int| 0 <= k < samples.len() ==> #[trigger] self.in_time_at(samples, k)
    }

    /// The beats of the run, but for the first since the detector started
    /// over, each come between `shortest` and `longest` milliseconds after
    /// the beat before.
    pub open spec fn evenly_spaced(
        self,
        samples: Seq<(u32, u64)>,
        shortest: u64,
        longest: u64,
    ) -> bool {
        forall|k: int|
            0 <= k < samples.len() ==> #[trigger] self.spaced_at(samples, k, shortest, longest)
    }

    /// Once two beats have come since the detector started over, its ten
    /// intervals all lie between `shortest` and `longest`, and its rate is
    /// the one that they stand for.
    pub open spec fn steady(self, shortest: u64, longest: u64) -> bool {
        self.beats_seen == 2 ==> {
            &&& forall|i: int|
                0 <= i < self.intervals.len() ==> shortest <= #[trigger] self.intervals[i]
                    <= longest
            &&& self.bpm == spec_rate(self.intervals)
        }
    }

    /// One sample keeps a steady detector steady, if the beat that it may
    /// start is spaced like the others.
    pub proof fn lemma_steady_step(self, s: u32, t: u64, shortest: u64, longest: u64)
        requires
            self.wf(),
            self.steady(shortest, longest),
            REFRACTORY_MS < shortest <= longest <= TIMEOUT_MS,
            self.event(s, t) is Some && self.beats_seen >= 1 ==> shortest <= self.since_beat(t)
                <= longest,
        ensures
            self.step(s, t).wf(),
            self.step(s, t).steady(shortest, longest),
    {
        self.lemma_step_keeps_wf(s, t);
        let n = self.since_beat(t);
        let followed = self.track_trough(s, n).track_peak(s);
        if followed.beat_starts(s, n) {
            let started = followed.begin_beat(n, t);
            if self.beats_seen >= 1 {
                assert forall|i: int| 0 <= i < started.intervals.len() implies shortest
                    <= #[trigger] started.intervals[i] <= longest by {
                    if self.beats_seen == 2 && i < started.intervals.len() - 1 {
                        assert(started.intervals[i] == self.intervals[i + 1]);
                    }
                }
            }
        }
    }

    /// A run of samples keeps a steady detector steady, if the beats in it
    /// are evenly spaced.
    pub proof fn lemma_steady_run(self, samples: Seq<(u32, u64)>, shortest: u64, longest: u64)
        requires
            self.wf(),
            self.steady(shortest, longest),
            REFRACTORY_MS < shortest <= longest <= TIMEOUT_MS,
            self.evenly_spaced(samples, shortest, longest),
        ensures
            self.run(samples).wf(),
            self.run(samples).steady(shortest, longest),
        decreases samples.len(),
    {
        if samples.len() > 0 {
            let front = samples.drop_last();
            assert forall|k: int| 0 <= k < front.len() implies #[trigger] self.spaced_at(
                front,
                k,
                shortest,
                longest,
            ) by {
                assert(front.take(k) =~= samples.take(k));
                assert(front[k] == samples[k]);
                assert(self.spaced_at(samples, k, shortest, longest));
            }
            self.lemma_steady_run(front, shortest, longest);
            assert(samples.take(samples.len() - 1) =~= front);
            assert(self.spaced_at(samples, samples.len() - 1, shortest, longest));
            self.run(front).lemma_steady_step(
                samples.last().0,
                samples.last().1,
                shortest,
                longest,
            );
        }
    }

    /// Beats are counted up to two: after a run of samples without a
    /// timeout the detector has seen as many beats as it had seen before and
    /// as the run gave rise to, or two if that is more.
    pub proof fn lemma_beats_are_counted(self, samples: Seq<(u32, u64)>)
        requires
            self.wf(),
            self.in_time(samples),
        ensures
            self.run(samples).wf(),
            self.run(samples).beats_seen == if self.beats_seen + self.beats_in(samples) < 2 {
                self.beats_seen + self.beats_in(samples)
            } else {
                2
            },
        decreases samples.len(),
    {
        if samples.len() > 0 {
            let front = samples.drop_last();
            assert forall|k: int| 0 <= k < front.len() implies #[trigger] self.in_time_at(
                front,
                k,
            ) by {
                assert(front.take(k) =~= samples.take(k));
                assert(front[k] == samples[k]);
                assert(self.in_time_at(samples, k));
            }
            self.lemma_beats_are_counted(front);
            assert(samples.take(samples.len() - 1) =~= front);
            assert(self.in_time_at(samples, samples.len() - 1));
            self.run(front).lemma_step_keeps_wf(samples.last().0, samples.last().1);
        }
    }

    /// A pulse that beats evenly is read at its rate. Take a detector as it
    /// was made, or any well-formed one that has not yet seen two beats, and
    /// feed it a run of samples in which no sample comes later than the
    /// timeout after the last beat and every beat but the first comes between
    /// `shortest` and `longest` milliseconds after the one before. Once the
    /// run has brought the beats seen to two, the rate held is the one that
    /// the mean of the last ten intervals stands for, and it lies between
    /// the rates that `longest` and `shortest` stand for. For beats a second
    /// apart, give or take a twentieth, that is 57 to 63 beats per minute.
    pub proof fn lemma_even_pulse_is_read(
        self,
        samples: Seq<(u32, u64)>,
        shortest: u64,
        longest: u64,
    )
        requires
            self.wf(),
            self.beats_seen < 2,
            self.beats_seen + self.beats_in(samples) >= 2,
            REFRACTORY_MS < shortest <= longest <= TIMEOUT_MS,
            self.in_time(samples),
            self.evenly_spaced(samples, shortest, longest),
        ensures
            self.run(samples).bpm == spec_rate(self.run(samples).intervals),
            self.run(samples).bpm matches Some(b) && 60_000int / (longest as int) <= b
                <= 60_000int / (shortest as int),
            shortest == 938 && longest == 1052 ==> (self.run(samples).bpm matches Some(b) && 57
                <= b <= 63),
    {
        self.lemma_steady_run(samples, shortest, longest);
        self.lemma_beats_are_counted(samples);
        lemma_rate_between(self.run(samples).intervals, shortest, longest);
    }

    /// Once a beat has come the intervals give a rate of at most 239.
    pub proof fn lemma_rate_is_bounded(intervals: Seq<u64>)
        requires
            intervals.len() == IBI_DEPTH,
            forall|i: int| 0 <= i < intervals.len() ==> intervals[i] > REFRACTORY_MS,
        ensures
            REFRACTORY_MS < mean(intervals) <= u64::MAX,
            spec_rate(intervals) == Some((60_000int / mean(intervals)) as u32),
            0 <= 60_000int / mean(intervals) <= 239,
    {
        lemma_total_bounds(intervals, REFRACTORY_MS as int);
        let m = mean(intervals);
        assert(251 <= m <= u64::MAX) by (nonlinear_arith)
            requires
                m == total(intervals) / 10,
                2510 <= total(intervals) <= u64::MAX * 10,
        ;
        assert(0 <= 60_000int / m <= 239) by (nonlinear_arith)
            requires
                m >= 251,
        ;
    }

    /// A step keeps the detector well formed.
    pub proof fn lemma_step_keeps_wf(self, s: u32, t: u64)
        requires
            self.wf(),
        ensures
            self.step(s, t).wf(),
    {
        let n = self.since_beat(t);
        let followed = self.track_trough(s, n).track_peak(s);
        assert(followed.wf());
        if followed.beat_starts(s, n) {
            assert(followed.begin_beat(n, t).wf());
        }
    }

    /// Hysteresis: a sample that starts a beat leaves the pulse under way,
    /// and while the pulse is under way no sample starts a beat. Two beats
    /// are more than 250 ms apart.
    pub proof fn lemma_no_beat_during_pulse(self, s: u32, t: u64, s2: u32, t2: u64)
        requires
            self.wf(),
        ensures
            self.pulse ==> self.event(s, t) is None,
            self.event(s, t) is Some ==> self.step(s, t).pulse && self.step(s, t).event(s2, t2)
                is None,
            self.event(s, t) is Some ==> t - self.last_beat_time > REFRACTORY_MS,
    {
    }

    /// The rate at a beat that does not come after a timeout is the number
    /// of milliseconds in a minute over the mean of the ten intervals, and it
    /// is at most 239.
    pub proof fn lemma_beat_rate(self, s: u32, t: u64)
        requires
            self.wf(),
            self.event(s, t) is Some,
            self.since_beat(t) <= TIMEOUT_MS,
        ensures
            self.step(s, t).bpm == Some((60_000int / mean(self.step(s, t).intervals)) as u32),
            60_000int / mean(self.step(s, t).intervals) <= 239,
            self.step(s, t).ibi == self.since_beat(t),
            self.step(s, t).last_beat_time == t,
    {
        let n = self.since_beat(t);
        let followed = self.track_trough(s, n).track_peak(s);
        Self::lemma_rate_is_bounded(followed.intervals_after(n));
    }
}

/// The adaptive-threshold detector.
pub struct AdaptiveDetector {
    seed_level: u32,
    seed_ibi: u64,
    peak: u32,
    trough: u32,
    thresh: u32,
    amp: u32,
    pulse: bool,
    last_beat_time: u64,
    ibi: u64,
    intervals: Circ<u64, 10>,
    beats_seen: u8,
    bpm: Option<u32>,
}

impl View for AdaptiveDetector {
    type V = AdaptiveModel;

    closed spec fn view(&self) -> AdaptiveModel {
        AdaptiveModel {
            seed_level: self.seed_level,
            seed_ibi: self.seed_ibi,
            peak: self.peak,
            trough: self.trough,
            thresh: self.thresh,
            amp: self.amp,
            pulse: self.pulse,
            last_beat_time: self.last_beat_time,
            ibi: self.ibi,
            intervals: self.intervals@,
            beats_seen: self.beats_seen as nat,
            bpm: self.bpm,
        }
    }
}

impl AdaptiveDetector {
    /// The detector's own ring is in order and what it knows is well formed.
    pub closed spec fn wf(&self) -> bool {
        self.intervals.wf() && self@.wf()
    }

    /// A detector whose threshold starts at `seed_level`, the middle of the
    /// sensor's range, and that assumes an interval of `seed_ibi`
    /// milliseconds before the first beat.
    pub fn new(seed_level: u32, seed_ibi: u64) -> (d: Self)
        ensures
            d.wf(),
            d@ == AdaptiveModel::seeded(seed_level, seed_ibi),
    {
        let d = AdaptiveDetector {
            seed_level,
            seed_ibi,
            peak: seed_level,
            trough: seed_level,
            thresh: seed_level,
            amp: 0,
            pulse: false,
            last_beat_time: 0,
            ibi: seed_ibi,
            intervals: Circ::new(seed_ibi),
            beats_seen: 0,
            bpm: None,
        };
        assert(d@.intervals =~= AdaptiveModel::seeded(seed_level, seed_ibi).intervals);
        d
    }

    /// Mean of the ten intervals, rounded down.
    fn mean_interval(&self) -> (m: u64)
        requires
            self.wf(),
        ensures
            m == mean(self@.intervals),
    {
        let mut acc: u128 = 0;
        let mut it = self.intervals.iter();
        let ghost all = self.intervals@;
        proof {
            lemma_total_bounds(all, -1);
        }
        loop
            invariant
                it.wf(),
                it.source() == self.intervals,
                all == self.intervals@,
                all.len() == IBI_DEPTH,
                it.remaining().len() + it.yielded() == IBI_DEPTH,
                acc + total(it.remaining()) == total(all),
                total(all) <= u64::MAX * IBI_DEPTH,
                acc <= u64::MAX * it.yielded(),
            ensures
                acc == total(all),
            decreases it.remaining().len(),
        {
            let ghost rest = it.remaining();
            match it.next() {
                Some(x) => {
                    proof {
                        lemma_total_bounds(rest.drop_first(), -1);
                    }
                    acc = acc + x as u128;
                },
                None => {
                    break ;
                },
            }
        }
        (acc / 10) as u64
    }

    /// Takes in sample `s`, seen at `t` milliseconds, and reports the beat
    /// that it starts, if it starts one.
    pub fn process_signal(&mut self, s: u32, t: u64) -> (r: Option<BeatEvent>)
        requires
            old(self).wf(),
        ensures
            final(self).wf(),
            final(self)@ == old(self)@.step(s, t),
            r == old(self)@.event(s, t),
    {
        let ghost followed = self@.track_trough(s, self@.since_beat(t)).track_peak(s);
        let n: u64 = if t >= self.last_beat_time {
            t - self.last_beat_time
        } else {
            0
        };
        let past_notch = 5 * (n as u128) > 3 * (self.ibi as u128);
        if s < self.thresh && past_notch && s < self.trough {
            self.trough = s;
        }
        if s > self.thresh && s > self.peak {
            self.peak = s;
        }
        assert(self@ == followed);
        let mut beat = false;
        if n > REFRACTORY_MS && s > self.thresh && !self.pulse && past_notch {
            self.pulse = true;
            self.ibi = n;
            self.last_beat_time = t;
            if self.beats_seen < 2 {
                self.intervals = Circ::new(n);
                self.beats_seen = self.beats_seen + 1;
            } else {
                self.intervals.add(n);
            }
            assert(self@.intervals =~= followed.intervals_after(n));
            proof {
                AdaptiveModel::lemma_rate_is_bounded(self@.intervals);
            }
            let m = self.mean_interval();
            self.bpm = beats_per_minute(MILLIS_PER_MINUTE, m);
            beat = true;
            assert(self@ == followed.begin_beat(n, t));
        }
        if s < self.thresh && self.pulse {
            self.pulse = false;
            self.amp = self.peak - self.trough;
            let mid = ((self.peak as u64 + self.trough as u64) / 2) as u32;
            self.thresh = mid;
            self.peak = mid;
            self.trough = mid;
        }
        if n > TIMEOUT_MS {
            self.thresh = self.seed_level;
            self.peak = self.seed_level;
            self.trough = self.seed_level;
            self.ibi = self.seed_ibi;
            self.bpm = None;
            self.beats_seen = 0;
        }
        proof {
            old(self)@.lemma_step_keeps_wf(s, t);
        }
        if beat {
            Some(BeatEvent { time: t, bpm: self.bpm })
        } else {
            None
        }
    }

    /// The rate computed at the last beat, if there has been one since the
    /// detector started or started over.
    pub fn bpm(&self) -> (r: Option<u32>)
        ensures
            r == self@.bpm,
    {
        self.bpm
    }

    /// The interval between the last two beats, in milliseconds.
    pub fn ibi(&self) -> (r: u64)
        ensures
            r == self@.ibi,
    {
        self.ibi
    }

    /// The level that a sample must pass to start or end a pulse.
    pub fn threshold(&self) -> (r: u32)
        ensures
            r == self@.thresh,
    {
        self.thresh
    }

    /// Swing from trough to peak in the last cycle.
    pub fn amplitude(&self) -> (r: u32)
        ensures
            r == self@.amp,
    {
        self.amp
    }

    /// Whether a pulse is under way.
    pub fn in_pulse(&self) -> (r: bool)
        ensures
            r == self@.pulse,
    {
        self.pulse
    }
}

} // verus!
