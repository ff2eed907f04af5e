//! Heart rates in whole beats per minute: how an interval between beats
//! becomes a rate, which rates are plausible, and the estimate that a caller
//! keeps between detection passes.

use vstd::prelude::*;

verus! {

/// Milliseconds in one minute.
pub const MILLIS_PER_MINUTE: u32 = 60_000;

/// Lower end of the wide band of plausible rates.
pub const WIDE_LOW: u32 = 40;

/// Upper end of the wide band of plausible rates.
pub const WIDE_HIGH: u32 = 200;

/// Lower end of the narrow band of plausible rates.
pub const NARROW_LOW: u32 = 60;

/// Upper end of the narrow band of plausible rates.
pub const NARROW_HIGH: u32 = 180;

/// The rate that goes with one beat every `per_beat` units, where a minute
/// has `per_minute` of these units: the quotient, rounded down. There is no
/// rate for an interval of zero.
pub open spec fn spec_beats_per_minute(per_minute: u32, per_beat: u64) -> Option<u32> {
    if per_beat > 0 {
        Some((per_minute as int / per_beat as int) as u32)
    } else {
        None
    }
}

/// Turns the interval between two beats into a rate. The units are the
/// caller's: milliseconds with `per_minute == 60_000`, or samples with
/// `per_minute` sixty times the sampling rate.
pub fn beats_per_minute(per_minute: u32, per_beat: u64) -> (r: Option<u32>)
    ensures
        r == spec_beats_per_minute(per_minute, per_beat),
        r matches Some(bpm) ==> bpm <= per_minute,
{
    if per_beat == 0 {
        None
    } else {
        let q: u64 = per_minute as u64 / per_beat;
        Some(q as u32)
    }
}

/// Inclusive range of rates that count as a plausible human heart rate.
#[derive(Clone, Copy, Debug, PartialEq, Eq, Structural)]
pub struct Band {
    pub low: u32,
    pub high: u32,
}

impl Band {
    /// Whether `bpm` lies in the band, both ends included.
    pub open spec fn spec_contains(&self, bpm: int) -> bool {
        self.low <= bpm <= self.high
    }

    /// What is reported for a computed rate: the rate itself inside the
    /// band, nothing outside it.
    pub open spec fn spec_accept(&self, bpm: u32) -> Option<u32> {
        if self.spec_contains(bpm as int) {
            Some(bpm)
        } else {
            None
        }
    }

    /// The band from 40 to 200 beats per minute.
    pub fn wide() -> (b: Band)
        ensures
            b == (Band { low: WIDE_LOW, high: WIDE_HIGH }),
    {
        Band { low: WIDE_LOW, high: WIDE_HIGH }
    }

    /// The band from 60 to 180 beats per minute.
    pub fn narrow() -> (b: Band)
        ensures
            b == (Band { low: NARROW_LOW, high: NARROW_HIGH }),
    {
        Band { low: NARROW_LOW, high: NARROW_HIGH }
    }

    /// Whether `bpm` lies in the band, both ends included.
    pub fn contains(&self, bpm: u32) -> (r: bool)
        ensures
            r == self.spec_contains(bpm as int),
    {
        self.low <= bpm && bpm <= self.high
    }

    /// Passes a computed rate on if it lies in the band and drops it
    /// otherwise. A rate outside the band is never reported.
    pub fn accept(&self, bpm: u32) -> (r: Option<u32>)
        ensures
            r == self.spec_accept(bpm),
            !self.spec_contains(bpm as int) ==> r is None,
            r matches Some(b) ==> b == bpm && self.spec_contains(b as int),
    {
        if self.contains(bpm) {
            Some(bpm)
        } else {
            None
        }
    }
}

/// The last confident rate. A new reading replaces it only if it lies in the
/// band; anything else leaves it as it was, until the caller clears it.
pub struct BpmEstimator {
    band: Band,
    last: Option<u32>,
}

impl BpmEstimator {
    /// The band that readings are held against.
    pub closed spec fn band(&self) -> Band {
        self.band
    }

    /// The rate currently held, if any.
    pub closed spec fn spec_current(&self) -> Option<u32> {
        self.last
    }

    /// A held rate lies in the band.
    #[verifier::type_invariant]
    pub closed spec fn wf(&self) -> bool {
        self.last matches Some(b) ==> self.band.spec_contains(b as int)
    }

    /// What the estimator holds after a detector has reported `reading`.
    pub open spec fn spec_after(held: Option<u32>, band: Band, reading: Option<u32>) -> Option<
        u32,
    > {
        match reading {
            Some(b) => if band.spec_contains(b as int) {
                Some(b)
            } else {
                held
            },
            None => held,
        }
    }

    /// An estimator that holds no rate yet.
    pub fn new(band: Band) -> (e: Self)
        ensures
            e.band() == band,
            e.spec_current() is None,
    {
        BpmEstimator { band, last: None }
    }

    /// Takes what a detection pass reported and returns the rate held
    /// afterwards.
    pub fn observe(&mut self, reading: Option<u32>) -> (r: Option<u32>)
        ensures
            final(self).band() == old(self).band(),
            final(self).spec_current() == Self::spec_after(
                old(self).spec_current(),
                old(self).band(),
                reading,
            ),
            r == final(self).spec_current(),
    {
        match reading {
            Some(b) => {
                if self.band.contains(b) {
                    self.last = Some(b);
                }
            },
            None => {},
        }
        self.last
    }

    /// Forgets the held rate.
    pub fn clear(&mut self)
        ensures
            final(self).band() == old(self).band(),
            final(self).spec_current() is None,
    {
        self.last = None;
    }

    /// The rate currently held, if any.
    pub fn current(&self) -> (r: Option<u32>)
        ensures
            r == self.spec_current(),
            r matches Some(b) ==> self.band().spec_contains(b as int),
    {
        proof {
            use_type_invariant(self);
        }
        self.last
    }

    /// A reading never makes a rate outside the band the held rate: if the
    /// held rate lies in the band before a reading it does so after it, and a
    /// reading outside the band changes nothing.
    pub proof fn lemma_out_of_band_is_never_held(
        held: Option<u32>,
        band: Band,
        reading: Option<u32>,
    )
        requires
            held matches Some(h) ==> band.spec_contains(h as int),
        ensures
            Self::spec_after(held, band, reading) matches Some(b) ==> band.spec_contains(b as int),
            reading matches Some(b) && !band.spec_contains(b as int) ==> Self::spec_after(
                held,
                band,
                reading,
            ) == held,
    {
    }
}

} // verus!
