//! From the heartbeats of one window to a heart rate.
//!
//! Heartbeats that are too weak are dropped, the distances between the lows
//! of the others are collected in a bounded store that hands them out largest
//! first, the upper half of the distances is set aside, and the largest of the
//! rest becomes the rate, provided that enough heartbeats were found, that
//! there is a signal at all, and that the rate is a plausible one.

use crate::bpm::{beats_per_minute, spec_beats_per_minute, Band};
use crate::signal::Heartbeat;
use vstd::prelude::*;

verus! {

/// How many distances the store holds at most.
pub const DISTANCE_CAPACITY: usize = 16;

/// How many accepted heartbeats a window needs, unless told otherwise.
pub const DEFAULT_MIN_BEATS: usize = 3;

/// Largest sampling rate, in samples per second, for which the number of
/// samples in a minute fits the counters.
pub const MAX_SAMPLE_RATE_HZ: u32 = 71_582_788;

/// The heartbeats that pass: those for which there is a flag and the flag is
/// set, in their order.
pub open spec fn spec_accepted<T>(beats: Seq<Heartbeat<T>>, strong: Seq<bool>) -> Seq<
    Heartbeat<T>,
>
    decreases beats.len(),
{
    if beats.len() == 0 {
        Seq::empty()
    } else if beats.len() <= strong.len() && strong[beats.len() - 1] {
        spec_accepted(beats.drop_last(), strong).push(beats.last())
    } else {
        spec_accepted(beats.drop_last(), strong)
    }
}

/// Drops the heartbeats that are too weak. `strong[k]` says that the swing
/// of `beats[k]` from high to low is large enough; a heartbeat without a flag
/// is dropped.
pub fn accepted<T: Copy>(beats: &[Heartbeat<T>], strong: &[bool]) -> (kept: Vec<Heartbeat<T>>)
    ensures
        kept@ == spec_accepted(beats@, strong@),
{
    let mut kept: Vec<Heartbeat<T>> = Vec::new();
    let mut k: usize = 0;
    while k < beats.len()
        invariant
            k <= beats@.len(),
            kept@ == spec_accepted(beats@.take(k as int), strong@),
        decreases beats@.len() - k,
    {
        assert(beats@.take(k + 1).drop_last() =~= beats@.take(k as int));
        if k < strong.len() && strong[k] {
            kept.push(beats[k]);
        }
        k += 1;
    }
    assert(beats@.take(k as int) =~= beats@);
    kept
}

/// Without a strong heartbeat nothing is accepted.
pub proof fn lemma_none_strong_none_accepted<T>(beats: Seq<Heartbeat<T>>, strong: Seq<bool>)
    requires
        forall|k: int| 0 <= k < strong.len() ==> !strong[k],
    ensures
        spec_accepted(beats, strong).len() == 0,
    decreases beats.len(),
{
    if beats.len() > 0 {
        lemma_none_strong_none_accepted(beats.drop_last(), strong);
    }
}

/// The accepted heartbeats are some of the given ones: no more of them, and
/// each one of them is a given heartbeat whose flag is set.
pub proof fn lemma_accepted_are_strong<T>(beats: Seq<Heartbeat<T>>, strong: Seq<bool>)
    ensures
        spec_accepted(beats, strong).len() <= beats.len(),
        forall|j: int|
            #![trigger spec_accepted(beats, strong)[j]]
            0 <= j < spec_accepted(beats, strong).len() ==> exists|k: int|
                0 <= k < beats.len() && k < strong.len() && strong[k] && #[trigger] beats[k]
                    == spec_accepted(beats, strong)[j],
    decreases beats.len(),
{
    if beats.len() > 0 {
        let front = beats.drop_last();
        lemma_accepted_are_strong(front, strong);
        let all = spec_accepted(beats, strong);
        let before = spec_accepted(front, strong);
        assert forall|j: int| #![trigger all[j]] 0 <= j < all.len() implies exists|k: int|
            0 <= k < beats.len() && k < strong.len() && strong[k] && #[trigger] beats[k]
                == all[j] by {
            if j < before.len() {
                let k = choose|k: int|
                    0 <= k < front.len() && k < strong.len() && strong[k] && #[trigger] front[k]
                        == before[j];
                assert(beats[k] == front[k]);
            } else {
                assert(beats[beats.len() - 1] == all[j]);
            }
        }
    }
}

/// The distance between two heartbeats, measured from low to low.
pub open spec fn spec_gap<T>(a: Heartbeat<T>, b: Heartbeat<T>) -> usize {
    if a.low_idx <= b.low_idx {
        (b.low_idx - a.low_idx) as usize
    } else {
        (a.low_idx - b.low_idx) as usize
    }
}

/// The distances from each heartbeat to the next.
pub open spec fn spec_distances<T>(beats: Seq<Heartbeat<T>>) -> Seq<usize> {
    Seq::new(
        if beats.len() == 0 {
            0
        } else {
            (beats.len() - 1) as nat
        },
        |k: int| spec_gap(beats[k], beats[k + 1]),
    )
}

/// No element comes before a smaller one.
pub open spec fn ascending(s: Seq<usize>) -> bool {
    forall|i: int, j: int| 0 <= i <= j < s.len() ==> s[i] <= s[j]
}

/// Where `d` goes into `s`: behind the last element that is not above it.
pub open spec fn slot_for(s: Seq<usize>, d: usize) -> int
    decreases s.len(),
{
    if s.len() == 0 {
        0
    } else if s.last() <= d {
        s.len() as int
    } else {
        slot_for(s.drop_last(), d)
    }
}

/// The store after `d` has been offered to it: `d` in its place while there
/// is room, no change once the store is full.
pub open spec fn spec_put(s: Seq<usize>, d: usize) -> Seq<usize> {
    if s.len() < DISTANCE_CAPACITY {
        s.insert(slot_for(s, d), d)
    } else {
        s
    }
}

/// The store after a run of distances has been offered to it, in order.
pub open spec fn spec_put_all(s: Seq<usize>, ds: Seq<usize>) -> Seq<usize>
    decreases ds.len(),
{
    if ds.len() == 0 {
        s
    } else {
        spec_put(spec_put_all(s, ds.drop_last()), ds.last())
    }
}

/// The typical distance: of the distances in ascending order the upper half,
/// rounded down, is set aside, and the largest of the rest is taken.
pub open spec fn spec_typical(s: Seq<usize>) -> Option<usize> {
    if s.len() == 0 {
        None
    } else {
        Some(s.take(s.len() - s.len() / 2).last())
    }
}

/// The typical distance is one of the distances; no distance at or below
/// its place in the ascending order is larger than it, and none above its
/// place, of which there are half as many as there are distances, rounded
/// down, is smaller.
pub proof fn lemma_typical_splits(s: Seq<usize>)
    requires
        ascending(s),
        s.len() > 0,
    ensures
        spec_typical(s) == Some(s[s.len() - s.len() / 2 - 1]),
        forall|i: int| 0 <= i < s.len() - s.len() / 2 ==> s[i] <= spec_typical(s).unwrap(),
        forall|i: int| s.len() - s.len() / 2 <= i < s.len() ==> s[i] >= spec_typical(s).unwrap(),
{
}

/// In an ascending store the slot for `d` has nothing above `d` before it and
/// nothing but what is above `d` behind it.
pub proof fn lemma_slot_for(s: Seq<usize>, d: usize)
    requires
        ascending(s),
    ensures
        0 <= slot_for(s, d) <= s.len(),
        forall|i: int| 0 <= i < slot_for(s, d) ==> s[i] <= d,
        forall|i: int| slot_for(s, d) <= i < s.len() ==> s[i] > d,
    decreases s.len(),
{
    if s.len() > 0 {
        let front = s.drop_last();
        if s.last() > d {
            assert(ascending(front)) by {
                assert forall|i: int, j: int| 0 <= i <= j < front.len() implies front[i]
                    <= front[j] by {
                    assert(front[i] == s[i] && front[j] == s[j]);
                }
            }
            lemma_slot_for(front, d);
            assert forall|i: int| 0 <= i < slot_for(s, d) implies s[i] <= d by {
                assert(front[i] == s[i]);
            }
            assert forall|i: int| slot_for(s, d) <= i < s.len() implies s[i] > d by {
                if i < front.len() {
                    assert(front[i] == s[i]);
                }
            }
        } else {
            assert forall|i: int| 0 <= i < slot_for(s, d) implies s[i] <= d by {
                assert(s[i] <= s[s.len() - 1]);
            }
        }
    }
}

/// Offering a distance keeps the store ascending and within its capacity;
/// while there is room the store gains exactly that distance.
pub proof fn lemma_put(s: Seq<usize>, d: usize)
    requires
        ascending(s),
        s.len() <= DISTANCE_CAPACITY,
    ensures
        ascending(spec_put(s, d)),
        spec_put(s, d).len() <= DISTANCE_CAPACITY,
        s.len() < DISTANCE_CAPACITY ==> spec_put(s, d).to_multiset() == s.to_multiset().insert(d),
        s.len() == DISTANCE_CAPACITY ==> spec_put(s, d) == s,
{
    lemma_slot_for(s, d);
    if s.len() < DISTANCE_CAPACITY {
        vstd::seq_lib::to_multiset_insert(s, slot_for(s, d), d);
    }
}

/// Offering a run of distances to an empty store leaves an ascending store
/// that holds the first distances of the run, as many as fit.
pub proof fn lemma_put_all(ds: Seq<usize>)
    ensures
        ascending(spec_put_all(Seq::empty(), ds)),
        spec_put_all(Seq::empty(), ds).len() == if ds.len() <= DISTANCE_CAPACITY {
            ds.len()
        } else {
            DISTANCE_CAPACITY as nat
        },
        spec_put_all(Seq::empty(), ds).to_multiset() == ds.take(
            spec_put_all(Seq::empty(), ds).len() as int,
        ).to_multiset(),
    decreases ds.len(),
{
    broadcast use vstd::seq_lib::to_multiset_build;

    let empty = Seq::<usize>::empty();
    if ds.len() == 0 {
        assert(ds.take(0) =~= empty);
    } else {
        let front = ds.drop_last();
        let before = spec_put_all(empty, front);
        lemma_put_all(front);
        lemma_put(before, ds.last());
        vstd::seq_lib::to_multiset_len(before);
        vstd::seq_lib::to_multiset_len(spec_put(before, ds.last()));
        if front.len() < DISTANCE_CAPACITY {
            assert(front.take(front.len() as int) =~= front);
            assert(ds.take(ds.len() as int) =~= front.push(ds.last()));
        } else {
            assert(ds.take(DISTANCE_CAPACITY as int) =~= front.take(DISTANCE_CAPACITY as int));
        }
    }
}

/// Offering distances that all lie between two bounds to a store whose
/// distances do so leaves a store whose distances do so.
pub proof fn lemma_put_all_between(s: Seq<usize>, ds: Seq<usize>, nearest: usize, farthest: usize)
    requires
        forall|i: int| 0 <= i < s.len() ==> nearest <= #[trigger] s[i] <= farthest,
        forall|i: int| 0 <= i < ds.len() ==> nearest <= #[trigger] ds[i] <= farthest,
    ensures
        forall|i: int|
            0 <= i < spec_put_all(s, ds).len() ==> nearest <= #[trigger] spec_put_all(s, ds)[i]
                <= farthest,
        ds.len() > 0 || s.len() > 0 ==> spec_put_all(s, ds).len() > 0,
    decreases ds.len(),
{
    if ds.len() > 0 {
        let front = ds.drop_last();
        assert forall|i: int| 0 <= i < front.len() implies nearest <= #[trigger] front[i]
            <= farthest by {
            assert(front[i] == ds[i]);
        }
        lemma_put_all_between(s, front, nearest, farthest);
        let before = spec_put_all(s, front);
        let d = ds.last();
        assert(nearest <= ds[ds.len() - 1] <= farthest);
        let after = spec_put(before, d);
        if before.len() < DISTANCE_CAPACITY {
            let k = slot_for(before, d);
            lemma_slot_in_range(before, d);
            assert forall|i: int| 0 <= i < after.len() implies nearest <= #[trigger] after[i]
                <= farthest by {
                if i < k {
                    assert(after[i] == before[i]);
                } else if i > k {
                    assert(after[i] == before[i - 1]);
                }
            }
        }
    }
}

/// The slot for a distance is a place in the store or the place behind it.
pub proof fn lemma_slot_in_range(s: Seq<usize>, d: usize)
    ensures
        0 <= slot_for(s, d) <= s.len(),
    decreases s.len(),
{
    if s.len() > 0 && s.last() > d {
        lemma_slot_in_range(s.drop_last(), d);
    }
}

/// Bounded store of distances that hands out the largest first. It takes up
/// to sixteen distances and leaves out whatever is offered after that.
pub struct DistanceStore {
    items: Vec<usize>,
}

impl View for DistanceStore {
    type V = Seq<usize>;

    /// The stored distances in ascending order.
    closed spec fn view(&self) -> Seq<usize> {
        self.items@
    }
}

impl DistanceStore {
    /// The distances are in ascending order and no more than the store takes.
    pub open spec fn wf(&self) -> bool {
        ascending(self@) && self@.len() <= DISTANCE_CAPACITY
    }

    /// An empty store with room for all that it will ever hold.
    pub fn new() -> (s: Self)
        ensures
            s.wf(),
            s@ == Seq::<usize>::empty(),
    {
        DistanceStore { items: Vec::with_capacity(DISTANCE_CAPACITY) }
    }

    /// How many distances are stored.
    pub fn len(&self) -> (n: usize)
        ensures
            n == self@.len(),
    {
        self.items.len()
    }

    /// Whether nothing is stored.
    pub fn is_empty(&self) -> (b: bool)
        ensures
            b == (self@.len() == 0),
    {
        self.items.len() == 0
    }

    /// Offers a distance. Returns whether it was taken, which it is while
    /// fewer than sixteen are stored.
    pub fn push(&mut self, d: usize) -> (taken: bool)
        requires
            old(self).wf(),
        ensures
            final(self).wf(),
            final(self)@ == spec_put(old(self)@, d),
            taken == (old(self)@.len() < DISTANCE_CAPACITY),
    {
        if self.items.len() >= DISTANCE_CAPACITY {
            return false;
        }
        let mut k: usize = self.items.len();
        assert(self.items@.take(k as int) =~= self.items@);
        while k > 0 && self.items[k - 1] > d
            invariant
                k <= self.items@.len(),
                self.items@ == old(self).items@,
                slot_for(self.items@, d) == slot_for(self.items@.take(k as int), d),
            decreases k,
        {
            assert(self.items@.take(k as int).drop_last() =~= self.items@.take(k - 1));
            k -= 1;
        }
        proof {
            lemma_put(self.items@, d);
        }
        self.items.insert(k, d);
        true
    }

    /// The largest stored distance.
    pub fn peek_max(&self) -> (r: Option<usize>)
        requires
            self.wf(),
        ensures
            self@.len() == 0 ==> r is None,
            self@.len() > 0 ==> r == Some(self@.last()),
            forall|i: int| 0 <= i < self@.len() ==> r is Some && self@[i] <= r.unwrap(),
    {
        if self.items.len() == 0 {
            None
        } else {
            Some(self.items[self.items.len() - 1])
        }
    }

    /// Takes the largest stored distance out.
    pub fn pop_max(&mut self) -> (r: Option<usize>)
        requires
            old(self).wf(),
        ensures
            final(self).wf(),
            old(self)@.len() == 0 ==> r is None && final(self)@ == old(self)@,
            old(self)@.len() > 0 ==> {
                &&& r == Some(old(self)@.last())
                &&& final(self)@ == old(self)@.drop_last()
            },
            forall|i: int| 0 <= i < old(self)@.len() ==> r is Some && old(self)@[i] <= r.unwrap(),
    {
        self.items.pop()
    }

    /// The stored distances in ascending order.
    pub fn to_vec(&self) -> (v: Vec<usize>)
        ensures
            v@ == self@,
    {
        let mut v: Vec<usize> = Vec::new();
        let mut k: usize = 0;
        while k < self.items.len()
            invariant
                k <= self.items@.len(),
                v@ == self.items@.take(k as int),
            decreases self.items@.len() - k,
        {
            v.push(self.items[k]);
            assert(self.items@.take(k + 1) =~= self.items@.take(k as int).push(
                self.items@[k as int],
            ));
            k += 1;
        }
        assert(self.items@.take(k as int) =~= self.items@);
        v
    }

    /// The typical distance: the largest one left when the upper half of the
    /// stored distances, rounded down, is set aside.
    pub fn typical(&self) -> (r: Option<usize>)
        ensures
            r == spec_typical(self@),
    {
        let n = self.items.len();
        if n == 0 {
            None
        } else {
            Some(self.items[n - n / 2 - 1])
        }
    }
}

/// Fills a store with the distances from each heartbeat to the next, and
/// returns the typical one.
pub fn typical_distance<T: Copy>(beats: &[Heartbeat<T>]) -> (r: Option<usize>)
    ensures
        r == spec_typical(spec_put_all(Seq::empty(), spec_distances(beats@))),
{
    let mut store = DistanceStore::new();
    let ghost ds = spec_distances(beats@);
    let mut k: usize = 1;
    if beats.len() == 0 {
        return store.typical();
    }
    while k < beats.len()
        invariant
            1 <= k <= beats@.len(),
            ds == spec_distances(beats@),
            store.wf(),
            store@ == spec_put_all(Seq::empty(), ds.take(k - 1)),
        decreases beats@.len() - k,
    {
        let a = beats[k - 1].low_idx;
        let b = beats[k].low_idx;
        let d = if a <= b {
            b - a
        } else {
            a - b
        };
        assert(ds.take(k as int).drop_last() =~= ds.take(k - 1));
        store.push(d);
        k += 1;
    }
    assert(ds.take(k - 1) =~= ds);
    store.typical()
}

/// What turns the accepted heartbeats of a window into a rate.
#[derive(Clone, Copy, Debug, PartialEq, Eq, Structural)]
pub struct BatchDetector {
    /// Samples in one minute: sixty times the sampling rate.
    pub samples_per_minute: u32,
    /// The rates that are reported.
    pub band: Band,
    /// How many accepted heartbeats a window must have.
    pub min_beats: usize,
}

impl BatchDetector {
    /// The rate of a window with these accepted heartbeats, where
    /// `signal_present` says whether the window holds a signal at all.
    pub open spec fn spec_rate<T>(self, beats: Seq<Heartbeat<T>>, signal_present: bool) -> Option<
        u32,
    > {
        if beats.len() >= self.min_beats && signal_present {
            match spec_typical(spec_put_all(Seq::empty(), spec_distances(beats))) {
                Some(d) => match spec_beats_per_minute(self.samples_per_minute, d as u64) {
                    Some(bpm) => self.band.spec_accept(bpm),
                    None => None,
                },
                None => None,
            }
        } else {
            None
        }
    }

    /// A detector for a signal sampled `sample_rate_hz` times a second that
    /// asks for three accepted heartbeats in a window.
    pub fn new(sample_rate_hz: u32, band: Band) -> (d: Self)
        requires
            sample_rate_hz <= MAX_SAMPLE_RATE_HZ,
        ensures
            d == (BatchDetector {
                samples_per_minute: (60 * sample_rate_hz) as u32,
                band,
                min_beats: DEFAULT_MIN_BEATS,
            }),
    {
        BatchDetector {
            samples_per_minute: 60 * sample_rate_hz,
            band,
            min_beats: DEFAULT_MIN_BEATS,
        }
    }

    /// The rate of a window: the number of samples in a minute over the
    /// typical distance between its accepted heartbeats, rounded down, if the
    /// window has enough of them, holds a signal, and the rate lies in the
    /// band. Otherwise there is no rate.
    pub fn rate<T: Copy>(&self, beats: &[Heartbeat<T>], signal_present: bool) -> (r: Option<u32>)
        ensures
            r == self.spec_rate(beats@, signal_present),
            r matches Some(bpm) ==> self.band.spec_contains(bpm as int),
    {
        if beats.len() >= self.min_beats && signal_present {
            match typical_distance(beats) {
                Some(d) => match beats_per_minute(self.samples_per_minute, d as u64) {
                    Some(bpm) => self.band.accept(bpm),
                    None => None,
                },
                None => None,
            }
        } else {
            None
        }
    }

    /// A window in which no heartbeat is strong has no accepted heartbeats
    /// and no rate.
    pub proof fn lemma_weak_window_has_no_rate<T>(
        self,
        beats: Seq<Heartbeat<T>>,
        strong: Seq<bool>,
        signal_present: bool,
    )
        requires
            forall|k: int| 0 <= k < strong.len() ==> !strong[k],
        ensures
            spec_accepted(beats, strong).len() == 0,
            self.spec_rate(spec_accepted(beats, strong), signal_present) is None,
    {
        lemma_none_strong_none_accepted(beats, strong);
        assert(spec_distances(spec_accepted(beats, strong)).len() == 0);
    }

    /// Evenly spaced heartbeats give exactly one rate. If a window holds a
    /// signal and has at least two accepted heartbeats, and as many as the
    /// detector asks for, and each lies between `nearest` and `farthest`
    /// samples from the next, then the window has a rate, and it lies between
    /// the rates that `farthest` and `nearest` stand for, provided the band
    /// holds these. At 25 samples a second, heartbeats 20 to 22 samples apart
    /// give a rate of 68 to 75.
    pub proof fn lemma_even_beats_give_a_rate<T>(
        self,
        beats: Seq<Heartbeat<T>>,
        nearest: usize,
        farthest: usize,
    )
        requires
            beats.len() >= 2,
            beats.len() >= self.min_beats,
            0 < nearest <= farthest,
            forall|k: int|
                0 <= k < spec_distances(beats).len() ==> nearest <= #[trigger] spec_distances(
                    beats,
                )[k] <= farthest,
            self.band.low <= self.samples_per_minute as int / (farthest as int),
            self.samples_per_minute as int / (nearest as int) <= self.band.high,
        ensures
            self.spec_rate(beats, true) matches Some(b) && self.samples_per_minute as int / (
            farthest as int) <= b <= self.samples_per_minute as int / (nearest as int),
            self.samples_per_minute == 1500 && nearest == 20 && farthest == 22 ==> (self.spec_rate(
                beats,
                true,
            ) matches Some(b) && 68 <= b <= 75),
            self.spec_rate(beats, false) is None,
    {
        let ds = spec_distances(beats);
        let store = spec_put_all(Seq::empty(), ds);
        lemma_put_all_between(Seq::empty(), ds, nearest, farthest);
        let d = store.take(store.len() - store.len() / 2).last();
        assert(d == store[store.len() - store.len() / 2 - 1]);
        assert(nearest <= d <= farthest);
        let spm = self.samples_per_minute as int;
        vstd::arithmetic::div_mod::lemma_div_is_ordered_by_denominator(
            spm,
            d as int,
            farthest as int,
        );
        vstd::arithmetic::div_mod::lemma_div_is_ordered_by_denominator(
            spm,
            nearest as int,
            d as int,
        );
        assert(0 <= spm / (d as int) <= spm) by (nonlinear_arith)
            requires
                spm >= 0,
                d > 0,
        ;
        assert(1500int / 22 == 68 && 1500int / 20 == 75);
    }

    /// Whatever the window, a reported rate lies in the band.
    pub proof fn lemma_rate_in_band<T>(self, beats: Seq<Heartbeat<T>>, signal_present: bool)
        ensures
            self.spec_rate(beats, signal_present) matches Some(bpm) ==> self.band.spec_contains(
                bpm as int,
            ),
    {
    }
}

} // verus!
