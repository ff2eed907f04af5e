//! Heartbeats in a window of samples, read off the signs of its first
//! differences.
//!
//! The window itself is only carried along: its samples can be of any copyable
//! type. What decides is one flag per first difference, `true` where the
//! signal does not fall from a sample to the next. A heartbeat is a
//! high-to-low transition: a high, the last point the signal climbed into,
//! paired with the following low, the point where the signal stops falling.

use vstd::prelude::*;

verus! {

/// How many first differences of a window of `n` samples are covered by
/// `signs` flags: at most `n - 1`, and no more than there are flags.
pub open spec fn spec_slope_count(n: nat, signs: nat) -> nat {
    if n == 0 {
        0
    } else if signs < n - 1 {
        signs
    } else {
        (n - 1) as nat
    }
}

/// The signal climbs into point `i`: it falls neither into it nor out of it.
pub open spec fn climbs_into(rising: Seq<bool>, i: int) -> bool {
    1 <= i < rising.len() && rising[i - 1] && rising[i]
}

/// The signal turns up at point `i`: it falls into it and not out of it.
pub open spec fn turns_up(rising: Seq<bool>, i: int) -> bool {
    1 <= i < rising.len() && !rising[i - 1] && rising[i]
}

/// The last point before `i` that the signal climbs into, if there is one.
pub open spec fn last_climb(rising: Seq<bool>, i: int) -> Option<int>
    decreases i,
{
    if i <= 1 {
        None
    } else if climbs_into(rising, i - 1) {
        Some(i - 1)
    } else {
        last_climb(rising, i - 1)
    }
}

/// Point `i` is the low of a heartbeat: the signal turns up there, after it
/// has climbed somewhere before.
pub open spec fn is_low(rising: Seq<bool>, i: int) -> bool {
    turns_up(rising, i) && last_climb(rising, i) is Some
}

/// The heartbeats of a window whose low lies before `upto`, in the order of
/// their lows.
pub open spec fn spec_heartbeats<T>(window: Seq<T>, rising: Seq<bool>, upto: int) -> Seq<
    Heartbeat<T>,
>
    decreases upto,
{
    if upto <= 0 {
        Seq::empty()
    } else if is_low(rising, upto - 1) {
        spec_heartbeats(window, rising, upto - 1).push(Heartbeat::at(window, rising, upto - 1))
    } else {
        spec_heartbeats(window, rising, upto - 1)
    }
}

/// What `last_climb` finds is a point before `i` that the signal climbs
/// into, and the signal climbs into no point between it and `i`; where it
/// finds nothing there is no such point at all.
pub proof fn lemma_last_climb(rising: Seq<bool>, i: int)
    ensures
        last_climb(rising, i) matches Some(h) ==> 1 <= h < i && climbs_into(rising, h) && forall|
            j: int,
        |
            h < j < i ==> !climbs_into(rising, j),
        last_climb(rising, i) is None ==> forall|j: int| j < i ==> !climbs_into(rising, j),
    decreases i,
{
    if i > 1 {
        lemma_last_climb(rising, i - 1);
    }
}

/// In a heartbeat the high comes at least two points before the low.
pub proof fn lemma_high_before_low(rising: Seq<bool>, i: int)
    requires
        is_low(rising, i),
    ensures
        last_climb(rising, i) matches Some(h) && 1 <= h && h + 2 <= i,
{
    lemma_last_climb(rising, i);
}

/// The list of heartbeats holds one entry for each low before `upto`, and
/// nothing else; the lows grow strictly along the list.
pub proof fn lemma_heartbeats_are_the_lows<T>(window: Seq<T>, rising: Seq<bool>, upto: int)
    requires
        rising.len() <= usize::MAX,
    ensures
        forall|k: int|
            0 <= k < spec_heartbeats(window, rising, upto).len() ==> {
                let hb = #[trigger] spec_heartbeats(window, rising, upto)[k];
                &&& hb.low_idx < upto
                &&& is_low(rising, hb.low_idx as int)
                &&& hb == Heartbeat::at(window, rising, hb.low_idx as int)
            },
        forall|k: int, l: int|
            0 <= k < l < spec_heartbeats(window, rising, upto).len() ==> (
            #[trigger] spec_heartbeats(window, rising, upto)[k]).low_idx < (
            #[trigger] spec_heartbeats(window, rising, upto)[l]).low_idx,
        forall|i: int|
            0 <= i < upto && is_low(rising, i) ==> exists|k: int|
                0 <= k < spec_heartbeats(window, rising, upto).len() && (
                #[trigger] spec_heartbeats(window, rising, upto)[k]).low_idx == i,
    decreases upto,
{
    if upto > 0 {
        lemma_heartbeats_are_the_lows(window, rising, upto - 1);
        let before = spec_heartbeats(window, rising, upto - 1);
        let all = spec_heartbeats(window, rising, upto);
        assert forall|k: int| 0 <= k < all.len() implies {
            let hb = #[trigger] all[k];
            &&& hb.low_idx < upto
            &&& is_low(rising, hb.low_idx as int)
            &&& hb == Heartbeat::at(window, rising, hb.low_idx as int)
        } by {
            if k < before.len() {
                assert(all[k] == before[k]);
            }
        }
        assert forall|k: int, l: int| 0 <= k < l < all.len() implies (#[trigger] all[k]).low_idx < (
        #[trigger] all[l]).low_idx by {
            assert(all[k] == before[k]);
            if l < before.len() {
                assert(all[l] == before[l]);
            }
        }
        assert forall|i: int| 0 <= i < upto && is_low(rising, i) implies exists|k: int|
            0 <= k < all.len() && (#[trigger] all[k]).low_idx == i by {
            if i < upto - 1 {
                let k = choose|k: int| 0 <= k < before.len() && (#[trigger] before[k]).low_idx == i;
                assert(all[k] == before[k]);
            } else {
                assert(all[all.len() - 1].low_idx == i);
            }
        }
    }
}

/// A high-to-low transition of the signal; the indices count from the start
/// of the window.
#[derive(Clone, Copy, Debug, PartialEq)]
pub struct Heartbeat<T> {
    pub high_idx: usize,
    pub high_value: T,
    pub low_idx: usize,
    pub low_value: T,
}

impl<T> Heartbeat<T> {
    /// The heartbeat whose low is point `low` of the window.
    pub open spec fn at(window: Seq<T>, rising: Seq<bool>, low: int) -> Heartbeat<T> {
        Heartbeat {
            high_idx: last_climb(rising, low).unwrap() as usize,
            high_value: window[last_climb(rising, low).unwrap()],
            low_idx: low as usize,
            low_value: window[low],
        }
    }
}

/// A sample, its index, and whether the signal does not fall from it to the
/// next sample.
#[derive(Clone, Copy, Debug, PartialEq)]
pub struct DerivItrItem<T> {
    pub idx: usize,
    pub sample: T,
    pub rising: bool,
}

/// A pass over the first differences of a window.
pub struct DerivItr<'a, T, const N: usize> {
    data: &'a [T; N],
    rising: &'a [bool],
    idx: usize,
}

impl<'a, T: Copy, const N: usize> DerivItr<'a, T, N> {
    /// The window that is passed over.
    pub closed spec fn window(&self) -> Seq<T> {
        self.data@
    }

    /// The flags of the first differences that the pass covers.
    pub closed spec fn slopes(&self) -> Seq<bool> {
        self.rising@.take(spec_slope_count(N as nat, self.rising@.len()) as int)
    }

    /// The index of the item that comes next.
    pub closed spec fn position(&self) -> nat {
        self.idx as nat
    }

    /// The pass has not run past its end.
    pub closed spec fn wf(&self) -> bool {
        self.idx <= spec_slope_count(N as nat, self.rising@.len())
    }

    /// Starts a pass over `data`. `rising[i]` says that `data[i + 1]` is not
    /// below `data[i]`; the pass covers the differences for which there is a
    /// flag.
    pub fn new(data: &'a [T; N], rising: &'a [bool]) -> (it: Self)
        ensures
            it.wf(),
            it.window() == data@,
            it.slopes() == rising@.take(spec_slope_count(N as nat, rising@.len()) as int),
            it.slopes().len() == spec_slope_count(N as nat, rising@.len()),
            it.position() == 0,
    {
        DerivItr { data, rising, idx: 0 }
    }

    /// Hands out the next item, or `None` at the end of the pass.
    pub fn next(&mut self) -> (r: Option<DerivItrItem<T>>)
        requires
            old(self).wf(),
        ensures
            final(self).wf(),
            final(self).window() == old(self).window(),
            final(self).slopes() == old(self).slopes(),
            old(self).position() >= old(self).slopes().len() ==> {
                &&& r is None
                &&& final(self).position() == old(self).position()
            },
            old(self).position() < old(self).slopes().len() ==> {
                &&& final(self).position() == old(self).position() + 1
                &&& old(self).position() < old(self).window().len()
                &&& r == Some(
                    DerivItrItem {
                        idx: old(self).position() as usize,
                        sample: old(self).window()[old(self).position() as int],
                        rising: old(self).slopes()[old(self).position() as int],
                    },
                )
            },
    {
        if N == 0 || self.idx >= N - 1 || self.idx >= self.rising.len() {
            None
        } else {
            let i = self.idx;
            self.idx = i + 1;
            Some(DerivItrItem { idx: i, sample: self.data[i], rising: self.rising[i] })
        }
    }
}

/// A pass over the heartbeats of a window.
pub struct HeartbeatItr<'a, T, const N: usize> {
    deriv_itr: DerivItr<'a, T, N>,
    high: Option<DerivItrItem<T>>,
    last_rising: Option<bool>,
}

impl<'a, T: Copy, const N: usize> HeartbeatItr<'a, T, N> {
    /// The window that is searched.
    pub closed spec fn window(&self) -> Seq<T> {
        self.deriv_itr.window()
    }

    /// The flags of the first differences that the search covers.
    pub closed spec fn slopes(&self) -> Seq<bool> {
        self.deriv_itr.slopes()
    }

    /// The index of the point that is looked at next.
    pub closed spec fn position(&self) -> nat {
        self.deriv_itr.position()
    }

    /// The search remembers the last climb and the last flag before its
    /// position.
    pub closed spec fn wf(&self) -> bool {
        &&& self.deriv_itr.wf()
        &&& self.slopes().len() <= self.window().len()
        &&& self.last_rising == if self.position() == 0 {
            None
        } else {
            Some(self.slopes()[self.position() - 1])
        }
        &&& match last_climb(self.slopes(), self.position() as int) {
            Some(h) => self.high == Some(
                DerivItrItem { idx: h as usize, sample: self.window()[h], rising: true },
            ),
            None => self.high is None,
        }
    }

    /// Starts a search of `data`. `rising[i]` says that `data[i + 1]` is not
    /// below `data[i]`.
    pub fn new(data: &'a [T; N], rising: &'a [bool]) -> (it: Self)
        ensures
            it.wf(),
            it.window() == data@,
            it.slopes() == rising@.take(spec_slope_count(N as nat, rising@.len()) as int),
            it.position() == 0,
    {
        HeartbeatItr { deriv_itr: DerivItr::new(data, rising), high: None, last_rising: None }
    }

    /// Hands out the next heartbeat: the one with the first low at or after
    /// the position. `None` means that no low is left.
    pub fn next(&mut self) -> (r: Option<Heartbeat<T>>)
        requires
            old(self).wf(),
        ensures
            final(self).wf(),
            final(self).window() == old(self).window(),
            final(self).slopes() == old(self).slopes(),
            match r {
                Some(hb) => {
                    &&& old(self).position() <= hb.low_idx < old(self).slopes().len()
                    &&& final(self).position() == hb.low_idx + 1
                    &&& is_low(old(self).slopes(), hb.low_idx as int)
                    &&& hb == Heartbeat::at(
                        old(self).window(),
                        old(self).slopes(),
                        hb.low_idx as int,
                    )
                    &&& forall|j: int|
                        old(self).position() <= j < hb.low_idx ==> !is_low(old(self).slopes(), j)
                },
                None => {
                    &&& final(self).position() >= old(self).slopes().len()
                    &&& final(self).position() >= old(self).position()
                    &&& forall|j: int| old(self).position() <= j ==> !is_low(old(self).slopes(), j)
                },
            },
    {
        loop
            invariant
                self.wf(),
                self.window() == old(self).window(),
                self.slopes() == old(self).slopes(),
                self.position() >= old(self).position(),
                forall|j: int|
                    old(self).position() <= j < self.position() ==> !is_low(old(self).slopes(), j),
            decreases self.slopes().len() - self.position(),
        {
            let ghost at = self.position() as int;
            let d = match self.deriv_itr.next() {
                Some(d) => d,
                None => {
                    return None;
                },
            };
            let last = self.last_rising;
            self.last_rising = Some(d.rising);
            match last {
                Some(before) => {
                    if d.rising {
                        if before {
                            self.high = Some(d);
                        } else {
                            match self.high {
                                Some(h) => {
                                    return Some(
                                        Heartbeat {
                                            high_idx: h.idx,
                                            high_value: h.sample,
                                            low_idx: d.idx,
                                            low_value: d.sample,
                                        },
                                    );
                                },
                                None => {},
                            }
                        }
                    }
                },
                None => {},
            }
            assert(!is_low(self.slopes(), at));
        }
    }

    /// Runs the search to its end and returns the heartbeats that were still
    /// to come, in the order of their lows.
    pub fn collect(&mut self) -> (beats: Vec<Heartbeat<T>>)
        requires
            old(self).wf(),
        ensures
            final(self).wf(),
            final(self).window() == old(self).window(),
            final(self).slopes() == old(self).slopes(),
            spec_heartbeats(
                old(self).window(),
                old(self).slopes(),
                old(self).position() as int,
            ) + beats@ == spec_heartbeats(
                old(self).window(),
                old(self).slopes(),
                old(self).slopes().len() as int,
            ),
            old(self).position() == 0 ==> beats@ == spec_heartbeats(
                old(self).window(),
                old(self).slopes(),
                old(self).slopes().len() as int,
            ),
    {
        let mut beats: Vec<Heartbeat<T>> = Vec::new();
        let ghost window = self.window();
        let ghost slopes = self.slopes();
        let ghost start = self.position() as int;
        loop
            invariant
                self.wf(),
                self.window() == window,
                self.slopes() == slopes,
                start == old(self).position(),
                window == old(self).window(),
                slopes == old(self).slopes(),
                start <= self.position(),
                spec_heartbeats(window, slopes, start) + beats@ == spec_heartbeats(
                    window,
                    slopes,
                    self.position() as int,
                ),
            ensures
                self.wf(),
                self.window() == window,
                self.slopes() == slopes,
                spec_heartbeats(window, slopes, start) + beats@ == spec_heartbeats(
                    window,
                    slopes,
                    slopes.len() as int,
                ),
            decreases slopes.len() + 1 - self.position(),
        {
            let ghost from = self.position() as int;
            let ghost found = beats@;
            match self.next() {
                Some(hb) => {
                    beats.push(hb);
                    proof {
                        lemma_no_low_no_beat(window, slopes, from, hb.low_idx as int);
                        assert(spec_heartbeats(window, slopes, start) + beats@ =~= (
                        spec_heartbeats(window, slopes, start) + found).push(hb));
                    }
                },
                None => {
                    proof {
                        let end = if from <= slopes.len() {
                            slopes.len() as int
                        } else {
                            from
                        };
                        lemma_no_low_no_beat(window, slopes, from, end);
                        if from > slopes.len() {
                            lemma_no_low_no_beat(window, slopes, slopes.len() as int, from);
                        }
                    }
                    break ;
                },
            }
        }
        proof {
            if start == 0 {
                assert(spec_heartbeats(window, slopes, 0) + beats@ =~= beats@);
            }
        }
        beats
    }
}

/// Where no point from `from` up to `to` is a low, the list of heartbeats
/// does not grow between them.
pub proof fn lemma_no_low_no_beat<T>(window: Seq<T>, rising: Seq<bool>, from: int, to: int)
    requires
        from <= to,
        forall|j: int| from <= j < to ==> !is_low(rising, j),
    ensures
        spec_heartbeats(window, rising, to) == spec_heartbeats(window, rising, from),
    decreases to - from,
{
    if from < to {
        lemma_no_low_no_beat(window, rising, from, to - 1);
    }
}

} // verus!
