//! Fixed-capacity ring buffer that keeps the most recent samples.
//!
//! A `Circ<T, COUNT>` always holds exactly `COUNT` values. Writing a sample
//! replaces the oldest one, so the buffer is a sliding window over the stream
//! of samples. Its view is that window in chronological order.

use vstd::prelude::*;

verus! {

/// Index that follows `n` on a ring of `count` slots.
pub open spec fn spec_wrap_next(count: int, n: int) -> int {
    if n + 1 >= count {
        0
    } else {
        n + 1
    }
}

/// Advances a ring index by one slot, wrapping to zero at `COUNT`.
#[inline]
pub fn wrap_next<const COUNT: usize>(n: usize) -> (r: usize)
    ensures
        r == spec_wrap_next(COUNT as int, n as int),
        COUNT > 0 ==> r < COUNT,
{
    if n >= COUNT {
        0
    } else if n + 1 >= COUNT {
        0
    } else {
        n + 1
    }
}

/// Ring buffer over `COUNT` slots; `next` is the slot written next, which is
/// also the slot that holds the oldest sample.
#[derive(Copy, Clone, Debug)]
pub struct Circ<T, const COUNT: usize> {
    pub data: [T; COUNT],
    pub next: usize,
}

impl<T, const COUNT: usize> View for Circ<T, COUNT> {
    type V = Seq<T>;

    /// The stored samples, oldest first.
    open spec fn view(&self) -> Seq<T> {
        self.data@.subrange(self.next as int, COUNT as int) + self.data@.subrange(
            0,
            self.next as int,
        )
    }
}

impl<T, const COUNT: usize> Circ<T, COUNT> where T: Copy {
    /// The write cursor points at a slot of the buffer.
    pub open spec fn wf(&self) -> bool {
        self.next < COUNT
    }

    /// The window after one more sample: the oldest leaves, `s` arrives.
    pub open spec fn slide(window: Seq<T>, s: T) -> Seq<T> {
        window.drop_first().push(s)
    }

    /// The window after a whole run of samples, pushed in order.
    pub open spec fn slide_all(window: Seq<T>, samples: Seq<T>) -> Seq<T>
        decreases samples.len(),
    {
        if samples.len() == 0 {
            window
        } else {
            Self::slide(Self::slide_all(window, samples.drop_last()), samples.last())
        }
    }

    /// Creates a buffer whose every slot holds `zero`.
    pub fn new(zero: T) -> (r: Self)
        ensures
            r.next == 0,
            r@ == Seq::new(COUNT as nat, |i: int| zero),
            COUNT > 0 ==> r.wf(),
    {
        let r = Circ { data: [zero;COUNT], next: 0 };
        assert(r@ =~= Seq::new(COUNT as nat, |i: int| zero));
        r
    }

    /// Stores `s` over the oldest sample.
    pub fn add(&mut self, s: T)
        requires
            old(self).wf(),
        ensures
            final(self).wf(),
            final(self).data@ == old(self).data@.update(old(self).next as int, s),
            final(self).next == spec_wrap_next(COUNT as int, old(self).next as int),
            final(self)@ == Self::slide(old(self)@, s),
    {
        self.data[self.next] = s;
        self.next = wrap_next::<COUNT>(self.next);
        assert(self@ =~= Self::slide(old(self)@, s));
    }

    /// Starts a pass over the window, oldest sample first.
    pub fn iter(&self) -> (it: CircIter<'_, T, COUNT>)
        requires
            self.wf(),
        ensures
            it.wf(),
            it.source() == *self,
            it.yielded() == 0,
            it.remaining() == self@,
    {
        let it = CircIter { circ: self, idx: self.next, done: false };
        assert(it.remaining() =~= self@);
        it
    }

    /// Same pass as [`Circ::iter`].
    pub fn into_iter(&self) -> (it: CircIter<'_, T, COUNT>)
        requires
            self.wf(),
        ensures
            it.wf(),
            it.source() == *self,
            it.yielded() == 0,
            it.remaining() == self@,
    {
        self.iter()
    }

    /// Copies the window out, oldest sample first.
    pub fn to_vec(&self) -> (v: Vec<T>)
        requires
            self.wf(),
        ensures
            v@ == self@,
    {
        let mut v: Vec<T> = Vec::new();
        let mut it = self.iter();
        loop
            invariant
                it.wf(),
                it.source() == *self,
                self.wf(),
                v@ + it.remaining() == self@,
            ensures
                v@ == self@,
            decreases it.remaining().len(),
        {
            match it.next() {
                Some(x) => {
                    v.push(x);
                },
                None => {
                    break ;
                },
            }
            assert(v@ + it.remaining() =~= self@);
        }
        v
    }

    /// Any run of samples pushed into a buffer leaves in it the last `COUNT`
    /// values of what was stored followed by what was pushed, in that order.
    pub proof fn lemma_slide_all(window: Seq<T>, samples: Seq<T>)
        requires
            COUNT > 0,
            window.len() == COUNT,
        ensures
            Self::slide_all(window, samples) == (window + samples).subrange(
                samples.len() as int,
                samples.len() + COUNT,
            ),
        decreases samples.len(),
    {
        if samples.len() == 0 {
            assert(window =~= (window + samples).subrange(0, COUNT as int));
        } else {
            let front = samples.drop_last();
            Self::lemma_slide_all(window, front);
            let before = (window + front).subrange(front.len() as int, front.len() + COUNT);
            assert(Self::slide(before, samples.last()) =~= (window + samples).subrange(
                samples.len() as int,
                samples.len() + COUNT,
            ));
        }
    }

    /// After at least `COUNT` pushes the buffer holds exactly the last `COUNT`
    /// pushed samples, in the order in which they were pushed.
    pub proof fn lemma_keeps_most_recent(window: Seq<T>, samples: Seq<T>)
        requires
            COUNT > 0,
            window.len() == COUNT,
            samples.len() >= COUNT,
        ensures
            Self::slide_all(window, samples) == samples.subrange(
                samples.len() - COUNT,
                samples.len() as int,
            ),
    {
        Self::lemma_slide_all(window, samples);
        assert((window + samples).subrange(samples.len() as int, samples.len() + COUNT)
            =~= samples.subrange(samples.len() - COUNT, samples.len() as int));
    }
}

/// One pass over a [`Circ`], oldest sample first.
pub struct CircIter<'a, T, const COUNT: usize> {
    circ: &'a Circ<T, COUNT>,
    idx: usize,
    done: bool,
}

impl<'a, T, const COUNT: usize> CircIter<'a, T, COUNT> where T: Copy {
    /// The buffer this pass reads.
    pub closed spec fn source(&self) -> Circ<T, COUNT> {
        *self.circ
    }

    /// How many samples the pass has handed out so far.
    pub closed spec fn yielded(&self) -> nat {
        if self.done {
            COUNT as nat
        } else if self.idx >= self.circ.next {
            (self.idx - self.circ.next) as nat
        } else {
            (self.idx + COUNT - self.circ.next) as nat
        }
    }

    /// The read cursor is on a slot of a well-formed buffer.
    pub closed spec fn wf(&self) -> bool {
        &&& self.circ.wf()
        &&& self.idx < COUNT
    }

    /// The samples still to come, in the order in which they will come.
    pub open spec fn remaining(&self) -> Seq<T> {
        self.source()@.subrange(self.yielded() as int, COUNT as int)
    }

    /// Hands out the next sample, or `None` once all `COUNT` have been seen.
    pub fn next(&mut self) -> (r: Option<T>)
        requires
            old(self).wf(),
        ensures
            final(self).wf(),
            final(self).source() == old(self).source(),
            old(self).remaining().len() == 0 ==> {
                &&& r is None
                &&& final(self).yielded() == old(self).yielded()
                &&& final(self).remaining() == old(self).remaining()
            },
            old(self).remaining().len() > 0 ==> {
                &&& r == Some(old(self).remaining()[0])
                &&& final(self).yielded() == old(self).yielded() + 1
                &&& final(self).remaining() == old(self).remaining().drop_first()
            },
    {
        if self.done {
            None
        } else {
            let res = self.circ.data[self.idx];
            self.idx = wrap_next::<COUNT>(self.idx);
            if self.idx == self.circ.next {
                self.done = true;
            }
            assert(self.remaining() =~= old(self).remaining().drop_first());
            Some(res)
        }
    }
}

} // verus!
