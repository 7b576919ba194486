//! A bounded first-in first-out queue of raw audio samples.
use crate::recent::keep_last;
use std::collections::VecDeque;
use vstd::prelude::*;

verus! {

/// Raw samples in arrival order, never more than `capacity` of them: a push
/// past the bound drops the oldest samples first.
pub struct SampleBuffer<T> {
    data: VecDeque<T>,
    capacity: usize,
}

impl<T> View for SampleBuffer<T> {
    type V = Seq<T>;

    /// The held samples, oldest first.
    closed spec fn view(&self) -> Seq<T> {
        self.data@
    }
}

impl<T: Copy> SampleBuffer<T> {
    /// The bound on the number of held samples.
    pub closed spec fn cap(&self) -> nat {
        self.capacity as nat
    }

    /// An empty buffer that keeps at most `capacity` samples.
    pub fn new(capacity: usize) -> (r: Self)
        ensures
            r@ == Seq::<T>::empty(),
            r.cap() == capacity,
    {
        SampleBuffer { data: VecDeque::new(), capacity }
    }

    /// The bound on the number of held samples.
    pub fn capacity(&self) -> (r: usize)
        ensures
            r == self.cap(),
    {
        self.capacity
    }

    /// The number of held samples.
    pub fn len(&self) -> (r: usize)
        ensures
            r == self@.len(),
    {
        self.data.len()
    }

    /// Appends `samples` at the tail, then drops samples at the head until no
    /// more than `capacity` remain: what is left is the most recent window.
    pub fn push(&mut self, samples: &[T])
        ensures
            final(self)@ == keep_last(old(self)@ + samples@, old(self).cap()),
            final(self).cap() == old(self).cap(),
            final(self)@.len() <= final(self).cap(),
    {
        let ghost total = old(self)@ + samples@;
        let mut i: usize = 0;
        while i < samples.len()
            invariant
                0 <= i <= samples@.len(),
                self.data@ == old(self)@ + samples@.subrange(0, i as int),
                self.capacity == old(self).capacity,
            decreases samples@.len() - i,
        {
            self.data.push_back(samples[i]);
            proof {
                assert(samples@.subrange(0, i + 1) =~= samples@.subrange(0, i as int).push(
                    samples@[i as int],
                ));
            }
            i = i + 1;
        }
        assert(samples@.subrange(0, samples@.len() as int) =~= samples@);
        while self.data.len() > self.capacity
            invariant
                self.capacity == old(self).capacity,
                self.data@.len() <= total.len(),
                self.data@ =~= total.subrange(
                    total.len() - self.data@.len(),
                    total.len() as int,
                ),
                self.data@.len() >= self.capacity || self.data@ == total,
            decreases self.data@.len(),
        {
            let _ = self.data.pop_front();
        }
    }

    /// Removes and returns the `n` oldest samples, oldest first, when at least
    /// `n` are held; otherwise returns `None` and leaves the buffer as it was.
    pub fn drain_frame(&mut self, n: usize) -> (r: Option<Vec<T>>)
        ensures
            final(self).cap() == old(self).cap(),
            old(self)@.len() < n ==> r.is_none() && final(self)@ == old(self)@,
            old(self)@.len() >= n ==> r.is_some() && r.unwrap()@ == old(self)@.subrange(0, n as int)
                && final(self)@ == old(self)@.subrange(n as int, old(self)@.len() as int),
    {
        if self.data.len() < n {
            return None;
        }
        let mut frame: Vec<T> = Vec::with_capacity(n);
        let mut k: usize = 0;
        while k < n
            invariant
                0 <= k <= n <= old(self)@.len(),
                self.capacity == old(self).capacity,
                frame@ == old(self)@.subrange(0, k as int),
                self.data@ == old(self)@.subrange(k as int, old(self)@.len() as int),
            decreases n - k,
        {
            let x = self.data.pop_front().unwrap();
            frame.push(x);
            proof {
                assert(old(self)@.subrange(0, k + 1) =~= old(self)@.subrange(0, k as int).push(x));
                assert(self.data@ =~= old(self)@.subrange(k + 1, old(self)@.len() as int));
            }
            k = k + 1;
        }
        Some(frame)
    }
}

} // verus!
