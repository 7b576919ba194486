//! A bounded, chronological history of analysis results.
use crate::recent::keep_last;
use std::collections::VecDeque;
use vstd::prelude::*;

verus! {

/// Frames in the order they were pushed, oldest first, never more than
/// `capacity` of them: a push past the bound evicts the oldest frame.
pub struct HistoryBuffer<T> {
    frames: VecDeque<T>,
    capacity: usize,
}

impl<T> View for HistoryBuffer<T> {
    type V = Seq<T>;

    /// The held frames, oldest first.
    closed spec fn view(&self) -> Seq<T> {
        self.frames@
    }
}

impl<T> HistoryBuffer<T> {
    /// The bound on the number of held frames.
    pub closed spec fn cap(&self) -> nat {
        self.capacity as nat
    }

    /// An empty history that keeps at most `capacity` frames.
    pub fn new(capacity: usize) -> (r: Self)
        ensures
            r@ == Seq::<T>::empty(),
            r.cap() == capacity,
    {
        HistoryBuffer { frames: VecDeque::new(), capacity }
    }

    /// The bound on the number of held frames.
    pub fn capacity(&self) -> (r: usize)
        ensures
            r == self.cap(),
    {
        self.capacity
    }

    /// The number of held frames.
    pub fn len(&self) -> (r: usize)
        ensures
            r == self@.len(),
    {
        self.frames.len()
    }

    /// Whether no frame is held.
    pub fn is_empty(&self) -> (r: bool)
        ensures
            r == (self@.len() == 0),
    {
        self.frames.len() == 0
    }

    /// Appends `frame` as the newest, then evicts the oldest frames until no
    /// more than `capacity` remain.
    pub fn push(&mut self, frame: T)
        ensures
            final(self)@ == keep_last(old(self)@.push(frame), old(self).cap()),
            final(self).cap() == old(self).cap(),
            final(self)@.len() <= final(self).cap(),
    {
        let ghost total = old(self)@.push(frame);
        self.frames.push_back(frame);
        while self.frames.len() > self.capacity
            invariant
                self.capacity == old(self).capacity,
                self.frames@.len() <= total.len(),
                self.frames@ =~= total.subrange(
                    total.len() - self.frames@.len(),
                    total.len() as int,
                ),
                self.frames@.len() >= self.capacity || self.frames@ == total,
            decreases self.frames@.len(),
        {
            let _ = self.frames.pop_front();
        }
    }

    /// The most recently pushed frame still held, or `None` when empty.
    pub fn current(&self) -> (r: Option<&T>)
        ensures
            self@.len() == 0 ==> r.is_none(),
            self@.len() > 0 ==> r.is_some() && *r.unwrap() == self@.last(),
    {
        let n = self.frames.len();
        if n == 0 {
            None
        } else {
            Some(&self.frames[n - 1])
        }
    }

    /// The frame at position `i`, counted from the oldest.
    pub fn get(&self, i: usize) -> (r: Option<&T>)
        ensures
            i >= self@.len() ==> r.is_none(),
            i < self@.len() ==> r.is_some() && *r.unwrap() == self@[i as int],
    {
        if i < self.frames.len() {
            Some(&self.frames[i])
        } else {
            None
        }
    }

    /// All held frames, oldest first.
    pub fn frames(&self) -> (r: &VecDeque<T>)
        ensures
            r@ == self@,
    {
        &self.frames
    }
}

} // verus!
