//! The consumer side of the analysis pipeline: frame extraction, band
//! aggregation and the history that a renderer reads.
//!
//! One consumer owns a `Pipeline`. On each tick it takes a frame from the
//! shared `SampleBuffer` with `take_frame`, has it windowed and transformed into
//! bin magnitudes, and hands those to `accept_spectrum`, which appends one band
//! frame to the history. Band frames therefore enter the history in the order
//! their samples arrived.
use crate::bands::{band_frame, map_bands};
use crate::history::HistoryBuffer;
use crate::recent::keep_last;
use crate::sample_buffer::SampleBuffer;
use std::collections::VecDeque;
use vstd::prelude::*;

verus! {

/// Analysis settings and the history of band frames.
pub struct Pipeline {
    history: HistoryBuffer<Vec<u32>>,
    frame_size: usize,
    num_bands: usize,
}

/// The values of each held band frame, oldest first.
pub open spec fn frame_values(frames: Seq<Vec<u32>>) -> Seq<Seq<u32>> {
    frames.map_values(|f: Vec<u32>| f@)
}

impl View for Pipeline {
    type V = Seq<Seq<u32>>;

    /// The band frames in the history, oldest first.
    closed spec fn view(&self) -> Seq<Seq<u32>> {
        frame_values(self.history@)
    }
}

impl Pipeline {
    /// The number of samples in one analysis frame.
    pub closed spec fn spec_frame_size(&self) -> nat {
        self.frame_size as nat
    }

    /// The number of bands in each band frame.
    pub closed spec fn spec_num_bands(&self) -> nat {
        self.num_bands as nat
    }

    /// The bound on the number of band frames in the history.
    pub closed spec fn spec_history_capacity(&self) -> nat {
        self.history.cap()
    }

    /// A pipeline that analyses frames of `frame_size` samples into
    /// `num_bands` bands and keeps the last `history_capacity` band frames.
    /// Its history starts empty.
    pub fn new(frame_size: usize, num_bands: usize, history_capacity: usize) -> (r: Self)
        ensures
            r@ == Seq::<Seq<u32>>::empty(),
            r.spec_frame_size() == frame_size,
            r.spec_num_bands() == num_bands,
            r.spec_history_capacity() == history_capacity,
    {
        let history = HistoryBuffer::new(history_capacity);
        let r = Pipeline { history, frame_size, num_bands };
        assert(r@ =~= Seq::<Seq<u32>>::empty());
        r
    }

    /// The number of samples in one analysis frame.
    pub fn frame_size(&self) -> (r: usize)
        ensures
            r == self.spec_frame_size(),
    {
        self.frame_size
    }

    /// The number of bands in each band frame.
    pub fn num_bands(&self) -> (r: usize)
        ensures
            r == self.spec_num_bands(),
    {
        self.num_bands
    }

    /// Takes the next analysis frame out of `samples`: the `frame_size` oldest
    /// samples when that many are held; otherwise `None`, and `samples` stays
    /// as it was.
    pub fn take_frame<T: Copy>(&self, samples: &mut SampleBuffer<T>) -> (r: Option<Vec<T>>)
        ensures
            final(samples).cap() == old(samples).cap(),
            old(samples)@.len() < self.spec_frame_size() ==> r.is_none() && final(samples)@ == old(
                samples,
            )@,
            old(samples)@.len() >= self.spec_frame_size() ==> r.is_some() && r.unwrap()@
                == old(samples)@.subrange(0, self.spec_frame_size() as int) && final(samples)@
                == old(samples)@.subrange(
                self.spec_frame_size() as int,
                old(samples)@.len() as int,
            ),
    {
        samples.drain_frame(self.frame_size)
    }

    /// Aggregates the bin magnitudes of one analysed frame into a band frame
    /// and appends it to the history, evicting the oldest band frame when the
    /// history is full.
    pub fn accept_spectrum(&mut self, magnitudes: &[u32])
        ensures
            final(self)@ == keep_last(
                old(self)@.push(band_frame(magnitudes@, old(self).spec_num_bands())),
                old(self).spec_history_capacity(),
            ),
            final(self)@.len() <= final(self).spec_history_capacity(),
            final(self).spec_frame_size() == old(self).spec_frame_size(),
            final(self).spec_num_bands() == old(self).spec_num_bands(),
            final(self).spec_history_capacity() == old(self).spec_history_capacity(),
    {
        let bands = map_bands(magnitudes, self.num_bands);
        let ghost b = bands;
        let ghost before = self.history@;
        self.history.push(bands);
        proof {
            let c = old(self).history.cap();
            let pushed = before.push(b);
            let kept = keep_last(pushed, c);
            assert(frame_values(pushed) =~= frame_values(before).push(b@));
            assert(frame_values(kept) =~= keep_last(frame_values(pushed), c));
        }
    }

    /// The latest band frame, or `None` before the first one.
    pub fn current_band_frame(&self) -> (r: Option<&Vec<u32>>)
        ensures
            self@.len() == 0 ==> r.is_none(),
            self@.len() > 0 ==> r.is_some() && r.unwrap()@ == self@.last(),
    {
        self.history.current()
    }

    /// All band frames in the history, oldest first.
    pub fn history(&self) -> (r: &VecDeque<Vec<u32>>)
        ensures
            frame_values(r@) == self@,
    {
        self.history.frames()
    }
}

} // verus!
