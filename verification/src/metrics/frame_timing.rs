//! Sliding window of frame service-time samples for the α optimizer.

use vstd::prelude::*;

use crate::time::{Duration, Instant};
use crate::types::FrameServiceSample;

verus! {

/// Samples retained for the last `window` duration.
#[derive(Debug, Clone)]
pub struct FrameTimingBuffer {
    /// Retention window.
    pub window: Duration,
    /// Retained samples, in insertion order.
    pub samples: Vec<FrameServiceSample>,
}

/// The samples not older than `now - window`, in order.
pub open spec fn recent_samples(
    samples: Seq<FrameServiceSample>,
    now: Instant,
    window: Duration,
) -> Seq<FrameServiceSample> {
    samples.filter(|s: FrameServiceSample| s.at@ >= now@ - window.nanos)
}

impl FrameTimingBuffer {
    /// Creates a buffer with the given retention window.
    #[must_use]
    pub fn new(window: Duration) -> (buffer: Self)
        ensures
            buffer.window == window,
            buffer.samples@.len() == 0,
    {
        FrameTimingBuffer { window, samples: Vec::new() }
    }

    /// Appends a sample and drops entries older than the window relative to `sample.at`.
    pub fn push(&mut self, sample: FrameServiceSample)
        ensures
            final(self).window == old(self).window,
            final(self).samples@ == recent_samples(
                old(self).samples@,
                sample.at,
                old(self).window,
            ).push(sample),
    {
        self.evict_before(sample.at);
        self.samples.push(sample);
    }

    /// Removes samples older than `now - window`.
    pub fn evict(&mut self, now: Instant)
        ensures
            final(self).window == old(self).window,
            final(self).samples@ == recent_samples(old(self).samples@, now, old(self).window),
    {
        self.evict_before(now);
    }

    fn evict_before(&mut self, now: Instant)
        ensures
            final(self).window == old(self).window,
            final(self).samples@ == recent_samples(old(self).samples@, now, old(self).window),
    {
        let ghost all: Seq<FrameServiceSample> = self.samples@;
        let ghost window: Duration = self.window;
        let mut kept: Vec<FrameServiceSample> = Vec::new();
        let mut i: usize = 0;
        while i < self.samples.len()
            invariant
                i <= self.samples.len(),
                self.samples@ == all,
                self.window == window,
                kept@ == recent_samples(all.take(i as int), now, window),
            decreases self.samples.len() - i,
        {
            let sample: FrameServiceSample = self.samples[i];
            proof {
                reveal(Seq::filter);
                assert(all.take(i + 1).drop_last() =~= all.take(i as int));
                assert(all.take(i + 1).last() == sample);
            }
            if now.saturating_duration_since(sample.at).nanos <= self.window.nanos {
                kept.push(sample);
            }
            i += 1;
        }
        assert(all.take(i as int) =~= all);
        self.samples = kept;
    }

    /// The samples in insertion order.
    pub fn iter(&self) -> (samples: &[FrameServiceSample])
        ensures
            samples@ == self.samples@,
    {
        self.samples.as_slice()
    }
}

} // verus!
