//! Sliding-window video send bitrate for the filler cap.

use vstd::prelude::*;

use crate::binary64::{
    at_most, product, quotient, signed, truncated, whole_number, Binary64,
};
use crate::time::{seconds, Duration, Instant};

verus! {

/// Encoding of 2^-52, the spacing of binary64 numbers at 1.
pub const EPSILON_BITS: u64 = 0x3CB0_0000_0000_0000;

/// Payload bytes sent at one time.
#[derive(Debug, Clone, Copy)]
pub struct ByteSample {
    /// Send time.
    pub at: Instant,
    /// Bytes sent.
    pub bytes: u64,
}

/// Bytes sent over a fixed-duration window; bitrate = `8 · bytes / window`.
#[derive(Debug, Clone)]
pub struct VideoBitrateWindow {
    /// Length of the window.
    pub window: Duration,
    /// Retained samples, in insertion order.
    pub samples: Vec<ByteSample>,
}

/// Whether a sample is not older than `now - window`.
pub open spec fn in_window(s: ByteSample, now: Instant, window: Duration) -> bool {
    s.at@ >= now@ - window.nanos
}

/// Bytes sent in the window that ends at `now`.
pub open spec fn window_bytes(samples: Seq<ByteSample>, now: Instant, window: Duration) -> nat
    decreases samples.len(),
{
    if samples.len() == 0 {
        0
    } else {
        window_bytes(samples.drop_last(), now, window) + if in_window(samples.last(), now, window) {
            samples.last().bytes as nat
        } else {
            0
        }
    }
}

/// Bits per second that `bytes` over a window make: `8 · bytes / window`, rounded down.
pub open spec fn bitrate(bytes: nat, window: Duration) -> u64 {
    if at_most(seconds(window), signed(false, EPSILON_BITS as nat)) {
        0
    } else {
        truncated(quotient(product(whole_number(bytes), whole_number(8)), seconds(window)))
    }
}

impl VideoBitrateWindow {
    /// Creates a window of the given duration.
    #[must_use]
    pub fn new(window: Duration) -> (w: Self)
        ensures
            w.window == window,
            w.samples@.len() == 0,
    {
        VideoBitrateWindow { window, samples: Vec::new() }
    }

    /// Records video payload bytes sent at `now`.
    pub fn record(&mut self, bytes: u64, now: Instant)
        ensures
            final(self).window == old(self).window,
            final(self).samples@ == old(self).samples@.filter(
                |s: ByteSample| in_window(s, now, old(self).window),
            ).push(ByteSample { at: now, bytes }),
    {
        self.evict(now);
        self.samples.push(ByteSample { at: now, bytes });
    }

    /// Drops samples older than `now - window`.
    pub fn evict(&mut self, now: Instant)
        ensures
            final(self).window == old(self).window,
            final(self).samples@ == old(self).samples@.filter(
                |s: ByteSample| in_window(s, now, old(self).window),
            ),
    {
        let ghost all: Seq<ByteSample> = self.samples@;
        let ghost window: Duration = self.window;
        let mut kept: Vec<ByteSample> = Vec::new();
        let mut i: usize = 0;
        while i < self.samples.len()
            invariant
                i <= self.samples.len(),
                self.samples@ == all,
                self.window == window,
                kept@ == all.take(i as int).filter(|s: ByteSample| in_window(s, now, window)),
            decreases self.samples.len() - i,
        {
            let sample: ByteSample = self.samples[i];
            proof {
                reveal(Seq::filter);
                assert(all.take(i + 1).drop_last() =~= all.take(i as int));
                assert(all.take(i + 1).last() == sample);
            }
            if now.saturating_duration_since(sample.at).nanos <= self.window.nanos {
                kept.push(sample);
            }
            i += 1;
        }
        assert(all.take(i as int) =~= all);
        self.samples = kept;
    }

    /// Measured video bitrate in bits per second over the full window duration.
    ///
    /// Always divides by the configured window length (not elapsed since the last
    /// sample), which avoids startup spikes when only a short burst has been sent.
    #[must_use]
    pub fn bitrate_bps(&self, now: Instant) -> (bps: u64)
        requires
            window_bytes(self.samples@, now, self.window) <= u64::MAX,
        ensures
            bps == bitrate(window_bytes(self.samples@, now, self.window), self.window),
    {
        let window_secs: Binary64 = self.window.as_secs();
        if window_secs.le(Binary64::from_bits(EPSILON_BITS)) {
            return 0;
        }
        let ghost all: Seq<ByteSample> = self.samples@;
        let mut total: u64 = 0;
        let mut i: usize = 0;
        while i < self.samples.len()
            invariant
                i <= self.samples.len(),
                self.samples@ == all,
                total == window_bytes(all.take(i as int), now, self.window),
                window_bytes(all, now, self.window) <= u64::MAX,
            decreases self.samples.len() - i,
        {
            let sample: ByteSample = self.samples[i];
            proof {
                assert(all.take(i + 1).drop_last() =~= all.take(i as int));
                assert(all.take(i + 1).last() == sample);
                lemma_window_bytes_prefix(all, now, self.window, i + 1);
            }
            if now.saturating_duration_since(sample.at).nanos <= self.window.nanos {
                total = total + sample.bytes;
            }
            i += 1;
        }
        assert(all.take(i as int) =~= all);
        let bits: Binary64 = Binary64::from_u64(total).times(Binary64::from_u64(8));
        bits.over(window_secs).to_u64()
    }
}

/// A prefix of the samples holds no more bytes than all of them.
pub proof fn lemma_window_bytes_prefix(
    samples: Seq<ByteSample>,
    now: Instant,
    window: Duration,
    i: int,
)
    requires
        0 <= i <= samples.len(),
    ensures
        window_bytes(samples.take(i), now, window) <= window_bytes(samples, now, window),
    decreases samples.len(),
{
    if i < samples.len() {
        lemma_window_bytes_prefix(samples.drop_last(), now, window, i);
        assert(samples.drop_last().take(i) =~= samples.take(i));
    } else {
        assert(samples.take(i) =~= samples);
    }
}

} // verus!
