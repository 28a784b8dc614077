//! Encoder pause when queue delay exceeds τ.

use vstd::prelude::*;

use crate::config::VidaptiveConfig;
use crate::time::Duration;

verus! {

/// Pause encoding when the oldest queued packet waits too long.
#[derive(Debug, Clone, Copy)]
pub struct Safeguards {
    /// Longest tolerated wait τ.
    pub tau_pause: Duration,
    /// Whether encoding is paused.
    pub paused: bool,
}

/// Whether a queue of this age pauses the encoder: only while something has waited beyond τ.
pub open spec fn pauses(oldest_queued_age: Option<Duration>, queue_empty: bool, tau: Duration)
    -> bool {
    &&& !queue_empty
    &&& oldest_queued_age matches Some(age) && age.nanos > tau.nanos
}

impl Safeguards {
    /// Creates safeguards from configuration.
    #[must_use]
    pub fn new(config: &VidaptiveConfig) -> (s: Self)
        ensures
            s == (Safeguards { tau_pause: config.tau_pause, paused: false }),
    {
        Safeguards { tau_pause: config.tau_pause(), paused: false }
    }

    /// Updates pause state from queue age and whether the pacer queue is empty.
    pub fn update(&mut self, oldest_queued_age: Option<Duration>, queue_empty: bool)
        ensures
            *final(self) == (Safeguards {
                paused: pauses(oldest_queued_age, queue_empty, old(self).tau_pause),
                ..*old(self)
            }),
    {
        if queue_empty {
            self.paused = false;
            return;
        }
        match oldest_queued_age {
            None => {
                self.paused = false;
            },
            Some(age) => {
                self.paused = age.nanos > self.tau_pause.nanos;
            },
        }
    }

    /// Whether the encoder should pause.
    #[must_use]
    pub fn is_paused(&self) -> (r: bool)
        ensures
            r == self.paused,
    {
        self.paused
    }
}

} // verus!
