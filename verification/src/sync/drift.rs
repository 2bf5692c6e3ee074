//! Cooldown-limited decisions to drop or duplicate a frame when local
//! playback drifts from the stream timeline.

use vstd::prelude::*;

verus! {

/// Tracks how many ticks passed since the last drift correction.
#[derive(Debug, Default, Clone, Copy)]
pub struct DriftCorrector {
    pub ticks_since_last_correction: u32,
}

/// The tick counter after one more tick, saturating.
pub open spec fn next_tick(t: u32) -> u32 {
    if t == u32::MAX { t } else { (t + 1) as u32 }
}

impl DriftCorrector {
    /// Drop a frame when playback runs more than 2 ms late and at least two
    /// ticks passed since the last correction.
    pub fn should_drop_frame(&mut self, age_us: i64) -> (b: bool)
        ensures
            b == (age_us > 2_000 && next_tick(old(self).ticks_since_last_correction) >= 2),
            final(self).ticks_since_last_correction == if b {
                0
            } else {
                next_tick(old(self).ticks_since_last_correction)
            },
    {
        self.ticks_since_last_correction = self.ticks_since_last_correction.saturating_add(1);
        if age_us > 2_000 && self.ticks_since_last_correction >= 2 {
            self.ticks_since_last_correction = 0;
            true
        } else {
            false
        }
    }

    /// Duplicate a frame when playback runs more than 2 ms early and at least
    /// two ticks passed since the last correction.
    pub fn should_duplicate_frame(&mut self, age_us: i64) -> (b: bool)
        ensures
            b == (age_us < -2_000 && next_tick(old(self).ticks_since_last_correction) >= 2),
            final(self).ticks_since_last_correction == if b {
                0
            } else {
                next_tick(old(self).ticks_since_last_correction)
            },
    {
        self.ticks_since_last_correction = self.ticks_since_last_correction.saturating_add(1);
        if age_us < -2_000 && self.ticks_since_last_correction >= 2 {
            self.ticks_since_last_correction = 0;
            true
        } else {
            false
        }
    }
}

/// Two corrections are never granted on consecutive ticks: right after one,
/// the next request is refused whatever the drift.
pub proof fn lemma_correction_cooldown()
    ensures
        next_tick(0) < 2,
{
}

} // verus!
