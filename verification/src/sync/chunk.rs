//! Decoded PCM chunks and the conversion of frame counts to microseconds.

use vstd::prelude::*;
use crate::sample_format::SampleFormat;

verus! {

/// Duration of `frames` frames at `rate` Hz in whole microseconds (rounded
/// down), saturating at `i64::MAX`; at rate zero any audio lasts `i64::MAX`.
pub open spec fn frames_duration_spec(frames: nat, rate: u32) -> int {
    if rate == 0 {
        if frames > 0 { i64::MAX as int } else { 0 }
    } else if (frames as int) * 1_000_000 / (rate as int) > i64::MAX {
        i64::MAX as int
    } else {
        (frames as int) * 1_000_000 / (rate as int)
    }
}

pub fn frames_duration_us(frames: usize, rate: u32) -> (us: i64)
    ensures
        us == frames_duration_spec(frames as nat, rate),
{
    if rate == 0 {
        if frames > 0 { i64::MAX } else { 0 }
    } else {
        let q: u128 = (frames as u128) * 1_000_000 / (rate as u128);
        if q > i64::MAX as u128 {
            i64::MAX
        } else {
            q as i64
        }
    }
}

/// A decoded audio chunk with its scheduled playout time.
#[derive(Debug, Clone)]
pub struct PcmChunk {
    /// Absolute playout time in the server clock (µs since the epoch).
    pub playout_us: i64,
    /// Interleaved i16 samples of all channels.
    pub samples: Vec<i16>,
    /// Format of `samples`.
    pub fmt: SampleFormat,
    /// Read cursor in samples.
    pub read_pos: usize,
}

/// Samples of `c` not yet consumed.
pub open spec fn remaining_spec(c: PcmChunk) -> nat {
    if c.samples@.len() > c.read_pos { (c.samples@.len() - c.read_pos) as nat } else { 0 }
}

/// Duration of the unconsumed audio of `c`.
pub open spec fn remaining_us_spec(c: PcmChunk) -> int {
    frames_duration_spec(remaining_spec(c) / (c.fmt.channels as nat), c.fmt.rate)
}

/// Server time at which the unconsumed audio of `c` ends.
pub open spec fn chunk_end_spec(c: PcmChunk) -> int {
    c.playout_us + remaining_us_spec(c)
}

impl PcmChunk {
    pub fn new(playout_us: i64, samples: Vec<i16>, fmt: SampleFormat) -> (c: Self)
        ensures
            c.playout_us == playout_us,
            c.samples@ == samples@,
            c.fmt == fmt,
            c.read_pos == 0,
    {
        PcmChunk { playout_us, samples, fmt, read_pos: 0 }
    }

    /// Samples (all channels) not yet consumed.
    pub fn remaining_samples(&self) -> (n: usize)
        ensures
            n == remaining_spec(*self),
    {
        if self.samples.len() > self.read_pos {
            self.samples.len() - self.read_pos
        } else {
            0
        }
    }

    pub fn is_exhausted(&self) -> (b: bool)
        ensures
            b == (self.read_pos >= self.samples@.len()),
    {
        self.read_pos >= self.samples.len()
    }

    /// Duration of the remaining audio in microseconds.
    pub fn remaining_us(&self) -> (us: i64)
        requires
            self.fmt.channels > 0,
        ensures
            us == remaining_us_spec(*self),
    {
        let frames = self.remaining_samples() / self.fmt.channels as usize;
        frames_duration_us(frames, self.fmt.rate)
    }

    /// Playout time of the sample at the read cursor.
    pub fn current_playout_us(&self) -> (us: i64)
        requires
            self.fmt.channels > 0,
            i64::MIN <= self.playout_us + frames_duration_spec(
                (self.read_pos / (self.fmt.channels as usize)) as nat,
                self.fmt.rate,
            ) <= i64::MAX,
        ensures
            us == self.playout_us + frames_duration_spec(
                (self.read_pos / (self.fmt.channels as usize)) as nat,
                self.fmt.rate,
            ),
    {
        let frames = self.read_pos / self.fmt.channels as usize;
        self.playout_us + frames_duration_us(frames, self.fmt.rate)
    }
}

} // verus!
