//! PCM stream descriptor: sample rate, bit depth and channel count.

use vstd::prelude::*;
use crate::text::{decimal, decimal_string};

verus! {

/// Fully describes a linear PCM stream.
#[derive(Debug, Clone, Copy, PartialEq, Eq, Structural)]
pub struct SampleFormat {
    /// Samples per second (e.g. 44100, 48000).
    pub rate: u32,
    /// Bits per sample per channel (e.g. 16, 24, 32).
    pub bits: u16,
    /// Interleaved channels (1 = mono, 2 = stereo).
    pub channels: u16,
}

impl SampleFormat {
    pub open spec fn frame_size_spec(&self) -> nat {
        ((self.bits / 8) * self.channels) as nat
    }

    pub fn new(rate: u32, bits: u16, channels: u16) -> (f: Self)
        ensures
            f == (SampleFormat { rate, bits, channels }),
    {
        SampleFormat { rate, bits, channels }
    }

    /// Bytes per sample per channel (`bits / 8`).
    pub fn sample_size(&self) -> (n: usize)
        ensures
            n == self.bits / 8,
    {
        (self.bits / 8) as usize
    }

    /// Bytes in one interleaved frame (one sample of every channel).
    pub fn frame_size(&self) -> (n: usize)
        ensures
            n == self.frame_size_spec(),
    {
        assert((self.bits / 8) * self.channels <= 8191 * 65535) by (nonlinear_arith)
            requires
                self.bits / 8 <= 8191,
                self.channels <= 65535,
        ;
        self.sample_size() * self.channels as usize
    }

    /// Whole frames in `byte_len` bytes; zero when the frame size is zero.
    pub fn frame_count(&self, byte_len: usize) -> (n: usize)
        ensures
            n == if self.frame_size_spec() == 0 { 0 } else { (byte_len as nat) / self.frame_size_spec() },
    {
        let fs = self.frame_size();
        if fs == 0 {
            0
        } else {
            byte_len / fs
        }
    }

    /// Text of the form `48000Hz/16bit/2ch`.
    pub fn display(&self) -> (s: String)
        ensures
            s@ == decimal(self.rate as nat) + "Hz/"@ + decimal(self.bits as nat) + "bit/"@ + decimal(
                self.channels as nat,
            ) + "ch"@,
    {
        let mut s = decimal_string(self.rate as u64);
        s.append("Hz/");
        let b = decimal_string(self.bits as u64);
        s.append(b.as_str());
        s.append("bit/");
        let c = decimal_string(self.channels as u64);
        s.append(c.as_str());
        s.append("ch");
        s
    }
}

impl Default for SampleFormat {
    /// 48 kHz / 16-bit / stereo.
    fn default() -> (f: Self)
        ensures
            f == (SampleFormat { rate: 48_000, bits: 16, channels: 2 }),
    {
        SampleFormat { rate: 48_000, bits: 16, channels: 2 }
    }
}

} // verus!
