//! Raw PCM passthrough codec: samples are little-endian i16 on the wire.

use vstd::prelude::*;
use crate::codec::traits::{Decoder, Encoder};
use crate::error::Result;
use crate::protocol::messages::codec_header::{opus_codec_header, opus_header_bytes};
use crate::sample_format::SampleFormat;

verus! {

/// Byte `j` (0 = low, 1 = high) of the little-endian encoding of `x`.
pub open spec fn sample_byte(x: i16, j: int) -> u8 {
    if j == 0 { ((x as u16) % 256) as u8 } else { ((x as u16) / 256) as u8 }
}

/// Little-endian bytes of a run of samples.
pub open spec fn pcm_bytes(s: Seq<i16>) -> Seq<u8> {
    Seq::new(2 * s.len(), |j: int| sample_byte(s[j / 2], j % 2))
}

/// The samples that whole byte pairs of `b` encode; an odd last byte is
/// ignored.
pub open spec fn pcm_samples(b: Seq<u8>) -> Seq<i16> {
    Seq::new(b.len() / 2, |k: int| ((b[2 * k] + 256 * b[2 * k + 1]) as u16) as i16)
}

/// Decoding the encoding of any run of samples gives the samples back.
pub proof fn lemma_pcm_round_trip(s: Seq<i16>)
    ensures
        pcm_samples(pcm_bytes(s)) == s,
{
    let b = pcm_bytes(s);
    assert forall|k: int| 0 <= k < s.len() implies pcm_samples(b)[k] == s[k] by {
        let x = s[k];
        assert((2 * k) / 2 == k && (2 * k) % 2 == 0);
        assert((2 * k + 1) / 2 == k && (2 * k + 1) % 2 == 1);
        assert(b[2 * k] == ((x as u16) % 256) as u8);
        assert(b[2 * k + 1] == ((x as u16) / 256) as u8);
        assert(((x as u16) % 256) + 256 * ((x as u16) / 256) == x as u16);
        assert(((x as u16) as i16) == x) by (bit_vector);
    }
    assert(pcm_samples(b) =~= s);
}

/// PCM decoder: little-endian byte pairs to samples.
pub struct PcmDecoder {
    fmt: SampleFormat,
}

impl PcmDecoder {
    pub closed spec fn format(&self) -> SampleFormat {
        self.fmt
    }

    /// A decoder reporting 48 kHz / 16-bit / stereo.
    pub fn new() -> (d: Self)
        ensures
            d.format() == (SampleFormat { rate: 48_000, bits: 16, channels: 2 }),
    {
        PcmDecoder { fmt: SampleFormat::default() }
    }
}

impl Default for PcmDecoder {
    fn default() -> (d: Self)
        ensures
            d.format() == (SampleFormat { rate: 48_000, bits: 16, channels: 2 }),
    {
        PcmDecoder::new()
    }
}

impl Decoder for PcmDecoder {
    /// Append the samples of every whole byte pair of `input`.
    fn decode(&mut self, input: &[u8], output: &mut Vec<i16>) -> (r: Result<()>)
        ensures
            r is Ok,
            final(output)@ == old(output)@ + pcm_samples(input@),
    {
        let n = input.len() / 2;
        let mut k: usize = 0;
        let mut j: usize = 0;
        while k < n
            invariant
                n == input@.len() / 2,
                2 * n <= input@.len(),
                0 <= k <= n,
                j == 2 * k,
                output@ == old(output)@ + pcm_samples(input@).take(k as int),
            decreases n - k,
        {
            let v: u16 = input[j] as u16 + (input[j + 1] as u16) * 256;
            output.push(v as i16);
            k = k + 1;
            j = j + 2;
            assert(output@ =~= old(output)@ + pcm_samples(input@).take(k as int));
        }
        assert(pcm_samples(input@).take(n as int) =~= pcm_samples(input@));
        Ok(())
    }

    fn sample_format(&self) -> (f: SampleFormat)
        ensures
            f == self.format(),
    {
        self.fmt
    }
}

/// PCM encoder: samples to little-endian byte pairs.
pub struct PcmEncoder {
    fmt: SampleFormat,
}

impl PcmEncoder {
    pub closed spec fn format(&self) -> SampleFormat {
        self.fmt
    }

    pub fn new(fmt: SampleFormat) -> (e: Self)
        ensures
            e.format() == fmt,
    {
        PcmEncoder { fmt }
    }
}

impl Encoder for PcmEncoder {
    /// Append the little-endian bytes of every sample.
    fn encode(&mut self, pcm: &[i16], output: &mut Vec<u8>) -> (r: Result<()>)
        ensures
            r is Ok,
            final(output)@ == old(output)@ + pcm_bytes(pcm@),
    {
        let mut i: usize = 0;
        while i < pcm.len()
            invariant
                0 <= i <= pcm@.len(),
                output@ == old(output)@ + pcm_bytes(pcm@.take(i as int)),
            decreases pcm@.len() - i,
        {
            let x = pcm[i];
            let u = x as u16;
            output.push((u % 256) as u8);
            output.push((u / 256) as u8);
            i = i + 1;
            assert(output@ =~= old(output)@ + pcm_bytes(pcm@.take(i as int))) by {
                let t = pcm@.take(i as int);
                assert forall|j: int| 0 <= j < 2 * i implies #[trigger] pcm_bytes(t)[j] == (
                old(output)@ + pcm_bytes(t))[old(output)@.len() + j] by {}
            }
        }
        assert(pcm@.take(pcm@.len() as int) =~= pcm@);
        Ok(())
    }

    fn sample_format(&self) -> (f: SampleFormat)
        ensures
            f == self.format(),
    {
        self.fmt
    }

    fn codec_name(&self) -> (s: &'static str)
        ensures
            s@ == "pcm"@,
    {
        "pcm"
    }

    /// The 12-byte Opus/PCM header of this encoder's format.
    fn codec_header(&self) -> (h: Vec<u8>)
        ensures
            h@ == opus_header_bytes(self.format().rate, self.format().bits, self.format().channels),
    {
        opus_codec_header(self.fmt.rate, self.fmt.bits, self.fmt.channels)
    }
}

} // verus!
