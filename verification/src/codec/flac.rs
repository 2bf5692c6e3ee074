//! FLAC stream framing: finding the first frame after the metadata blocks,
//! and wrapping a bare frame in a minimal stream for a FLAC decoder.

use vstd::prelude::*;
use crate::sample_format::SampleFormat;

verus! {

/// Whether `d` starts with the `fLaC` magic.
pub open spec fn has_flac_magic(d: Seq<u8>) -> bool {
    d.len() >= 4 && d[0] == 0x66 && d[1] == 0x4C && d[2] == 0x61 && d[3] == 0x43
}

/// Offset just after the metadata block at `pos` and every block after it up
/// to the one flagged last, if those blocks fit in `d`.
pub open spec fn frame_offset_from(d: Seq<u8>, pos: int) -> Option<int>
    decreases d.len() - pos,
{
    if pos < 0 || pos + 4 > d.len() {
        None
    } else {
        let block_len = d[pos + 1] * 65536 + d[pos + 2] * 256 + d[pos + 3];
        let next = pos + 4 + block_len;
        if next > d.len() {
            None
        } else if d[pos] >= 0x80 {
            Some(next)
        } else {
            frame_offset_from(d, next)
        }
    }
}

/// Byte offset of the first frame of a FLAC stream: after the magic and all
/// metadata blocks.
pub open spec fn first_frame_offset_spec(d: Seq<u8>) -> Option<int> {
    if !has_flac_magic(d) {
        None
    } else {
        frame_offset_from(d, 4)
    }
}

pub fn find_first_frame_offset(data: &[u8]) -> (r: Option<usize>)
    ensures
        match r {
            Some(p) => first_frame_offset_spec(data@) == Some(p as int),
            None => first_frame_offset_spec(data@) is None,
        },
{
    if data.len() < 4 || data[0] != 0x66 || data[1] != 0x4C || data[2] != 0x61 || data[3] != 0x43 {
        return None;
    }
    let mut pos: usize = 4;
    loop
        invariant
            4 <= pos <= data@.len(),
            first_frame_offset_spec(data@) == frame_offset_from(data@, pos as int),
        decreases data@.len() - pos,
    {
        if data.len() - pos < 4 {
            return None;
        }
        let block_len: usize = (data[pos + 1] as usize) * 65536 + (data[pos + 2] as usize) * 256
            + data[pos + 3] as usize;
        if block_len > data.len() - pos - 4 {
            return None;
        }
        let next = pos + 4 + block_len;
        if data[pos] >= 0x80 {
            return Some(next);
        }
        pos = next;
    }
}

/// The packed sample-rate / channels / bits field of a STREAMINFO block, as
/// the stream builder computes it (bits above 64 are lost).
pub open spec fn streaminfo_packed(rate: u32, channels: u16, bits: u16) -> u64 {
    ((rate as u64) << 44u64) | ((((channels - 1) as u32) as u64) << 41u64) | ((((bits - 1) as u32)
        as u64) << 36u64)
}

pub open spec fn be_u16_bytes(v: u16) -> Seq<u8> {
    seq![(v / 256) as u8, (v % 256) as u8]
}

pub open spec fn be_u64_bytes(v: u64) -> Seq<u8> {
    Seq::new(8, |i: int| ((v >> ((56 - 8 * i) as u64)) & 0xff) as u8)
}

/// A minimal FLAC stream around one bare frame: magic, a STREAMINFO block
/// flagged last with the block size as both minimum and maximum, unknown
/// frame sizes and sample count, a zero MD5, then the frame.
pub open spec fn minimal_flac_stream_bytes(fmt: SampleFormat, block_size: u32, frame: Seq<u8>) -> Seq<u8> {
    seq![0x66u8, 0x4C, 0x61, 0x43] + seq![0x80u8, 0, 0, 34] + be_u16_bytes(block_size as u16)
        + be_u16_bytes(block_size as u16) + Seq::new(6, |i: int| 0u8) + be_u64_bytes(
        streaminfo_packed(fmt.rate, fmt.channels, fmt.bits),
    ) + Seq::new(16, |i: int| 0u8) + frame
}

fn push_zeros(out: &mut Vec<u8>, n: usize)
    ensures
        final(out)@ == old(out)@ + Seq::new(n as nat, |i: int| 0u8),
{
    let mut z: usize = 0;
    while z < n
        invariant
            0 <= z <= n,
            out@ == old(out)@ + Seq::new(z as nat, |i: int| 0u8),
        decreases n - z,
    {
        out.push(0);
        z = z + 1;
        assert(out@ =~= old(out)@ + Seq::new(z as nat, |i: int| 0u8));
    }
}

fn push_be_u64(out: &mut Vec<u8>, v: u64)
    ensures
        final(out)@ == old(out)@ + be_u64_bytes(v),
{
    let mut i: usize = 0;
    while i < 8
        invariant
            0 <= i <= 8,
            out@ == old(out)@ + be_u64_bytes(v).take(i as int),
        decreases 8 - i,
    {
        let shift: u64 = 56 - 8 * (i as u64);
        out.push(((v >> shift) & 0xff) as u8);
        assert(be_u64_bytes(v)[i as int] == ((v >> shift) & 0xff) as u8);
        i = i + 1;
        assert(out@ =~= old(out)@ + be_u64_bytes(v).take(i as int));
    }
    assert(be_u64_bytes(v).take(8) =~= be_u64_bytes(v));
}

pub fn build_minimal_flac_stream(fmt: &SampleFormat, block_size: u32, frame_data: &[u8]) -> (out: Vec<u8>)
    requires
        fmt.channels >= 1,
        fmt.bits >= 1,
    ensures
        out@ == minimal_flac_stream_bytes(*fmt, block_size, frame_data@),
{
    let mut out: Vec<u8> = Vec::new();
    out.push(0x66);
    out.push(0x4C);
    out.push(0x61);
    out.push(0x43);
    out.push(0x80);
    out.push(0x00);
    out.push(0x00);
    out.push(34);
    let bs: u16 = #[verifier::truncate] (block_size as u16);
    out.push((bs / 256) as u8);
    out.push((bs % 256) as u8);
    out.push((bs / 256) as u8);
    out.push((bs % 256) as u8);
    let ghost p1 = out@;
    assert(p1 =~= seq![0x66u8, 0x4C, 0x61, 0x43] + seq![0x80u8, 0, 0, 34] + be_u16_bytes(bs)
        + be_u16_bytes(bs));
    push_zeros(&mut out, 6);
    let channels: u32 = fmt.channels as u32;
    let bps: u32 = fmt.bits as u32;
    let packed: u64 = ((fmt.rate as u64) << 44u64) | (((channels - 1) as u64) << 41u64) | (((bps
        - 1) as u64) << 36u64);
    assert(packed == streaminfo_packed(fmt.rate, fmt.channels, fmt.bits));
    push_be_u64(&mut out, packed);
    push_zeros(&mut out, 16);
    out.extend_from_slice(frame_data);
    assert(out@ =~= minimal_flac_stream_bytes(*fmt, block_size, frame_data@));
    out
}

/// The minimal stream around a frame finds that frame again: its first frame
/// starts right after the magic and the 38-byte STREAMINFO block.
pub proof fn lemma_minimal_stream_frame_offset(fmt: SampleFormat, block_size: u32, frame: Seq<u8>)
    ensures
        first_frame_offset_spec(minimal_flac_stream_bytes(fmt, block_size, frame)) == Some(42int),
{
    let d = minimal_flac_stream_bytes(fmt, block_size, frame);
    let head = seq![0x66u8, 0x4C, 0x61, 0x43] + seq![0x80u8, 0, 0, 34];
    let rest = be_u16_bytes(block_size as u16) + be_u16_bytes(block_size as u16) + Seq::new(
        6,
        |i: int| 0u8,
    ) + be_u64_bytes(streaminfo_packed(fmt.rate, fmt.channels, fmt.bits)) + Seq::new(16, |i: int| 0u8)
        + frame;
    assert(d =~= head + rest);
    assert(d.len() == 42 + frame.len());
    assert(d[0] == 0x66 && d[1] == 0x4C && d[2] == 0x61 && d[3] == 0x43);
    assert(d[4] == 0x80 && d[5] == 0 && d[6] == 0 && d[7] == 34);
}

} // verus!
