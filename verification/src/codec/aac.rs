//! The 12-byte AAC codec header: magic `0x4141_4320` ('AAC '), sample rate
//! (`u32`), bits per sample (`u16`) and channel count (`u16`).

use vstd::prelude::*;
use crate::error::{Result, protocol_error, protocol_error_with_hex};
use crate::protocol::wire::{WireRead, WireWrite, le_u16, le_u32, u16_bytes, u32_bytes, lemma_fixed_at};

verus! {

pub const AAC_MAGIC: u32 = 0x4141_4320;

pub open spec fn aac_header_bytes(rate: u32, bits: u16, channels: u16) -> Seq<u8> {
    u32_bytes(AAC_MAGIC) + u32_bytes(rate) + u16_bytes(bits) + u16_bytes(channels)
}

pub open spec fn parse_aac_header(d: Seq<u8>) -> Option<(u32, u16, u16)> {
    if d.len() < 12 || le_u32(d, 0) != AAC_MAGIC {
        None
    } else {
        Some((le_u32(d, 4) as u32, le_u16(d, 8) as u16, le_u16(d, 10) as u16))
    }
}

/// Build the 12-byte AAC codec header.
pub fn aac_codec_header(rate: u32, bits: u16, channels: u16) -> (h: Vec<u8>)
    ensures
        h@ == aac_header_bytes(rate, bits, channels),
{
    let mut w = WireWrite::with_capacity(12);
    w.write_u32(AAC_MAGIC);
    w.write_u32(rate);
    w.write_u16(bits);
    w.write_u16(channels);
    w.finish()
}

/// Parse an AAC codec header into `(rate, bits, channels)`; fewer than 12
/// bytes or a wrong magic is a protocol error.
pub fn parse_aac_codec_header(data: &[u8]) -> (r: Result<(u32, u16, u16)>)
    ensures
        match r {
            Ok(v) => parse_aac_header(data@) == Some(v),
            Err(e) => parse_aac_header(data@) is None && e is Protocol,
        },
{
    if data.len() < 12 {
        return Err(protocol_error("aac header too short"));
    }
    let mut r = WireRead::new(data);
    let magic = r.read_u32()?;
    if magic != AAC_MAGIC {
        return Err(protocol_error_with_hex("bad aac magic: ", magic));
    }
    let rate = r.read_u32()?;
    let bits = r.read_u16()?;
    let channels = r.read_u16()?;
    Ok((rate, bits, channels))
}

/// Every AAC header built by [`aac_codec_header`] parses back to its fields.
pub proof fn lemma_aac_header_round_trip(rate: u32, bits: u16, channels: u16)
    ensures
        parse_aac_header(aac_header_bytes(rate, bits, channels)) == Some((rate, bits, channels)),
{
    let m = u32_bytes(AAC_MAGIC);
    let r = u32_bytes(rate);
    let b = u16_bytes(bits);
    let c = u16_bytes(channels);
    let all = aac_header_bytes(rate, bits, channels);
    let e = Seq::<u8>::empty();
    assert(le_u32(all, 0) == AAC_MAGIC) by {
        lemma_fixed_at(e, r + b + c, 0, AAC_MAGIC, 0, 0);
        assert(e + m + (r + b + c) =~= all);
    }
    assert(le_u32(all, 4) == rate) by {
        lemma_fixed_at(m, b + c, 0, rate, 0, 0);
        assert(m + r + (b + c) =~= all);
    }
    assert(le_u16(all, 8) == bits) by {
        lemma_fixed_at(m + r, c, bits, 0, 0, 0);
        assert(m + r + b + c =~= all);
    }
    assert(le_u16(all, 10) == channels) by {
        lemma_fixed_at(m + r + b, e, channels, 0, 0, 0);
        assert(m + r + b + c + e =~= all);
    }
}

} // verus!
