//! `GroupSync` — the group-wide playout timeline the server broadcasts.
//!
//! ```text
//! i64  server_now_us
//! i64  group_offset_us
//! i32  rate_ppm
//! f32  source_quality   (optional; absent in older 20-byte payloads)
//! ```
//!
//! The quality is an IEEE-754 single-precision value carried by its bit
//! pattern; the library never interprets it.

use vstd::prelude::*;
use crate::error::{Result, protocol_error_number_suffix};
use crate::protocol::wire::{
    WireRead, WireWrite, le_i32, le_i64, le_u32, i32_bytes, i64_bytes, u32_bytes, lemma_fixed_at,
};

verus! {

/// Group playout timeline synchronisation.
#[derive(Debug, Clone, Copy, PartialEq, Eq, Structural)]
pub struct GroupSync {
    /// Server wall-clock time when the message was built (µs).
    pub server_now_us: i64,
    /// Target group offset (server − local) in µs.
    pub group_offset_us: i64,
    /// Playback-rate correction in parts per million.
    pub rate_ppm: i32,
    /// Bit pattern of the `f32` sync-source quality (0.0 – 1.0).
    pub source_quality_bits: u32,
}

/// The message a payload encodes: 20 bytes at least; the quality defaults
/// to the bits of `0.0` when the payload stops after the rate.
pub open spec fn parse_group_sync(p: Seq<u8>) -> Option<GroupSync> {
    if p.len() < 20 {
        None
    } else {
        Some(
            GroupSync {
                server_now_us: le_i64(p, 0),
                group_offset_us: le_i64(p, 8),
                rate_ppm: le_i32(p, 16),
                source_quality_bits: if p.len() >= 24 { le_u32(p, 20) as u32 } else { 0 },
            },
        )
    }
}

pub open spec fn group_sync_bytes(m: GroupSync) -> Seq<u8> {
    i64_bytes(m.server_now_us) + i64_bytes(m.group_offset_us) + i32_bytes(m.rate_ppm) + u32_bytes(
        m.source_quality_bits,
    )
}

impl GroupSync {
    /// Decode; fewer than 20 bytes is a protocol error.
    pub fn decode(payload: &[u8]) -> (r: Result<Self>)
        ensures
            match r {
                Ok(m) => parse_group_sync(payload@) == Some(m),
                Err(e) => parse_group_sync(payload@) is None && e is Protocol,
            },
    {
        if payload.len() < 20 {
            return Err(
                protocol_error_number_suffix(
                    "GroupSync payload too short: ",
                    payload.len() as u64,
                    " bytes",
                ),
            );
        }
        let mut r = WireRead::new(payload);
        let server_now_us = r.read_i64()?;
        let group_offset_us = r.read_i64()?;
        let rate_ppm = r.read_i32()?;
        let source_quality_bits = if payload.len() >= 24 {
            r.read_u32()?
        } else {
            0
        };
        Ok(GroupSync { server_now_us, group_offset_us, rate_ppm, source_quality_bits })
    }

    /// Encode as 24 little-endian bytes.
    pub fn encode(&self) -> (v: Vec<u8>)
        ensures
            v@ == group_sync_bytes(*self),
    {
        let mut w = WireWrite::with_capacity(24);
        w.write_i64(self.server_now_us);
        w.write_i64(self.group_offset_us);
        w.write_i32(self.rate_ppm);
        w.write_u32(self.source_quality_bits);
        let v = w.finish();
        assert(v@ =~= group_sync_bytes(*self));
        v
    }
}

/// Every message decodes from its encoding.
pub proof fn lemma_group_sync_round_trip(m: GroupSync)
    ensures
        parse_group_sync(group_sync_bytes(m)) == Some(m),
{
    let a = i64_bytes(m.server_now_us);
    let b = i64_bytes(m.group_offset_us);
    let c = i32_bytes(m.rate_ppm);
    let d = u32_bytes(m.source_quality_bits);
    let all = group_sync_bytes(m);
    let e = Seq::<u8>::empty();
    assert(le_i64(all, 0) == m.server_now_us) by {
        lemma_fixed_at(e, b + c + d, 0, 0, 0, m.server_now_us);
        assert(e + a + (b + c + d) =~= all);
    }
    assert(le_i64(all, 8) == m.group_offset_us) by {
        lemma_fixed_at(a, c + d, 0, 0, 0, m.group_offset_us);
        assert(a + b + (c + d) =~= all);
    }
    assert(le_i32(all, 16) == m.rate_ppm) by {
        lemma_fixed_at(a + b, d, 0, 0, m.rate_ppm, 0);
        assert(a + b + c + d =~= all);
    }
    assert(le_u32(all, 20) == m.source_quality_bits) by {
        lemma_fixed_at(a + b + c, e, 0, m.source_quality_bits, 0, 0);
        assert(a + b + c + d + e =~= all);
    }
}

} // verus!
