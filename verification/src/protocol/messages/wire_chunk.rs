//! `WireChunk` — one encoded audio frame with its playout timestamp.
//!
//! ```text
//! i32  timestamp_sec   (server-clock playout time)
//! i32  timestamp_usec
//! u32  data_size
//! u8[] data
//! ```

use vstd::prelude::*;
use crate::error::Result;
use crate::protocol::header::Timestamp;
use crate::protocol::wire::{
    WireRead, WireWrite, blob_at, blob_bytes, le_i32, i32_bytes, lemma_blob_at, lemma_fixed_at,
};

verus! {

/// One encoded audio frame delivered by the server to all clients; the
/// timestamp is an absolute playout time in the server's clock.
#[derive(Debug, Clone, PartialEq)]
pub struct WireChunk {
    pub timestamp: Timestamp,
    pub data: Vec<u8>,
}

impl View for WireChunk {
    type V = (Timestamp, Seq<u8>);

    open spec fn view(&self) -> (Timestamp, Seq<u8>) {
        (self.timestamp, self.data@)
    }
}

pub open spec fn parse_wire_chunk(p: Seq<u8>) -> Option<(Timestamp, Seq<u8>)> {
    if p.len() < 8 {
        None
    } else {
        match blob_at(p, 8).0 {
            None => None,
            Some(data) => Some((Timestamp { sec: le_i32(p, 0), usec: le_i32(p, 4) }, data)),
        }
    }
}

pub open spec fn wire_chunk_bytes(v: (Timestamp, Seq<u8>)) -> Seq<u8> {
    i32_bytes(v.0.sec) + i32_bytes(v.0.usec) + blob_bytes(v.1)
}

impl WireChunk {
    pub fn new(timestamp: Timestamp, data: Vec<u8>) -> (c: Self)
        ensures
            c@ == (timestamp, data@),
    {
        WireChunk { timestamp, data }
    }

    /// Decode; a payload shorter than its declared data size is a protocol
    /// error.
    pub fn decode(payload: &[u8]) -> (r: Result<Self>)
        ensures
            match r {
                Ok(c) => parse_wire_chunk(payload@) == Some(c@),
                Err(e) => parse_wire_chunk(payload@) is None && e is Protocol,
            },
    {
        let mut r = WireRead::new(payload);
        let sec = r.read_i32()?;
        let usec = r.read_i32()?;
        let data = r.read_blob()?;
        Ok(WireChunk { timestamp: Timestamp { sec, usec }, data })
    }

    pub fn encode(&self) -> (v: Vec<u8>)
        ensures
            v@ == wire_chunk_bytes(self@),
    {
        let mut w = WireWrite::new();
        w.write_i32(self.timestamp.sec);
        w.write_i32(self.timestamp.usec);
        w.write_blob(self.data.as_slice());
        let v = w.finish();
        assert(v@ =~= wire_chunk_bytes(self@));
        v
    }
}

/// A chunk whose data fits the `u32` length prefix decodes to itself.
pub proof fn lemma_wire_chunk_round_trip(v: (Timestamp, Seq<u8>))
    requires
        v.1.len() <= u32::MAX,
    ensures
        parse_wire_chunk(wire_chunk_bytes(v)) == Some(v),
{
    let e = Seq::<u8>::empty();
    let s = i32_bytes(v.0.sec);
    let u = i32_bytes(v.0.usec);
    let d = blob_bytes(v.1);
    let b = wire_chunk_bytes(v);
    assert(le_i32(b, 0) == v.0.sec) by {
        lemma_fixed_at(e, u + d, 0, 0, v.0.sec, 0);
        assert(e + s + (u + d) =~= b);
    }
    assert(le_i32(b, 4) == v.0.usec) by {
        lemma_fixed_at(s, d, 0, 0, v.0.usec, 0);
        assert(s + u + d =~= b);
    }
    assert(blob_at(b, 8).0 == Some(v.1)) by {
        lemma_blob_at(s + u, v.1, e);
        assert(s + u + d + e =~= b);
        assert((s + u).len() == 8);
    }
}

} // verus!
