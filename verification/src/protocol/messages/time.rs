//! `TimeMsg` — NTP-like clock synchronisation; the payload is the latency as
//! `i32` seconds then `i32` microseconds.

use vstd::prelude::*;
use crate::error::Result;
use crate::protocol::header::Timestamp;
use crate::protocol::wire::{WireRead, WireWrite, le_i32, i32_bytes, lemma_fixed_at};

verus! {

/// Clock synchronisation message, used in both directions.  The client sends
/// it with `latency` zeroed; the server fills in the client-to-server latency.
#[derive(Debug, Clone, Copy, PartialEq, Eq, Structural)]
pub struct TimeMsg {
    /// Server-measured client-to-server latency.
    pub latency: Timestamp,
}

pub open spec fn parse_time_msg(p: Seq<u8>) -> Option<TimeMsg> {
    if p.len() < 8 {
        None
    } else {
        Some(TimeMsg { latency: Timestamp { sec: le_i32(p, 0), usec: le_i32(p, 4) } })
    }
}

pub open spec fn time_msg_bytes(m: TimeMsg) -> Seq<u8> {
    i32_bytes(m.latency.sec) + i32_bytes(m.latency.usec)
}

impl TimeMsg {
    /// A fresh request with the latency zeroed.
    pub fn zero() -> (m: Self)
        ensures
            m.latency == (Timestamp { sec: 0, usec: 0 }),
    {
        TimeMsg { latency: Timestamp { sec: 0, usec: 0 } }
    }

    pub fn decode(payload: &[u8]) -> (r: Result<Self>)
        ensures
            match r {
                Ok(m) => parse_time_msg(payload@) == Some(m),
                Err(e) => parse_time_msg(payload@) is None && e is Protocol,
            },
    {
        let mut r = WireRead::new(payload);
        let sec = r.read_i32()?;
        let usec = r.read_i32()?;
        Ok(TimeMsg { latency: Timestamp { sec, usec } })
    }

    /// The 8-byte payload.
    pub fn encode(&self) -> (v: Vec<u8>)
        ensures
            v@ == time_msg_bytes(*self),
            v@.len() == 8,
    {
        let mut w = WireWrite::with_capacity(8);
        w.write_i32(self.latency.sec);
        w.write_i32(self.latency.usec);
        w.finish()
    }
}

/// Every time message decodes from its encoding.
pub proof fn lemma_time_msg_round_trip(m: TimeMsg)
    ensures
        parse_time_msg(time_msg_bytes(m)) == Some(m),
{
    let e = Seq::<u8>::empty();
    let b = time_msg_bytes(m);
    lemma_fixed_at(e, i32_bytes(m.latency.usec), 0, 0, m.latency.sec, 0);
    assert(e + i32_bytes(m.latency.sec) + i32_bytes(m.latency.usec) =~= b);
    lemma_fixed_at(i32_bytes(m.latency.sec), e, 0, 0, m.latency.usec, 0);
    assert(i32_bytes(m.latency.sec) + i32_bytes(m.latency.usec) + e =~= b);
}

} // verus!
