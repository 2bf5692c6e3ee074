//! The 26-byte header that precedes every message payload.
//!
//! ```text
//! Offset  Bytes  Type    Field
//!  0       2     u16     Message type
//!  2       2     u16     Message ID
//!  4       2     u16     Refers-to ID
//!  6       4     i32     Sent seconds
//! 10       4     i32     Sent microseconds
//! 14       4     i32     Received seconds
//! 18       4     i32     Received microseconds
//! 22       4     u32     Payload size
//! ```

use vstd::prelude::*;
use crate::error::{Result, SoniumError, protocol_error_with_number, protocol_error_number_suffix};
use crate::protocol::wire::{WireRead, WireWrite, le_u16, le_u32, le_i32, u16_bytes, u32_bytes, i32_bytes, lemma_u16_round_trip, lemma_u32_round_trip, lemma_i32_round_trip};
use crate::text::decimal;

verus! {

/// Size of the fixed header in bytes.
pub const HEADER_SIZE: usize = 26;

/// Identifies the payload type of a message.
#[derive(Debug, Clone, Copy, PartialEq, Eq, Hash, Structural)]
pub enum MessageType {
    /// Unused base type (0).
    Base,
    /// Codec initialisation data (1).
    CodecHeader,
    /// One encoded audio frame (2).
    WireChunk,
    /// Volume, mute and buffer settings (3).
    ServerSettings,
    /// Clock synchronisation (4).
    Time,
    /// Client greeting (5).
    Hello,
    /// Client volume or mute change (7).
    ClientInfo,
    /// Error notification (8).
    ErrorMsg,
}

/// Wire number of each message type.
pub open spec fn message_type_code(t: MessageType) -> u16 {
    match t {
        MessageType::Base => 0,
        MessageType::CodecHeader => 1,
        MessageType::WireChunk => 2,
        MessageType::ServerSettings => 3,
        MessageType::Time => 4,
        MessageType::Hello => 5,
        MessageType::ClientInfo => 7,
        MessageType::ErrorMsg => 8,
    }
}

/// The message type with wire number `v`, if any.
pub open spec fn message_type_of(v: u16) -> Option<MessageType> {
    if v == 0 {
        Some(MessageType::Base)
    } else if v == 1 {
        Some(MessageType::CodecHeader)
    } else if v == 2 {
        Some(MessageType::WireChunk)
    } else if v == 3 {
        Some(MessageType::ServerSettings)
    } else if v == 4 {
        Some(MessageType::Time)
    } else if v == 5 {
        Some(MessageType::Hello)
    } else if v == 7 {
        Some(MessageType::ClientInfo)
    } else if v == 8 {
        Some(MessageType::ErrorMsg)
    } else {
        None
    }
}

/// Every type survives the trip through its wire number, and every wire
/// number that names a type is that type's number.
pub proof fn lemma_message_type_code_round_trip(t: MessageType, v: u16)
    ensures
        message_type_of(message_type_code(t)) == Some(t),
        message_type_of(v) matches Some(u) ==> message_type_code(u) == v,
{
}

impl MessageType {
    /// Wire number of this type.
    pub fn code(self) -> (v: u16)
        ensures
            v == message_type_code(self),
    {
        match self {
            MessageType::Base => 0,
            MessageType::CodecHeader => 1,
            MessageType::WireChunk => 2,
            MessageType::ServerSettings => 3,
            MessageType::Time => 4,
            MessageType::Hello => 5,
            MessageType::ClientInfo => 7,
            MessageType::ErrorMsg => 8,
        }
    }

    /// Parse a wire number; numbers that name no type are a protocol error.
    pub fn from_code(v: u16) -> (r: Result<MessageType>)
        ensures
            match r {
                Ok(t) => message_type_of(v) == Some(t),
                Err(e) => message_type_of(v) is None && unknown_type_error(e, v),
            },
    {
        match v {
            0 => Ok(MessageType::Base),
            1 => Ok(MessageType::CodecHeader),
            2 => Ok(MessageType::WireChunk),
            3 => Ok(MessageType::ServerSettings),
            4 => Ok(MessageType::Time),
            5 => Ok(MessageType::Hello),
            7 => Ok(MessageType::ClientInfo),
            8 => Ok(MessageType::ErrorMsg),
            n => Err(protocol_error_with_number("unknown message type ", n as u64)),
        }
    }

    /// Display name of this type.
    pub fn name(self) -> (s: &'static str)
        ensures
            s@ == match self {
                MessageType::Base => "Base"@,
                MessageType::CodecHeader => "CodecHeader"@,
                MessageType::WireChunk => "WireChunk"@,
                MessageType::ServerSettings => "ServerSettings"@,
                MessageType::Time => "Time"@,
                MessageType::Hello => "Hello"@,
                MessageType::ClientInfo => "ClientInfo"@,
                MessageType::ErrorMsg => "Error"@,
            },
    {
        match self {
            MessageType::Base => "Base",
            MessageType::CodecHeader => "CodecHeader",
            MessageType::WireChunk => "WireChunk",
            MessageType::ServerSettings => "ServerSettings",
            MessageType::Time => "Time",
            MessageType::Hello => "Hello",
            MessageType::ClientInfo => "ClientInfo",
            MessageType::ErrorMsg => "Error",
        }
    }
}

impl TryFrom<u16> for MessageType {
    type Error = SoniumError;

    fn try_from(v: u16) -> (r: Result<MessageType>)
        ensures
            match r {
                Ok(t) => message_type_of(v) == Some(t),
                Err(e) => message_type_of(v) is None && unknown_type_error(e, v),
            },
    {
        MessageType::from_code(v)
    }
}

/// The error for wire number `v`, which names no message type.
pub open spec fn unknown_type_error(e: SoniumError, v: u16) -> bool {
    e is Protocol && e->Protocol_0@ == "unknown message type "@ + decimal(v as nat)
}

/// `try_from` is [`MessageType::from_code`], whose contract is the exact one.
/// An error value is known by its message only, so the spec value below is
/// not promised to equal the returned one.
impl vstd::std_specs::convert::TryFromSpecImpl<u16> for MessageType {
    open spec fn obeys_try_from_spec() -> bool {
        false
    }

    open spec fn try_from_spec(v: u16) -> Result<MessageType> {
        match message_type_of(v) {
            Some(t) => Ok(t),
            None => Err(choose|e: SoniumError| unknown_type_error(e, v)),
        }
    }
}

/// `(seconds, microseconds)` timestamp as in POSIX `struct timeval`.
#[derive(Debug, Clone, Copy, PartialEq, Eq, Structural)]
pub struct Timestamp {
    /// Seconds since the Unix epoch.
    pub sec: i32,
    /// Microseconds component (0 – 999 999).
    pub usec: i32,
}

impl Default for Timestamp {
    fn default() -> (t: Self)
        ensures
            t.sec == 0 && t.usec == 0,
    {
        Timestamp { sec: 0, usec: 0 }
    }
}

/// `std::time::SystemTime::now()` measured from the Unix epoch, as whole
/// seconds and the sub-second microseconds; a clock before the epoch reads as
/// zero.  Nothing is stated of the value but the microsecond range.
#[verifier::external_body]
pub(crate) fn unix_time() -> (r: (u64, u32))
    ensures
        r.1 < 1_000_000,
{
    let d = std::time::SystemTime::now().duration_since(std::time::UNIX_EPOCH).unwrap_or_default();
    (d.as_secs(), d.subsec_micros())
}

/// Microseconds since the epoch of a wall-clock reading, truncated to i64.
pub open spec fn micros_since_epoch(secs: u64, micros: u32) -> i64 {
    (secs * 1_000_000 + micros) as i64
}

/// Rust's truncating division by 1 000 000.
pub open spec fn trunc_div_million(us: int) -> int {
    if us >= 0 {
        us / 1_000_000
    } else {
        -((-us) / 1_000_000)
    }
}

impl Timestamp {
    /// The current wall-clock time.
    pub fn now() -> (t: Self)
        ensures
            0 <= t.usec < 1_000_000,
    {
        let (secs, micros) = unix_time();
        Timestamp::from_clock(secs, micros)
    }

    /// The timestamp for `secs` seconds and `micros` microseconds since the
    /// epoch; seconds wrap to `i32` as on the wire.
    pub fn from_clock(secs: u64, micros: u32) -> (t: Self)
        requires
            micros < 1_000_000,
        ensures
            t.sec == secs as i32,
            t.usec == micros,
    {
        Timestamp { sec: #[verifier::truncate] (secs as i32), usec: micros as i32 }
    }

    /// Total microseconds since the epoch.
    pub fn to_micros(&self) -> (us: i64)
        ensures
            us == self.sec * 1_000_000 + self.usec,
    {
        self.sec as i64 * 1_000_000 + self.usec as i64
    }

    /// Split a microsecond count into seconds and microseconds with Rust's
    /// truncating division; the seconds wrap to `i32`.
    pub fn from_micros(us: i64) -> (t: Self)
        ensures
            t.sec == trunc_div_million(us as int) as i32,
            t.usec == us - trunc_div_million(us as int) * 1_000_000,
    {
        let q: i64 = if us >= 0 {
            us / 1_000_000
        } else {
            let neg: i64 = -(us + 1);
            -(neg / 1_000_000) - if neg % 1_000_000 == 999_999 { 1 } else { 0 }
        };
        let r: i64 = us - q * 1_000_000;
        Timestamp { sec: #[verifier::truncate] (q as i32), usec: r as i32 }
    }
}

/// A timestamp with non-negative seconds and microseconds below one second
/// comes back unchanged from its microsecond count.
pub proof fn lemma_timestamp_micros_round_trip(t: Timestamp)
    requires
        t.sec >= 0,
        0 <= t.usec < 1_000_000,
    ensures
        ({
            let us = t.sec * 1_000_000 + t.usec;
            &&& trunc_div_million(us) == t.sec
            &&& us - trunc_div_million(us) * 1_000_000 == t.usec
        }),
{
    let us = t.sec * 1_000_000 + t.usec;
    assert(us / 1_000_000 == t.sec) by (nonlinear_arith)
        requires
            us == t.sec * 1_000_000 + t.usec,
            t.sec >= 0,
            0 <= t.usec < 1_000_000,
    ;
}

/// The 26-byte header that precedes every message payload.
#[derive(Debug, Clone)]
pub struct MessageHeader {
    /// Payload type.
    pub msg_type: MessageType,
    /// Sender sequence number.
    pub id: u16,
    /// For replies: the `id` of the message being answered.
    pub refers_to: u16,
    /// Wall-clock time when the message was sent.
    pub sent: Timestamp,
    /// Wall-clock time when the message was received.
    pub received: Timestamp,
    /// Number of payload bytes that follow the header.
    pub payload_size: u32,
}

/// The header encoded in the first 26 bytes of `b`, if they hold one.
pub open spec fn parse_header(b: Seq<u8>) -> Option<MessageHeader> {
    if b.len() < 26 {
        None
    } else {
        match message_type_of(le_u16(b, 0) as u16) {
            None => None,
            Some(t) => Some(
                MessageHeader {
                    msg_type: t,
                    id: le_u16(b, 2) as u16,
                    refers_to: le_u16(b, 4) as u16,
                    sent: Timestamp { sec: le_i32(b, 6), usec: le_i32(b, 10) },
                    received: Timestamp { sec: le_i32(b, 14), usec: le_i32(b, 18) },
                    payload_size: le_u32(b, 22) as u32,
                },
            ),
        }
    }
}

/// The 26 bytes that encode `h`.
pub open spec fn header_bytes(h: MessageHeader) -> Seq<u8> {
    u16_bytes(message_type_code(h.msg_type)) + u16_bytes(h.id) + u16_bytes(h.refers_to)
        + i32_bytes(h.sent.sec) + i32_bytes(h.sent.usec) + i32_bytes(h.received.sec) + i32_bytes(
        h.received.usec,
    ) + u32_bytes(h.payload_size)
}

impl MessageHeader {
    /// Header for an outgoing message: ids zero, `sent` now, `received` zero.
    pub fn new(msg_type: MessageType, payload_size: u32) -> (h: Self)
        ensures
            h.msg_type == msg_type,
            h.id == 0,
            h.refers_to == 0,
            h.received == (Timestamp { sec: 0, usec: 0 }),
            h.payload_size == payload_size,
            0 <= h.sent.usec < 1_000_000,
    {
        MessageHeader {
            msg_type,
            id: 0,
            refers_to: 0,
            sent: Timestamp::now(),
            received: Timestamp { sec: 0, usec: 0 },
            payload_size,
        }
    }

    /// Decode the first 26 bytes of `b`.  Too few bytes, or an unknown
    /// message type, is a protocol error.
    pub fn from_bytes(b: &[u8]) -> (r: Result<Self>)
        ensures
            match r {
                Ok(h) => parse_header(b@) == Some(h),
                Err(e) => parse_header(b@) is None && e is Protocol,
            },
    {
        if b.len() < HEADER_SIZE {
            return Err(protocol_error_number_suffix("header too short: ", b.len() as u64, " < 26"));
        }
        let mut r = WireRead::new(b);
        let code = r.read_u16()?;
        let msg_type = MessageType::from_code(code)?;
        let id = r.read_u16()?;
        let refers_to = r.read_u16()?;
        let sent_sec = r.read_i32()?;
        let sent_usec = r.read_i32()?;
        let recv_sec = r.read_i32()?;
        let recv_usec = r.read_i32()?;
        let payload_size = r.read_u32()?;
        Ok(MessageHeader {
            msg_type,
            id,
            refers_to,
            sent: Timestamp { sec: sent_sec, usec: sent_usec },
            received: Timestamp { sec: recv_sec, usec: recv_usec },
            payload_size,
        })
    }

    /// Encode as 26 little-endian bytes.
    pub fn to_bytes(&self) -> (b: [u8; HEADER_SIZE])
        ensures
            b@ == header_bytes(*self),
    {
        let mut w = WireWrite::with_capacity(HEADER_SIZE);
        w.write_u16(self.msg_type.code());
        w.write_u16(self.id);
        w.write_u16(self.refers_to);
        w.write_i32(self.sent.sec);
        w.write_i32(self.sent.usec);
        w.write_i32(self.received.sec);
        w.write_i32(self.received.usec);
        w.write_u32(self.payload_size);
        let v = w.finish();
        assert(v@ =~= header_bytes(*self));
        let mut out = [0u8; HEADER_SIZE];
        let mut i: usize = 0;
        while i < HEADER_SIZE
            invariant
                v@.len() == HEADER_SIZE,
                0 <= i <= HEADER_SIZE,
                forall|k: int| 0 <= k < i ==> out@[k] == v@[k],
            decreases HEADER_SIZE - i,
        {
            out[i] = v[i];
            i = i + 1;
        }
        assert(out@ =~= v@);
        out
    }
}

/// Decoding the encoding of any header gives that header back.
pub proof fn lemma_header_round_trip(h: MessageHeader)
    ensures
        parse_header(header_bytes(h)) == Some(h),
{
    let b = header_bytes(h);
    assert(b.len() == 26);
    lemma_message_type_code_round_trip(h.msg_type, 0);
    assert(le_u16(b, 0) == message_type_code(h.msg_type)) by {
        assert(b.subrange(0, 2) =~= u16_bytes(message_type_code(h.msg_type)));
        lemma_u16_round_trip(message_type_code(h.msg_type), b, 0);
    }
    assert(le_u16(b, 2) == h.id) by {
        assert(b.subrange(2, 4) =~= u16_bytes(h.id));
        lemma_u16_round_trip(h.id, b, 2);
    }
    assert(le_u16(b, 4) == h.refers_to) by {
        assert(b.subrange(4, 6) =~= u16_bytes(h.refers_to));
        lemma_u16_round_trip(h.refers_to, b, 4);
    }
    assert(le_i32(b, 6) == h.sent.sec) by {
        assert(b.subrange(6, 10) =~= i32_bytes(h.sent.sec));
        lemma_i32_round_trip(h.sent.sec, b, 6);
    }
    assert(le_i32(b, 10) == h.sent.usec) by {
        assert(b.subrange(10, 14) =~= i32_bytes(h.sent.usec));
        lemma_i32_round_trip(h.sent.usec, b, 10);
    }
    assert(le_i32(b, 14) == h.received.sec) by {
        assert(b.subrange(14, 18) =~= i32_bytes(h.received.sec));
        lemma_i32_round_trip(h.received.sec, b, 14);
    }
    assert(le_i32(b, 18) == h.received.usec) by {
        assert(b.subrange(18, 22) =~= i32_bytes(h.received.usec));
        lemma_i32_round_trip(h.received.usec, b, 18);
    }
    assert(le_u32(b, 22) == h.payload_size) by {
        assert(b.subrange(22, 26) =~= u32_bytes(h.payload_size));
        lemma_u32_round_trip(h.payload_size, b, 22);
    }
}

} // verus!
