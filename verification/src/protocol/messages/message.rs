//! A parsed message and the framing of a payload behind its header.

use vstd::prelude::*;
use crate::protocol::header::{MessageHeader, MessageType, header_bytes, parse_header, lemma_header_round_trip};
use crate::protocol::messages::codec_header::CodecHeader;
use crate::protocol::messages::error::ErrorMsg;
use crate::protocol::messages::json_frame::{Hello, ServerSettings, ClientInfo};
use crate::protocol::messages::time::TimeMsg;
use crate::protocol::messages::wire_chunk::WireChunk;

verus! {

/// A fully parsed message with its decoded payload.
#[derive(Debug, Clone)]
pub enum Message {
    Hello(Hello),
    ServerSettings(ServerSettings),
    ClientInfo(ClientInfo),
    CodecHeader(CodecHeader),
    WireChunk(WireChunk),
    Time(TimeMsg),
    Error(ErrorMsg),
}

pub open spec fn message_type_spec(m: Message) -> MessageType {
    match m {
        Message::Hello(_) => MessageType::Hello,
        Message::ServerSettings(_) => MessageType::ServerSettings,
        Message::ClientInfo(_) => MessageType::ClientInfo,
        Message::CodecHeader(_) => MessageType::CodecHeader,
        Message::WireChunk(_) => MessageType::WireChunk,
        Message::Time(_) => MessageType::Time,
        Message::Error(_) => MessageType::ErrorMsg,
    }
}

impl Message {
    pub fn message_type(&self) -> (t: MessageType)
        ensures
            t == message_type_spec(*self),
    {
        match self {
            Message::Hello(_) => MessageType::Hello,
            Message::ServerSettings(_) => MessageType::ServerSettings,
            Message::ClientInfo(_) => MessageType::ClientInfo,
            Message::CodecHeader(_) => MessageType::CodecHeader,
            Message::WireChunk(_) => MessageType::WireChunk,
            Message::Time(_) => MessageType::Time,
            Message::Error(_) => MessageType::ErrorMsg,
        }
    }
}

/// Wire bytes of a message: `hdr` with its payload size set to the payload's
/// length (wrapping modulo 2^32), then the payload.
pub fn frame_message(hdr: MessageHeader, payload: &[u8]) -> (v: Vec<u8>)
    ensures
        v@ == header_bytes(MessageHeader { payload_size: payload@.len() as u32, ..hdr })
            + payload@,
{
    let mut hdr = hdr;
    hdr.payload_size = #[verifier::truncate] (payload.len() as u32);
    let head = hdr.to_bytes();
    let mut out: Vec<u8> = Vec::new();
    out.extend_from_slice(&head);
    out.extend_from_slice(payload);
    assert(out@ =~= head@ + payload@);
    out
}

/// A framed message parses back to its header, whose payload size is the
/// payload's length, and the payload follows the 26 header bytes.
pub proof fn lemma_frame_round_trip(hdr: MessageHeader, payload: Seq<u8>)
    requires
        payload.len() <= u32::MAX,
    ensures
        ({
            let framed = header_bytes(MessageHeader { payload_size: payload.len() as u32, ..hdr })
                + payload;
            &&& parse_header(framed) == Some(MessageHeader { payload_size: payload.len() as u32, ..hdr })
            &&& framed.subrange(26, framed.len() as int) == payload
        }),
{
    let h = MessageHeader { payload_size: payload.len() as u32, ..hdr };
    let framed = header_bytes(h) + payload;
    lemma_header_round_trip(h);
    assert(header_bytes(h).len() == 26);
    assert(framed.subrange(0, 26) =~= header_bytes(h));
    assert(framed.subrange(26, framed.len() as int) =~= payload);
    assert(parse_header(framed) == parse_header(header_bytes(h))) by {
        assert(framed.subrange(0, 26) == header_bytes(h));
        assert forall|k: int| 0 <= k < 26 implies framed[k] == header_bytes(h)[k] by {
            assert(framed.subrange(0, 26)[k] == header_bytes(h)[k]);
        }
    }
}

} // verus!
