//! `CodecHeader` — codec initialisation data sent once per stream.
//!
//! ```text
//! u32  codec_name_length
//! u8[] codec_name
//! u32  header_data_length
//! u8[] header_data
//! ```
//!
//! The 12-byte Opus/PCM `header_data` is the magic `0x4F50_5553`, the sample
//! rate (`u32`), the bits per sample (`u16`) and the channel count (`u16`).

use vstd::prelude::*;
use vstd::utf8::encode_utf8;
use crate::error::{Result, protocol_error, protocol_error_with_hex};
use crate::protocol::wire::{
    WireRead, WireWrite, blob_at, blob_bytes, str_at, str_bytes, le_u16, le_u32, u16_bytes,
    u32_bytes, lemma_blob_at, lemma_str_at, lemma_fixed_at,
};

verus! {

/// Codec initialisation message.
#[derive(Debug, Clone, PartialEq)]
pub struct CodecHeader {
    /// Codec identifier: `"opus"`, `"flac"` or `"pcm"`.
    pub codec: String,
    /// Codec-specific initialisation bytes.
    pub header_data: Vec<u8>,
}

impl View for CodecHeader {
    type V = (Seq<char>, Seq<u8>);

    open spec fn view(&self) -> (Seq<char>, Seq<u8>) {
        (self.codec@, self.header_data@)
    }
}

/// The codec header a payload encodes, if any; bytes after it are ignored.
pub open spec fn parse_codec_header(p: Seq<u8>) -> Option<(Seq<char>, Seq<u8>)> {
    match str_at(p, 0).0 {
        None => None,
        Some(codec) => match blob_at(p, str_at(p, 0).1).0 {
            None => None,
            Some(data) => Some((codec, data)),
        },
    }
}

pub open spec fn codec_header_bytes(v: (Seq<char>, Seq<u8>)) -> Seq<u8> {
    str_bytes(v.0) + blob_bytes(v.1)
}

impl CodecHeader {
    pub fn new(codec: &str, header_data: Vec<u8>) -> (h: Self)
        ensures
            h@ == (codec@, header_data@),
    {
        CodecHeader { codec: String::from_str(codec), header_data }
    }

    /// Decode from a payload; a truncated or non-UTF-8 payload is a protocol
    /// error.
    pub fn decode(payload: &[u8]) -> (r: Result<Self>)
        ensures
            match r {
                Ok(h) => parse_codec_header(payload@) == Some(h@),
                Err(e) => parse_codec_header(payload@) is None && e is Protocol,
            },
    {
        let mut r = WireRead::new(payload);
        let codec = r.read_str()?;
        let header_data = r.read_blob()?;
        Ok(CodecHeader { codec, header_data })
    }

    pub fn encode(&self) -> (v: Vec<u8>)
        ensures
            v@ == codec_header_bytes(self@),
    {
        let mut w = WireWrite::new();
        w.write_str(self.codec.as_str());
        w.write_blob(self.header_data.as_slice());
        w.finish()
    }
}

/// A codec header whose fields fit the `u32` length prefixes decodes to itself.
pub proof fn lemma_codec_header_round_trip(v: (Seq<char>, Seq<u8>))
    requires
        encode_utf8(v.0).len() <= u32::MAX,
        v.1.len() <= u32::MAX,
    ensures
        parse_codec_header(codec_header_bytes(v)) == Some(v),
{
    let e = Seq::<u8>::empty();
    let sb = str_bytes(v.0);
    let db = blob_bytes(v.1);
    let b = codec_header_bytes(v);
    assert(str_at(b, 0) == (Some(v.0), (4 + encode_utf8(v.0).len()) as int)) by {
        assert(e + sb + db =~= b);
        lemma_str_at(e, v.0, db);
    }
    assert(sb.len() == 4 + encode_utf8(v.0).len());
    assert(blob_at(b, sb.len() as int) == (Some(v.1), (sb.len() + 4 + v.1.len()) as int)) by {
        assert(sb + db + e =~= b);
        lemma_blob_at(sb, v.1, e);
    }
}

/// Magic number that opens an Opus/PCM codec header.
pub const OPUS_MAGIC: u32 = 0x4F50_5553;

pub open spec fn opus_header_bytes(rate: u32, bits: u16, channels: u16) -> Seq<u8> {
    u32_bytes(OPUS_MAGIC) + u32_bytes(rate) + u16_bytes(bits) + u16_bytes(channels)
}

/// The `(rate, bits, channels)` an Opus/PCM header holds, if it is one.
pub open spec fn parse_opus_header(d: Seq<u8>) -> Option<(u32, u16, u16)> {
    if d.len() < 12 || le_u32(d, 0) != OPUS_MAGIC {
        None
    } else {
        Some((le_u32(d, 4) as u32, le_u16(d, 8) as u16, le_u16(d, 10) as u16))
    }
}

/// Build the 12-byte Opus/PCM codec header.
pub fn opus_codec_header(rate: u32, bits: u16, channels: u16) -> (h: Vec<u8>)
    ensures
        h@ == opus_header_bytes(rate, bits, channels),
{
    let mut w = WireWrite::with_capacity(12);
    w.write_u32(OPUS_MAGIC);
    w.write_u32(rate);
    w.write_u16(bits);
    w.write_u16(channels);
    w.finish()
}

/// Parse an Opus/PCM codec header into `(rate, bits, channels)`; fewer than
/// 12 bytes or a wrong magic is a protocol error.
pub fn parse_opus_codec_header(data: &[u8]) -> (r: Result<(u32, u16, u16)>)
    ensures
        match r {
            Ok(v) => parse_opus_header(data@) == Some(v),
            Err(e) => parse_opus_header(data@) is None && e is Protocol,
        },
{
    if data.len() < 12 {
        return Err(protocol_error("opus header too short"));
    }
    let mut r = WireRead::new(data);
    let magic = r.read_u32()?;
    if magic != OPUS_MAGIC {
        return Err(protocol_error_with_hex("bad opus magic: ", magic));
    }
    let rate = r.read_u32()?;
    let bits = r.read_u16()?;
    let channels = r.read_u16()?;
    Ok((rate, bits, channels))
}

/// Every Opus/PCM header built by [`opus_codec_header`] parses back to its
/// fields.
pub proof fn lemma_opus_header_round_trip(rate: u32, bits: u16, channels: u16)
    ensures
        parse_opus_header(opus_header_bytes(rate, bits, channels)) == Some((rate, bits, channels)),
{
    let b = opus_header_bytes(rate, bits, channels);
    let e = Seq::<u8>::empty();
    lemma_fixed_at(e, u32_bytes(rate) + u16_bytes(bits) + u16_bytes(channels), 0, OPUS_MAGIC, 0, 0);
    assert(e + u32_bytes(OPUS_MAGIC) + (u32_bytes(rate) + u16_bytes(bits) + u16_bytes(channels)) =~= b);
    lemma_fixed_at(u32_bytes(OPUS_MAGIC), u16_bytes(bits) + u16_bytes(channels), 0, rate, 0, 0);
    assert(u32_bytes(OPUS_MAGIC) + u32_bytes(rate) + (u16_bytes(bits) + u16_bytes(channels)) =~= b);
    lemma_fixed_at(u32_bytes(OPUS_MAGIC) + u32_bytes(rate), u16_bytes(channels), bits, 0, 0, 0);
    assert(u32_bytes(OPUS_MAGIC) + u32_bytes(rate) + u16_bytes(bits) + u16_bytes(channels) =~= b);
    lemma_fixed_at(u32_bytes(OPUS_MAGIC) + u32_bytes(rate) + u16_bytes(bits), e, channels, 0, 0, 0);
    assert(u32_bytes(OPUS_MAGIC) + u32_bytes(rate) + u16_bytes(bits) + u16_bytes(channels) + e =~= b);
}

} // verus!
