use sonium::protocol::header::Timestamp;
use sonium::protocol::messages::codec_header::{opus_codec_header, parse_opus_codec_header, CodecHeader};
use sonium::protocol::messages::error::ErrorMsg;
use sonium::protocol::messages::time::TimeMsg;
use sonium::protocol::messages::wire_chunk::WireChunk;

#[test]
fn codec_header_round_trip_opus() {
    let hdr = CodecHeader::new("opus", opus_codec_header(48_000, 16, 2));
    let encoded = hdr.encode();
    let decoded = CodecHeader::decode(&encoded).unwrap();
    assert_eq!(decoded, hdr);
}

#[test]
fn codec_header_round_trip_pcm() {
    let hdr = CodecHeader::new("pcm", opus_codec_header(44_100, 16, 1));
    let decoded = CodecHeader::decode(&hdr.encode()).unwrap();
    assert_eq!(decoded.codec, "pcm");
}

#[test]
fn codec_header_empty_data() {
    let hdr = CodecHeader::new("flac", vec![]);
    let decoded = CodecHeader::decode(&hdr.encode()).unwrap();
    assert_eq!(decoded.header_data, Vec::<u8>::new());
}

#[test]
fn opus_header_encode_decode() {
    let raw = opus_codec_header(48_000, 16, 2);
    let (rate, bits, ch) = parse_opus_codec_header(&raw).unwrap();
    assert_eq!((rate, bits, ch), (48_000, 16, 2));
}

#[test]
fn opus_header_mono_44100() {
    let raw = opus_codec_header(44_100, 16, 1);
    let (rate, bits, ch) = parse_opus_codec_header(&raw).unwrap();
    assert_eq!((rate, bits, ch), (44_100, 16, 1));
}

#[test]
fn opus_header_too_short_returns_error() {
    assert!(parse_opus_codec_header(&[0u8; 11]).is_err());
}

#[test]
fn opus_header_bad_magic_returns_error() {
    let mut raw = opus_codec_header(48_000, 16, 2);
    raw[0] = 0xFF; // corrupt magic
    assert!(parse_opus_codec_header(&raw).is_err());
}

#[test]
fn codec_header_truncated_payload_returns_error() {
    assert!(CodecHeader::decode(&[0u8; 3]).is_err());
}

#[test]
fn opus_codec_header_bytes_are_exact() {
    let raw = opus_codec_header(48_000, 16, 2);
    assert_eq!(raw, vec![0x53, 0x55, 0x50, 0x4F, 0x80, 0xBB, 0x00, 0x00, 16, 0, 2, 0]);
}

#[test]
fn codec_header_wire_layout() {
    let hdr = CodecHeader::new("pcm", vec![9, 8]);
    assert_eq!(hdr.encode(), vec![3, 0, 0, 0, b'p', b'c', b'm', 2, 0, 0, 0, 9, 8]);
}

#[test]
fn round_trip_with_detail() {
    let orig = ErrorMsg { code: 401, message: "Unauthorized".into(), detail: "bad token".into() };
    let decoded = ErrorMsg::decode(&orig.encode()).unwrap();
    assert_eq!(decoded, orig);
}

#[test]
fn round_trip_no_detail() {
    let orig = ErrorMsg::new(403, "Forbidden");
    let decoded = ErrorMsg::decode(&orig.encode()).unwrap();
    assert_eq!(decoded.code, 403);
    assert_eq!(decoded.message, "Forbidden");
    assert_eq!(decoded.detail, "");
}

#[test]
fn error_truncated_payload_returns_error() {
    assert!(ErrorMsg::decode(&[0u8; 3]).is_err());
}

#[test]
fn zero_round_trip() {
    let msg = TimeMsg::zero();
    let back = TimeMsg::decode(&msg.encode()).unwrap();
    assert_eq!(back, msg);
}

#[test]
fn nonzero_latency_round_trip() {
    let msg = TimeMsg { latency: Timestamp { sec: 0, usec: 7_500 } };
    let back = TimeMsg::decode(&msg.encode()).unwrap();
    assert_eq!(back.latency.sec, 0);
    assert_eq!(back.latency.usec, 7_500);
}

#[test]
fn payload_is_exactly_8_bytes() {
    assert_eq!(TimeMsg::zero().encode().len(), 8);
}

#[test]
fn time_truncated_payload_returns_error() {
    assert!(TimeMsg::decode(&[0u8; 7]).is_err());
}

#[test]
fn round_trip_small_payload() {
    let chunk = WireChunk::new(Timestamp { sec: 1_700_000_000, usec: 500_000 }, vec![0xDE, 0xAD, 0xBE, 0xEF]);
    let decoded = WireChunk::decode(&chunk.encode()).unwrap();
    assert_eq!(decoded, chunk);
}

#[test]
fn round_trip_empty_data() {
    let chunk = WireChunk::new(Timestamp::default(), vec![]);
    let decoded = WireChunk::decode(&chunk.encode()).unwrap();
    assert_eq!(decoded.data, Vec::<u8>::new());
}

#[test]
fn round_trip_large_payload() {
    let data = vec![0xAAu8; 4096];
    let chunk = WireChunk::new(Timestamp::now(), data.clone());
    let decoded = WireChunk::decode(&chunk.encode()).unwrap();
    assert_eq!(decoded.data, data);
}

#[test]
fn timestamp_preserved() {
    let ts = Timestamp { sec: 1_234_567_890, usec: 999_999 };
    let chunk = WireChunk::new(ts, vec![1, 2, 3]);
    let back = WireChunk::decode(&chunk.encode()).unwrap();
    assert_eq!(back.timestamp.sec, ts.sec);
    assert_eq!(back.timestamp.usec, ts.usec);
}

#[test]
fn wire_chunk_truncated_payload_returns_error() {
    // Only 7 bytes — not enough for the 12-byte header (sec + usec + size)
    assert!(WireChunk::decode(&[0u8; 7]).is_err());
}

#[test]
fn payload_size_mismatch_returns_error() {
    let mut raw = WireChunk::new(Timestamp::default(), vec![1, 2, 3]).encode();
    // Corrupt the data_size field to claim more data than available
    let size_offset = 8; // after i32+i32
    let bad_size = 9999u32.to_le_bytes();
    raw[size_offset..size_offset + 4].copy_from_slice(&bad_size);
    assert!(WireChunk::decode(&raw).is_err());
}
