use sonium::codec::aac::{aac_codec_header, parse_aac_codec_header};
use sonium::codec::flac::{build_minimal_flac_stream, find_first_frame_offset};
use sonium::error::SoniumError;
use sonium::protocol::messages::codec_header::parse_opus_codec_header;
use sonium::protocol::header::MessageHeader;
use sonium::protocol::wire::WireRead;
use sonium::sample_format::SampleFormat;

#[test]
fn aac_header_round_trip() {
    let h = aac_codec_header(44_100, 16, 2);
    assert_eq!(&h[0..4], &[0x20, 0x43, 0x41, 0x41]);
    assert_eq!(parse_aac_codec_header(&h).unwrap(), (44_100, 16, 2));
    assert!(parse_aac_codec_header(&h[..11]).is_err());
}

#[test]
fn bad_magic_messages_are_hexadecimal() {
    let mut h = aac_codec_header(44_100, 16, 2);
    h[0] = 0;
    match parse_aac_codec_header(&h) {
        Err(SoniumError::Protocol(m)) => assert_eq!(m, "bad aac magic: 0x41414300"),
        other => panic!("unexpected {other:?}"),
    }
    match parse_opus_codec_header(&[1, 0, 0, 0, 0, 0, 0, 0, 0, 0, 0, 0]) {
        Err(SoniumError::Protocol(m)) => assert_eq!(m, "bad opus magic: 0x00000001"),
        other => panic!("unexpected {other:?}"),
    }
}

#[test]
fn minimal_flac_stream_has_one_frame_after_streaminfo() {
    let fmt = SampleFormat::new(48_000, 16, 2);
    let frame = [0xFFu8, 0xF8, 1, 2, 3];
    let stream = build_minimal_flac_stream(&fmt, 960, &frame);
    assert_eq!(&stream[0..4], b"fLaC");
    assert_eq!(stream.len(), 4 + 4 + 34 + frame.len());
    assert_eq!(find_first_frame_offset(&stream), Some(42));
    assert_eq!(&stream[42..], &frame);
    // block size 960 = 0x03C0, written twice big-endian
    assert_eq!(&stream[8..12], &[0x03, 0xC0, 0x03, 0xC0]);
}

#[test]
fn flac_frame_offset_walks_every_metadata_block() {
    // magic, a non-last block of 2 bytes, then a last block of 1 byte.
    let data = [b'f', b'L', b'a', b'C', 0x01, 0, 0, 2, 9, 9, 0x84, 0, 0, 1, 7, 0xFF];
    assert_eq!(find_first_frame_offset(&data), Some(15));
    assert_eq!(find_first_frame_offset(&data[..12]), None);
    assert_eq!(find_first_frame_offset(b"OggS"), None);
}

#[test]
fn header_error_messages_carry_numbers() {
    match MessageHeader::from_bytes(&[0u8; 5]) {
        Err(SoniumError::Protocol(m)) => assert_eq!(m, "header too short: 5 < 26"),
        other => panic!("unexpected {other:?}"),
    }
    let data = [1u8, 2, 3];
    let mut r = WireRead::new(&data);
    match r.read_slice(7) {
        Err(SoniumError::Protocol(m)) => assert_eq!(m, "read overflow: need 7, have 3"),
        other => panic!("unexpected {other:?}"),
    }
}

#[test]
fn find_frame_offset_valid_stream() {
    // Build a minimal fLaC stream with an empty STREAMINFO and verify offset.
    let mut data = Vec::new();
    data.extend_from_slice(b"fLaC");
    data.push(0x80); // last block, type 0
    data.push(0);
    data.push(0);
    data.push(34); // body length
    data.extend_from_slice(&[0u8; 34]); // STREAMINFO body
    data.extend_from_slice(b"FRAME"); // fake frame data

    assert_eq!(find_first_frame_offset(&data), Some(42));
}
