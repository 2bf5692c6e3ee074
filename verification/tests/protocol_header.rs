use sonium::protocol::header::{MessageHeader, MessageType, Timestamp, HEADER_SIZE};

#[test]
fn message_type_round_trip_all_variants() {
    let variants = [
        (0u16, MessageType::Base),
        (1, MessageType::CodecHeader),
        (2, MessageType::WireChunk),
        (3, MessageType::ServerSettings),
        (4, MessageType::Time),
        (5, MessageType::Hello),
        (7, MessageType::ClientInfo),
        (8, MessageType::ErrorMsg),
    ];
    for (raw, expected) in variants {
        let got = MessageType::try_from(raw).expect("should parse");
        assert_eq!(got, expected, "type id {raw}");
        // The wire number must match the raw value
        assert_eq!(got.code(), raw);
    }
}

#[test]
fn unknown_type_returns_error() {
    // Type 6 is not assigned in the Sonium protocol
    assert!(MessageType::try_from(6u16).is_err());
    assert!(MessageType::try_from(9u16).is_err());
    assert!(MessageType::try_from(u16::MAX).is_err());
}

#[test]
fn timestamp_micros_round_trip() {
    let ts = Timestamp { sec: 1_700_000_000, usec: 123_456 };
    let us = ts.to_micros();
    let back = Timestamp::from_micros(us);
    assert_eq!(back.sec, ts.sec);
    assert_eq!(back.usec, ts.usec);
}

#[test]
fn timestamp_zero() {
    let ts = Timestamp::default();
    assert_eq!(ts.to_micros(), 0);
}

#[test]
fn timestamp_now_is_positive() {
    let ts = Timestamp::now();
    assert!(ts.sec > 1_700_000_000, "clock looks wrong: sec={}", ts.sec);
    assert!(ts.usec >= 0);
}

#[test]
fn header_encode_decode_round_trip() {
    let hdr = MessageHeader {
        msg_type: MessageType::WireChunk,
        id: 42,
        refers_to: 0,
        sent: Timestamp { sec: 1_700_000_000, usec: 123_456 },
        received: Timestamp { sec: 1_700_000_000, usec: 200_000 },
        payload_size: 512,
    };
    let bytes = hdr.to_bytes();
    assert_eq!(bytes.len(), HEADER_SIZE);

    let parsed = MessageHeader::from_bytes(&bytes).unwrap();
    assert_eq!(parsed.msg_type, MessageType::WireChunk);
    assert_eq!(parsed.id, 42);
    assert_eq!(parsed.refers_to, 0);
    assert_eq!(parsed.sent.sec, 1_700_000_000);
    assert_eq!(parsed.sent.usec, 123_456);
    assert_eq!(parsed.received.sec, 1_700_000_000);
    assert_eq!(parsed.received.usec, 200_000);
    assert_eq!(parsed.payload_size, 512);
}

#[test]
fn header_all_message_types_encode() {
    for &t in &[
        MessageType::CodecHeader,
        MessageType::WireChunk,
        MessageType::ServerSettings,
        MessageType::Time,
        MessageType::Hello,
        MessageType::ClientInfo,
        MessageType::ErrorMsg,
    ] {
        let hdr = MessageHeader::new(t, 0);
        let bytes = hdr.to_bytes();
        let back = MessageHeader::from_bytes(&bytes).unwrap();
        assert_eq!(back.msg_type, t);
    }
}

#[test]
fn header_too_short_returns_error() {
    let short = [0u8; HEADER_SIZE - 1];
    assert!(MessageHeader::from_bytes(&short).is_err());
}

#[test]
fn header_little_endian_byte_order() {
    // type = 2 (WireChunk) → bytes [0x02, 0x00]
    let hdr = MessageHeader::new(MessageType::WireChunk, 0);
    let b = hdr.to_bytes();
    assert_eq!(b[0], 0x02, "type LSB");
    assert_eq!(b[1], 0x00, "type MSB");
}

#[test]
fn header_payload_size_zero() {
    let hdr = MessageHeader::new(MessageType::Hello, 0);
    let back = MessageHeader::from_bytes(&hdr.to_bytes()).unwrap();
    assert_eq!(back.payload_size, 0);
}

#[test]
fn header_max_payload_size() {
    let hdr = MessageHeader::new(MessageType::WireChunk, u32::MAX);
    let back = MessageHeader::from_bytes(&hdr.to_bytes()).unwrap();
    assert_eq!(back.payload_size, u32::MAX);
}

#[test]
fn timestamp_from_micros_truncates_toward_zero() {
    let t = Timestamp::from_micros(-1_500_000);
    assert_eq!(t.sec, -1);
    assert_eq!(t.usec, -500_000);
    let t = Timestamp::from_micros(2_000_001);
    assert_eq!(t.sec, 2);
    assert_eq!(t.usec, 1);
}

#[test]
fn header_fields_are_little_endian_at_fixed_offsets() {
    let hdr = MessageHeader {
        msg_type: MessageType::Time,
        id: 0x0102,
        refers_to: 0x0304,
        sent: Timestamp { sec: 1, usec: 2 },
        received: Timestamp { sec: 3, usec: 4 },
        payload_size: 0x0A0B0C0D,
    };
    let b = hdr.to_bytes();
    assert_eq!(&b[0..2], &[4, 0]);
    assert_eq!(&b[2..4], &[0x02, 0x01]);
    assert_eq!(&b[4..6], &[0x04, 0x03]);
    assert_eq!(&b[6..10], &[1, 0, 0, 0]);
    assert_eq!(&b[22..26], &[0x0D, 0x0C, 0x0B, 0x0A]);
}
