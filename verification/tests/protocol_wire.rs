use sonium::protocol::header::{MessageHeader, MessageType, Timestamp, HEADER_SIZE};
use sonium::protocol::messages::codec_header::{opus_codec_header, parse_opus_codec_header, CodecHeader};
use sonium::protocol::messages::error::ErrorMsg;
use sonium::protocol::messages::json_frame::{decode_json_text, encode_json_text, ClientInfo, Hello, ServerSettings};
use sonium::protocol::messages::message::frame_message;
use sonium::protocol::messages::time::TimeMsg;
use sonium::protocol::messages::wire_chunk::WireChunk;
use serde_json::Value;

const TIME_REQUEST_FIXTURE: &[u8] = &[
    0x04, 0x00, 0x01, 0x00, 0x00, 0x00, 0x00, 0x00, 0x00, 0x00, 0x00, 0x00, 0x00, 0x00, 0x00, 0x00,
    0x00, 0x00, 0x00, 0x00, 0x00, 0x00, 0x08, 0x00, 0x00, 0x00, 0x00, 0x00, 0x00, 0x00, 0x00, 0x00,
    0x00, 0x00,
];

const OPUS_CODEC_HDR_FIXTURE: &[u8] = &[
    0x01, 0x00, 0x00, 0x00, 0x00, 0x00, 0x00, 0x00, 0x00, 0x00, 0x00, 0x00, 0x00, 0x00, 0x00, 0x00,
    0x00, 0x00, 0x00, 0x00, 0x00, 0x00, 0x18, 0x00, 0x00, 0x00, 0x04, 0x00, 0x00, 0x00, 0x6F, 0x70,
    0x75, 0x73, 0x0C, 0x00, 0x00, 0x00, 0x53, 0x55, 0x50, 0x4F, 0x80, 0xBB, 0x00, 0x00, 0x10, 0x00,
    0x02, 0x00,
];

fn wire(t: MessageType, payload: &[u8]) -> Vec<u8> {
    frame_message(MessageHeader::new(t, 0), payload)
}

#[test]
fn wire_chunk_type_id_is_2() {
    let chunk = WireChunk::new(Timestamp::default(), vec![1, 2, 3]);
    let bytes = wire(MessageType::WireChunk, &chunk.encode());
    assert_eq!(u16::from_le_bytes([bytes[0], bytes[1]]), 2u16);
}

#[test]
fn payload_size_field_is_the_payload_length() {
    let bytes = wire(MessageType::Time, &TimeMsg::zero().encode());
    let declared = u32::from_le_bytes([bytes[22], bytes[23], bytes[24], bytes[25]]);
    assert_eq!(declared as usize, bytes.len() - HEADER_SIZE);
}

#[test]
fn codec_header_opus_full_wire_round_trip() {
    let orig = CodecHeader::new("opus", opus_codec_header(48_000, 16, 2));
    let bytes = wire(MessageType::CodecHeader, &orig.encode());
    let hdr = MessageHeader::from_bytes(&bytes[..HEADER_SIZE]).unwrap();
    assert_eq!(hdr.msg_type, MessageType::CodecHeader);
    let ch = CodecHeader::decode(&bytes[HEADER_SIZE..]).unwrap();
    assert_eq!(ch.codec, "opus");
    let (rate, bits, channels) = parse_opus_codec_header(&ch.header_data).unwrap();
    assert_eq!((rate, bits, channels), (48_000, 16, 2));
}

#[test]
fn wire_chunk_timestamp_survives_full_wire() {
    let ts = Timestamp { sec: 1_700_000_123, usec: 456_789 };
    let bytes = wire(MessageType::WireChunk, &WireChunk::new(ts, vec![0xAA; 320]).encode());
    let c = WireChunk::decode(&bytes[HEADER_SIZE..]).unwrap();
    assert_eq!(c.timestamp.sec, 1_700_000_123);
    assert_eq!(c.timestamp.usec, 456_789);
    assert_eq!(c.data.len(), 320);
}

#[test]
fn time_msg_latency_preserved() {
    let t = TimeMsg { latency: Timestamp { sec: 0, usec: 7_432 } };
    let bytes = wire(MessageType::Time, &t.encode());
    let tm = TimeMsg::decode(&bytes[HEADER_SIZE..]).unwrap();
    assert_eq!(tm.latency.usec, 7_432);
}

#[test]
fn error_msg_code_and_message() {
    let err = ErrorMsg { code: 401, message: "Unauthorized".into(), detail: "bad token".into() };
    let bytes = wire(MessageType::ErrorMsg, &err.encode());
    let e = ErrorMsg::decode(&bytes[HEADER_SIZE..]).unwrap();
    assert_eq!(e.code, 401);
    assert_eq!(e.message, "Unauthorized");
    assert_eq!(e.detail, "bad token");
}

#[test]
fn parse_time_request_fixture() {
    let hdr = MessageHeader::from_bytes(&TIME_REQUEST_FIXTURE[..HEADER_SIZE]).unwrap();
    assert_eq!(hdr.msg_type, MessageType::Time);
    assert_eq!(hdr.id, 1);
    assert_eq!(hdr.payload_size, 8);
    let t = TimeMsg::decode(&TIME_REQUEST_FIXTURE[HEADER_SIZE..]).unwrap();
    assert_eq!(t.latency.sec, 0);
    assert_eq!(t.latency.usec, 0);
}

#[test]
fn encode_time_request_matches_fixture() {
    let mut hdr = MessageHeader::new(MessageType::Time, 8);
    hdr.id = 1;
    hdr.sent = Timestamp::default();
    hdr.received = Timestamp::default();
    let encoded = frame_message(hdr, &TimeMsg::zero().encode());
    assert_eq!(&encoded[0..4], &TIME_REQUEST_FIXTURE[0..4], "type+id mismatch");
    assert_eq!(&encoded[HEADER_SIZE..], &TIME_REQUEST_FIXTURE[HEADER_SIZE..], "payload mismatch");
    assert_eq!(encoded, TIME_REQUEST_FIXTURE);
}

#[test]
fn parse_opus_codec_header_fixture() {
    let hdr = MessageHeader::from_bytes(&OPUS_CODEC_HDR_FIXTURE[..HEADER_SIZE]).unwrap();
    assert_eq!(hdr.msg_type, MessageType::CodecHeader);
    assert_eq!(hdr.payload_size, 24);
    let ch = CodecHeader::decode(&OPUS_CODEC_HDR_FIXTURE[HEADER_SIZE..]).unwrap();
    assert_eq!(ch.codec, "opus");
    let (rate, bits, channels) = parse_opus_codec_header(&ch.header_data).unwrap();
    assert_eq!((rate, bits, channels), (48_000, 16, 2));
}

fn json_payload(m: serde_json::Map<String, Value>) -> Vec<u8> {
    encode_json_text(&serde_json::to_string(&Value::Object(m)).unwrap())
}

fn json_of(payload: &[u8]) -> Value {
    serde_json::from_str(&decode_json_text(payload).unwrap()).unwrap()
}

fn hello_payload(h: &Hello) -> Vec<u8> {
    let mut m = serde_json::Map::new();
    m.insert("MAC".to_string(), Value::from(h.mac.clone()));
    m.insert("HostName".to_string(), Value::from(h.hostname.clone()));
    m.insert("Version".to_string(), Value::from(h.version.clone()));
    m.insert("ClientName".to_string(), Value::from(h.client_name.clone()));
    m.insert("OS".to_string(), Value::from(h.os.clone()));
    m.insert("Arch".to_string(), Value::from(h.arch.clone()));
    m.insert("Instance".to_string(), Value::from(h.instance));
    m.insert("ID".to_string(), Value::from(h.id.clone()));
    m.insert("SnapStreamProtocolVersion".to_string(), Value::from(h.protocol_version));
    json_payload(m)
}

fn server_settings_payload(s: &ServerSettings) -> Vec<u8> {
    let mut m = serde_json::Map::new();
    m.insert("bufferMs".to_string(), Value::from(s.buffer_ms));
    m.insert("latency".to_string(), Value::from(s.latency));
    m.insert("volume".to_string(), Value::from(s.volume));
    m.insert("muted".to_string(), Value::from(s.muted));
    json_payload(m)
}

fn client_info_payload(c: &ClientInfo) -> Vec<u8> {
    let mut m = serde_json::Map::new();
    m.insert("volume".to_string(), Value::from(c.volume));
    m.insert("muted".to_string(), Value::from(c.muted));
    json_payload(m)
}

#[test]
fn header_type_field_is_first_2_bytes_le() {
    let bytes = wire(MessageType::Hello, &hello_payload(&Hello::new("h", "id", "0.1.0", "linux", "x86_64")));
    let type_raw = u16::from_le_bytes([bytes[0], bytes[1]]);
    assert_eq!(type_raw, 5u16, "Hello = type 5");
}

#[test]
fn payload_size_field_matches_actual_payload_len() {
    let bytes = wire(MessageType::ServerSettings, &server_settings_payload(&ServerSettings::default()));
    let declared = u32::from_le_bytes([bytes[22], bytes[23], bytes[24], bytes[25]]);
    let actual = (bytes.len() - HEADER_SIZE) as u32;
    assert_eq!(declared, actual);
}

#[test]
fn hello_full_wire_round_trip() {
    let orig = Hello {
        mac: "de:ad:be:ef:ca:fe".into(),
        hostname: "kitchen-pi".into(),
        version: "0.1.0".into(),
        client_name: "Sonium".into(),
        os: "linux".into(),
        arch: "aarch64".into(),
        instance: 1,
        id: "kitchen-pi-1".into(),
        protocol_version: 2,
    };
    let bytes = wire(MessageType::Hello, &hello_payload(&orig));
    let hdr = MessageHeader::from_bytes(&bytes[..HEADER_SIZE]).unwrap();
    assert_eq!(hdr.msg_type, MessageType::Hello);
    assert_eq!(hdr.payload_size, (bytes.len() - HEADER_SIZE) as u32);
    let h = json_of(&bytes[HEADER_SIZE..]);
    assert_eq!(h["HostName"], "kitchen-pi");
    assert_eq!(h["ID"], "kitchen-pi-1");
    assert_eq!(h["SnapStreamProtocolVersion"], 2);
}

#[test]
fn server_settings_json_encoding() {
    let ss = ServerSettings { buffer_ms: 500, latency: 150, volume: 80, muted: true };
    let bytes = wire(MessageType::ServerSettings, &server_settings_payload(&ss));
    let hdr = MessageHeader::from_bytes(&bytes[..HEADER_SIZE]).unwrap();
    assert_eq!(hdr.msg_type, MessageType::ServerSettings);
    let s = json_of(&bytes[HEADER_SIZE..]);
    assert_eq!(s["bufferMs"], 500);
    assert_eq!(s["latency"], 150);
    assert_eq!(s["volume"], 80);
    assert_eq!(s["muted"], true);
}

#[test]
fn client_info_json_encoding() {
    let ci = ClientInfo { volume: 55, muted: false };
    let bytes = wire(MessageType::ClientInfo, &client_info_payload(&ci));
    let hdr = MessageHeader::from_bytes(&bytes[..HEADER_SIZE]).unwrap();
    assert_eq!(hdr.msg_type, MessageType::ClientInfo);
    let c = json_of(&bytes[HEADER_SIZE..]);
    assert_eq!(c["volume"], 55);
    assert_eq!(c["muted"], false);
}

#[test]
fn simulate_client_connection_sequence() {
    // The sequence a client sends on connect: Hello, a Time request, then ClientInfo.
    let hello = wire(MessageType::Hello, &hello_payload(&Hello::new("bedroom-pi", "bedroom-pi-1", "0.1.0", "linux", "x86_64")));
    let time = wire(MessageType::Time, &TimeMsg::zero().encode());
    let ci = wire(MessageType::ClientInfo, &client_info_payload(&ClientInfo { volume: 75, muted: false }));

    let mut buf = Vec::new();
    buf.extend_from_slice(&hello);
    buf.extend_from_slice(&time);
    buf.extend_from_slice(&ci);

    let mut pos = 0usize;
    let expected_types = [MessageType::Hello, MessageType::Time, MessageType::ClientInfo];
    for expected in &expected_types {
        let hdr = MessageHeader::from_bytes(&buf[pos..pos + HEADER_SIZE]).unwrap();
        assert_eq!(&hdr.msg_type, expected);
        let end = pos + HEADER_SIZE + hdr.payload_size as usize;
        let payload = &buf[pos + HEADER_SIZE..end];
        match hdr.msg_type {
            MessageType::Time => {
                TimeMsg::decode(payload).unwrap();
            }
            _ => {
                json_of(payload);
            }
        }
        pos = end;
    }
    assert_eq!(pos, buf.len(), "all bytes consumed");
}
