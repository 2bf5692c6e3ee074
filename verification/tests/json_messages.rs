use serde_json::Value;
use sonium::protocol::messages::json_frame::{decode_json_text, encode_json_text, Hello, ServerSettings};
use sonium::protocol::wire::WireWrite;

fn hello_json(h: &Hello) -> Value {
    let mut m = serde_json::Map::new();
    m.insert("MAC".to_string(), Value::from(h.mac.clone()));
    m.insert("HostName".to_string(), Value::from(h.hostname.clone()));
    m.insert("Version".to_string(), Value::from(h.version.clone()));
    m.insert("ClientName".to_string(), Value::from(h.client_name.clone()));
    m.insert("OS".to_string(), Value::from(h.os.clone()));
    m.insert("Arch".to_string(), Value::from(h.arch.clone()));
    m.insert("Instance".to_string(), Value::from(h.instance));
    m.insert("ID".to_string(), Value::from(h.id.clone()));
    m.insert("SnapStreamProtocolVersion".to_string(), Value::from(h.protocol_version));
    Value::Object(m)
}

fn hello_from_json(v: &Value) -> Hello {
    let s = |k: &str| v[k].as_str().unwrap().to_string();
    Hello {
        mac: s("MAC"),
        hostname: s("HostName"),
        version: s("Version"),
        client_name: s("ClientName"),
        os: s("OS"),
        arch: s("Arch"),
        instance: v["Instance"].as_u64().unwrap() as u32,
        id: s("ID"),
        protocol_version: v["SnapStreamProtocolVersion"].as_u64().unwrap() as u32,
    }
}

fn encode_hello(h: &Hello) -> Vec<u8> {
    encode_json_text(&serde_json::to_string(&hello_json(h)).unwrap())
}

fn decode_hello(payload: &[u8]) -> Result<Hello, String> {
    let text = decode_json_text(payload).map_err(|e| format!("{e:?}"))?;
    let v: Value = serde_json::from_str(&text).map_err(|e| e.to_string())?;
    Ok(hello_from_json(&v))
}

fn sample() -> Hello {
    Hello {
        mac: "aa:bb:cc:dd:ee:ff".into(),
        hostname: "test-host".into(),
        version: "0.1.0".into(),
        client_name: "Sonium".into(),
        os: "linux".into(),
        arch: "x86_64".into(),
        instance: 1,
        id: "unique-id-123".into(),
        protocol_version: 2,
    }
}

#[test]
fn hello_round_trip() {
    let orig = sample();
    let encoded = encode_hello(&orig);
    let decoded = decode_hello(&encoded).unwrap();
    assert_eq!(decoded, orig);
}

#[test]
fn round_trip_unicode_hostname() {
    let mut h = sample();
    h.hostname = "küche-pi".into();
    let decoded = decode_hello(&encode_hello(&h)).unwrap();
    assert_eq!(decoded.hostname, "küche-pi");
}

#[test]
fn hello_invalid_json_returns_error() {
    // Build a payload with valid length prefix but garbage JSON
    let mut w = WireWrite::new();
    w.write_str("not-valid-json{{{");
    assert!(decode_hello(&w.finish()).is_err());
}

#[test]
fn empty_payload_returns_error() {
    assert!(decode_hello(&[]).is_err());
}

#[test]
fn new_helper_sets_protocol_version() {
    let h = Hello::new("host", "id", "0.1.0", "linux", "x86_64");
    assert_eq!(h.protocol_version, 2);
    assert_eq!(h.instance, 1);
    assert_eq!(h.client_name, "Sonium");
    assert_eq!(h.mac, "00:00:00:00:00:00");
}

fn settings_json(s: &ServerSettings) -> String {
    let mut m = serde_json::Map::new();
    m.insert("bufferMs".to_string(), Value::from(s.buffer_ms));
    m.insert("latency".to_string(), Value::from(s.latency));
    m.insert("volume".to_string(), Value::from(s.volume));
    m.insert("muted".to_string(), Value::from(s.muted));
    serde_json::to_string(&Value::Object(m)).unwrap()
}

fn decode_settings(payload: &[u8]) -> Result<ServerSettings, String> {
    let text = decode_json_text(payload).map_err(|e| format!("{e:?}"))?;
    let v: Value = serde_json::from_str(&text).map_err(|e| e.to_string())?;
    Ok(ServerSettings {
        buffer_ms: v["bufferMs"].as_i64().ok_or("bufferMs")? as i32,
        latency: v["latency"].as_i64().ok_or("latency")? as i32,
        volume: v["volume"].as_u64().ok_or("volume")? as u8,
        muted: v["muted"].as_bool().ok_or("muted")?,
    })
}

#[test]
fn default_round_trip() {
    let orig = ServerSettings::default();
    let decoded = decode_settings(&encode_json_text(&settings_json(&orig))).unwrap();
    assert_eq!(decoded, orig);
}

#[test]
fn muted_round_trip() {
    let msg = ServerSettings { volume: 0, muted: true, ..Default::default() };
    let decoded = decode_settings(&encode_json_text(&settings_json(&msg))).unwrap();
    assert!(decoded.muted);
    assert_eq!(decoded.volume, 0);
}

#[test]
fn latency_offset_round_trip() {
    let msg = ServerSettings { latency: 150, ..Default::default() };
    let decoded = decode_settings(&encode_json_text(&settings_json(&msg))).unwrap();
    assert_eq!(decoded.latency, 150);
}

#[test]
fn server_settings_invalid_json_returns_error() {
    let mut w = WireWrite::new();
    w.write_str("{{broken");
    assert!(decode_settings(&w.finish()).is_err());
}

#[test]
fn json_frame_is_length_prefixed_utf8() {
    let framed = encode_json_text("{\"a\":\"ü\"}");
    assert_eq!(&framed[0..4], &[10, 0, 0, 0]);
    assert_eq!(decode_json_text(&framed).unwrap(), "{\"a\":\"ü\"}");
}

#[test]
fn json_frame_rejects_invalid_utf8() {
    assert!(decode_json_text(&[2, 0, 0, 0, 0xFF, 0xFE]).is_err());
}

fn client_info_json(c: &sonium::protocol::messages::json_frame::ClientInfo) -> String {
    let mut m = serde_json::Map::new();
    m.insert("volume".to_string(), Value::from(c.volume));
    m.insert("muted".to_string(), Value::from(c.muted));
    serde_json::to_string(&Value::Object(m)).unwrap()
}

fn decode_client_info(payload: &[u8]) -> Result<sonium::protocol::messages::json_frame::ClientInfo, String> {
    let text = decode_json_text(payload).map_err(|e| format!("{e:?}"))?;
    let v: Value = serde_json::from_str(&text).map_err(|e| e.to_string())?;
    Ok(sonium::protocol::messages::json_frame::ClientInfo {
        volume: v["volume"].as_u64().ok_or("volume")? as u8,
        muted: v["muted"].as_bool().ok_or("muted")?,
    })
}

#[test]
fn round_trip_unmuted() {
    let orig = sonium::protocol::messages::json_frame::ClientInfo { volume: 75, muted: false };
    let decoded = decode_client_info(&encode_json_text(&client_info_json(&orig))).unwrap();
    assert_eq!(decoded, orig);
}

#[test]
fn round_trip_muted() {
    let orig = sonium::protocol::messages::json_frame::ClientInfo { volume: 0, muted: true };
    let decoded = decode_client_info(&encode_json_text(&client_info_json(&orig))).unwrap();
    assert_eq!(decoded, orig);
}

#[test]
fn round_trip_max_volume() {
    let orig = sonium::protocol::messages::json_frame::ClientInfo { volume: 100, muted: false };
    let decoded = decode_client_info(&encode_json_text(&client_info_json(&orig))).unwrap();
    assert_eq!(decoded.volume, 100);
}
