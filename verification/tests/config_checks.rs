use sonium::config::{
    validate_auto_buffer, validate_buffer_and_chunk, validate_client_id, AutoBufferConfig, ClientConfig, ServerConfig,
    StreamSource, TransportMode,
};
use sonium::error::SoniumError;

fn config_text(e: SoniumError) -> String {
    match e {
        SoniumError::Config(s) => s,
        other => panic!("expected a configuration error, got {other:?}"),
    }
}

#[test]
fn client_ids_are_restricted_to_safe_ascii() {
    assert!(validate_client_id("kitchen-pi_1").is_ok());
    assert!(validate_client_id("").is_err());
    assert!(validate_client_id(&"a".repeat(96)).is_ok());
    assert!(validate_client_id(&"a".repeat(97)).is_err());
    assert!(validate_client_id("küche").is_err());
    assert!(validate_client_id("a b").is_err());
}

#[test]
fn default_configurations_are_valid() {
    assert!(ServerConfig::default().validate(true, true).is_ok());
    assert!(ClientConfig::default().validate().is_ok());
}

#[test]
fn server_config_rejects_bad_network_settings() {
    let c = ServerConfig::default();
    assert_eq!(config_text(c.validate(false, true).unwrap_err()), "server.bind must be an IP address");
    let mut c = ServerConfig::default();
    c.server.control_port = c.server.stream_port;
    assert_eq!(
        config_text(c.validate(true, true).unwrap_err()),
        "server.stream_port and server.control_port must differ"
    );
    let mut c = ServerConfig::default();
    c.server.max_clients = 0;
    assert!(c.validate(true, true).is_err());
    let mut c = ServerConfig::default();
    c.server.transport.mode = TransportMode::RtpUdp;
    c.server.stream_port = 65534;
    assert!(c.validate(true, true).is_err());
    c.server.transport.udp_port = 5004;
    assert!(c.validate(true, true).is_ok());
}

#[test]
fn chunk_and_buffer_rules() {
    assert!(validate_buffer_and_chunk("server.audio", 200, 10, None).is_ok());
    assert!(validate_buffer_and_chunk("server.audio", 200, 9, None).is_err());
    assert!(validate_buffer_and_chunk("stream", 200, 30, Some("opus")).is_err());
    assert!(validate_buffer_and_chunk("stream", 200, 30, Some("flac")).is_ok());
    assert!(validate_buffer_and_chunk("stream", 5, 10, None).is_err());
    assert!(validate_buffer_and_chunk("stream", 0, 10, None).is_ok());
    assert_eq!(
        config_text(validate_buffer_and_chunk("server.audio", 200, 61, None).unwrap_err()),
        "server.audio.chunk_ms must be between 10 and 60 ms"
    );
}

#[test]
fn auto_buffer_rules() {
    let ok = AutoBufferConfig::default();
    assert!(validate_auto_buffer(&ok, 10).is_ok());
    let bad = AutoBufferConfig { min_ms: 4000, ..AutoBufferConfig::default() };
    assert!(validate_auto_buffer(&bad, 10).is_err());
    let enabled = AutoBufferConfig { enabled: true, min_ms: 20, ..AutoBufferConfig::default() };
    assert!(validate_auto_buffer(&enabled, 40).is_err());
    assert!(validate_auto_buffer(&enabled, 20).is_ok());
}

#[test]
fn stream_overrides_take_precedence() {
    let c = ServerConfig::default();
    let mut s = StreamSource::default();
    assert_eq!(c.effective_buffer_ms(&s), 200);
    assert_eq!(c.effective_chunk_ms(&s), 10);
    s.buffer_ms = Some(500);
    s.chunk_ms = Some(20);
    assert_eq!(c.effective_buffer_ms(&s), 500);
    assert_eq!(c.effective_chunk_ms(&s), 20);
    assert_eq!(c.default_stream().id, "default");
}

#[test]
fn client_config_rules() {
    let mut c = ClientConfig::default();
    c.server_host = "   ".into();
    assert_eq!(config_text(c.validate().unwrap_err()), "server_host must not be empty");
    let mut c = ClientConfig::default();
    c.log.level = "loud".into();
    assert!(c.validate().is_err());
}

#[test]
fn default_stream_is_the_first_configured_stream() {
    let mut c = ServerConfig::default();
    c.streams[0].id = "radio".into();
    c.streams[0].display_name = Some("Radio".into());
    c.streams[0].buffer_ms = Some(300);
    let s = c.default_stream();
    assert_eq!(s.id, "radio");
    assert_eq!(s.display_name.as_deref(), Some("Radio"));
    assert_eq!(s.buffer_ms, Some(300));
    assert_eq!(s.codec, "opus");
    c.streams.clear();
    let d = c.default_stream();
    assert_eq!(d.id, "default");
    assert_eq!(d.source, "-");
}

#[test]
fn stream_errors_name_the_stream_and_come_in_order() {
    let mut c = ServerConfig::default();
    c.streams[0].sample_format.bits = 24;
    assert_eq!(
        config_text(c.validate(true, true).unwrap_err()),
        "stream `default` sample_format.bits must be 16 because the input reader consumes i16 PCM"
    );
    c.streams[0].chunk_ms = Some(5);
    assert_eq!(config_text(c.validate(true, true).unwrap_err()), "stream `default`.chunk_ms must be between 10 and 60 ms");
    let mut c = ServerConfig::default();
    c.streams[0].codec = "flac".into();
    c.streams[0].sample_format.rate = 192_000;
    assert_eq!(
        config_text(c.validate(true, true).unwrap_err()),
        "stream `default` flac sample_format.rate must not exceed 96000"
    );
    let mut c = ServerConfig::default();
    c.log.level = "loud".into();
    assert_eq!(config_text(c.validate(true, true).unwrap_err()), "log.level must be trace, debug, info, warn, or error");
}
