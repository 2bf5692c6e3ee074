//! Server and client configuration and the checks that a configuration file
//! must pass beyond what its types express.

use vstd::prelude::*;
use vstd::string::StringSliceAdditionalSpecFns;
use crate::error::SoniumError;
use crate::sample_format::SampleFormat;
use crate::text::{str_equal, trim, trim_spec};

verus! {

/// Largest permitted stable client identifier in bytes.
pub const MAX_CLIENT_ID_LEN: usize = 96;

pub open spec fn client_id_byte_ok(b: u8) -> bool {
    (0x30 <= b <= 0x39) || (0x41 <= b <= 0x5A) || (0x61 <= b <= 0x7A) || b == 0x2D || b == 0x5F
}

/// A client identifier is 1 to 96 bytes of ASCII letters, digits, `-` and `_`.
pub open spec fn client_id_ok(bytes: Seq<u8>) -> bool {
    &&& 1 <= bytes.len() <= 96
    &&& forall|i: int| 0 <= i < bytes.len() ==> client_id_byte_ok(#[trigger] bytes[i])
}

/// Validate a client-supplied stable identifier before admitting a session.
pub fn validate_client_id(id: &str) -> (r: Result<(), SoniumError>)
    ensures
        r is Ok <==> client_id_ok(id.spec_bytes()),
        !(1 <= id.spec_bytes().len() <= MAX_CLIENT_ID_LEN) ==> (r matches Err(e) && e is Protocol
            && e->Protocol_0@ == "client ID must be 1 to 96 ASCII bytes"@),
        1 <= id.spec_bytes().len() <= MAX_CLIENT_ID_LEN && !client_id_ok(id.spec_bytes()) ==> (r matches Err(e)
            && e is Protocol && e->Protocol_0@
            == "client ID may contain only ASCII letters, digits, '-' and '_'"@),
{
    let bytes = id.as_bytes();
    if bytes.len() == 0 || bytes.len() > MAX_CLIENT_ID_LEN {
        return Err(SoniumError::Protocol(String::from_str("client ID must be 1 to 96 ASCII bytes")));
    }
    let mut i: usize = 0;
    while i < bytes.len()
        invariant
            bytes@ == id.spec_bytes(),
            1 <= bytes@.len() <= MAX_CLIENT_ID_LEN,
            0 <= i <= bytes@.len(),
            forall|j: int| 0 <= j < i ==> client_id_byte_ok(#[trigger] bytes@[j]),
        decreases bytes@.len() - i,
    {
        let b = bytes[i];
        let ok = (0x30 <= b && b <= 0x39) || (0x41 <= b && b <= 0x5A) || (0x61 <= b && b <= 0x7A)
            || b == 0x2D || b == 0x5F;
        if !ok {
            return Err(
                SoniumError::Protocol(
                    String::from_str(
                        "client ID may contain only ASCII letters, digits, '-' and '_'",
                    ),
                ),
            );
        }
        i = i + 1;
    }
    Ok(())
}

/// Media transport used for audio delivery.
#[derive(Debug, Clone, Copy, PartialEq, Eq, Structural)]
pub enum TransportMode {
    Tcp,
    RtpUdp,
    Rist,
    QuicDgram,
}

/// Media transport selection (`[server.transport]`): the fields the
/// configuration checks read.
#[derive(Debug, Clone, Copy, PartialEq, Eq, Structural)]
pub struct TransportConfig {
    pub mode: TransportMode,
    /// UDP port; zero means `stream_port + 2`.
    pub udp_port: u16,
}

impl Default for TransportConfig {
    fn default() -> (t: Self)
        ensures
            t == (TransportConfig { mode: TransportMode::Tcp, udp_port: 0 }),
    {
        TransportConfig { mode: TransportMode::Tcp, udp_port: 0 }
    }
}

/// Audio timing knobs.
#[derive(Debug, Clone, Copy, PartialEq, Eq, Structural)]
pub struct AudioConfig {
    /// Global jitter buffer unless a stream overrides it.
    pub buffer_ms: u32,
    /// Global encoded chunk duration unless a stream overrides it.
    pub chunk_ms: u32,
    /// Output-device prefill in ms (0 = derive from `buffer_ms`).
    pub output_prefill_ms: u32,
}

impl Default for AudioConfig {
    fn default() -> (c: Self)
        ensures
            c == (AudioConfig { buffer_ms: 200, chunk_ms: 10, output_prefill_ms: 0 }),
    {
        AudioConfig { buffer_ms: 200, chunk_ms: 10, output_prefill_ms: 0 }
    }
}

/// Server-side automatic jitter-buffer tuning.
#[derive(Debug, Clone, Copy, PartialEq, Eq, Structural)]
pub struct AutoBufferConfig {
    pub enabled: bool,
    pub min_ms: u32,
    pub max_ms: u32,
    pub step_up_ms: u32,
    pub step_down_ms: u32,
    pub cooldown_ms: u64,
}

impl Default for AutoBufferConfig {
    fn default() -> (c: Self)
        ensures
            c == (AutoBufferConfig {
                enabled: false,
                min_ms: 20,
                max_ms: 3000,
                step_up_ms: 120,
                step_down_ms: 40,
                cooldown_ms: 8_000,
            }),
    {
        AutoBufferConfig {
            enabled: false,
            min_ms: 20,
            max_ms: 3000,
            step_up_ms: 120,
            step_down_ms: 40,
            cooldown_ms: 8_000,
        }
    }
}

/// One audio source that the server encodes and broadcasts.
#[derive(Debug, Clone)]
pub struct StreamSource {
    pub id: String,
    pub display_name: Option<String>,
    pub source: String,
    pub codec: String,
    pub sample_format: SampleFormat,
    pub buffer_ms: Option<u32>,
    pub chunk_ms: Option<u32>,
    pub idle_timeout_ms: Option<u32>,
    pub silence_on_idle: bool,
}

/// The built-in stream: stdin, Opus, 48 kHz / 16 bit / stereo, no overrides.
pub open spec fn is_default_stream(s: StreamSource) -> bool {
    &&& s.id@ == "default"@
    &&& s.display_name is None
    &&& s.source@ == "-"@
    &&& s.codec@ == "opus"@
    &&& s.sample_format == (SampleFormat { rate: 48_000, bits: 16, channels: 2 })
    &&& s.buffer_ms is None
    &&& s.chunk_ms is None
    &&& s.idle_timeout_ms is None
    &&& !s.silence_on_idle
}

impl Default for StreamSource {
    fn default() -> (s: Self)
        ensures
            is_default_stream(s),
    {
        StreamSource {
            id: String::from_str("default"),
            display_name: None,
            source: String::from_str("-"),
            codec: String::from_str("opus"),
            sample_format: SampleFormat { rate: 48_000, bits: 16, channels: 2 },
            buffer_ms: None,
            chunk_ms: None,
            idle_timeout_ms: None,
            silence_on_idle: false,
        }
    }
}

#[derive(Debug, Clone)]
pub struct LogConfig {
    pub level: String,
}

impl Default for LogConfig {
    fn default() -> (c: Self)
        ensures
            c.level@ == "info"@,
    {
        LogConfig { level: String::from_str("info") }
    }
}

/// Network and feature flags of the server.
#[derive(Debug, Clone)]
pub struct ServerNet {
    pub bind: String,
    pub control_bind: String,
    pub stream_port: u16,
    pub control_port: u16,
    pub max_clients: usize,
    pub max_known_clients: usize,
    pub mdns: bool,
    pub snapcast_compat: bool,
    pub audio: AudioConfig,
    pub auto_buffer: AutoBufferConfig,
    pub transport: TransportConfig,
}

/// The built-in network settings: media on every interface, the control
/// API on loopback only, a bounded client cap.
pub open spec fn is_default_server_net(n: ServerNet) -> bool {
    &&& n.bind@ == "0.0.0.0"@
    &&& n.control_bind@ == "127.0.0.1"@
    &&& n.stream_port == 1710
    &&& n.control_port == 1711
    &&& n.max_clients == 64
    &&& n.max_known_clients == 256
    &&& n.mdns
    &&& !n.snapcast_compat
    &&& n.audio == (AudioConfig { buffer_ms: 200, chunk_ms: 10, output_prefill_ms: 0 })
    &&& n.transport == (TransportConfig { mode: TransportMode::Tcp, udp_port: 0 })
    &&& n.auto_buffer == (AutoBufferConfig {
        enabled: false,
        min_ms: 20,
        max_ms: 3000,
        step_up_ms: 120,
        step_down_ms: 40,
        cooldown_ms: 8_000,
    })
}

impl Default for ServerNet {
    fn default() -> (n: Self)
        ensures
            is_default_server_net(n),
    {
        ServerNet {
            bind: String::from_str("0.0.0.0"),
            control_bind: String::from_str("127.0.0.1"),
            stream_port: 1710,
            control_port: 1711,
            max_clients: 64,
            max_known_clients: 256,
            mdns: true,
            snapcast_compat: false,
            audio: AudioConfig::default(),
            auto_buffer: AutoBufferConfig::default(),
            transport: TransportConfig::default(),
        }
    }
}

/// Top-level server configuration.
#[derive(Debug, Clone)]
pub struct ServerConfig {
    pub server: ServerNet,
    /// One entry per audio stream; the first is the default stream.
    pub streams: Vec<StreamSource>,
    pub log: LogConfig,
    pub timezone: Option<String>,
}

impl Default for ServerConfig {
    fn default() -> (c: Self)
        ensures
            is_default_server_net(c.server),
            c.streams@.len() == 1,
            is_default_stream(c.streams@[0]),
            c.log.level@ == "info"@,
            c.timezone is None,
    {
        let mut streams = Vec::new();
        streams.push(StreamSource::default());
        ServerConfig {
            server: ServerNet::default(),
            streams,
            log: LogConfig::default(),
            timezone: None,
        }
    }
}

/// Client-side configuration.
#[derive(Debug, Clone)]
pub struct ClientConfig {
    pub server_host: String,
    pub server_port: u16,
    /// Extra latency offset in ms.
    pub latency_ms: i32,
    pub client_name: Option<String>,
    pub device: Option<String>,
    pub instance: u32,
    pub log: LogConfig,
    pub experimental_callback: bool,
    pub timezone: Option<String>,
}

impl Default for ClientConfig {
    fn default() -> (c: Self)
        ensures
            c.server_host@ == "127.0.0.1"@,
            c.server_port == 1710,
            c.latency_ms == 0,
            c.client_name is None,
            c.device is None,
            c.instance == 1,
            c.log.level@ == "info"@,
            c.experimental_callback,
            c.timezone is None,
    {
        ClientConfig {
            server_host: String::from_str("127.0.0.1"),
            server_port: 1710,
            latency_ms: 0,
            client_name: None,
            device: None,
            instance: 1,
            log: LogConfig::default(),
            experimental_callback: true,
            timezone: None,
        }
    }
}

fn config_error(text: &str) -> (e: SoniumError)
    ensures
        e is Config,
        e->Config_0@ == text@,
{
    SoniumError::Config(String::from_str(text))
}

fn scoped_config_error(scope: &str, text: &str) -> (e: SoniumError)
    ensures
        e is Config,
        e->Config_0@ == scope@ + text@,
{
    let mut s = String::from_str(scope);
    s.append(text);
    SoniumError::Config(s)
}

fn named_config_error(prefix: &str, name: &str, text: &str) -> (e: SoniumError)
    ensures
        e is Config,
        e->Config_0@ == prefix@ + name@ + text@,
{
    let mut s = String::from_str(prefix);
    s.append(name);
    s.append(text);
    SoniumError::Config(s)
}

pub open spec fn is_opus(codec: Option<Seq<char>>) -> bool {
    codec == Some("opus"@)
}

/// A check's result given the message of the first rule it breaks: `Ok`
/// when there is none, else a configuration error with exactly that text.
pub open spec fn config_result(r: Result<(), SoniumError>, err: Option<Seq<char>>) -> bool {
    match err {
        Some(m) => r matches Err(e) && e is Config && e->Config_0@ == m,
        None => r is Ok,
    }
}

/// The message of the first buffer/chunk rule broken under `scope`.
pub open spec fn buffer_and_chunk_error(
    scope: Seq<char>,
    buffer_ms: u32,
    chunk_ms: u32,
    codec: Option<Seq<char>>,
) -> Option<Seq<char>> {
    if chunk_ms < 10 || chunk_ms > 60 {
        Some(scope + ".chunk_ms must be between 10 and 60 ms"@)
    } else if is_opus(codec) && !(chunk_ms == 10 || chunk_ms == 20 || chunk_ms == 40 || chunk_ms == 60) {
        Some(scope + ".chunk_ms must be 10, 20, 40, or 60 ms for opus"@)
    } else if buffer_ms > 0 && buffer_ms < chunk_ms {
        Some(scope + ".buffer_ms must be zero or at least chunk_ms"@)
    } else if buffer_ms > i32::MAX {
        Some(scope + ".buffer_ms exceeds the protocol's signed millisecond range"@)
    } else {
        None
    }
}

/// Chunk length in 10 – 60 ms (10, 20, 40 or 60 for opus), a buffer of zero
/// or at least one chunk, and a buffer within `i32` milliseconds.
pub open spec fn buffer_and_chunk_ok(buffer_ms: u32, chunk_ms: u32, codec: Option<Seq<char>>) -> bool {
    &&& 10 <= chunk_ms <= 60
    &&& is_opus(codec) ==> (chunk_ms == 10 || chunk_ms == 20 || chunk_ms == 40 || chunk_ms == 60)
    &&& !(buffer_ms > 0 && buffer_ms < chunk_ms)
    &&& buffer_ms <= i32::MAX
}

/// Opus takes 10, 20, 40 or 60 ms chunks and no others; every other codec,
/// and the global setting, any chunk of 10 to 60 ms.  A buffer is then
/// accepted when it is zero or at least one chunk, within `i32`.
pub proof fn lemma_chunk_rules(scope: Seq<char>, buffer_ms: u32, chunk_ms: u32, codec: Option<Seq<char>>)
    ensures
        codec == Some("opus"@) ==> (buffer_and_chunk_ok(buffer_ms, chunk_ms, codec) <==> (
        chunk_ms == 10 || chunk_ms == 20 || chunk_ms == 40 || chunk_ms == 60) && (buffer_ms == 0
            || buffer_ms >= chunk_ms) && buffer_ms <= i32::MAX),
        codec != Some("opus"@) ==> (buffer_and_chunk_ok(buffer_ms, chunk_ms, codec) <==> 10 <= chunk_ms
            <= 60 && (buffer_ms == 0 || buffer_ms >= chunk_ms) && buffer_ms <= i32::MAX),
        buffer_and_chunk_error(scope, buffer_ms, chunk_ms, codec) is None <==> buffer_and_chunk_ok(
            buffer_ms,
            chunk_ms,
            codec,
        ),
{
}

pub fn validate_buffer_and_chunk(
    scope: &str,
    buffer_ms: u32,
    chunk_ms: u32,
    codec: Option<&str>,
) -> (r: Result<(), SoniumError>)
    ensures
        r is Ok <==> buffer_and_chunk_ok(
            buffer_ms,
            chunk_ms,
            match codec {
                Some(c) => Some(c@),
                None => None,
            },
        ),
        r matches Err(e) ==> e is Config,
        config_result(
            r,
            buffer_and_chunk_error(
                scope@,
                buffer_ms,
                chunk_ms,
                match codec {
                    Some(c) => Some(c@),
                    None => None,
                },
            ),
        ),
{
    if chunk_ms < 10 || chunk_ms > 60 {
        return Err(scoped_config_error(scope, ".chunk_ms must be between 10 and 60 ms"));
    }
    let opus = match codec {
        Some(c) => str_equal(c, "opus"),
        None => false,
    };
    if opus && !(chunk_ms == 10 || chunk_ms == 20 || chunk_ms == 40 || chunk_ms == 60) {
        return Err(scoped_config_error(scope, ".chunk_ms must be 10, 20, 40, or 60 ms for opus"));
    }
    if buffer_ms > 0 && buffer_ms < chunk_ms {
        return Err(scoped_config_error(scope, ".buffer_ms must be zero or at least chunk_ms"));
    }
    if buffer_ms > i32::MAX as u32 {
        return Err(
            scoped_config_error(
                scope,
                ".buffer_ms exceeds the protocol's signed millisecond range",
            ),
        );
    }
    Ok(())
}

/// Auto-buffer bounds ordered, non-zero steps and cooldown, a maximum within
/// `i32`, and when enabled a minimum of at least the largest chunk.
pub open spec fn auto_buffer_ok(c: AutoBufferConfig, largest_chunk_ms: u32) -> bool {
    &&& c.min_ms <= c.max_ms
    &&& c.step_up_ms != 0 && c.step_down_ms != 0
    &&& c.cooldown_ms != 0
    &&& c.max_ms <= i32::MAX
    &&& !(c.enabled && c.min_ms < largest_chunk_ms)
}

/// The message of the first auto-buffer rule broken.
pub open spec fn auto_buffer_error(c: AutoBufferConfig, largest_chunk_ms: u32) -> Option<Seq<char>> {
    if c.min_ms > c.max_ms {
        Some("server.auto_buffer.min_ms must not exceed max_ms"@)
    } else if c.step_up_ms == 0 || c.step_down_ms == 0 {
        Some("server.auto_buffer step sizes must be greater than zero"@)
    } else if c.cooldown_ms == 0 {
        Some("server.auto_buffer.cooldown_ms must be greater than zero"@)
    } else if c.max_ms > i32::MAX {
        Some("server.auto_buffer.max_ms exceeds the protocol's signed millisecond range"@)
    } else if c.enabled && c.min_ms < largest_chunk_ms {
        Some("server.auto_buffer.min_ms must be at least the largest effective stream chunk"@)
    } else {
        None
    }
}

pub fn validate_auto_buffer(config: &AutoBufferConfig, largest_chunk_ms: u32) -> (r: Result<(), SoniumError>)
    ensures
        r is Ok <==> auto_buffer_ok(*config, largest_chunk_ms),
        r matches Err(e) ==> e is Config,
        config_result(r, auto_buffer_error(*config, largest_chunk_ms)),
{
    if config.min_ms > config.max_ms {
        return Err(config_error("server.auto_buffer.min_ms must not exceed max_ms"));
    }
    if config.step_up_ms == 0 || config.step_down_ms == 0 {
        return Err(config_error("server.auto_buffer step sizes must be greater than zero"));
    }
    if config.cooldown_ms == 0 {
        return Err(config_error("server.auto_buffer.cooldown_ms must be greater than zero"));
    }
    if config.max_ms > i32::MAX as u32 {
        return Err(
            config_error("server.auto_buffer.max_ms exceeds the protocol's signed millisecond range"),
        );
    }
    if config.enabled && config.min_ms < largest_chunk_ms {
        return Err(
            config_error(
                "server.auto_buffer.min_ms must be at least the largest effective stream chunk",
            ),
        );
    }
    Ok(())
}

/// Codec limits of the FLAC encoder: at most 96 kHz and 8 channels, a 20 ms
/// block of 32 – 32767 samples, and a chunk's frame bytes addressable.
pub open spec fn flac_format_ok(f: SampleFormat, chunk_ms: u32) -> bool {
    &&& f.rate <= 96_000
    &&& f.channels <= 8
    &&& 32 <= (f.rate as int) * 20 / 1000 <= 32_767
    &&& ((f.rate as int) * chunk_ms / 1000) * f.channels * 2 <= usize::MAX
}

/// The message for stream `id`: "stream", a back quote, the id, then `text`.
pub open spec fn stream_message(id: Seq<char>, text: Seq<char>) -> Seq<char> {
    "stream `"@ + id + text
}

/// The message of the first FLAC limit that stream `id` breaks.
pub open spec fn flac_error(id: Seq<char>, f: SampleFormat, chunk_ms: u32) -> Option<Seq<char>> {
    if f.rate > 96_000 {
        Some(stream_message(id, "` flac sample_format.rate must not exceed 96000"@))
    } else if f.channels > 8 {
        Some(stream_message(id, "` flac sample_format.channels must not exceed 8"@))
    } else if !(32 <= (f.rate as int) * 20 / 1000 <= 32_767) {
        Some(stream_message(id, "` flac encoder block size must be between 32 and 32767 samples"@))
    } else if ((f.rate as int) * chunk_ms / 1000) * f.channels * 2 > usize::MAX {
        Some(stream_message(id, "` frame size does not fit this platform"@))
    } else {
        None
    }
}

pub fn validate_flac_format(stream: &StreamSource, chunk_ms: u32) -> (r: Result<(), SoniumError>)
    ensures
        r is Ok <==> flac_format_ok(stream.sample_format, chunk_ms),
        r matches Err(e) ==> e is Config,
        config_result(r, flac_error(stream.id@, stream.sample_format, chunk_ms)),
{
    let format = stream.sample_format;
    let id = stream.id.as_str();
    if format.rate > 96_000 {
        return Err(named_config_error("stream `", id, "` flac sample_format.rate must not exceed 96000"));
    }
    if format.channels > 8 {
        return Err(named_config_error("stream `", id, "` flac sample_format.channels must not exceed 8"));
    }
    let encoder_block_size: u64 = (format.rate as u64) * 20 / 1_000;
    if encoder_block_size < 32 || encoder_block_size > 32_767 {
        return Err(
            named_config_error(
                "stream `",
                id,
                "` flac encoder block size must be between 32 and 32767 samples",
            ),
        );
    }
    assert((format.rate as u128) * (chunk_ms as u128) <= 0xffff_ffff * 0xffff_ffff) by (nonlinear_arith)
        requires
            format.rate <= 0xffff_ffff,
            chunk_ms <= 0xffff_ffff,
    ;
    let product: u128 = (format.rate as u128) * (chunk_ms as u128);
    let per_chunk: u128 = product / 1_000;
    assert(per_chunk <= product);
    assert(per_chunk * (format.channels as u128) <= product * 65535) by (nonlinear_arith)
        requires
            per_chunk <= product,
            format.channels <= 65535,
    ;
    assert(product <= 0xffff_ffff * 0xffff_ffff) by (nonlinear_arith)
        requires
            product == (format.rate as u128) * (chunk_ms as u128),
    ;
    let frame_bytes: u128 = per_chunk * (format.channels as u128) * 2;
    if frame_bytes > usize::MAX as u128 {
        return Err(named_config_error("stream `", id, "` frame size does not fit this platform"));
    }
    Ok(())
}

/// Supported codecs and their sample formats: a non-zero rate and channel
/// count, 16-bit samples, opus rates and mono/stereo, and the FLAC limits.
pub open spec fn stream_format_ok(codec: Seq<char>, f: SampleFormat, chunk_ms: u32) -> bool {
    &&& f.rate != 0
    &&& f.channels != 0
    &&& f.bits == 16
    &&& if codec == "opus"@ {
        &&& (f.rate == 8_000 || f.rate == 12_000 || f.rate == 16_000 || f.rate == 24_000 || f.rate
            == 48_000)
        &&& (f.channels == 1 || f.channels == 2)
    } else if codec == "pcm"@ {
        true
    } else if codec == "flac"@ {
        flac_format_ok(f, chunk_ms)
    } else {
        false
    }
}

/// The message of the first format rule that stream `id` breaks.
pub open spec fn stream_format_error(id: Seq<char>, codec: Seq<char>, f: SampleFormat, chunk_ms: u32) -> Option<
    Seq<char>,
> {
    if f.rate == 0 {
        Some(stream_message(id, "` sample_format.rate must be greater than zero"@))
    } else if f.channels == 0 {
        Some(stream_message(id, "` sample_format.channels must be greater than zero"@))
    } else if f.bits != 16 {
        Some(stream_message(id, "` sample_format.bits must be 16 because the input reader consumes i16 PCM"@))
    } else if codec == "opus"@ {
        if !(f.rate == 8_000 || f.rate == 12_000 || f.rate == 16_000 || f.rate == 24_000 || f.rate == 48_000) {
            Some(stream_message(id, "` opus sample_format.rate must be one of 8000, 12000, 16000, 24000, or 48000"@))
        } else if !(f.channels == 1 || f.channels == 2) {
            Some(stream_message(id, "` opus sample_format.channels must be 1 or 2"@))
        } else {
            None
        }
    } else if codec == "pcm"@ {
        None
    } else if codec == "flac"@ {
        flac_error(id, f, chunk_ms)
    } else {
        Some(stream_message(id, "` has an unsupported codec"@))
    }
}

pub fn validate_stream_format(stream: &StreamSource, chunk_ms: u32) -> (r: Result<(), SoniumError>)
    ensures
        r is Ok <==> stream_format_ok(stream.codec@, stream.sample_format, chunk_ms),
        r matches Err(e) ==> e is Config,
        config_result(r, stream_format_error(stream.id@, stream.codec@, stream.sample_format, chunk_ms)),
{
    let format = stream.sample_format;
    let id = stream.id.as_str();
    if format.rate == 0 {
        return Err(named_config_error("stream `", id, "` sample_format.rate must be greater than zero"));
    }
    if format.channels == 0 {
        return Err(
            named_config_error("stream `", id, "` sample_format.channels must be greater than zero"),
        );
    }
    if format.bits != 16 {
        return Err(
            named_config_error(
                "stream `",
                id,
                "` sample_format.bits must be 16 because the input reader consumes i16 PCM",
            ),
        );
    }
    let codec = stream.codec.as_str();
    if str_equal(codec, "opus") {
        if !(format.rate == 8_000 || format.rate == 12_000 || format.rate == 16_000 || format.rate
            == 24_000 || format.rate == 48_000) {
            return Err(
                named_config_error(
                    "stream `",
                    id,
                    "` opus sample_format.rate must be one of 8000, 12000, 16000, 24000, or 48000",
                ),
            );
        }
        if !(format.channels == 1 || format.channels == 2) {
            return Err(
                named_config_error("stream `", id, "` opus sample_format.channels must be 1 or 2"),
            );
        }
        Ok(())
    } else if str_equal(codec, "pcm") {
        Ok(())
    } else if str_equal(codec, "flac") {
        validate_flac_format(stream, chunk_ms)
    } else {
        Err(named_config_error("stream `", id, "` has an unsupported codec"))
    }
}

pub open spec fn log_level_ok(level: Seq<char>) -> bool {
    level == "trace"@ || level == "debug"@ || level == "info"@ || level == "warn"@ || level
        == "error"@
}

pub open spec fn log_error(level: Seq<char>) -> Option<Seq<char>> {
    if log_level_ok(level) {
        None
    } else {
        Some("log.level must be trace, debug, info, warn, or error"@)
    }
}

pub fn validate_log_config(log: &LogConfig) -> (r: Result<(), SoniumError>)
    ensures
        r is Ok <==> log_level_ok(log.level@),
        r matches Err(e) ==> e is Config,
        config_result(r, log_error(log.level@)),
{
    let level = log.level.as_str();
    if str_equal(level, "trace") || str_equal(level, "debug") || str_equal(level, "info")
        || str_equal(level, "warn") || str_equal(level, "error") {
        Ok(())
    } else {
        Err(config_error("log.level must be trace, debug, info, warn, or error"))
    }
}

/// The message of the first client-configuration rule broken.
pub open spec fn client_config_error(c: ClientConfig) -> Option<Seq<char>> {
    if trim_spec(c.server_host@).len() == 0 {
        Some("server_host must not be empty"@)
    } else if c.server_port == 0 {
        Some("server_port must be between 1 and 65535"@)
    } else {
        log_error(c.log.level@)
    }
}

/// A client configuration names a host that is not blank, a non-zero port
/// and a known log level.
pub open spec fn client_config_ok(c: ClientConfig) -> bool {
    &&& trim_spec(c.server_host@).len() != 0
    &&& c.server_port != 0
    &&& log_level_ok(c.log.level@)
}

impl ClientConfig {
    pub fn validate(&self) -> (r: Result<(), SoniumError>)
        ensures
            r is Ok <==> client_config_ok(*self),
            r matches Err(e) ==> e is Config,
            config_result(r, client_config_error(*self)),
    {
        let host = trim(self.server_host.as_str());
        if host.is_empty() {
            return Err(config_error("server_host must not be empty"));
        }
        if self.server_port == 0 {
            return Err(config_error("server_port must be between 1 and 65535"));
        }
        validate_log_config(&self.log)
    }
}

pub open spec fn effective_buffer_spec(c: ServerConfig, s: StreamSource) -> u32 {
    match s.buffer_ms {
        Some(b) => b,
        None => c.server.audio.buffer_ms,
    }
}

pub open spec fn effective_chunk_spec(c: ServerConfig, s: StreamSource) -> u32 {
    match s.chunk_ms {
        Some(b) => b,
        None => c.server.audio.chunk_ms,
    }
}

/// Largest effective chunk among the first `n` streams and the global chunk.
pub open spec fn largest_chunk(c: ServerConfig, n: nat) -> u32
    decreases n,
{
    if n == 0 {
        c.server.audio.chunk_ms
    } else {
        let prev = largest_chunk(c, (n - 1) as nat);
        let here = effective_chunk_spec(c, c.streams@[n - 1]);
        if here > prev { here } else { prev }
    }
}

pub open spec fn stream_ok(c: ServerConfig, s: StreamSource) -> bool {
    &&& buffer_and_chunk_ok(
        effective_buffer_spec(c, s),
        effective_chunk_spec(c, s),
        Some(s.codec@),
    )
    &&& stream_format_ok(s.codec@, s.sample_format, effective_chunk_spec(c, s))
}

/// Everything a server configuration must satisfy, given whether its two
/// bind addresses parse as IP addresses.
pub open spec fn server_config_ok(c: ServerConfig, bind_is_ip: bool, control_bind_is_ip: bool) -> bool {
    let n = c.server;
    &&& bind_is_ip
    &&& control_bind_is_ip
    &&& n.stream_port != 0
    &&& n.control_port != 0
    &&& n.stream_port != n.control_port
    &&& 1 <= n.max_clients <= 256
    &&& n.max_clients <= n.max_known_clients <= 1024
    &&& buffer_and_chunk_ok(n.audio.buffer_ms, n.audio.chunk_ms, None)
    &&& !((n.transport.mode == TransportMode::RtpUdp || n.transport.mode == TransportMode::Rist)
        && n.transport.udp_port == 0 && n.stream_port > u16::MAX - 2)
    &&& forall|i: int| 0 <= i < c.streams@.len() ==> stream_ok(c, #[trigger] c.streams@[i])
    &&& auto_buffer_ok(n.auto_buffer, largest_chunk(c, c.streams@.len()))
    &&& log_level_ok(c.log.level@)
}

/// The scope that names stream `s` in messages.
pub open spec fn stream_scope(s: StreamSource) -> Seq<char> {
    "stream `"@ + s.id@ + "`"@
}

/// The message of the first rule that stream `s` breaks.
pub open spec fn stream_error(c: ServerConfig, s: StreamSource) -> Option<Seq<char>> {
    match buffer_and_chunk_error(
        stream_scope(s),
        effective_buffer_spec(c, s),
        effective_chunk_spec(c, s),
        Some(s.codec@),
    ) {
        Some(m) => Some(m),
        None => stream_format_error(s.id@, s.codec@, s.sample_format, effective_chunk_spec(c, s)),
    }
}

/// The message of the first rule broken by the first `n` streams, in order.
pub open spec fn streams_error(c: ServerConfig, n: nat) -> Option<Seq<char>>
    decreases n,
{
    if n == 0 {
        None
    } else {
        match streams_error(c, (n - 1) as nat) {
            Some(m) => Some(m),
            None => stream_error(c, c.streams@[n - 1]),
        }
    }
}

/// A rule broken among the first `k` streams is the first one broken among
/// any longer prefix.
proof fn lemma_streams_error_prefix(c: ServerConfig, k: nat, n: nat)
    requires
        k <= n,
    ensures
        streams_error(c, k) is Some ==> streams_error(c, n) == streams_error(c, k),
    decreases n - k,
{
    if k < n {
        lemma_streams_error_prefix(c, k, (n - 1) as nat);
    }
}

/// The message of the first server-configuration rule broken, in the order
/// the checks run.
pub open spec fn server_config_error(c: ServerConfig, bind_is_ip: bool, control_bind_is_ip: bool) -> Option<
    Seq<char>,
> {
    let n = c.server;
    if !bind_is_ip {
        Some("server.bind must be an IP address"@)
    } else if !control_bind_is_ip {
        Some("server.control_bind must be an IP address"@)
    } else if n.stream_port == 0 {
        Some("server.stream_port must be between 1 and 65535"@)
    } else if n.control_port == 0 {
        Some("server.control_port must be between 1 and 65535"@)
    } else if n.stream_port == n.control_port {
        Some("server.stream_port and server.control_port must differ"@)
    } else if n.max_clients < 1 || n.max_clients > 256 {
        Some("server.max_clients must be between 1 and 256"@)
    } else if n.max_known_clients < n.max_clients || n.max_known_clients > 1024 {
        Some("server.max_known_clients must be between server.max_clients and 1024"@)
    } else if buffer_and_chunk_error("server.audio"@, n.audio.buffer_ms, n.audio.chunk_ms, None) is Some {
        buffer_and_chunk_error("server.audio"@, n.audio.buffer_ms, n.audio.chunk_ms, None)
    } else if (n.transport.mode == TransportMode::RtpUdp || n.transport.mode == TransportMode::Rist)
        && n.transport.udp_port == 0 && n.stream_port > u16::MAX - 2 {
        Some("server.stream_port must be at most 65533 when UDP transport chooses stream_port + 2"@)
    } else if streams_error(c, c.streams@.len()) is Some {
        streams_error(c, c.streams@.len())
    } else if auto_buffer_error(n.auto_buffer, largest_chunk(c, c.streams@.len())) is Some {
        auto_buffer_error(n.auto_buffer, largest_chunk(c, c.streams@.len()))
    } else {
        log_error(c.log.level@)
    }
}

impl ServerConfig {
    /// The first stream, or a default stream when none is configured.
    pub fn default_stream(&self) -> (s: StreamSource)
        ensures
            self.streams@.len() > 0 ==> s == self.streams@[0],
            self.streams@.len() == 0 ==> is_default_stream(s),
    {
        if self.streams.len() > 0 {
            let first = &self.streams[0];
            let display_name = match &first.display_name {
                Some(n) => Some(n.clone()),
                None => None,
            };
            StreamSource {
                id: first.id.clone(),
                display_name,
                source: first.source.clone(),
                codec: first.codec.clone(),
                sample_format: first.sample_format,
                buffer_ms: first.buffer_ms,
                chunk_ms: first.chunk_ms,
                idle_timeout_ms: first.idle_timeout_ms,
                silence_on_idle: first.silence_on_idle,
            }
        } else {
            StreamSource::default()
        }
    }

    pub fn effective_buffer_ms(&self, stream: &StreamSource) -> (b: u32)
        ensures
            b == effective_buffer_spec(*self, *stream),
    {
        match stream.buffer_ms {
            Some(b) => b,
            None => self.server.audio.buffer_ms,
        }
    }

    pub fn effective_chunk_ms(&self, stream: &StreamSource) -> (b: u32)
        ensures
            b == effective_chunk_spec(*self, *stream),
    {
        match stream.chunk_ms {
            Some(b) => b,
            None => self.server.audio.chunk_ms,
        }
    }

    /// Check the values that the configuration's types cannot express.
    /// Whether `server.bind` and `server.control_bind` parse as IP addresses
    /// is decided by the caller's address parser and passed in.
    pub fn validate(&self, bind_is_ip: bool, control_bind_is_ip: bool) -> (r: Result<(), SoniumError>)
        ensures
            r is Ok <==> server_config_ok(*self, bind_is_ip, control_bind_is_ip),
            r matches Err(e) ==> e is Config,
            config_result(r, server_config_error(*self, bind_is_ip, control_bind_is_ip)),
    {
        let n = &self.server;
        if !bind_is_ip {
            return Err(config_error("server.bind must be an IP address"));
        }
        if !control_bind_is_ip {
            return Err(config_error("server.control_bind must be an IP address"));
        }
        if n.stream_port == 0 {
            return Err(config_error("server.stream_port must be between 1 and 65535"));
        }
        if n.control_port == 0 {
            return Err(config_error("server.control_port must be between 1 and 65535"));
        }
        if n.stream_port == n.control_port {
            return Err(config_error("server.stream_port and server.control_port must differ"));
        }
        if n.max_clients < 1 || n.max_clients > 256 {
            return Err(config_error("server.max_clients must be between 1 and 256"));
        }
        if n.max_known_clients < n.max_clients || n.max_known_clients > 1024 {
            return Err(
                config_error(
                    "server.max_known_clients must be between server.max_clients and 1024",
                ),
            );
        }
        proof {
            reveal_strlit("server.audio");
        }
        if let Err(e) = validate_buffer_and_chunk("server.audio", n.audio.buffer_ms, n.audio.chunk_ms, None) {
            return Err(e);
        }
        let udp = match n.transport.mode {
            TransportMode::RtpUdp => true,
            TransportMode::Rist => true,
            _ => false,
        };
        if udp && n.transport.udp_port == 0 && n.stream_port > u16::MAX - 2 {
            return Err(
                config_error(
                    "server.stream_port must be at most 65533 when UDP transport chooses stream_port + 2",
                ),
            );
        }
        let mut largest_chunk_ms = n.audio.chunk_ms;
        let mut i: usize = 0;
        while i < self.streams.len()
            invariant
                0 <= i <= self.streams@.len(),
                largest_chunk_ms == largest_chunk(*self, i as nat),
                forall|j: int| 0 <= j < i ==> stream_ok(*self, #[trigger] self.streams@[j]),
                streams_error(*self, i as nat) is None,
                server_config_error(*self, bind_is_ip, control_bind_is_ip) == (if streams_error(
                    *self,
                    self.streams@.len(),
                ) is Some {
                    streams_error(*self, self.streams@.len())
                } else if auto_buffer_error(n.auto_buffer, largest_chunk(*self, self.streams@.len())) is Some {
                    auto_buffer_error(n.auto_buffer, largest_chunk(*self, self.streams@.len()))
                } else {
                    log_error(self.log.level@)
                }),
                n == self.server,
            decreases self.streams@.len() - i,
        {
            let stream = &self.streams[i];
            let effective_chunk_ms = self.effective_chunk_ms(stream);
            let mut scope = String::from_str("stream `");
            scope.append(stream.id.as_str());
            scope.append("`");
            proof {
                lemma_streams_error_prefix(*self, (i + 1) as nat, self.streams@.len());
            }
            if let Err(e) = validate_buffer_and_chunk(
                scope.as_str(),
                self.effective_buffer_ms(stream),
                effective_chunk_ms,
                Some(stream.codec.as_str()),
            ) {
                return Err(e);
            }
            if let Err(e) = validate_stream_format(stream, effective_chunk_ms) {
                return Err(e);
            }
            if effective_chunk_ms > largest_chunk_ms {
                largest_chunk_ms = effective_chunk_ms;
            }
            i = i + 1;
        }
        if let Err(e) = validate_auto_buffer(&n.auto_buffer, largest_chunk_ms) {
            return Err(e);
        }
        validate_log_config(&self.log)
    }
}

} // verus!
