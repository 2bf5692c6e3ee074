//! Messages whose payload is one length-prefixed JSON document: `Hello`,
//! `ServerSettings` and `ClientInfo`.
//!
//! The library frames and unframes the JSON text; turning the text into the
//! typed values below is left to a JSON codec outside the library.

use vstd::prelude::*;
use vstd::utf8::encode_utf8;
use crate::error::Result;
use crate::protocol::wire::{WireRead, WireWrite, str_at, str_bytes, lemma_str_at};

verus! {

/// The JSON text a payload frames, if any; bytes after it are ignored.
pub open spec fn parse_json_frame(p: Seq<u8>) -> Option<Seq<char>> {
    str_at(p, 0).0
}

/// Unframe the JSON text of a payload; a truncated or non-UTF-8 payload is a
/// protocol error.
pub fn decode_json_text(payload: &[u8]) -> (r: Result<String>)
    ensures
        match r {
            Ok(s) => parse_json_frame(payload@) == Some(s@),
            Err(e) => parse_json_frame(payload@) is None && e is Protocol,
        },
{
    let mut r = WireRead::new(payload);
    r.read_str()
}

/// Frame JSON text as a payload: its `u32` byte length then its bytes.
pub fn encode_json_text(json: &str) -> (v: Vec<u8>)
    ensures
        v@ == str_bytes(json@),
{
    let mut w = WireWrite::new();
    w.write_str(json);
    w.finish()
}

/// Framed text comes back unframed.
pub proof fn lemma_json_frame_round_trip(s: Seq<char>)
    requires
        encode_utf8(s).len() <= u32::MAX,
    ensures
        parse_json_frame(str_bytes(s)) == Some(s),
{
    let e = Seq::<u8>::empty();
    lemma_str_at(e, s, e);
    assert(e + str_bytes(s) + e =~= str_bytes(s));
}

/// Client introduction sent first after connecting.
#[derive(Debug, Clone, PartialEq)]
pub struct Hello {
    /// MAC address of the primary interface (informational).
    pub mac: String,
    /// Hostname of the client machine.
    pub hostname: String,
    /// Client software version.
    pub version: String,
    /// Client application name.
    pub client_name: String,
    /// Operating system name.
    pub os: String,
    /// CPU architecture.
    pub arch: String,
    /// Instance number on the host (default 1).
    pub instance: u32,
    /// Stable unique client identifier.
    pub id: String,
    /// Stream protocol version (2).
    pub protocol_version: u32,
}

impl Hello {
    /// A greeting for this host: the fixed MAC placeholder, the client name
    /// `Sonium`, instance 1 and stream protocol version 2, with the given
    /// host name, id, software version, OS and architecture.
    pub fn new(hostname: &str, id: &str, version: &str, os: &str, arch: &str) -> (h: Self)
        ensures
            h.mac@ == "00:00:00:00:00:00"@,
            h.hostname@ == hostname@,
            h.version@ == version@,
            h.client_name@ == "Sonium"@,
            h.os@ == os@,
            h.arch@ == arch@,
            h.instance == 1,
            h.id@ == id@,
            h.protocol_version == 2,
    {
        Hello {
            mac: String::from_str("00:00:00:00:00:00"),
            hostname: String::from_str(hostname),
            version: String::from_str(version),
            client_name: String::from_str("Sonium"),
            os: String::from_str(os),
            arch: String::from_str(arch),
            instance: 1,
            id: String::from_str(id),
            protocol_version: 2,
        }
    }
}

/// Playback settings pushed by the server to one client.
#[derive(Debug, Clone, Copy, PartialEq, Eq, Structural)]
pub struct ServerSettings {
    /// Requested jitter buffer in milliseconds.
    pub buffer_ms: i32,
    /// Client-specific latency offset in milliseconds.
    pub latency: i32,
    /// Playback volume (0 – 100).
    pub volume: u8,
    /// Whether output is muted.
    pub muted: bool,
}

impl Default for ServerSettings {
    fn default() -> (s: Self)
        ensures
            s == (ServerSettings { buffer_ms: 1000, latency: 0, volume: 100, muted: false }),
    {
        ServerSettings { buffer_ms: 1000, latency: 0, volume: 100, muted: false }
    }
}

/// Volume or mute change initiated by the client.
#[derive(Debug, Clone, Copy, PartialEq, Eq, Structural)]
pub struct ClientInfo {
    /// Desired volume (0 – 100).
    pub volume: u8,
    /// Whether playback should be muted.
    pub muted: bool,
}

} // verus!
