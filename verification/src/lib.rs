//! Verified core of a multiroom audio system: the binary wire protocol,
//! jitter buffering, the playback timeline and clock-offset helpers,
//! configuration validation, PCM framing, the server's registry of
//! clients, groups and streams, and announcement arbitration.

pub mod error;
pub mod sample_format;
pub mod text;
pub mod ids;
pub mod sorting;
pub mod session;
pub mod config;
pub mod codec;
pub mod control;
pub mod protocol;
pub mod sync;
