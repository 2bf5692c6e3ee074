//! Codec plumbing that needs no codec library: the choice of codec by name,
//! the PCM passthrough codec, the AAC codec header, and FLAC stream framing.

pub mod traits;
pub mod dispatch;
pub mod pcm;
pub mod aac;
pub mod flac;
