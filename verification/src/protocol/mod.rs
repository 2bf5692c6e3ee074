//! Binary wire protocol: little-endian framing, the 26-byte message header
//! and the payload encoders/decoders.

pub mod wire;
pub mod header;
pub mod messages;
