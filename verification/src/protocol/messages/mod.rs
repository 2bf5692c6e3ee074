//! Message payload encoders and decoders.

pub mod codec_header;
pub mod error;
pub mod time;
pub mod wire_chunk;
pub mod health_report;
pub mod json_frame;
pub mod message;
pub mod announcement;
pub mod group_sync;
