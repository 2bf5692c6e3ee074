//! Playout timing: decoded chunks, the jitter buffer, the output timeline
//! with its underrun crossfade, drift correction, playout-error
//! percentiles and clock-offset arithmetic.

pub mod chunk;
pub mod drift;
pub mod clock;
pub mod buffer;
pub mod playout_histogram;
pub mod fade;
pub mod timeline;
