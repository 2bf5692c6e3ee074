//! Versioned announcement lifecycle control message.
//!
//! This control traffic never carries media bytes.  Its payload is a JSON
//! document; the library checks a decoded message, and the JSON codec lives
//! outside the library.

use vstd::prelude::*;
use vstd::string::StrSliceExecFns;
use vstd::utf8::encode_utf8;
use crate::error::{Result, protocol_error, protocol_error_with_number};

verus! {

broadcast use {vstd::utf8::encode_utf8_decode_utf8};

pub const ANNOUNCEMENT_CONTROL_VERSION: u8 = 1;

/// Lifecycle of an announcement in one group.
#[derive(Debug, Clone, Copy, PartialEq, Eq, Structural)]
pub enum AnnouncementLifecycle {
    Scheduled,
    Started,
    Completed,
    Cancelled,
    Failed,
}

/// A lifecycle command for one group of one announcement.
#[derive(Debug, Clone)]
pub struct AnnouncementControlV1 {
    pub version: u8,
    pub announcement_id: String,
    pub group_id: String,
    pub lifecycle: AnnouncementLifecycle,
    pub scheduled_at_ms: i64,
    pub max_duration_ms: u32,
}

/// An identifier of 1 to 128 bytes.
pub open spec fn control_id_ok(s: Seq<char>) -> bool {
    s.len() > 0 && encode_utf8(s).len() <= 128
}

impl AnnouncementControlV1 {
    /// Accepts a decoded message of the supported version whose identifiers
    /// hold 1 to 128 bytes; anything else is a protocol error.
    pub fn validate(self) -> (r: Result<Self>)
        ensures
            match r {
                Ok(m) => m.version == ANNOUNCEMENT_CONTROL_VERSION && control_id_ok(
                    m.announcement_id@,
                ) && control_id_ok(m.group_id@) && m.announcement_id@ == self.announcement_id@
                    && m.group_id@ == self.group_id@ && m.lifecycle == self.lifecycle
                    && m.scheduled_at_ms == self.scheduled_at_ms && m.max_duration_ms
                    == self.max_duration_ms,
                Err(e) => e is Protocol && !(self.version == ANNOUNCEMENT_CONTROL_VERSION
                    && control_id_ok(self.announcement_id@) && control_id_ok(self.group_id@)),
            },
    {
        if self.version != ANNOUNCEMENT_CONTROL_VERSION {
            return Err(
                protocol_error_with_number(
                    "unsupported announcement control version ",
                    self.version as u64,
                ),
            );
        }
        let a = self.announcement_id.as_str();
        let g = self.group_id.as_str();
        if a.unicode_len() == 0 || a.as_bytes().len() > 128 || g.unicode_len() == 0
            || g.as_bytes().len() > 128 {
            return Err(protocol_error("invalid announcement control identifiers"));
        }
        Ok(self)
    }
}

} // verus!
