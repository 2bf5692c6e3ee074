//! `ErrorMsg` — error notification from the server.
//!
//! ```text
//! u32  code
//! str  message
//! str  detail   (absent in older payloads: read as empty)
//! ```

use vstd::prelude::*;
use vstd::utf8::encode_utf8;
use crate::error::Result;
use crate::protocol::wire::{
    WireRead, WireWrite, str_at, str_bytes, le_u32, u32_bytes, lemma_str_at, lemma_fixed_at,
};

verus! {

/// Error notification sent by the server (codes follow HTTP conventions:
/// 401, 403, 404, ...).
#[derive(Debug, Clone, PartialEq)]
pub struct ErrorMsg {
    /// Numeric error code.
    pub code: u32,
    /// Short human-readable description.
    pub message: String,
    /// Optional extended detail (may be empty).
    pub detail: String,
}

impl View for ErrorMsg {
    type V = (u32, Seq<char>, Seq<char>);

    open spec fn view(&self) -> (u32, Seq<char>, Seq<char>) {
        (self.code, self.message@, self.detail@)
    }
}

/// The error message a payload encodes, if any.  A payload that ends right
/// after the message has an empty detail; bytes after the detail are ignored.
pub open spec fn parse_error_msg(p: Seq<u8>) -> Option<(u32, Seq<char>, Seq<char>)> {
    if p.len() < 4 {
        None
    } else {
        match str_at(p, 4).0 {
            None => None,
            Some(message) => if str_at(p, 4).1 < p.len() {
                match str_at(p, str_at(p, 4).1).0 {
                    None => None,
                    Some(detail) => Some((le_u32(p, 0) as u32, message, detail)),
                }
            } else {
                Some((le_u32(p, 0) as u32, message, Seq::<char>::empty()))
            },
        }
    }
}

pub open spec fn error_msg_bytes(v: (u32, Seq<char>, Seq<char>)) -> Seq<u8> {
    u32_bytes(v.0) + str_bytes(v.1) + str_bytes(v.2)
}

impl ErrorMsg {
    /// An error with a code and a message and no detail.
    pub fn new(code: u32, message: &str) -> (m: Self)
        ensures
            m@ == (code, message@, Seq::<char>::empty()),
    {
        ErrorMsg { code, message: String::from_str(message), detail: String::new() }
    }

    pub fn decode(payload: &[u8]) -> (r: Result<Self>)
        ensures
            match r {
                Ok(m) => parse_error_msg(payload@) == Some(m@),
                Err(e) => parse_error_msg(payload@) is None && e is Protocol,
            },
    {
        let mut r = WireRead::new(payload);
        let code = r.read_u32()?;
        let message = r.read_str()?;
        let detail = if r.remaining() > 0 {
            r.read_str()?
        } else {
            String::new()
        };
        Ok(ErrorMsg { code, message, detail })
    }

    pub fn encode(&self) -> (v: Vec<u8>)
        ensures
            v@ == error_msg_bytes(self@),
    {
        let mut w = WireWrite::new();
        w.write_u32(self.code);
        w.write_str(self.message.as_str());
        w.write_str(self.detail.as_str());
        let v = w.finish();
        assert(v@ =~= error_msg_bytes(self@));
        v
    }
}

/// An error message whose strings fit the `u32` length prefixes decodes to
/// itself.
pub proof fn lemma_error_msg_round_trip(v: (u32, Seq<char>, Seq<char>))
    requires
        encode_utf8(v.1).len() <= u32::MAX,
        encode_utf8(v.2).len() <= u32::MAX,
    ensures
        parse_error_msg(error_msg_bytes(v)) == Some(v),
{
    let e = Seq::<u8>::empty();
    let b = error_msg_bytes(v);
    assert(e + u32_bytes(v.0) + (str_bytes(v.1) + str_bytes(v.2)) =~= b);
    lemma_fixed_at(e, str_bytes(v.1) + str_bytes(v.2), 0, v.0, 0, 0);
    assert(u32_bytes(v.0) + str_bytes(v.1) + str_bytes(v.2) =~= b);
    lemma_str_at(u32_bytes(v.0), v.1, str_bytes(v.2));
    let p1 = str_at(b, 4).1;
    assert(p1 == 8 + encode_utf8(v.1).len());
    assert(u32_bytes(v.0) + str_bytes(v.1) + str_bytes(v.2) + e =~= b);
    lemma_str_at(u32_bytes(v.0) + str_bytes(v.1), v.2, e);
    assert(p1 < b.len());
}

} // verus!
