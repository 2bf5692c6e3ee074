//! Error type shared by the protocol, codec and configuration modules.

use vstd::prelude::*;
use crate::text::{decimal, decimal_string, hex_digits, hex8_string};

verus! {

#[verifier::external_type_specification]
#[verifier::external_body]
pub struct ExIoError(std::io::Error);

/// Unified error type of the library.
#[derive(Debug)]
pub enum SoniumError {
    /// An I/O failure reported by the operating system.
    Io(std::io::Error),
    /// Malformed or unsupported wire data.
    Protocol(String),
    /// Failure inside an audio codec.
    Codec(String),
    /// Invalid configuration.
    Config(String),
    /// Clock synchronisation failure.
    Sync(String),
    /// The peer closed the connection.
    ConnectionClosed,
    /// A codec name that the library does not know.
    UnsupportedCodec(String),
}

/// Errors raised while validating protocol input carry this type.
pub type ProtocolError = SoniumError;

pub type Result<T> = core::result::Result<T, SoniumError>;

/// A protocol error whose message is `text`.
pub fn protocol_error(text: &str) -> (e: SoniumError)
    ensures
        e is Protocol,
        e->Protocol_0@ == text@,
{
    SoniumError::Protocol(String::from_str(text))
}

/// A protocol error whose message is `prefix` followed by the decimal value of `n`.
pub fn protocol_error_with_number(prefix: &str, n: u64) -> (e: SoniumError)
    ensures
        e is Protocol,
        e->Protocol_0@ == prefix@ + decimal(n as nat),
{
    let mut s = String::from_str(prefix);
    let digits = decimal_string(n);
    s.append(digits.as_str());
    SoniumError::Protocol(s)
}

/// A protocol error whose message is `prefix`, the decimal value of `n`, then
/// `suffix`.
pub fn protocol_error_number_suffix(prefix: &str, n: u64, suffix: &str) -> (e: SoniumError)
    ensures
        e is Protocol,
        e->Protocol_0@ == prefix@ + decimal(n as nat) + suffix@,
{
    let mut s = String::from_str(prefix);
    let digits = decimal_string(n);
    s.append(digits.as_str());
    s.append(suffix);
    SoniumError::Protocol(s)
}

/// A protocol error whose message is `prefix`, `a` in decimal, `middle`, then
/// `b` in decimal.
pub fn protocol_error_two_numbers(prefix: &str, a: u64, middle: &str, b: u64) -> (e: SoniumError)
    ensures
        e is Protocol,
        e->Protocol_0@ == prefix@ + decimal(a as nat) + middle@ + decimal(b as nat),
{
    let mut s = String::from_str(prefix);
    let da = decimal_string(a);
    s.append(da.as_str());
    s.append(middle);
    let db = decimal_string(b);
    s.append(db.as_str());
    SoniumError::Protocol(s)
}

/// A protocol error whose message is `prefix` then `n` as `0x` and eight
/// hexadecimal digits.
pub fn protocol_error_with_hex(prefix: &str, n: u32) -> (e: SoniumError)
    ensures
        e is Protocol,
        e->Protocol_0@ == prefix@ + "0x"@ + hex_digits(n as nat, 8),
{
    let mut s = String::from_str(prefix);
    let h = hex8_string(n);
    s.append(h.as_str());
    SoniumError::Protocol(s)
}

} // verus!
