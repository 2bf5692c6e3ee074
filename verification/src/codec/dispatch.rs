//! Which codec a name selects.
//!
//! The server and client pick a decoder or encoder by the codec's name.
//! Decoding knows PCM, Opus, FLAC, Vorbis and AAC; encoding knows PCM, Opus
//! and FLAC.  Any other name is an `UnsupportedCodec` error that carries it.

use vstd::prelude::*;
use crate::error::SoniumError;
use crate::text::str_equal;

verus! {

/// A codec that a stream can be decoded with.
#[derive(Debug, Clone, Copy, PartialEq, Eq, Structural)]
pub enum DecoderKind {
    Pcm,
    Opus,
    Flac,
    Vorbis,
    Aac,
}

/// A codec that a stream can be encoded with.
#[derive(Debug, Clone, Copy, PartialEq, Eq, Structural)]
pub enum EncoderKind {
    Pcm,
    Opus,
    Flac,
}

pub open spec fn decoder_kind_spec(name: Seq<char>) -> Option<DecoderKind> {
    if name == "pcm"@ {
        Some(DecoderKind::Pcm)
    } else if name == "opus"@ {
        Some(DecoderKind::Opus)
    } else if name == "flac"@ {
        Some(DecoderKind::Flac)
    } else if name == "vorbis"@ {
        Some(DecoderKind::Vorbis)
    } else if name == "aac"@ {
        Some(DecoderKind::Aac)
    } else {
        None
    }
}

pub open spec fn encoder_kind_spec(name: Seq<char>) -> Option<EncoderKind> {
    if name == "pcm"@ {
        Some(EncoderKind::Pcm)
    } else if name == "opus"@ {
        Some(EncoderKind::Opus)
    } else if name == "flac"@ {
        Some(EncoderKind::Flac)
    } else {
        None
    }
}

fn unsupported(codec: &str) -> (e: SoniumError)
    ensures
        e is UnsupportedCodec,
        e->UnsupportedCodec_0@ == codec@,
{
    SoniumError::UnsupportedCodec(codec.to_string())
}

/// The decoder for codec `codec`; `UnsupportedCodec(codec)` for any other
/// name.
pub fn decoder_kind(codec: &str) -> (r: Result<DecoderKind, SoniumError>)
    ensures
        match r {
            Ok(k) => decoder_kind_spec(codec@) == Some(k),
            Err(e) => decoder_kind_spec(codec@) is None && e is UnsupportedCodec
                && e->UnsupportedCodec_0@ == codec@,
        },
{
    if str_equal(codec, "pcm") {
        Ok(DecoderKind::Pcm)
    } else if str_equal(codec, "opus") {
        Ok(DecoderKind::Opus)
    } else if str_equal(codec, "flac") {
        Ok(DecoderKind::Flac)
    } else if str_equal(codec, "vorbis") {
        Ok(DecoderKind::Vorbis)
    } else if str_equal(codec, "aac") {
        Ok(DecoderKind::Aac)
    } else {
        Err(unsupported(codec))
    }
}

/// The encoder for codec `codec`; `UnsupportedCodec(codec)` for any other
/// name.
pub fn encoder_kind(codec: &str) -> (r: Result<EncoderKind, SoniumError>)
    ensures
        match r {
            Ok(k) => encoder_kind_spec(codec@) == Some(k),
            Err(e) => encoder_kind_spec(codec@) is None && e is UnsupportedCodec
                && e->UnsupportedCodec_0@ == codec@,
        },
{
    if str_equal(codec, "pcm") {
        Ok(EncoderKind::Pcm)
    } else if str_equal(codec, "opus") {
        Ok(EncoderKind::Opus)
    } else if str_equal(codec, "flac") {
        Ok(EncoderKind::Flac)
    } else {
        Err(unsupported(codec))
    }
}

} // verus!
