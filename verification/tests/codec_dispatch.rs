use sonium::codec::dispatch::{decoder_kind, encoder_kind, DecoderKind, EncoderKind};
use sonium::error::SoniumError;

#[test]
fn decoders_are_chosen_by_name() {
    assert_eq!(decoder_kind("pcm").unwrap(), DecoderKind::Pcm);
    assert_eq!(decoder_kind("opus").unwrap(), DecoderKind::Opus);
    assert_eq!(decoder_kind("flac").unwrap(), DecoderKind::Flac);
    assert_eq!(decoder_kind("vorbis").unwrap(), DecoderKind::Vorbis);
    assert_eq!(decoder_kind("aac").unwrap(), DecoderKind::Aac);
}

#[test]
fn encoders_are_chosen_by_name() {
    assert_eq!(encoder_kind("pcm").unwrap(), EncoderKind::Pcm);
    assert_eq!(encoder_kind("opus").unwrap(), EncoderKind::Opus);
    assert_eq!(encoder_kind("flac").unwrap(), EncoderKind::Flac);
}

#[test]
fn unknown_codec_names_are_unsupported() {
    match decoder_kind("mp3") {
        Err(SoniumError::UnsupportedCodec(n)) => assert_eq!(n, "mp3"),
        other => panic!("unexpected {other:?}"),
    }
    match encoder_kind("aac") {
        Err(SoniumError::UnsupportedCodec(n)) => assert_eq!(n, "aac"),
        other => panic!("unexpected {other:?}"),
    }
}
