use sonium::codec::pcm::{PcmDecoder, PcmEncoder};
use sonium::codec::traits::{Decoder, Encoder};
use sonium::protocol::messages::codec_header::parse_opus_codec_header;
use sonium::sample_format::SampleFormat;

fn round_trip(samples: &[i16]) -> Vec<i16> {
    let fmt = SampleFormat::default();
    let mut enc = PcmEncoder::new(fmt);
    let mut dec = PcmDecoder::new();

    let mut encoded = Vec::new();
    enc.encode(samples, &mut encoded).unwrap();

    let mut decoded = Vec::new();
    dec.decode(&encoded, &mut decoded).unwrap();
    decoded
}

#[test]
fn pcm_round_trip_silence() {
    let samples = vec![0i16; 960 * 2]; // 20ms stereo
    assert_eq!(round_trip(&samples), samples);
}

#[test]
fn round_trip_sine_like() {
    let samples: Vec<i16> = (0..100)
        .map(|i| ((i as f32 * 0.1).sin() * i16::MAX as f32) as i16)
        .collect();
    assert_eq!(round_trip(&samples), samples);
}

#[test]
fn round_trip_min_max() {
    let samples = vec![i16::MIN, i16::MAX, 0, -1, 1];
    assert_eq!(round_trip(&samples), samples);
}

#[test]
fn round_trip_empty() {
    assert_eq!(round_trip(&[]), Vec::<i16>::new());
}

#[test]
fn encode_is_little_endian() {
    let mut enc = PcmEncoder::new(SampleFormat::default());
    let mut out = Vec::new();
    enc.encode(&[0x0102i16], &mut out).unwrap();
    // i16 0x0102 in little-endian → [0x02, 0x01]
    assert_eq!(out, vec![0x02, 0x01]);
}

#[test]
fn odd_byte_input_truncated_silently() {
    // An odd number of input bytes means the last byte is ignored
    let mut dec = PcmDecoder::new();
    let mut out = Vec::new();
    dec.decode(&[0x01, 0x00, 0xFF], &mut out).unwrap(); // 3 bytes → 1 sample
    assert_eq!(out, vec![0x0001i16]);
}

#[test]
fn codec_name() {
    let enc = PcmEncoder::new(SampleFormat::default());
    assert_eq!(enc.codec_name(), "pcm");
}

#[test]
fn codec_header_parseable() {
    let enc = PcmEncoder::new(SampleFormat::new(48_000, 16, 2));
    let header = enc.codec_header();
    let (rate, bits, ch) = parse_opus_codec_header(&header).unwrap();
    assert_eq!((rate, bits, ch), (48_000, 16, 2));
}

#[test]
fn decode_appends_to_existing_output() {
    let mut dec = PcmDecoder::new();
    let mut out = vec![7i16];
    dec.decode(&[0xFF, 0xFF, 0x00, 0x80], &mut out).unwrap();
    assert_eq!(out, vec![7, -1, i16::MIN]);
}

#[test]
fn encode_negative_sample_bytes() {
    let mut enc = PcmEncoder::new(SampleFormat::default());
    let mut out = vec![0xAAu8];
    enc.encode(&[-2i16], &mut out).unwrap();
    assert_eq!(out, vec![0xAA, 0xFE, 0xFF]);
}
