use sonium::sample_format::SampleFormat;

#[test]
fn frame_size_stereo_16bit() {
    let fmt = SampleFormat::new(48_000, 16, 2);
    assert_eq!(fmt.sample_size(), 2);
    assert_eq!(fmt.frame_size(), 4);
}

#[test]
fn frame_size_mono_24bit() {
    let fmt = SampleFormat::new(44_100, 24, 1);
    assert_eq!(fmt.sample_size(), 3);
    assert_eq!(fmt.frame_size(), 3);
}

#[test]
fn frame_count() {
    let fmt = SampleFormat::new(48_000, 16, 2);
    // 3840 bytes / 4 bytes-per-frame = 960 frames (20 ms @ 48 kHz)
    assert_eq!(fmt.frame_count(3840), 960);
    // Partial frame is truncated
    assert_eq!(fmt.frame_count(3841), 960);
}

#[test]
fn display() {
    let fmt = SampleFormat::new(48_000, 16, 2);
    assert_eq!(fmt.display(), "48000Hz/16bit/2ch");
}

#[test]
fn zero_frame_size_does_not_panic() {
    let fmt = SampleFormat { rate: 48_000, bits: 0, channels: 0 };
    assert_eq!(fmt.frame_count(1024), 0);
}

#[test]
fn default_format_is_48k_16bit_stereo() {
    let fmt = SampleFormat::default();
    assert_eq!(fmt, SampleFormat::new(48_000, 16, 2));
    assert_eq!(fmt.display(), "48000Hz/16bit/2ch");
}

#[test]
fn sub_byte_bits_give_zero_sample_size() {
    let fmt = SampleFormat::new(8_000, 7, 2);
    assert_eq!(fmt.sample_size(), 0);
    assert_eq!(fmt.frame_count(100), 0);
}
