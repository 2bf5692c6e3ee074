use sonium::sample_format::SampleFormat;
use sonium::sync::chunk::PcmChunk;
use sonium::sync::fade::{FadePhase, FadeSample, FadeState};
use sonium::sync::timeline::{callback_starved, expected_callback_us, PlaybackTimeline};

fn mono_1khz() -> SampleFormat {
    SampleFormat::new(1_000, 16, 1)
}

/// The output stage's rendering of a crossfade sample.
fn render(samples: &[FadeSample]) -> Vec<i16> {
    samples
        .iter()
        .map(|s| match *s {
            FadeSample::Direct(v) => v,
            FadeSample::Scaled { sample, num, den } => (sample as f32 * (num as f32 / den as f32)) as i16,
        })
        .collect()
}

#[test]
fn callback_timeline_waits_until_chunk_is_due() {
    let fmt = mono_1khz();
    let mut timeline = PlaybackTimeline::new(fmt);
    let mut fade = FadeState::new(1);

    timeline.buffer.push(PcmChunk::new(10_000, vec![1, 2, 3, 4, 5], fmt), 0);

    let (early, counts) = timeline.fill_i16(5, 0, &mut fade);
    assert_eq!(render(&early), vec![0, 0, 0, 0, 0]);
    assert_eq!(timeline.buffer.buffer_depth_us(), 5_000);
    assert_eq!(counts.underruns, 1);

    let mut fade = FadeState::new(1);
    let (due, _) = timeline.fill_i16(5, 10_000, &mut fade);
    assert_eq!(render(&due), vec![1, 2, 3, 4, 5]);
    assert!(timeline.current.is_none());
}

#[test]
fn callback_timeline_inserts_partial_silence_before_due_chunk() {
    let fmt = mono_1khz();
    let mut timeline = PlaybackTimeline::new(fmt);
    let mut fade = FadeState::new(1);

    timeline.buffer.push(PcmChunk::new(3_000, vec![7, 8, 9], fmt), 0);

    let (out, _) = timeline.fill_i16(6, 0, &mut fade);
    let out = render(&out);
    assert_eq!(out[0..3], [0, 0, 0]);
    assert_ne!(out[3..6], [0, 0, 0]);
    assert!(timeline.current.is_none());
}

// ── Further cases ──────────────────────────────────────────────────────────

#[test]
fn late_chunk_skips_one_frame() {
    let fmt = mono_1khz();
    let mut timeline = PlaybackTimeline::new(fmt);
    let mut fade = FadeState::new(4);
    timeline.buffer.push(PcmChunk::new(0, vec![10, 20, 30, 40, 50, 60, 70, 80, 90, 100], fmt), 0);
    let (out, counts) = timeline.fill_i16(4, 5_000, &mut fade);
    assert_eq!(out, vec![FadeSample::Direct(20), FadeSample::Direct(30), FadeSample::Direct(40), FadeSample::Direct(50)]);
    assert_eq!(counts.drift_drops, 1);
    assert_eq!(counts.underruns, 0);
    assert_eq!(timeline.current.as_ref().unwrap().read_pos, 5);
}

#[test]
fn early_chunk_repeats_the_previous_frame() {
    let fmt = mono_1khz();
    let mut timeline = PlaybackTimeline::new(fmt);
    let mut fade = FadeState::new(4);
    let mut chunk = PcmChunk::new(0, vec![10, 20, 30, 40, 50, 60, 70, 80, 90, 100], fmt);
    chunk.read_pos = 5; // its cursor plays at 5 ms
    timeline.current = Some(chunk);
    // The callback is at 1 ms, 4 ms before the cursor: repeat frame 4, then keep repeating.
    let (out, counts) = timeline.fill_i16(2, 1_000, &mut fade);
    assert_eq!(out, vec![FadeSample::Direct(50), FadeSample::Direct(50)]);
    assert_eq!(counts.drift_dups, 2);
}

#[test]
fn underrun_ramps_down_then_back_up() {
    let mut fade = FadeState::new(4);
    fade.feed(1000);
    let down: Vec<FadeSample> = (0..6).map(|_| fade.drain()).collect();
    assert_eq!(
        down,
        vec![
            FadeSample::Scaled { sample: 1000, num: 4, den: 4 },
            FadeSample::Scaled { sample: 1000, num: 3, den: 4 },
            FadeSample::Scaled { sample: 1000, num: 2, den: 4 },
            FadeSample::Scaled { sample: 1000, num: 1, den: 4 },
            FadeSample::Direct(0),
            FadeSample::Direct(0),
        ]
    );
    assert_eq!(fade.phase, FadePhase::Silent);
    let up: Vec<FadeSample> = [5, 6, 7, 8, 9, 10].iter().map(|&s| fade.feed(s)).collect();
    assert_eq!(
        up,
        vec![
            FadeSample::Scaled { sample: 5, num: 0, den: 4 },
            FadeSample::Scaled { sample: 6, num: 1, den: 4 },
            FadeSample::Scaled { sample: 7, num: 2, den: 4 },
            FadeSample::Scaled { sample: 8, num: 3, den: 4 },
            FadeSample::Direct(9),
            FadeSample::Direct(10),
        ]
    );
    assert_eq!(fade.phase, FadePhase::Playing);
    assert_eq!(render(&down), vec![1000, 750, 500, 250, 0, 0]);
}

#[test]
fn zero_fade_length_counts_as_one() {
    assert_eq!(FadeState::new(0).fade_len, 1);
}

#[test]
fn callback_timing_thresholds() {
    assert_eq!(expected_callback_us(960, 2, 48_000), 10_000);
    assert_eq!(expected_callback_us(0, 2, 48_000), 1);
    assert_eq!(expected_callback_us(5, 0, 0), 5_000_000);
    assert!(!callback_starved(50_000, 10));
    assert!(callback_starved(50_001, 10));
    assert!(!callback_starved(40_000, 10_000));
    assert!(!callback_starved(150_000, 50_000));
    assert!(callback_starved(150_001, 50_000));
}
