use sonium::sample_format::SampleFormat;
use sonium::sync::buffer::SyncBuffer;
use sonium::sync::chunk::PcmChunk;
use sonium::sync::clock::{
    clamp_group_offset, clock_micros, frames_to_us, nudged_group_offset, to_local_time, to_server_time, us_to_frames,
};
use sonium::sync::drift::DriftCorrector;
use sonium::sync::playout_histogram::PlayoutErrorTracker;

#[test]
fn empty_tracker_returns_zero_percentiles() {
    let t = PlayoutErrorTracker::default();
    assert_eq!(t.percentiles(), (0, 0, 0));
}

#[test]
fn records_absolute_values() {
    let mut t = PlayoutErrorTracker::default();
    t.record(-500);
    t.record(500);
    assert_eq!(t.len(), 2);
    let (p50, _, _) = t.percentiles();
    assert_eq!(p50, 500);
}

#[test]
fn percentiles_match_sorted_position() {
    let mut t = PlayoutErrorTracker::new(100);
    for i in 1..=100 {
        t.record(i as i64 * 100);
    }
    let (p50, p95, p99) = t.percentiles();
    assert_eq!(p50, 5_000);
    assert_eq!(p95, 9_500);
    assert_eq!(p99, 9_900);
}

#[test]
fn ring_buffer_evicts_oldest() {
    let mut t = PlayoutErrorTracker::new(4);
    t.record(1);
    t.record(2);
    t.record(3);
    t.record(4);
    t.record(5);
    // 1 should be evicted; remaining values are 2,3,4,5.
    assert_eq!(t.len(), 4);
    let (p50, _, _) = t.percentiles();
    assert_eq!(p50, 3);
}

#[test]
fn clear_resets_tracker() {
    let mut t = PlayoutErrorTracker::default();
    t.record(100);
    t.record(200);
    t.clear();
    assert!(t.is_empty());
    assert_eq!(t.percentiles(), (0, 0, 0));
}

#[test]
fn tracker_caps_huge_errors_and_orders_unsorted_input() {
    let mut t = PlayoutErrorTracker::new(3);
    t.record(i64::MIN);
    t.record(7);
    t.record(-3);
    assert_eq!(t.percentiles(), (7, 7, 7));
    t.record(1);
    // i64::MIN (capped to u32::MAX) was evicted: samples 7, 3, 1.
    assert_eq!(t.percentiles(), (3, 3, 3));
    let zero = PlayoutErrorTracker::new(0);
    assert!(zero.is_empty());
}

#[test]
fn test_sync_buffer_stale_drops() {
    let fmt = SampleFormat::new(48000, 16, 2);
    let mut buf = SyncBuffer::new(fmt);
    buf.set_target_buffer_ms(100);

    let now_us = 2_000_000;

    // Push a chunk that is already very stale (more than 100ms old)
    let stale_playout = now_us - 500_000;
    buf.push(PcmChunk::new(stale_playout, vec![0i16; 100], fmt), now_us);

    // It should be dropped on pop_ready
    let chunk = buf.pop_ready(now_us);
    assert!(chunk.is_none());
    assert!(buf.take_stale_drops() >= 1);
}

#[test]
fn test_drift_corrector_logic() {
    let mut drift = DriftCorrector::default();

    // Threshold is 2000us, cooldown is 2 ticks
    assert!(!drift.should_drop_frame(3000));
    assert!(drift.should_drop_frame(3000));
    assert!(!drift.should_drop_frame(3000));

    drift.ticks_since_last_correction = 0; // reset
    assert!(!drift.should_duplicate_frame(-3000));
    assert!(drift.should_duplicate_frame(-3000));
}

#[test]
fn drift_corrector_ignores_small_drift() {
    let mut drift = DriftCorrector::default();
    for _ in 0..5 {
        assert!(!drift.should_drop_frame(2_000));
        assert!(!drift.should_duplicate_frame(-2_000));
    }
    assert_eq!(drift.ticks_since_last_correction, 10);
}

#[test]
fn sync_buffer_orders_chunks_by_playout_time() {
    let fmt = SampleFormat::new(48000, 16, 2);
    let mut buf = SyncBuffer::new(fmt);
    buf.push(PcmChunk::new(3_000_000, vec![0i16; 960], fmt), 0);
    buf.push(PcmChunk::new(1_000_000, vec![0i16; 960], fmt), 0);
    buf.push(PcmChunk::new(2_000_000, vec![0i16; 960], fmt), 0);
    assert_eq!(buf.len(), 3);
    assert_eq!(buf.next_playout_us(), Some(1_000_000));
    // 3 × 480 frames at 48 kHz = 30 ms.
    assert_eq!(buf.buffer_depth_us(), 30_000);
    buf.clear();
    assert!(buf.is_empty());
    assert_eq!(buf.next_playout_us(), None);
}

#[test]
fn sync_buffer_releases_due_chunk_exactly() {
    let fmt = SampleFormat::new(48000, 16, 2);
    let mut buf = SyncBuffer::new(fmt);
    buf.push(PcmChunk::new(1_000_000, vec![1i16; 960], fmt), 0);
    assert!(buf.pop_due_exact(999_999).is_none());
    let c = buf.pop_due_exact(1_000_000).unwrap();
    assert_eq!(c.playout_us, 1_000_000);
    assert!(buf.is_empty());
}

#[test]
fn pcm_chunk_durations_are_exact() {
    let fmt = SampleFormat::new(48000, 16, 2);
    let c = PcmChunk::new(5_000, vec![0i16; 960], fmt);
    assert_eq!(c.remaining_samples(), 960);
    assert_eq!(c.remaining_us(), 10_000);
    assert_eq!(c.current_playout_us(), 5_000);
    assert!(!c.is_exhausted());
}

#[test]
fn adaptive_nudge_large_diff_converges_fast() {
    // 30 ms diff → damping 3 → correction 10 ms per call
    assert_eq!(nudged_group_offset(0, 30_000), -10_000);
}

#[test]
fn adaptive_nudge_small_diff_is_gentle() {
    // 2 ms diff → damping 50 → correction 40 µs
    assert_eq!(nudged_group_offset(0, 2_000), -40);
}

#[test]
fn group_offset_clamp() {
    assert_eq!(clamp_group_offset(100_000), 50_000);
    assert_eq!(clamp_group_offset(-100_000), -50_000);
}

#[test]
fn nudge_medium_and_negative_diffs() {
    assert_eq!(nudged_group_offset(0, 10_000), -1_000);
    assert_eq!(nudged_group_offset(0, -10_001), 1_000);
    assert_eq!(nudged_group_offset(49_000, -30_000), 50_000);
}

#[test]
fn server_local_conversion_round_trips() {
    let s = to_server_time(1_000, 250, -50);
    assert_eq!(s, 1_200);
    assert_eq!(to_local_time(s, 250, -50), 1_000);
}

#[test]
fn frame_microsecond_conversion() {
    assert_eq!(frames_to_us(960, 48_000), 20_000);
    assert_eq!(us_to_frames(20_000, 48_000), 960);
    assert_eq!(us_to_frames(-5, 48_000), 0);
    assert_eq!(frames_to_us(1, 0), 1_000_000);
}

#[test]
fn clock_reading_in_microseconds() {
    assert_eq!(clock_micros(1, 5), 1_000_005);
    assert_eq!(clock_micros(1_700_000_000, 999_999), 1_700_000_000_999_999);
    assert_eq!(clock_micros(0, 0), 0);
}
