use sonium::protocol::messages::health_report::{AudioHealthState, HealthReport};

fn report(underruns: u32, overruns: u32, stale_drops: u32, buffer_ms: u32, jitter_ms: u32) -> HealthReport {
    HealthReport::new(underruns, overruns, stale_drops, buffer_ms, jitter_ms, 0)
}

#[test]
fn snapshot_state_is_stable_when_buffer_and_jitter_are_healthy() {
    assert_eq!(report(0, 0, 0, 250, 10).snapshot_state(500), AudioHealthState::Stable);
}

#[test]
fn snapshot_state_marks_empty_buffer_as_buffering() {
    assert_eq!(report(0, 0, 0, 0, 0).snapshot_state(500), AudioHealthState::Buffering);
}

#[test]
fn snapshot_state_prioritizes_underruns() {
    assert_eq!(report(1, 0, 0, 250, 10).snapshot_state(500), AudioHealthState::Underrun);
}

#[test]
fn snapshot_state_marks_high_jitter_as_degraded() {
    assert_eq!(report(0, 0, 0, 250, 400).snapshot_state(500), AudioHealthState::Degraded);
}

#[test]
fn queue_metrics_round_trip_on_wire() {
    let original = report(0, 0, 0, 120, 8)
        .with_queue_metrics(180, 6, 500)
        .with_callback_metrics(2, 1)
        .with_rtp_metrics(100, 3, 1, 2);
    let decoded = HealthReport::decode(&original.encode()).unwrap();

    assert_eq!(decoded.output_buffer_ms, 180);
    assert_eq!(decoded.jitter_buffer_chunks, 6);
    assert_eq!(decoded.target_playout_latency_ms, 500);
    assert_eq!(decoded.callback_starvation_count, 2);
    assert_eq!(decoded.audio_callback_xrun_count, 1);
    assert_eq!(decoded.rtp_packets_received, 100);
    assert_eq!(decoded.rtp_sequence_gaps, 3);
    assert_eq!(decoded.rtp_decode_error_count, 1);
    assert_eq!(decoded.rtp_concealed_packets, 2);
    assert_eq!(decoded.total_playout_queue_ms(), 300);
}

#[test]
fn sync_metrics_round_trip_on_wire() {
    let original = report(0, 0, 0, 120, 8)
        .with_sync_metrics(-1_234, 567, -667, 320)
        .with_playout_error(900, 1_800, 2_700, 1_500, 4_200)
        .with_resample_metrics(45, 42)
        .with_arq_fec_recovery_pct(9_876);
    let decoded = HealthReport::decode(&original.encode()).unwrap();

    assert_eq!(decoded.clock_offset_us, -1_234);
    assert_eq!(decoded.group_offset_us, 567);
    assert_eq!(decoded.total_offset_us, -667);
    assert_eq!(decoded.sync_error_to_group_us, 320);
    assert_eq!(decoded.playout_error_us_p50, 900);
    assert_eq!(decoded.playout_error_us_p95, 1_800);
    assert_eq!(decoded.playout_error_us_p99, 2_700);
    assert_eq!(decoded.callback_xrun_us_p99, 1_500);
    assert_eq!(decoded.output_latency_us, 4_200);
    assert_eq!(decoded.resample_ratio_ppm_commanded, 45);
    assert_eq!(decoded.resample_ratio_ppm_applied, 42);
    assert_eq!(decoded.arq_fec_combined_recovery_pct, 9_876);
}

#[test]
fn sync_from_report_classifies_skew() {
    let healthy = report(0, 0, 0, 120, 8)
        .with_sync_metrics(0, 0, 0, 1_500)
        .with_playout_error(500, 1_500, 2_000, 0, 0);
    assert_eq!(AudioHealthState::sync_from_report(&healthy), AudioHealthState::SyncOk);

    let degraded = report(0, 0, 0, 120, 8)
        .with_sync_metrics(0, 0, 0, 5_000)
        .with_playout_error(1_000, 4_000, 5_000, 0, 0);
    assert_eq!(AudioHealthState::sync_from_report(&degraded), AudioHealthState::SyncDegraded);

    let unstable = report(0, 0, 0, 120, 8)
        .with_sync_metrics(0, 0, 0, 25_000)
        .with_playout_error(1_000, 4_000, 5_000, 0, 0);
    assert_eq!(AudioHealthState::sync_from_report(&unstable), AudioHealthState::SyncUnstable);
}

#[test]
fn v1_payload_decodes_when_new_sync_fields_are_missing() {
    let v1 = report(2, 1, 3, 200, 12)
        .with_queue_metrics(100, 4, 250)
        .with_callback_metrics(5, 0)
        .with_rtp_metrics(900, 2, 0, 1)
        .with_drift_metrics(7, 3)
        .with_arq_metrics(11, 9, 4);
    let mut payload = v1.encode();
    // Truncate everything past arq_fec_recovered (the previous trailing field).
    // 20 u32 fields = 80 bytes total in v1 wire.
    payload.truncate(80);
    let decoded = HealthReport::decode(&payload).unwrap();

    assert_eq!(decoded.arq_fec_recovered, 4);
    assert_eq!(decoded.clock_offset_us, 0);
    assert_eq!(decoded.group_offset_us, 0);
    assert_eq!(decoded.total_offset_us, 0);
    assert_eq!(decoded.sync_error_to_group_us, 0);
    assert_eq!(decoded.playout_error_us_p95, 0);
    assert_eq!(decoded.arq_fec_combined_recovery_pct, 0);
}

#[test]
fn legacy_health_report_payload_decodes_with_zero_queue_metrics() {
    let mut legacy_payload = Vec::new();
    legacy_payload.extend_from_slice(&0u32.to_le_bytes());
    legacy_payload.extend_from_slice(&0u32.to_le_bytes());
    legacy_payload.extend_from_slice(&0u32.to_le_bytes());
    legacy_payload.extend_from_slice(&250u32.to_le_bytes());
    legacy_payload.extend_from_slice(&10u32.to_le_bytes());
    legacy_payload.extend_from_slice(&(-3i32).to_le_bytes());

    let decoded = HealthReport::decode(&legacy_payload).unwrap();

    assert_eq!(decoded.buffer_depth_ms, 250);
    assert_eq!(decoded.output_buffer_ms, 0);
    assert_eq!(decoded.jitter_buffer_chunks, 0);
    assert_eq!(decoded.target_playout_latency_ms, 0);
    assert_eq!(decoded.callback_starvation_count, 0);
    assert_eq!(decoded.audio_callback_xrun_count, 0);
    assert_eq!(decoded.rtp_packets_received, 0);
    assert_eq!(decoded.rtp_sequence_gaps, 0);
    assert_eq!(decoded.rtp_decode_error_count, 0);
    assert_eq!(decoded.rtp_concealed_packets, 0);
}

#[test]
fn health_report_full_round_trip_keeps_every_field() {
    let original = report(1, 2, 3, 4, 5)
        .with_queue_metrics(6, 7, 8)
        .with_callback_metrics(9, 10)
        .with_rtp_metrics(11, 12, 13, 14)
        .with_drift_metrics(15, 16)
        .with_arq_metrics(17, 18, 19)
        .with_sync_metrics(-20, 21, -22, 23)
        .with_playout_error(24, 25, 26, 27, 28)
        .with_resample_metrics(-29, 30)
        .with_arq_fec_recovery_pct(31);
    assert_eq!(HealthReport::decode(&original.encode()).unwrap(), original);
}

#[test]
fn health_report_shorter_than_legacy_is_an_error() {
    assert!(HealthReport::decode(&[0u8; 23]).is_err());
}

#[test]
fn health_state_names() {
    assert_eq!(AudioHealthState::SyncDegraded.as_str(), "sync_degraded");
    assert_eq!(AudioHealthState::Buffering.as_str(), "buffering");
}

#[test]
fn group_skew_of_exactly_two_ms_is_degraded() {
    let r = HealthReport::new(0, 0, 0, 0, 0, 0).with_sync_metrics(0, 0, 0, 2_000);
    assert_eq!(AudioHealthState::sync_from_report(&r), AudioHealthState::SyncDegraded);
    let r = HealthReport::new(0, 0, 0, 0, 0, 0).with_sync_metrics(0, 0, 0, -1_999);
    assert_eq!(AudioHealthState::sync_from_report(&r), AudioHealthState::SyncOk);
}

#[test]
fn state_names_are_distinct_snake_case() {
    let all = [
        AudioHealthState::Buffering,
        AudioHealthState::Stable,
        AudioHealthState::Degraded,
        AudioHealthState::Recovering,
        AudioHealthState::Underrun,
        AudioHealthState::Fallback,
        AudioHealthState::Offline,
        AudioHealthState::SyncOk,
        AudioHealthState::SyncDegraded,
        AudioHealthState::SyncUnstable,
    ];
    for a in all {
        for b in all {
            assert_eq!(a.as_str() == b.as_str(), a == b);
        }
    }
    assert_eq!(AudioHealthState::SyncOk.as_str(), "sync_ok");
    assert_eq!(AudioHealthState::Buffering.as_str(), "buffering");
}
