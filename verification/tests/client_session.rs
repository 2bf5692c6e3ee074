use sonium::session::{
    after_session, ConnectionStatus, PlayerHealth, MAX_BACKOFF_MS,
    clock_window_size, concealment_interval_us, concealment_plan, next_backoff_ms, player_buffer_limit_ms, playout_us,
    rtp_arrival, sync_is_quick, target_buffer_ms, RtpArrival, INITIAL_BACKOFF_MS,
};

#[test]
fn backoff_doubles_up_to_thirty_seconds() {
    let mut b = INITIAL_BACKOFF_MS;
    let mut seen = vec![];
    for _ in 0..8 {
        seen.push(b);
        b = next_backoff_ms(b);
    }
    assert_eq!(seen, vec![500, 1_000, 2_000, 4_000, 8_000, 16_000, 30_000, 30_000]);
}

#[test]
fn settings_targets() {
    assert_eq!(target_buffer_ms(1000, 20, -5), 1015);
    assert_eq!(player_buffer_limit_ms(30), 80);
    assert_eq!(player_buffer_limit_ms(300), 300);
    assert_eq!(clock_window_size(50), 50);
    assert_eq!(clock_window_size(51), 200);
    assert!(sync_is_quick(1, 100));
    assert!(sync_is_quick(0, 49));
    assert!(!sync_is_quick(0, 50));
    assert_eq!(playout_us(1_000_000, 1000, 20, -5), 2_015_000);
}

#[test]
fn rtp_sequence_handling() {
    assert_eq!(rtp_arrival(None, 7), RtpArrival::Accept { skipped: 0 });
    assert_eq!(rtp_arrival(Some(7), 8), RtpArrival::Accept { skipped: 0 });
    assert_eq!(rtp_arrival(Some(7), 11), RtpArrival::Accept { skipped: 3 });
    assert_eq!(rtp_arrival(Some(7), 7), RtpArrival::Duplicate);
    assert_eq!(rtp_arrival(Some(7), 6), RtpArrival::Late);
    assert_eq!(rtp_arrival(Some(65_535), 1), RtpArrival::Accept { skipped: 1 });
}

#[test]
fn concealment_spacing_and_plan() {
    // 3 lost packets + this one over 3840 ticks at 48 kHz: 20 ms each.
    assert_eq!(concealment_interval_us(Some(1_000), 4_840, 3, 48_000), 20_000);
    assert_eq!(concealment_interval_us(None, 4_840, 3, 48_000), 20_000);
    assert_eq!(concealment_interval_us(Some(1_000), 1_001, 3, 48_000), 10_000);
    assert_eq!(concealment_interval_us(Some(0), 48_000, 1, 48_000), 60_000);
    let plan = concealment_plan(10_000_000, 3, 20_000, 10_000_000, 1000);
    assert_eq!(plan, vec![(9_940_000, true), (9_960_000, true), (9_980_000, true)]);
    let plan = concealment_plan(10_000_000, 12, 20_000, 12_000_000, 1000);
    assert_eq!(plan.len(), 10);
    assert!(plan.iter().all(|(_, keep)| !keep));
}

#[test]
fn clean_disconnect_restarts_the_backoff() {
    let r = after_session(Ok(()), true, 8_000);
    assert!(matches!(r.status, ConnectionStatus::Disconnected));
    assert_eq!(r.sleep_ms, INITIAL_BACKOFF_MS);
    assert_eq!(r.next_backoff_ms, 1_000);
}

#[test]
fn failed_attempt_waits_the_current_backoff_and_doubles_it() {
    let r = after_session(Err("connection refused".to_string()), false, 8_000);
    match r.status {
        ConnectionStatus::Error(m) => assert_eq!(m, "connection refused"),
        other => panic!("unexpected status {other:?}"),
    }
    assert_eq!(r.sleep_ms, 8_000);
    assert_eq!(r.next_backoff_ms, 16_000);
    let capped = after_session(Err("timeout".to_string()), false, 20_000);
    assert_eq!(capped.next_backoff_ms, MAX_BACKOFF_MS);
}

#[test]
fn error_after_connecting_waits_the_initial_delay() {
    let r = after_session(Err("reset".to_string()), true, 16_000);
    assert_eq!(r.sleep_ms, INITIAL_BACKOFF_MS);
    assert_eq!(r.next_backoff_ms, 1_000);
}

#[test]
fn player_health_starts_at_zero() {
    let h = PlayerHealth::default();
    assert_eq!(h.underrun_count, 0);
    assert_eq!(h.overrun_count, 0);
    assert_eq!(h.callback_starvation_count, 0);
    assert_eq!(h.audio_callback_xrun_count, 0);
    assert_eq!(h.drift_drop_count, 0);
    assert_eq!(h.drift_dup_count, 0);
}
