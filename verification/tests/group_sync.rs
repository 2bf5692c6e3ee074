use sonium::protocol::messages::group_sync::GroupSync;

fn sample() -> GroupSync {
    GroupSync { server_now_us: 1_234_567, group_offset_us: -890, rate_ppm: 120, source_quality_bits: 0.95f32.to_bits() }
}

#[test]
fn group_sync_round_trip() {
    let gs = sample();
    let bytes = gs.encode();
    let decoded = GroupSync::decode(&bytes).expect("decode ok");
    assert_eq!(decoded.server_now_us, gs.server_now_us);
    assert_eq!(decoded.group_offset_us, gs.group_offset_us);
    assert_eq!(decoded.rate_ppm, gs.rate_ppm);
    assert!((f32::from_bits(decoded.source_quality_bits) - 0.95).abs() < f32::EPSILON);
}

#[test]
fn backward_compat_20_bytes() {
    let gs = sample();
    let mut payload = gs.encode();
    payload.truncate(20); // simulate old server
    let decoded = GroupSync::decode(&payload).expect("decode ok");
    assert_eq!(decoded.server_now_us, 1_234_567);
    assert_eq!(decoded.group_offset_us, -890);
    assert_eq!(decoded.rate_ppm, 120);
    assert_eq!(f32::from_bits(decoded.source_quality_bits), 0.0);
}

#[test]
fn group_sync_short_payload_is_an_error() {
    match GroupSync::decode(&[0u8; 19]) {
        Err(sonium::error::SoniumError::Protocol(m)) => assert_eq!(m, "GroupSync payload too short: 19 bytes"),
        other => panic!("unexpected {other:?}"),
    }
}

#[test]
fn group_sync_layout_is_little_endian() {
    let gs = GroupSync { server_now_us: 1, group_offset_us: -1, rate_ppm: 2, source_quality_bits: 0x3F80_0000 };
    let b = gs.encode();
    assert_eq!(b.len(), 24);
    assert_eq!(&b[0..8], &[1, 0, 0, 0, 0, 0, 0, 0]);
    assert_eq!(&b[8..16], &[0xFF; 8]);
    assert_eq!(&b[16..20], &[2, 0, 0, 0]);
    assert_eq!(&b[20..24], &[0, 0, 0x80, 0x3F]);
}
