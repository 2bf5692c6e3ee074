//! `HealthReport` — playback health telemetry sent by clients, and the
//! coarse health states derived from it.
//!
//! The payload is the report's fields in order, little-endian.  Fields added
//! after the first six are optional on decode so that older clients'
//! shorter payloads still parse.

use vstd::prelude::*;
use crate::error::Result;
use crate::protocol::wire::{
    WireRead, WireWrite, le_u16, le_u32, le_i32, le_i64, u16_bytes, u32_bytes, i32_bytes,
    i64_bytes, lemma_u16_round_trip, lemma_u32_round_trip, lemma_i32_round_trip,
    lemma_i64_round_trip,
};

verus! {

/// Coarse playback health state derived from client telemetry.
#[derive(Debug, Clone, Copy, PartialEq, Eq, Structural)]
pub enum AudioHealthState {
    Buffering,
    Stable,
    Degraded,
    Recovering,
    Underrun,
    Fallback,
    Offline,
    /// Multi-client sync error within the target band (group skew under 2 ms).
    SyncOk,
    /// Group skew elevated but recoverable (2-10 ms).
    SyncDegraded,
    /// Group skew large or oscillating (over 10 ms).
    SyncUnstable,
}

/// Jitter above this many milliseconds marks a session degraded: 70% of the
/// target buffer, at least 80 ms.
pub open spec fn jitter_warning_spec(target_buffer_ms: u32) -> int {
    let scaled = if target_buffer_ms * 7 > u32::MAX { u32::MAX as int } else { target_buffer_ms * 7 };
    if scaled / 10 > 80 { scaled / 10 } else { 80 }
}

/// A playout queue below this many milliseconds marks a session degraded: a
/// quarter of the target buffer, at least 20 ms.
pub open spec fn low_buffer_warning_spec(target_buffer_ms: u32) -> int {
    if target_buffer_ms / 4 > 20 { (target_buffer_ms / 4) as int } else { 20 }
}

pub fn jitter_warning_ms(target_buffer_ms: u32) -> (r: u32)
    ensures
        r == jitter_warning_spec(target_buffer_ms),
{
    let product: u32 = if target_buffer_ms > u32::MAX / 7 { u32::MAX } else { target_buffer_ms * 7 };
    let scaled = product / 10;
    if scaled > 80 { scaled } else { 80 }
}

pub fn low_buffer_warning_ms(target_buffer_ms: u32) -> (r: u32)
    ensures
        r == low_buffer_warning_spec(target_buffer_ms),
{
    let quarter = target_buffer_ms / 4;
    if quarter > 20 { quarter } else { 20 }
}

/// Real-time health metrics from a client playback session.
#[derive(Debug, Clone, Copy, PartialEq, Eq, Structural)]
pub struct HealthReport {
    /// Times the playback buffer ran dry.
    pub underrun_count: u32,
    /// Samples dropped because the buffer overflowed.
    pub overrun_count: u32,
    /// Chunks dropped because they arrived after their playout time.
    pub stale_drop_count: u32,
    /// Current jitter-buffer depth in milliseconds.
    pub buffer_depth_ms: u32,
    /// Estimated network jitter in milliseconds.
    pub jitter_ms: u32,
    /// Measured end-to-end latency in milliseconds.
    pub latency_ms: i32,
    /// Depth of the output ring buffer in milliseconds.
    pub output_buffer_ms: u32,
    /// Decoded chunks queued in the jitter buffer.
    pub jitter_buffer_chunks: u32,
    /// Current target playout latency in milliseconds.
    pub target_playout_latency_ms: u32,
    /// Audio callbacks that arrived much later than expected.
    pub callback_starvation_count: u32,
    /// Output callback errors reported by the audio backend.
    pub audio_callback_xrun_count: u32,
    /// RTP packets received on the UDP media path.
    pub rtp_packets_received: u32,
    /// RTP sequence numbers skipped.
    pub rtp_sequence_gaps: u32,
    /// RTP datagrams rejected by the decoder.
    pub rtp_decode_error_count: u32,
    /// Missing RTP packets concealed by the decoder.
    pub rtp_concealed_packets: u32,
    /// Frames dropped to correct clock drift (sent as `u32`).
    pub drift_drop_count: u64,
    /// Frames duplicated to correct clock drift (sent as `u32`).
    pub drift_dup_count: u64,
    /// ARQ NACK packets sent.
    pub arq_nacks_sent: u32,
    /// Retransmitted audio packets received.
    pub arq_retransmit_received: u32,
    /// Audio packets recovered via FEC.
    pub arq_fec_recovered: u32,
    /// Clock offset to the server in microseconds.
    pub clock_offset_us: i64,
    /// Group offset applied to playout in microseconds.
    pub group_offset_us: i64,
    /// Total offset (clock + group) in microseconds.
    pub total_offset_us: i64,
    /// Output device latency in microseconds.
    pub output_latency_us: u32,
    /// P50 of the playout error, microseconds.
    pub playout_error_us_p50: u32,
    /// P95 of the playout error, microseconds.
    pub playout_error_us_p95: u32,
    /// P99 of the playout error, microseconds.
    pub playout_error_us_p99: u32,
    /// P99 of audio callback duration, microseconds.
    pub callback_xrun_us_p99: u32,
    /// Signed error between this client's playout and the group target, microseconds.
    pub sync_error_to_group_us: i64,
    /// Resample ratio commanded by the server, ppm.
    pub resample_ratio_ppm_commanded: i32,
    /// Resample ratio actually applied, ppm.
    pub resample_ratio_ppm_applied: i32,
    /// Combined ARQ+FEC recovery rate in basis points (0-10000).
    pub arq_fec_combined_recovery_pct: u16,
}
/// An optional field of `w` bytes at `pos`: its value and the next position,
/// or zero and `pos` when fewer than `w` bytes remain.
pub open spec fn opt_u32(p: Seq<u8>, pos: int) -> (u32, int) {
    if pos + 4 <= p.len() { (le_u32(p, pos) as u32, pos + 4) } else { (0, pos) }
}

pub open spec fn opt_i32(p: Seq<u8>, pos: int) -> (i32, int) {
    if pos + 4 <= p.len() { (le_i32(p, pos), pos + 4) } else { (0, pos) }
}

pub open spec fn opt_i64(p: Seq<u8>, pos: int) -> (i64, int) {
    if pos + 8 <= p.len() { (le_i64(p, pos), pos + 8) } else { (0, pos) }
}

pub open spec fn opt_u16(p: Seq<u8>, pos: int) -> (u16, int) {
    if pos + 2 <= p.len() { (le_u16(p, pos) as u16, pos + 2) } else { (0, pos) }
}

/// Sum of the jitter-buffer and output-buffer depths, saturating.
pub open spec fn total_queue_spec(r: HealthReport) -> int {
    if r.buffer_depth_ms + r.output_buffer_ms > u32::MAX {
        u32::MAX as int
    } else {
        r.buffer_depth_ms + r.output_buffer_ms
    }
}

/// The snapshot state of a report: underruns first, an empty queue is
/// buffering, and overruns, stale drops, high jitter or a low queue degrade.
pub open spec fn snapshot_state_spec(r: HealthReport, target_buffer_ms: u32) -> AudioHealthState {
    if r.underrun_count > 0 {
        AudioHealthState::Underrun
    } else if total_queue_spec(r) == 0 {
        AudioHealthState::Buffering
    } else if r.overrun_count > 0 || r.stale_drop_count > 0 || r.jitter_ms > jitter_warning_spec(
        target_buffer_ms,
    ) || total_queue_spec(r) < low_buffer_warning_spec(target_buffer_ms) {
        AudioHealthState::Degraded
    } else {
        AudioHealthState::Stable
    }
}

pub open spec fn abs_i64(x: i64) -> int {
    if x < 0 { -x } else { x as int }
}

/// Sync quality: group skew under 2 ms with a p95 playout error within 2 ms
/// is ok, skew within 10 ms with p95 within 5 ms is degraded, anything else
/// unstable.
pub open spec fn sync_state_spec(r: HealthReport) -> AudioHealthState {
    if abs_i64(r.sync_error_to_group_us) < 2_000 && r.playout_error_us_p95 <= 2_000 {
        AudioHealthState::SyncOk
    } else if abs_i64(r.sync_error_to_group_us) <= 10_000 && r.playout_error_us_p95 <= 5_000 {
        AudioHealthState::SyncDegraded
    } else {
        AudioHealthState::SyncUnstable
    }
}

/// The snake_case name of a state, as it appears in JSON.
pub open spec fn state_name(s: AudioHealthState) -> Seq<char> {
    match s {
        AudioHealthState::Buffering => "buffering"@,
        AudioHealthState::Stable => "stable"@,
        AudioHealthState::Degraded => "degraded"@,
        AudioHealthState::Recovering => "recovering"@,
        AudioHealthState::Underrun => "underrun"@,
        AudioHealthState::Fallback => "fallback"@,
        AudioHealthState::Offline => "offline"@,
        AudioHealthState::SyncOk => "sync_ok"@,
        AudioHealthState::SyncDegraded => "sync_degraded"@,
        AudioHealthState::SyncUnstable => "sync_unstable"@,
    }
}

/// A session that has not underrun and has audio queued is degraded when it
/// overran or dropped stale chunks, whatever its buffer and jitter; it is
/// stable only with no overruns, no stale drops, jitter within the warning
/// level and a queue of at least the low-buffer level.
pub proof fn lemma_drops_degrade_snapshot(r: HealthReport, target_buffer_ms: u32)
    ensures
        (r.underrun_count == 0 && total_queue_spec(r) > 0 && (r.overrun_count > 0 || r.stale_drop_count
            > 0)) ==> snapshot_state_spec(r, target_buffer_ms) == AudioHealthState::Degraded,
        snapshot_state_spec(r, target_buffer_ms) == AudioHealthState::Stable ==> r.underrun_count == 0
            && r.overrun_count == 0 && r.stale_drop_count == 0 && total_queue_spec(r) > 0 && r.jitter_ms
            <= jitter_warning_spec(target_buffer_ms) && total_queue_spec(r) >= low_buffer_warning_spec(
            target_buffer_ms,
        ),
        r.underrun_count > 0 ==> snapshot_state_spec(r, target_buffer_ms) == AudioHealthState::Underrun,
        r.underrun_count == 0 && total_queue_spec(r) == 0 ==> snapshot_state_spec(r, target_buffer_ms)
            == AudioHealthState::Buffering,
{
}

/// No two states share a name.
pub proof fn lemma_state_names_distinct(a: AudioHealthState, b: AudioHealthState)
    ensures
        state_name(a) == state_name(b) ==> a == b,
{
    reveal_strlit("buffering");
    reveal_strlit("stable");
    reveal_strlit("degraded");
    reveal_strlit("recovering");
    reveal_strlit("underrun");
    reveal_strlit("fallback");
    reveal_strlit("offline");
    reveal_strlit("sync_ok");
    reveal_strlit("sync_degraded");
    reveal_strlit("sync_unstable");
    if state_name(a) == state_name(b) {
        assert(state_name(a).len() == state_name(b).len());
        assert(state_name(a)[0] == state_name(b)[0]);
        if state_name(a).len() > 5 {
            assert(state_name(a)[5] == state_name(b)[5]);
        }
    }
}

impl AudioHealthState {
    pub fn as_str(self) -> (s: &'static str)
        ensures
            s@ == state_name(self),
            s@ == match self {
                AudioHealthState::Buffering => "buffering"@,
                AudioHealthState::Stable => "stable"@,
                AudioHealthState::Degraded => "degraded"@,
                AudioHealthState::Recovering => "recovering"@,
                AudioHealthState::Underrun => "underrun"@,
                AudioHealthState::Fallback => "fallback"@,
                AudioHealthState::Offline => "offline"@,
                AudioHealthState::SyncOk => "sync_ok"@,
                AudioHealthState::SyncDegraded => "sync_degraded"@,
                AudioHealthState::SyncUnstable => "sync_unstable"@,
            },
    {
        match self {
            AudioHealthState::Buffering => "buffering",
            AudioHealthState::Stable => "stable",
            AudioHealthState::Degraded => "degraded",
            AudioHealthState::Recovering => "recovering",
            AudioHealthState::Underrun => "underrun",
            AudioHealthState::Fallback => "fallback",
            AudioHealthState::Offline => "offline",
            AudioHealthState::SyncOk => "sync_ok",
            AudioHealthState::SyncDegraded => "sync_degraded",
            AudioHealthState::SyncUnstable => "sync_unstable",
        }
    }

    pub fn from_report_snapshot(report: &HealthReport, target_buffer_ms: u32) -> (s: Self)
        ensures
            s == snapshot_state_spec(*report, target_buffer_ms),
    {
        if report.underrun_count > 0 {
            return AudioHealthState::Underrun;
        }
        let playout_queue_ms = report.total_playout_queue_ms();
        if playout_queue_ms == 0 {
            return AudioHealthState::Buffering;
        }
        let high_jitter = report.jitter_ms > jitter_warning_ms(target_buffer_ms);
        let low_buffer = playout_queue_ms < low_buffer_warning_ms(target_buffer_ms);
        if report.overrun_count > 0 || report.stale_drop_count > 0 || high_jitter || low_buffer {
            AudioHealthState::Degraded
        } else {
            AudioHealthState::Stable
        }
    }

    pub fn sync_from_report(report: &HealthReport) -> (s: Self)
        ensures
            s == sync_state_spec(*report),
    {
        let skew = report.sync_error_to_group_us;
        let abs_skew_us: u64 = if skew < 0 {
            (-(skew as i128)) as u64
        } else {
            skew as u64
        };
        let playout_p95_us = report.playout_error_us_p95 as u64;
        if abs_skew_us < 2_000 && playout_p95_us <= 2_000 {
            AudioHealthState::SyncOk
        } else if abs_skew_us <= 10_000 && playout_p95_us <= 5_000 {
            AudioHealthState::SyncDegraded
        } else {
            AudioHealthState::SyncUnstable
        }
    }
}

/// The report a payload encodes, if any.  The first six fields are
/// required; each later field is read when enough bytes remain for it and
/// is zero otherwise.  Bytes after the last field are ignored.
pub open spec fn parse_health_report(p: Seq<u8>) -> Option<HealthReport> {
    if p.len() < 24 {
        None
    } else {
        let v6 = opt_u32(p, 24int);
        let v7 = opt_u32(p, v6.1);
        let v8 = opt_u32(p, v7.1);
        let v9 = opt_u32(p, v8.1);
        let v10 = opt_u32(p, v9.1);
        let v11 = opt_u32(p, v10.1);
        let v12 = opt_u32(p, v11.1);
        let v13 = opt_u32(p, v12.1);
        let v14 = opt_u32(p, v13.1);
        let v15 = opt_u32(p, v14.1);
        let v16 = opt_u32(p, v15.1);
        let v17 = opt_u32(p, v16.1);
        let v18 = opt_u32(p, v17.1);
        let v19 = opt_u32(p, v18.1);
        let v20 = opt_i64(p, v19.1);
        let v21 = opt_i64(p, v20.1);
        let v22 = opt_i64(p, v21.1);
        let v23 = opt_u32(p, v22.1);
        let v24 = opt_u32(p, v23.1);
        let v25 = opt_u32(p, v24.1);
        let v26 = opt_u32(p, v25.1);
        let v27 = opt_u32(p, v26.1);
        let v28 = opt_i64(p, v27.1);
        let v29 = opt_i32(p, v28.1);
        let v30 = opt_i32(p, v29.1);
        let v31 = opt_u16(p, v30.1);
        Some(HealthReport {
            underrun_count: le_u32(p, 0) as u32,
            overrun_count: le_u32(p, 4) as u32,
            stale_drop_count: le_u32(p, 8) as u32,
            buffer_depth_ms: le_u32(p, 12) as u32,
            jitter_ms: le_u32(p, 16) as u32,
            latency_ms: le_i32(p, 20),
            output_buffer_ms: v6.0,
            jitter_buffer_chunks: v7.0,
            target_playout_latency_ms: v8.0,
            callback_starvation_count: v9.0,
            audio_callback_xrun_count: v10.0,
            rtp_packets_received: v11.0,
            rtp_sequence_gaps: v12.0,
            rtp_decode_error_count: v13.0,
            rtp_concealed_packets: v14.0,
            drift_drop_count: v15.0 as u64,
            drift_dup_count: v16.0 as u64,
            arq_nacks_sent: v17.0,
            arq_retransmit_received: v18.0,
            arq_fec_recovered: v19.0,
            clock_offset_us: v20.0,
            group_offset_us: v21.0,
            total_offset_us: v22.0,
            output_latency_us: v23.0,
            playout_error_us_p50: v24.0,
            playout_error_us_p95: v25.0,
            playout_error_us_p99: v26.0,
            callback_xrun_us_p99: v27.0,
            sync_error_to_group_us: v28.0,
            resample_ratio_ppm_commanded: v29.0,
            resample_ratio_ppm_applied: v30.0,
            arq_fec_combined_recovery_pct: v31.0,
        })
    }
}
#[verifier::opaque]
pub open spec fn report_group_a(r: HealthReport) -> Seq<u8> {
    u32_bytes(r.underrun_count)
        + u32_bytes(r.overrun_count)
        + u32_bytes(r.stale_drop_count)
        + u32_bytes(r.buffer_depth_ms)
}

proof fn lemma_report_group_a(r: HealthReport, b: Seq<u8>, i: int)
    requires
        0 <= i,
        i + 16 <= b.len(),
        b.subrange(i, i + 16) == report_group_a(r),
    ensures
        le_u32(b, i + 0) as u32 == r.underrun_count,
        le_u32(b, i + 4) as u32 == r.overrun_count,
        le_u32(b, i + 8) as u32 == r.stale_drop_count,
        le_u32(b, i + 12) as u32 == r.buffer_depth_ms,
{
    reveal(report_group_a);
    assert(b.subrange(i + 0, i + 4) =~= u32_bytes(r.underrun_count)) by {
        assert forall|k: int| 0 <= k < 4 implies #[trigger] b.subrange(i + 0, i + 4)[k] == u32_bytes(r.underrun_count)[k] by {
            assert(b.subrange(i, i + 16)[0 + k] == report_group_a(r)[0 + k]);
        }
    }
    lemma_u32_round_trip(r.underrun_count, b, i + 0);
    assert(b.subrange(i + 4, i + 8) =~= u32_bytes(r.overrun_count)) by {
        assert forall|k: int| 0 <= k < 4 implies #[trigger] b.subrange(i + 4, i + 8)[k] == u32_bytes(r.overrun_count)[k] by {
            assert(b.subrange(i, i + 16)[4 + k] == report_group_a(r)[4 + k]);
        }
    }
    lemma_u32_round_trip(r.overrun_count, b, i + 4);
    assert(b.subrange(i + 8, i + 12) =~= u32_bytes(r.stale_drop_count)) by {
        assert forall|k: int| 0 <= k < 4 implies #[trigger] b.subrange(i + 8, i + 12)[k] == u32_bytes(r.stale_drop_count)[k] by {
            assert(b.subrange(i, i + 16)[8 + k] == report_group_a(r)[8 + k]);
        }
    }
    lemma_u32_round_trip(r.stale_drop_count, b, i + 8);
    assert(b.subrange(i + 12, i + 16) =~= u32_bytes(r.buffer_depth_ms)) by {
        assert forall|k: int| 0 <= k < 4 implies #[trigger] b.subrange(i + 12, i + 16)[k] == u32_bytes(r.buffer_depth_ms)[k] by {
            assert(b.subrange(i, i + 16)[12 + k] == report_group_a(r)[12 + k]);
        }
    }
    lemma_u32_round_trip(r.buffer_depth_ms, b, i + 12);
}

#[verifier::opaque]
pub open spec fn report_group_b(r: HealthReport) -> Seq<u8> {
    u32_bytes(r.jitter_ms)
        + i32_bytes(r.latency_ms)
        + u32_bytes(r.output_buffer_ms)
        + u32_bytes(r.jitter_buffer_chunks)
}

proof fn lemma_report_group_b(r: HealthReport, b: Seq<u8>, i: int)
    requires
        0 <= i,
        i + 16 <= b.len(),
        b.subrange(i, i + 16) == report_group_b(r),
    ensures
        le_u32(b, i + 0) as u32 == r.jitter_ms,
        le_i32(b, i + 4) == r.latency_ms,
        le_u32(b, i + 8) as u32 == r.output_buffer_ms,
        le_u32(b, i + 12) as u32 == r.jitter_buffer_chunks,
{
    reveal(report_group_b);
    assert(b.subrange(i + 0, i + 4) =~= u32_bytes(r.jitter_ms)) by {
        assert forall|k: int| 0 <= k < 4 implies #[trigger] b.subrange(i + 0, i + 4)[k] == u32_bytes(r.jitter_ms)[k] by {
            assert(b.subrange(i, i + 16)[0 + k] == report_group_b(r)[0 + k]);
        }
    }
    lemma_u32_round_trip(r.jitter_ms, b, i + 0);
    assert(b.subrange(i + 4, i + 8) =~= i32_bytes(r.latency_ms)) by {
        assert forall|k: int| 0 <= k < 4 implies #[trigger] b.subrange(i + 4, i + 8)[k] == i32_bytes(r.latency_ms)[k] by {
            assert(b.subrange(i, i + 16)[4 + k] == report_group_b(r)[4 + k]);
        }
    }
    lemma_i32_round_trip(r.latency_ms, b, i + 4);
    assert(b.subrange(i + 8, i + 12) =~= u32_bytes(r.output_buffer_ms)) by {
        assert forall|k: int| 0 <= k < 4 implies #[trigger] b.subrange(i + 8, i + 12)[k] == u32_bytes(r.output_buffer_ms)[k] by {
            assert(b.subrange(i, i + 16)[8 + k] == report_group_b(r)[8 + k]);
        }
    }
    lemma_u32_round_trip(r.output_buffer_ms, b, i + 8);
    assert(b.subrange(i + 12, i + 16) =~= u32_bytes(r.jitter_buffer_chunks)) by {
        assert forall|k: int| 0 <= k < 4 implies #[trigger] b.subrange(i + 12, i + 16)[k] == u32_bytes(r.jitter_buffer_chunks)[k] by {
            assert(b.subrange(i, i + 16)[12 + k] == report_group_b(r)[12 + k]);
        }
    }
    lemma_u32_round_trip(r.jitter_buffer_chunks, b, i + 12);
}

#[verifier::opaque]
pub open spec fn report_group_c(r: HealthReport) -> Seq<u8> {
    u32_bytes(r.target_playout_latency_ms)
        + u32_bytes(r.callback_starvation_count)
        + u32_bytes(r.audio_callback_xrun_count)
        + u32_bytes(r.rtp_packets_received)
}

proof fn lemma_report_group_c(r: HealthReport, b: Seq<u8>, i: int)
    requires
        0 <= i,
        i + 16 <= b.len(),
        b.subrange(i, i + 16) == report_group_c(r),
    ensures
        le_u32(b, i + 0) as u32 == r.target_playout_latency_ms,
        le_u32(b, i + 4) as u32 == r.callback_starvation_count,
        le_u32(b, i + 8) as u32 == r.audio_callback_xrun_count,
        le_u32(b, i + 12) as u32 == r.rtp_packets_received,
{
    reveal(report_group_c);
    assert(b.subrange(i + 0, i + 4) =~= u32_bytes(r.target_playout_latency_ms)) by {
        assert forall|k: int| 0 <= k < 4 implies #[trigger] b.subrange(i + 0, i + 4)[k] == u32_bytes(r.target_playout_latency_ms)[k] by {
            assert(b.subrange(i, i + 16)[0 + k] == report_group_c(r)[0 + k]);
        }
    }
    lemma_u32_round_trip(r.target_playout_latency_ms, b, i + 0);
    assert(b.subrange(i + 4, i + 8) =~= u32_bytes(r.callback_starvation_count)) by {
        assert forall|k: int| 0 <= k < 4 implies #[trigger] b.subrange(i + 4, i + 8)[k] == u32_bytes(r.callback_starvation_count)[k] by {
            assert(b.subrange(i, i + 16)[4 + k] == report_group_c(r)[4 + k]);
        }
    }
    lemma_u32_round_trip(r.callback_starvation_count, b, i + 4);
    assert(b.subrange(i + 8, i + 12) =~= u32_bytes(r.audio_callback_xrun_count)) by {
        assert forall|k: int| 0 <= k < 4 implies #[trigger] b.subrange(i + 8, i + 12)[k] == u32_bytes(r.audio_callback_xrun_count)[k] by {
            assert(b.subrange(i, i + 16)[8 + k] == report_group_c(r)[8 + k]);
        }
    }
    lemma_u32_round_trip(r.audio_callback_xrun_count, b, i + 8);
    assert(b.subrange(i + 12, i + 16) =~= u32_bytes(r.rtp_packets_received)) by {
        assert forall|k: int| 0 <= k < 4 implies #[trigger] b.subrange(i + 12, i + 16)[k] == u32_bytes(r.rtp_packets_received)[k] by {
            assert(b.subrange(i, i + 16)[12 + k] == report_group_c(r)[12 + k]);
        }
    }
    lemma_u32_round_trip(r.rtp_packets_received, b, i + 12);
}

#[verifier::opaque]
pub open spec fn report_group_d(r: HealthReport) -> Seq<u8> {
    u32_bytes(r.rtp_sequence_gaps)
        + u32_bytes(r.rtp_decode_error_count)
        + u32_bytes(r.rtp_concealed_packets)
        + u32_bytes(r.drift_drop_count as u32)
}

proof fn lemma_report_group_d(r: HealthReport, b: Seq<u8>, i: int)
    requires
        0 <= i,
        i + 16 <= b.len(),
        b.subrange(i, i + 16) == report_group_d(r),
    ensures
        le_u32(b, i + 0) as u32 == r.rtp_sequence_gaps,
        le_u32(b, i + 4) as u32 == r.rtp_decode_error_count,
        le_u32(b, i + 8) as u32 == r.rtp_concealed_packets,
        le_u32(b, i + 12) as u32 == (r.drift_drop_count as u32),
{
    reveal(report_group_d);
    assert(b.subrange(i + 0, i + 4) =~= u32_bytes(r.rtp_sequence_gaps)) by {
        assert forall|k: int| 0 <= k < 4 implies #[trigger] b.subrange(i + 0, i + 4)[k] == u32_bytes(r.rtp_sequence_gaps)[k] by {
            assert(b.subrange(i, i + 16)[0 + k] == report_group_d(r)[0 + k]);
        }
    }
    lemma_u32_round_trip(r.rtp_sequence_gaps, b, i + 0);
    assert(b.subrange(i + 4, i + 8) =~= u32_bytes(r.rtp_decode_error_count)) by {
        assert forall|k: int| 0 <= k < 4 implies #[trigger] b.subrange(i + 4, i + 8)[k] == u32_bytes(r.rtp_decode_error_count)[k] by {
            assert(b.subrange(i, i + 16)[4 + k] == report_group_d(r)[4 + k]);
        }
    }
    lemma_u32_round_trip(r.rtp_decode_error_count, b, i + 4);
    assert(b.subrange(i + 8, i + 12) =~= u32_bytes(r.rtp_concealed_packets)) by {
        assert forall|k: int| 0 <= k < 4 implies #[trigger] b.subrange(i + 8, i + 12)[k] == u32_bytes(r.rtp_concealed_packets)[k] by {
            assert(b.subrange(i, i + 16)[8 + k] == report_group_d(r)[8 + k]);
        }
    }
    lemma_u32_round_trip(r.rtp_concealed_packets, b, i + 8);
    assert(b.subrange(i + 12, i + 16) =~= u32_bytes(r.drift_drop_count as u32)) by {
        assert forall|k: int| 0 <= k < 4 implies #[trigger] b.subrange(i + 12, i + 16)[k] == u32_bytes(r.drift_drop_count as u32)[k] by {
            assert(b.subrange(i, i + 16)[12 + k] == report_group_d(r)[12 + k]);
        }
    }
    lemma_u32_round_trip((r.drift_drop_count as u32), b, i + 12);
}

#[verifier::opaque]
pub open spec fn report_group_e(r: HealthReport) -> Seq<u8> {
    u32_bytes(r.drift_dup_count as u32)
        + u32_bytes(r.arq_nacks_sent)
        + u32_bytes(r.arq_retransmit_received)
        + u32_bytes(r.arq_fec_recovered)
}

proof fn lemma_report_group_e(r: HealthReport, b: Seq<u8>, i: int)
    requires
        0 <= i,
        i + 16 <= b.len(),
        b.subrange(i, i + 16) == report_group_e(r),
    ensures
        le_u32(b, i + 0) as u32 == (r.drift_dup_count as u32),
        le_u32(b, i + 4) as u32 == r.arq_nacks_sent,
        le_u32(b, i + 8) as u32 == r.arq_retransmit_received,
        le_u32(b, i + 12) as u32 == r.arq_fec_recovered,
{
    reveal(report_group_e);
    assert(b.subrange(i + 0, i + 4) =~= u32_bytes(r.drift_dup_count as u32)) by {
        assert forall|k: int| 0 <= k < 4 implies #[trigger] b.subrange(i + 0, i + 4)[k] == u32_bytes(r.drift_dup_count as u32)[k] by {
            assert(b.subrange(i, i + 16)[0 + k] == report_group_e(r)[0 + k]);
        }
    }
    lemma_u32_round_trip((r.drift_dup_count as u32), b, i + 0);
    assert(b.subrange(i + 4, i + 8) =~= u32_bytes(r.arq_nacks_sent)) by {
        assert forall|k: int| 0 <= k < 4 implies #[trigger] b.subrange(i + 4, i + 8)[k] == u32_bytes(r.arq_nacks_sent)[k] by {
            assert(b.subrange(i, i + 16)[4 + k] == report_group_e(r)[4 + k]);
        }
    }
    lemma_u32_round_trip(r.arq_nacks_sent, b, i + 4);
    assert(b.subrange(i + 8, i + 12) =~= u32_bytes(r.arq_retransmit_received)) by {
        assert forall|k: int| 0 <= k < 4 implies #[trigger] b.subrange(i + 8, i + 12)[k] == u32_bytes(r.arq_retransmit_received)[k] by {
            assert(b.subrange(i, i + 16)[8 + k] == report_group_e(r)[8 + k]);
        }
    }
    lemma_u32_round_trip(r.arq_retransmit_received, b, i + 8);
    assert(b.subrange(i + 12, i + 16) =~= u32_bytes(r.arq_fec_recovered)) by {
        assert forall|k: int| 0 <= k < 4 implies #[trigger] b.subrange(i + 12, i + 16)[k] == u32_bytes(r.arq_fec_recovered)[k] by {
            assert(b.subrange(i, i + 16)[12 + k] == report_group_e(r)[12 + k]);
        }
    }
    lemma_u32_round_trip(r.arq_fec_recovered, b, i + 12);
}

#[verifier::opaque]
pub open spec fn report_group_f(r: HealthReport) -> Seq<u8> {
    i64_bytes(r.clock_offset_us)
        + i64_bytes(r.group_offset_us)
        + i64_bytes(r.total_offset_us)
}

proof fn lemma_report_group_f(r: HealthReport, b: Seq<u8>, i: int)
    requires
        0 <= i,
        i + 24 <= b.len(),
        b.subrange(i, i + 24) == report_group_f(r),
    ensures
        le_i64(b, i + 0) == r.clock_offset_us,
        le_i64(b, i + 8) == r.group_offset_us,
        le_i64(b, i + 16) == r.total_offset_us,
{
    reveal(report_group_f);
    assert(b.subrange(i + 0, i + 8) =~= i64_bytes(r.clock_offset_us)) by {
        assert forall|k: int| 0 <= k < 8 implies #[trigger] b.subrange(i + 0, i + 8)[k] == i64_bytes(r.clock_offset_us)[k] by {
            assert(b.subrange(i, i + 24)[0 + k] == report_group_f(r)[0 + k]);
        }
    }
    lemma_i64_round_trip(r.clock_offset_us, b, i + 0);
    assert(b.subrange(i + 8, i + 16) =~= i64_bytes(r.group_offset_us)) by {
        assert forall|k: int| 0 <= k < 8 implies #[trigger] b.subrange(i + 8, i + 16)[k] == i64_bytes(r.group_offset_us)[k] by {
            assert(b.subrange(i, i + 24)[8 + k] == report_group_f(r)[8 + k]);
        }
    }
    lemma_i64_round_trip(r.group_offset_us, b, i + 8);
    assert(b.subrange(i + 16, i + 24) =~= i64_bytes(r.total_offset_us)) by {
        assert forall|k: int| 0 <= k < 8 implies #[trigger] b.subrange(i + 16, i + 24)[k] == i64_bytes(r.total_offset_us)[k] by {
            assert(b.subrange(i, i + 24)[16 + k] == report_group_f(r)[16 + k]);
        }
    }
    lemma_i64_round_trip(r.total_offset_us, b, i + 16);
}

#[verifier::opaque]
pub open spec fn report_group_g(r: HealthReport) -> Seq<u8> {
    u32_bytes(r.output_latency_us)
        + u32_bytes(r.playout_error_us_p50)
        + u32_bytes(r.playout_error_us_p95)
        + u32_bytes(r.playout_error_us_p99)
}

proof fn lemma_report_group_g(r: HealthReport, b: Seq<u8>, i: int)
    requires
        0 <= i,
        i + 16 <= b.len(),
        b.subrange(i, i + 16) == report_group_g(r),
    ensures
        le_u32(b, i + 0) as u32 == r.output_latency_us,
        le_u32(b, i + 4) as u32 == r.playout_error_us_p50,
        le_u32(b, i + 8) as u32 == r.playout_error_us_p95,
        le_u32(b, i + 12) as u32 == r.playout_error_us_p99,
{
    reveal(report_group_g);
    assert(b.subrange(i + 0, i + 4) =~= u32_bytes(r.output_latency_us)) by {
        assert forall|k: int| 0 <= k < 4 implies #[trigger] b.subrange(i + 0, i + 4)[k] == u32_bytes(r.output_latency_us)[k] by {
            assert(b.subrange(i, i + 16)[0 + k] == report_group_g(r)[0 + k]);
        }
    }
    lemma_u32_round_trip(r.output_latency_us, b, i + 0);
    assert(b.subrange(i + 4, i + 8) =~= u32_bytes(r.playout_error_us_p50)) by {
        assert forall|k: int| 0 <= k < 4 implies #[trigger] b.subrange(i + 4, i + 8)[k] == u32_bytes(r.playout_error_us_p50)[k] by {
            assert(b.subrange(i, i + 16)[4 + k] == report_group_g(r)[4 + k]);
        }
    }
    lemma_u32_round_trip(r.playout_error_us_p50, b, i + 4);
    assert(b.subrange(i + 8, i + 12) =~= u32_bytes(r.playout_error_us_p95)) by {
        assert forall|k: int| 0 <= k < 4 implies #[trigger] b.subrange(i + 8, i + 12)[k] == u32_bytes(r.playout_error_us_p95)[k] by {
            assert(b.subrange(i, i + 16)[8 + k] == report_group_g(r)[8 + k]);
        }
    }
    lemma_u32_round_trip(r.playout_error_us_p95, b, i + 8);
    assert(b.subrange(i + 12, i + 16) =~= u32_bytes(r.playout_error_us_p99)) by {
        assert forall|k: int| 0 <= k < 4 implies #[trigger] b.subrange(i + 12, i + 16)[k] == u32_bytes(r.playout_error_us_p99)[k] by {
            assert(b.subrange(i, i + 16)[12 + k] == report_group_g(r)[12 + k]);
        }
    }
    lemma_u32_round_trip(r.playout_error_us_p99, b, i + 12);
}

#[verifier::opaque]
pub open spec fn report_group_h(r: HealthReport) -> Seq<u8> {
    u32_bytes(r.callback_xrun_us_p99)
        + i64_bytes(r.sync_error_to_group_us)
        + i32_bytes(r.resample_ratio_ppm_commanded)
        + i32_bytes(r.resample_ratio_ppm_applied)
        + u16_bytes(r.arq_fec_combined_recovery_pct)
}

proof fn lemma_report_group_h(r: HealthReport, b: Seq<u8>, i: int)
    requires
        0 <= i,
        i + 22 <= b.len(),
        b.subrange(i, i + 22) == report_group_h(r),
    ensures
        le_u32(b, i + 0) as u32 == r.callback_xrun_us_p99,
        le_i64(b, i + 4) == r.sync_error_to_group_us,
        le_i32(b, i + 12) == r.resample_ratio_ppm_commanded,
        le_i32(b, i + 16) == r.resample_ratio_ppm_applied,
        le_u16(b, i + 20) as u16 == r.arq_fec_combined_recovery_pct,
{
    reveal(report_group_h);
    assert(b.subrange(i + 0, i + 4) =~= u32_bytes(r.callback_xrun_us_p99)) by {
        assert forall|k: int| 0 <= k < 4 implies #[trigger] b.subrange(i + 0, i + 4)[k] == u32_bytes(r.callback_xrun_us_p99)[k] by {
            assert(b.subrange(i, i + 22)[0 + k] == report_group_h(r)[0 + k]);
        }
    }
    lemma_u32_round_trip(r.callback_xrun_us_p99, b, i + 0);
    assert(b.subrange(i + 4, i + 12) =~= i64_bytes(r.sync_error_to_group_us)) by {
        assert forall|k: int| 0 <= k < 8 implies #[trigger] b.subrange(i + 4, i + 12)[k] == i64_bytes(r.sync_error_to_group_us)[k] by {
            assert(b.subrange(i, i + 22)[4 + k] == report_group_h(r)[4 + k]);
        }
    }
    lemma_i64_round_trip(r.sync_error_to_group_us, b, i + 4);
    assert(b.subrange(i + 12, i + 16) =~= i32_bytes(r.resample_ratio_ppm_commanded)) by {
        assert forall|k: int| 0 <= k < 4 implies #[trigger] b.subrange(i + 12, i + 16)[k] == i32_bytes(r.resample_ratio_ppm_commanded)[k] by {
            assert(b.subrange(i, i + 22)[12 + k] == report_group_h(r)[12 + k]);
        }
    }
    lemma_i32_round_trip(r.resample_ratio_ppm_commanded, b, i + 12);
    assert(b.subrange(i + 16, i + 20) =~= i32_bytes(r.resample_ratio_ppm_applied)) by {
        assert forall|k: int| 0 <= k < 4 implies #[trigger] b.subrange(i + 16, i + 20)[k] == i32_bytes(r.resample_ratio_ppm_applied)[k] by {
            assert(b.subrange(i, i + 22)[16 + k] == report_group_h(r)[16 + k]);
        }
    }
    lemma_i32_round_trip(r.resample_ratio_ppm_applied, b, i + 16);
    assert(b.subrange(i + 20, i + 22) =~= u16_bytes(r.arq_fec_combined_recovery_pct)) by {
        assert forall|k: int| 0 <= k < 2 implies #[trigger] b.subrange(i + 20, i + 22)[k] == u16_bytes(r.arq_fec_combined_recovery_pct)[k] by {
            assert(b.subrange(i, i + 22)[20 + k] == report_group_h(r)[20 + k]);
        }
    }
    lemma_u16_round_trip(r.arq_fec_combined_recovery_pct, b, i + 20);
}

/// The encoding of `r`: every field in order, the drift counts as `u32`.
pub open spec fn health_report_bytes(r: HealthReport) -> Seq<u8> {
    report_group_a(r) + report_group_b(r) + report_group_c(r) + report_group_d(r) + report_group_e(r) + report_group_f(r) + report_group_g(r) + report_group_h(r)
}

impl HealthReport {
    pub fn new(
        underrun_count: u32,
        overrun_count: u32,
        stale_drop_count: u32,
        buffer_depth_ms: u32,
        jitter_ms: u32,
        latency_ms: i32,
    ) -> (r: Self)
        ensures
            r == (HealthReport {
                underrun_count: underrun_count,
                overrun_count: overrun_count,
                stale_drop_count: stale_drop_count,
                buffer_depth_ms: buffer_depth_ms,
                jitter_ms: jitter_ms,
                latency_ms: latency_ms,
                output_buffer_ms: 0,
                jitter_buffer_chunks: 0,
                target_playout_latency_ms: 0,
                callback_starvation_count: 0,
                audio_callback_xrun_count: 0,
                rtp_packets_received: 0,
                rtp_sequence_gaps: 0,
                rtp_decode_error_count: 0,
                rtp_concealed_packets: 0,
                drift_drop_count: 0,
                drift_dup_count: 0,
                arq_nacks_sent: 0,
                arq_retransmit_received: 0,
                arq_fec_recovered: 0,
                clock_offset_us: 0,
                group_offset_us: 0,
                total_offset_us: 0,
                output_latency_us: 0,
                playout_error_us_p50: 0,
                playout_error_us_p95: 0,
                playout_error_us_p99: 0,
                callback_xrun_us_p99: 0,
                sync_error_to_group_us: 0,
                resample_ratio_ppm_commanded: 0,
                resample_ratio_ppm_applied: 0,
                arq_fec_combined_recovery_pct: 0,
            }),
    {
        HealthReport {
            underrun_count: underrun_count,
            overrun_count: overrun_count,
            stale_drop_count: stale_drop_count,
            buffer_depth_ms: buffer_depth_ms,
            jitter_ms: jitter_ms,
            latency_ms: latency_ms,
            output_buffer_ms: 0,
            jitter_buffer_chunks: 0,
            target_playout_latency_ms: 0,
            callback_starvation_count: 0,
            audio_callback_xrun_count: 0,
            rtp_packets_received: 0,
            rtp_sequence_gaps: 0,
            rtp_decode_error_count: 0,
            rtp_concealed_packets: 0,
            drift_drop_count: 0,
            drift_dup_count: 0,
            arq_nacks_sent: 0,
            arq_retransmit_received: 0,
            arq_fec_recovered: 0,
            clock_offset_us: 0,
            group_offset_us: 0,
            total_offset_us: 0,
            output_latency_us: 0,
            playout_error_us_p50: 0,
            playout_error_us_p95: 0,
            playout_error_us_p99: 0,
            callback_xrun_us_p99: 0,
            sync_error_to_group_us: 0,
            resample_ratio_ppm_commanded: 0,
            resample_ratio_ppm_applied: 0,
            arq_fec_combined_recovery_pct: 0,
        }
    }
    pub fn snapshot_state(&self, target_buffer_ms: u32) -> (s: AudioHealthState)
        ensures
            s == snapshot_state_spec(*self, target_buffer_ms),
    {
        AudioHealthState::from_report_snapshot(self, target_buffer_ms)
    }

    pub fn with_queue_metrics(
        self,
        output_buffer_ms: u32,
        jitter_buffer_chunks: u32,
        target_playout_latency_ms: u32,
    ) -> (r: Self)
        ensures
            r == (HealthReport {
                output_buffer_ms,
                jitter_buffer_chunks,
                target_playout_latency_ms,
                ..self
            }),
    {
        HealthReport { output_buffer_ms, jitter_buffer_chunks, target_playout_latency_ms, ..self }
    }

    pub fn with_callback_metrics(
        self,
        callback_starvation_count: u32,
        audio_callback_xrun_count: u32,
    ) -> (r: Self)
        ensures
            r == (HealthReport { callback_starvation_count, audio_callback_xrun_count, ..self }),
    {
        HealthReport { callback_starvation_count, audio_callback_xrun_count, ..self }
    }

    pub fn with_rtp_metrics(
        self,
        packets_received: u32,
        sequence_gaps: u32,
        decode_error_count: u32,
        concealed_packets: u32,
    ) -> (r: Self)
        ensures
            r == (HealthReport {
                rtp_packets_received: packets_received,
                rtp_sequence_gaps: sequence_gaps,
                rtp_decode_error_count: decode_error_count,
                rtp_concealed_packets: concealed_packets,
                ..self
            }),
    {
        HealthReport {
            rtp_packets_received: packets_received,
            rtp_sequence_gaps: sequence_gaps,
            rtp_decode_error_count: decode_error_count,
            rtp_concealed_packets: concealed_packets,
            ..self
        }
    }

    pub fn with_drift_metrics(self, drop_count: u64, dup_count: u64) -> (r: Self)
        ensures
            r == (HealthReport { drift_drop_count: drop_count, drift_dup_count: dup_count, ..self }),
    {
        HealthReport { drift_drop_count: drop_count, drift_dup_count: dup_count, ..self }
    }

    pub fn with_arq_metrics(self, nacks_sent: u32, retransmit_received: u32, fec_recovered: u32) -> (r: Self)
        ensures
            r == (HealthReport {
                arq_nacks_sent: nacks_sent,
                arq_retransmit_received: retransmit_received,
                arq_fec_recovered: fec_recovered,
                ..self
            }),
    {
        HealthReport {
            arq_nacks_sent: nacks_sent,
            arq_retransmit_received: retransmit_received,
            arq_fec_recovered: fec_recovered,
            ..self
        }
    }

    pub fn with_sync_metrics(
        self,
        clock_offset_us: i64,
        group_offset_us: i64,
        total_offset_us: i64,
        sync_error_to_group_us: i64,
    ) -> (r: Self)
        ensures
            r == (HealthReport {
                clock_offset_us,
                group_offset_us,
                total_offset_us,
                sync_error_to_group_us,
                ..self
            }),
    {
        HealthReport { clock_offset_us, group_offset_us, total_offset_us, sync_error_to_group_us, ..self }
    }

    pub fn with_playout_error(
        self,
        p50_us: u32,
        p95_us: u32,
        p99_us: u32,
        callback_xrun_p99_us: u32,
        output_latency_us: u32,
    ) -> (r: Self)
        ensures
            r == (HealthReport {
                playout_error_us_p50: p50_us,
                playout_error_us_p95: p95_us,
                playout_error_us_p99: p99_us,
                callback_xrun_us_p99: callback_xrun_p99_us,
                output_latency_us,
                ..self
            }),
    {
        HealthReport {
            playout_error_us_p50: p50_us,
            playout_error_us_p95: p95_us,
            playout_error_us_p99: p99_us,
            callback_xrun_us_p99: callback_xrun_p99_us,
            output_latency_us,
            ..self
        }
    }

    pub fn with_resample_metrics(self, commanded_ppm: i32, applied_ppm: i32) -> (r: Self)
        ensures
            r == (HealthReport {
                resample_ratio_ppm_commanded: commanded_ppm,
                resample_ratio_ppm_applied: applied_ppm,
                ..self
            }),
    {
        HealthReport {
            resample_ratio_ppm_commanded: commanded_ppm,
            resample_ratio_ppm_applied: applied_ppm,
            ..self
        }
    }

    pub fn with_arq_fec_recovery_pct(self, basis_points: u16) -> (r: Self)
        ensures
            r == (HealthReport { arq_fec_combined_recovery_pct: basis_points, ..self }),
    {
        HealthReport { arq_fec_combined_recovery_pct: basis_points, ..self }
    }

    /// Jitter-buffer plus output-buffer depth, saturating at `u32::MAX`.
    pub fn total_playout_queue_ms(&self) -> (t: u32)
        ensures
            t == total_queue_spec(*self),
    {
        self.buffer_depth_ms.saturating_add(self.output_buffer_ms)
    }

    /// Decode; fewer than 24 bytes is a protocol error.
    #[verifier::rlimit(40)]
    pub fn decode(payload: &[u8]) -> (r: Result<Self>)
        ensures
            match r {
                Ok(h) => parse_health_report(payload@) == Some(h),
                Err(e) => parse_health_report(payload@) is None && e is Protocol,
            },
    {
        let mut r = WireRead::new(payload);
        let underrun_count = r.read_u32()?;
        let overrun_count = r.read_u32()?;
        let stale_drop_count = r.read_u32()?;
        let buffer_depth_ms = r.read_u32()?;
        let jitter_ms = r.read_u32()?;
        let latency_ms = r.read_i32()?;
        let output_buffer_ms = if r.remaining() >= 4 { r.read_u32()? } else { 0 };
        let jitter_buffer_chunks = if r.remaining() >= 4 { r.read_u32()? } else { 0 };
        let target_playout_latency_ms = if r.remaining() >= 4 { r.read_u32()? } else { 0 };
        let callback_starvation_count = if r.remaining() >= 4 { r.read_u32()? } else { 0 };
        let audio_callback_xrun_count = if r.remaining() >= 4 { r.read_u32()? } else { 0 };
        let rtp_packets_received = if r.remaining() >= 4 { r.read_u32()? } else { 0 };
        let rtp_sequence_gaps = if r.remaining() >= 4 { r.read_u32()? } else { 0 };
        let rtp_decode_error_count = if r.remaining() >= 4 { r.read_u32()? } else { 0 };
        let rtp_concealed_packets = if r.remaining() >= 4 { r.read_u32()? } else { 0 };
        let drift_drop_count = if r.remaining() >= 4 { r.read_u32()? as u64 } else { 0 };
        let drift_dup_count = if r.remaining() >= 4 { r.read_u32()? as u64 } else { 0 };
        let arq_nacks_sent = if r.remaining() >= 4 { r.read_u32()? } else { 0 };
        let arq_retransmit_received = if r.remaining() >= 4 { r.read_u32()? } else { 0 };
        let arq_fec_recovered = if r.remaining() >= 4 { r.read_u32()? } else { 0 };
        let clock_offset_us = if r.remaining() >= 8 { r.read_i64()? } else { 0 };
        let group_offset_us = if r.remaining() >= 8 { r.read_i64()? } else { 0 };
        let total_offset_us = if r.remaining() >= 8 { r.read_i64()? } else { 0 };
        let output_latency_us = if r.remaining() >= 4 { r.read_u32()? } else { 0 };
        let playout_error_us_p50 = if r.remaining() >= 4 { r.read_u32()? } else { 0 };
        let playout_error_us_p95 = if r.remaining() >= 4 { r.read_u32()? } else { 0 };
        let playout_error_us_p99 = if r.remaining() >= 4 { r.read_u32()? } else { 0 };
        let callback_xrun_us_p99 = if r.remaining() >= 4 { r.read_u32()? } else { 0 };
        let sync_error_to_group_us = if r.remaining() >= 8 { r.read_i64()? } else { 0 };
        let resample_ratio_ppm_commanded = if r.remaining() >= 4 { r.read_i32()? } else { 0 };
        let resample_ratio_ppm_applied = if r.remaining() >= 4 { r.read_i32()? } else { 0 };
        let arq_fec_combined_recovery_pct = if r.remaining() >= 2 { r.read_u16()? } else { 0 };
        Ok(HealthReport {
            underrun_count,
            overrun_count,
            stale_drop_count,
            buffer_depth_ms,
            jitter_ms,
            latency_ms,
            output_buffer_ms,
            jitter_buffer_chunks,
            target_playout_latency_ms,
            callback_starvation_count,
            audio_callback_xrun_count,
            rtp_packets_received,
            rtp_sequence_gaps,
            rtp_decode_error_count,
            rtp_concealed_packets,
            drift_drop_count,
            drift_dup_count,
            arq_nacks_sent,
            arq_retransmit_received,
            arq_fec_recovered,
            clock_offset_us,
            group_offset_us,
            total_offset_us,
            output_latency_us,
            playout_error_us_p50,
            playout_error_us_p95,
            playout_error_us_p99,
            callback_xrun_us_p99,
            sync_error_to_group_us,
            resample_ratio_ppm_commanded,
            resample_ratio_ppm_applied,
            arq_fec_combined_recovery_pct,
        })
    }

    /// Encode every field in order; the drift counts are truncated to `u32`.
    pub fn encode(&self) -> (v: Vec<u8>)
        ensures
            v@ == health_report_bytes(*self),
    {
        proof {
            reveal(report_group_a);
            reveal(report_group_b);
            reveal(report_group_c);
            reveal(report_group_d);
            reveal(report_group_e);
            reveal(report_group_f);
            reveal(report_group_g);
            reveal(report_group_h);
        }
        let mut w = WireWrite::with_capacity(154);
        w.write_u32(self.underrun_count);
        w.write_u32(self.overrun_count);
        w.write_u32(self.stale_drop_count);
        w.write_u32(self.buffer_depth_ms);
        assert(w@ =~= report_group_a(*self));
        w.write_u32(self.jitter_ms);
        w.write_i32(self.latency_ms);
        w.write_u32(self.output_buffer_ms);
        w.write_u32(self.jitter_buffer_chunks);
        assert(w@ =~= report_group_a(*self) + report_group_b(*self));
        w.write_u32(self.target_playout_latency_ms);
        w.write_u32(self.callback_starvation_count);
        w.write_u32(self.audio_callback_xrun_count);
        w.write_u32(self.rtp_packets_received);
        assert(w@ =~= report_group_a(*self) + report_group_b(*self) + report_group_c(*self));
        w.write_u32(self.rtp_sequence_gaps);
        w.write_u32(self.rtp_decode_error_count);
        w.write_u32(self.rtp_concealed_packets);
        w.write_u32(#[verifier::truncate] (self.drift_drop_count as u32));
        assert(w@ =~= report_group_a(*self) + report_group_b(*self) + report_group_c(*self) + report_group_d(*self));
        w.write_u32(#[verifier::truncate] (self.drift_dup_count as u32));
        w.write_u32(self.arq_nacks_sent);
        w.write_u32(self.arq_retransmit_received);
        w.write_u32(self.arq_fec_recovered);
        assert(w@ =~= report_group_a(*self) + report_group_b(*self) + report_group_c(*self) + report_group_d(*self) + report_group_e(*self));
        w.write_i64(self.clock_offset_us);
        w.write_i64(self.group_offset_us);
        w.write_i64(self.total_offset_us);
        assert(w@ =~= report_group_a(*self) + report_group_b(*self) + report_group_c(*self) + report_group_d(*self) + report_group_e(*self) + report_group_f(*self));
        w.write_u32(self.output_latency_us);
        w.write_u32(self.playout_error_us_p50);
        w.write_u32(self.playout_error_us_p95);
        w.write_u32(self.playout_error_us_p99);
        assert(w@ =~= report_group_a(*self) + report_group_b(*self) + report_group_c(*self) + report_group_d(*self) + report_group_e(*self) + report_group_f(*self) + report_group_g(*self));
        w.write_u32(self.callback_xrun_us_p99);
        w.write_i64(self.sync_error_to_group_us);
        w.write_i32(self.resample_ratio_ppm_commanded);
        w.write_i32(self.resample_ratio_ppm_applied);
        w.write_u16(self.arq_fec_combined_recovery_pct);
        assert(w@ =~= report_group_a(*self) + report_group_b(*self) + report_group_c(*self) + report_group_d(*self) + report_group_e(*self) + report_group_f(*self) + report_group_g(*self) + report_group_h(*self));
        w.finish()
    }
}

proof fn lemma_report_group_lengths(r: HealthReport)
    ensures
        report_group_a(r).len() == 16,
        report_group_b(r).len() == 16,
        report_group_c(r).len() == 16,
        report_group_d(r).len() == 16,
        report_group_e(r).len() == 16,
        report_group_f(r).len() == 24,
        report_group_g(r).len() == 16,
        report_group_h(r).len() == 22,
{
    reveal(report_group_a);
    reveal(report_group_b);
    reveal(report_group_c);
    reveal(report_group_d);
    reveal(report_group_e);
    reveal(report_group_f);
    reveal(report_group_g);
    reveal(report_group_h);
}

proof fn lemma_report_bytes_fields(r: HealthReport)
    ensures
        health_report_bytes(r).len() == 142,
        ({ let b = health_report_bytes(r); le_u32(b, 0) as u32 }) == r.underrun_count,
        ({ let b = health_report_bytes(r); le_u32(b, 4) as u32 }) == r.overrun_count,
        ({ let b = health_report_bytes(r); le_u32(b, 8) as u32 }) == r.stale_drop_count,
        ({ let b = health_report_bytes(r); le_u32(b, 12) as u32 }) == r.buffer_depth_ms,
        ({ let b = health_report_bytes(r); le_u32(b, 16) as u32 }) == r.jitter_ms,
        ({ let b = health_report_bytes(r); le_i32(b, 20) }) == r.latency_ms,
        ({ let b = health_report_bytes(r); le_u32(b, 24) as u32 }) == r.output_buffer_ms,
        ({ let b = health_report_bytes(r); le_u32(b, 28) as u32 }) == r.jitter_buffer_chunks,
        ({ let b = health_report_bytes(r); le_u32(b, 32) as u32 }) == r.target_playout_latency_ms,
        ({ let b = health_report_bytes(r); le_u32(b, 36) as u32 }) == r.callback_starvation_count,
        ({ let b = health_report_bytes(r); le_u32(b, 40) as u32 }) == r.audio_callback_xrun_count,
        ({ let b = health_report_bytes(r); le_u32(b, 44) as u32 }) == r.rtp_packets_received,
        ({ let b = health_report_bytes(r); le_u32(b, 48) as u32 }) == r.rtp_sequence_gaps,
        ({ let b = health_report_bytes(r); le_u32(b, 52) as u32 }) == r.rtp_decode_error_count,
        ({ let b = health_report_bytes(r); le_u32(b, 56) as u32 }) == r.rtp_concealed_packets,
        ({ let b = health_report_bytes(r); le_u32(b, 60) as u32 }) == (r.drift_drop_count as u32),
        ({ let b = health_report_bytes(r); le_u32(b, 64) as u32 }) == (r.drift_dup_count as u32),
        ({ let b = health_report_bytes(r); le_u32(b, 68) as u32 }) == r.arq_nacks_sent,
        ({ let b = health_report_bytes(r); le_u32(b, 72) as u32 }) == r.arq_retransmit_received,
        ({ let b = health_report_bytes(r); le_u32(b, 76) as u32 }) == r.arq_fec_recovered,
        ({ let b = health_report_bytes(r); le_i64(b, 80) }) == r.clock_offset_us,
        ({ let b = health_report_bytes(r); le_i64(b, 88) }) == r.group_offset_us,
        ({ let b = health_report_bytes(r); le_i64(b, 96) }) == r.total_offset_us,
        ({ let b = health_report_bytes(r); le_u32(b, 104) as u32 }) == r.output_latency_us,
        ({ let b = health_report_bytes(r); le_u32(b, 108) as u32 }) == r.playout_error_us_p50,
        ({ let b = health_report_bytes(r); le_u32(b, 112) as u32 }) == r.playout_error_us_p95,
        ({ let b = health_report_bytes(r); le_u32(b, 116) as u32 }) == r.playout_error_us_p99,
        ({ let b = health_report_bytes(r); le_u32(b, 120) as u32 }) == r.callback_xrun_us_p99,
        ({ let b = health_report_bytes(r); le_i64(b, 124) }) == r.sync_error_to_group_us,
        ({ let b = health_report_bytes(r); le_i32(b, 132) }) == r.resample_ratio_ppm_commanded,
        ({ let b = health_report_bytes(r); le_i32(b, 136) }) == r.resample_ratio_ppm_applied,
        ({ let b = health_report_bytes(r); le_u16(b, 140) as u16 }) == r.arq_fec_combined_recovery_pct,
{
    let b = health_report_bytes(r);
    lemma_report_group_lengths(r);
    assert(b.subrange(0, 16) =~= report_group_a(r));
    lemma_report_group_a(r, b, 0);
    assert(b.subrange(16, 32) =~= report_group_b(r));
    lemma_report_group_b(r, b, 16);
    assert(b.subrange(32, 48) =~= report_group_c(r));
    lemma_report_group_c(r, b, 32);
    assert(b.subrange(48, 64) =~= report_group_d(r));
    lemma_report_group_d(r, b, 48);
    assert(b.subrange(64, 80) =~= report_group_e(r));
    lemma_report_group_e(r, b, 64);
    assert(b.subrange(80, 104) =~= report_group_f(r));
    lemma_report_group_f(r, b, 80);
    assert(b.subrange(104, 120) =~= report_group_g(r));
    lemma_report_group_g(r, b, 104);
    assert(b.subrange(120, 142) =~= report_group_h(r));
    lemma_report_group_h(r, b, 120);
}

/// Every report whose drift counts fit in `u32` decodes from its encoding;
/// larger drift counts come back truncated to `u32`.
pub proof fn lemma_health_report_round_trip(r: HealthReport)
    ensures
        parse_health_report(health_report_bytes(r)) == Some(
            HealthReport {
                drift_drop_count: (r.drift_drop_count as u32) as u64,
                drift_dup_count: (r.drift_dup_count as u32) as u64,
                ..r
            },
        ),
{
    let b = health_report_bytes(r);
    lemma_report_bytes_fields(r);
    assert(opt_u32(b, 24) == (r.output_buffer_ms, 28int));
    assert(opt_u32(b, 28) == (r.jitter_buffer_chunks, 32int));
    assert(opt_u32(b, 32) == (r.target_playout_latency_ms, 36int));
    assert(opt_u32(b, 36) == (r.callback_starvation_count, 40int));
    assert(opt_u32(b, 40) == (r.audio_callback_xrun_count, 44int));
    assert(opt_u32(b, 44) == (r.rtp_packets_received, 48int));
    assert(opt_u32(b, 48) == (r.rtp_sequence_gaps, 52int));
    assert(opt_u32(b, 52) == (r.rtp_decode_error_count, 56int));
    assert(opt_u32(b, 56) == (r.rtp_concealed_packets, 60int));
    assert(opt_u32(b, 60) == (r.drift_drop_count as u32, 64int));
    assert(opt_u32(b, 64) == (r.drift_dup_count as u32, 68int));
    assert(opt_u32(b, 68) == (r.arq_nacks_sent, 72int));
    assert(opt_u32(b, 72) == (r.arq_retransmit_received, 76int));
    assert(opt_u32(b, 76) == (r.arq_fec_recovered, 80int));
    assert(opt_i64(b, 80) == (r.clock_offset_us, 88int));
    assert(opt_i64(b, 88) == (r.group_offset_us, 96int));
    assert(opt_i64(b, 96) == (r.total_offset_us, 104int));
    assert(opt_u32(b, 104) == (r.output_latency_us, 108int));
    assert(opt_u32(b, 108) == (r.playout_error_us_p50, 112int));
    assert(opt_u32(b, 112) == (r.playout_error_us_p95, 116int));
    assert(opt_u32(b, 116) == (r.playout_error_us_p99, 120int));
    assert(opt_u32(b, 120) == (r.callback_xrun_us_p99, 124int));
    assert(opt_i64(b, 124) == (r.sync_error_to_group_us, 132int));
    assert(opt_i32(b, 132) == (r.resample_ratio_ppm_commanded, 136int));
    assert(opt_i32(b, 136) == (r.resample_ratio_ppm_applied, 140int));
    assert(opt_u16(b, 140) == (r.arq_fec_combined_recovery_pct, 142int));
}

} // verus!
