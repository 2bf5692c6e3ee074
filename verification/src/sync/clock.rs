//! Clock-offset arithmetic: local/server time conversion, the bounded group
//! offset and its adaptive nudge, and frame/microsecond conversion at a
//! sample rate.

use vstd::prelude::*;
use crate::protocol::header::{micros_since_epoch, unix_time};

verus! {

/// Largest magnitude of the group offset, in microseconds.
pub const MAX_GROUP_OFFSET_US: i64 = 50_000;

pub open spec fn clamp_group_spec(us: int) -> int {
    if us < -50_000 { -50_000 } else if us > 50_000 { 50_000 } else { us }
}

/// Rust's truncating division.
pub open spec fn trunc_div(a: int, d: int) -> int {
    if a >= 0 { a / d } else { -((-a) / d) }
}

/// Damping divisor of a group-offset nudge: fast above 20 ms, medium above
/// 5 ms, gentle otherwise.
pub open spec fn nudge_damping(diff_us: i64) -> int {
    let mag = if diff_us < 0 { -(diff_us as int) } else { diff_us as int };
    if mag > 20_000 { 3 } else if mag > 5_000 { 10 } else { 50 }
}

/// The group offset after nudging `current` by a measured `diff_us`.
pub open spec fn nudged_group_offset_spec(current: i64, diff_us: i64) -> int {
    clamp_group_spec(current - trunc_div(diff_us as int, nudge_damping(diff_us)))
}

/// Clamp a group offset to ±50 ms.
pub fn clamp_group_offset(us: i64) -> (r: i64)
    ensures
        r == clamp_group_spec(us as int),
{
    if us < -MAX_GROUP_OFFSET_US {
        -MAX_GROUP_OFFSET_US
    } else if us > MAX_GROUP_OFFSET_US {
        MAX_GROUP_OFFSET_US
    } else {
        us
    }
}

/// Adaptive correction of the group offset: `diff_us` is the local total
/// offset minus the group target, divided by the damping and subtracted, and
/// the result clamped to ±50 ms.
pub fn nudged_group_offset(current: i64, diff_us: i64) -> (r: i64)
    ensures
        r == nudged_group_offset_spec(current, diff_us),
{
    let mag: u64 = if diff_us < 0 { (-(diff_us as i128)) as u64 } else { diff_us as u64 };
    let damping: i64 = if mag > 20_000 { 3 } else if mag > 5_000 { 10 } else { 50 };
    let correction: i64 = if diff_us >= 0 {
        diff_us / damping
    } else {
        -((-(diff_us as i128) / (damping as i128)) as i64)
    };
    let shifted: i128 = current as i128 - correction as i128;
    if shifted < -(MAX_GROUP_OFFSET_US as i128) {
        -MAX_GROUP_OFFSET_US
    } else if shifted > MAX_GROUP_OFFSET_US as i128 {
        MAX_GROUP_OFFSET_US
    } else {
        shifted as i64
    }
}

/// Whatever the inputs, a nudged group offset stays within ±50 ms.
pub proof fn lemma_nudge_bounded(current: i64, diff_us: i64)
    ensures
        -50_000 <= nudged_group_offset_spec(current, diff_us) <= 50_000,
{
}

/// Local time plus the clock offset and the group offset.
pub fn to_server_time(local_us: i64, offset_us: i64, group_offset_us: i64) -> (r: i64)
    requires
        i64::MIN <= local_us + offset_us <= i64::MAX,
        i64::MIN <= local_us + offset_us + group_offset_us <= i64::MAX,
    ensures
        r == local_us + offset_us + group_offset_us,
{
    local_us + offset_us + group_offset_us
}

/// Server time minus the clock offset and the group offset.
pub fn to_local_time(server_us: i64, offset_us: i64, group_offset_us: i64) -> (r: i64)
    requires
        i64::MIN <= server_us - offset_us <= i64::MAX,
        i64::MIN <= server_us - offset_us - group_offset_us <= i64::MAX,
    ensures
        r == server_us - offset_us - group_offset_us,
{
    server_us - offset_us - group_offset_us
}

/// Converting to server time and back gives the local time again.
pub proof fn lemma_server_local_round_trip(local_us: int, offset_us: int, group_offset_us: int)
    ensures
        (local_us + offset_us + group_offset_us) - offset_us - group_offset_us == local_us,
{
}

/// Current wall-clock time in microseconds since the epoch (truncated to
/// i64): [`clock_micros`] of whatever the clock reads.
pub fn now_us() -> (us: i64) {
    let (secs, micros) = unix_time();
    clock_micros(secs, micros)
}

/// Microseconds since the epoch of the clock reading `secs` seconds and
/// `micros` microseconds, truncated to i64.
pub fn clock_micros(secs: u64, micros: u32) -> (us: i64)
    ensures
        us == micros_since_epoch(secs, micros),
{
    let total: u128 = (secs as u128) * 1_000_000 + micros as u128;
    #[verifier::truncate] (total as i64)
}

/// Microseconds spanned by `frames` frames at `sample_rate` (a zero rate
/// counts as 1 Hz), rounded down and capped at `i64::MAX`.
pub open spec fn frames_to_us_spec(frames: nat, sample_rate: u32) -> int {
    let rate = if sample_rate == 0 { 1 } else { sample_rate as int };
    if (frames as int) * 1_000_000 / rate > i64::MAX { i64::MAX as int } else { (frames as int) * 1_000_000 / rate }
}

/// Frames spanned by `us` microseconds at `sample_rate` (a zero rate counts
/// as 1 Hz), rounded down; none for a non-positive span.
pub open spec fn us_to_frames_spec(us: i64, sample_rate: u32) -> int {
    let rate = if sample_rate == 0 { 1 } else { sample_rate as int };
    if us <= 0 {
        0
    } else if us * rate / 1_000_000 > usize::MAX {
        usize::MAX as int
    } else {
        us * rate / 1_000_000
    }
}

pub fn frames_to_us(frames: usize, sample_rate: u32) -> (us: i64)
    ensures
        us == frames_to_us_spec(frames as nat, sample_rate),
{
    let rate: u128 = if sample_rate == 0 { 1 } else { sample_rate as u128 };
    let q: u128 = (frames as u128) * 1_000_000 / rate;
    if q > i64::MAX as u128 { i64::MAX } else { q as i64 }
}

pub fn us_to_frames(us: i64, sample_rate: u32) -> (frames: usize)
    ensures
        frames == us_to_frames_spec(us, sample_rate),
{
    if us <= 0 {
        return 0;
    }
    let rate: u128 = if sample_rate == 0 { 1 } else { sample_rate as u128 };
    assert((us as u128) * rate <= 0x7fff_ffff_ffff_ffff * 0xffff_ffff) by (nonlinear_arith)
        requires
            us as u128 <= 0x7fff_ffff_ffff_ffff,
            rate <= 0xffff_ffff,
    ;
    let q: u128 = (us as u128) * rate / 1_000_000;
    if q > usize::MAX as u128 { usize::MAX } else { q as usize }
}

/// The offset sample of one round trip: the client-to-server transit the
/// server measured minus half the round trip (Rust's truncating division).
pub open spec fn measured_offset_spec(t_sent_us: int, t_recv_us: int, server_latency_us: int) -> int {
    server_latency_us - trunc_div(t_recv_us - t_sent_us, 2)
}

/// The offset sample of one time request: `t_sent_us` and `t_recv_us` are the
/// local send and receive times, `server_latency_us` the transit the server
/// measured.
pub fn measured_offset_us(t_sent_us: i64, t_recv_us: i64, server_latency_us: i64) -> (d: i64)
    requires
        i64::MIN <= t_recv_us - t_sent_us <= i64::MAX,
        i64::MIN <= measured_offset_spec(t_sent_us as int, t_recv_us as int, server_latency_us as int)
            <= i64::MAX,
    ensures
        d == measured_offset_spec(t_sent_us as int, t_recv_us as int, server_latency_us as int),
{
    let rtt: i64 = t_recv_us - t_sent_us;
    let half: i64 = if rtt >= 0 {
        rtt / 2
    } else {
        -(((-(rtt as i128)) / 2) as i64)
    };
    server_latency_us - half
}

} // verus!
