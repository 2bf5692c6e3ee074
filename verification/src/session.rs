//! Decisions of the client's connection loop.
//!
//! The loop itself (sockets, timers, the decoder and the audio device)
//! lives with the caller; these functions decide what it does with each
//! event: the playout time of a chunk, the buffer targets that follow a
//! settings message, the status and backoff after a session, the
//! clock-sync cadence, and how RTP packets that arrive late, twice or after
//! a gap are handled.

use vstd::prelude::*;

verus! {

/// Delay before the first reconnect, and after a clean disconnect.
pub const INITIAL_BACKOFF_MS: u64 = 500;
/// Longest delay between reconnects.
pub const MAX_BACKOFF_MS: u64 = 30_000;
/// Most lost packets concealed for one gap.
pub const MAX_CONCEALMENT_PACKETS_PER_GAP: u16 = 10;

/// The delay after `backoff_ms`: doubled, at most 30 s.
pub fn next_backoff_ms(backoff_ms: u64) -> (next: u64)
    ensures
        next == if 2 * backoff_ms < MAX_BACKOFF_MS { 2 * backoff_ms } else { MAX_BACKOFF_MS as int },
{
    if backoff_ms < MAX_BACKOFF_MS / 2 {
        backoff_ms * 2
    } else {
        MAX_BACKOFF_MS
    }
}

/// What the client reports about its connection.
#[derive(Debug, Clone)]
pub enum ConnectionStatus {
    Connecting,
    Connected,
    Ready,
    Disconnected,
    Error(String),
}

/// What the connection loop does after a session ends: report `status`,
/// wait `sleep_ms`, and keep `next_backoff_ms` for the following attempt.
#[derive(Debug, Clone)]
pub struct Reconnect {
    pub status: ConnectionStatus,
    pub sleep_ms: u64,
    pub next_backoff_ms: u64,
}

/// Decides the reconnect after a session that ended with `outcome`.  A clean
/// end reports `Disconnected`, an error reports its message.  The wait is the
/// initial delay after a clean end or once the connection had been
/// established, and the current backoff after a failed attempt; the delay
/// kept for next time is that wait doubled, at most 30 s.
pub fn after_session(outcome: Result<(), String>, connected: bool, backoff_ms: u64) -> (r: Reconnect)
    ensures
        match outcome {
            Ok(()) => r.status is Disconnected,
            Err(m) => r.status == ConnectionStatus::Error(m),
        },
        r.sleep_ms == (if outcome is Ok || connected { INITIAL_BACKOFF_MS } else { backoff_ms }),
        r.next_backoff_ms == (if 2 * r.sleep_ms < MAX_BACKOFF_MS {
            2 * r.sleep_ms
        } else {
            MAX_BACKOFF_MS as int
        }),
        backoff_ms <= MAX_BACKOFF_MS ==> r.sleep_ms <= MAX_BACKOFF_MS && r.next_backoff_ms
            <= MAX_BACKOFF_MS,
{
    let (status, sleep_ms) = match outcome {
        Ok(()) => (ConnectionStatus::Disconnected, INITIAL_BACKOFF_MS),
        Err(m) => (ConnectionStatus::Error(m), if connected { INITIAL_BACKOFF_MS } else { backoff_ms }),
    };
    let next = next_backoff_ms(sleep_ms);
    Reconnect { status, sleep_ms, next_backoff_ms: next }
}

/// Counters of the playback path, as the player reports them.
#[derive(Debug, Clone, Copy)]
pub struct PlayerHealth {
    pub underrun_count: u32,
    pub overrun_count: u32,
    pub callback_starvation_count: u32,
    pub audio_callback_xrun_count: u32,
    pub drift_drop_count: u64,
    pub drift_dup_count: u64,
}

impl Default for PlayerHealth {
    fn default() -> (h: Self)
        ensures
            h.underrun_count == 0 && h.overrun_count == 0 && h.callback_starvation_count == 0
                && h.audio_callback_xrun_count == 0 && h.drift_drop_count == 0 && h.drift_dup_count
                == 0,
    {
        PlayerHealth {
            underrun_count: 0,
            overrun_count: 0,
            callback_starvation_count: 0,
            audio_callback_xrun_count: 0,
            drift_drop_count: 0,
            drift_dup_count: 0,
        }
    }
}

/// Jitter-buffer target: the server's buffer plus the client's and the
/// server-assigned latency offsets.
pub open spec fn target_buffer_spec(server_buffer_ms: i32, client_latency_ms: i32, server_latency_ms: i32) -> int {
    server_buffer_ms + client_latency_ms + server_latency_ms
}

pub fn target_buffer_ms(server_buffer_ms: i32, client_latency_ms: i32, server_latency_ms: i32) -> (t: i32)
    requires
        i32::MIN <= target_buffer_spec(server_buffer_ms, client_latency_ms, server_latency_ms) <= i32::MAX,
        i32::MIN <= server_buffer_ms + client_latency_ms <= i32::MAX,
    ensures
        t == target_buffer_spec(server_buffer_ms, client_latency_ms, server_latency_ms),
{
    server_buffer_ms + client_latency_ms + server_latency_ms
}

/// The output ring's limit: the buffer target, at least 80 ms.
pub fn player_buffer_limit_ms(target_ms: i32) -> (limit: i32)
    ensures
        limit == if target_ms < 80 { 80 } else { target_ms },
{
    if target_ms < 80 {
        80
    } else {
        target_ms
    }
}

/// Clock-filter window: 50 samples for buffers of at most 50 ms, else 200.
pub fn clock_window_size(server_buffer_ms: i32) -> (n: usize)
    ensures
        n == if server_buffer_ms <= 50 { 50usize } else { 200usize },
{
    if server_buffer_ms <= 50 {
        50
    } else {
        200
    }
}

/// Clock sync runs every 100 ms while quick rounds remain or fewer than 50
/// samples were taken; else every second.
pub fn sync_is_quick(quick_remaining: u8, sample_count: usize) -> (b: bool)
    ensures
        b == (quick_remaining > 0 || sample_count < 50),
{
    quick_remaining > 0 || sample_count < 50
}

/// Playout time of a chunk stamped at `timestamp_us`: the stamp plus the
/// server buffer and both latency offsets, in microseconds.
pub open spec fn playout_spec(timestamp_us: i64, server_buffer_ms: i32, client_latency_ms: i32, server_latency_ms: i32) -> int {
    timestamp_us + server_buffer_ms * 1000 + client_latency_ms * 1000 + server_latency_ms * 1000
}

pub fn playout_us(timestamp_us: i64, server_buffer_ms: i32, client_latency_ms: i32, server_latency_ms: i32) -> (p: i64)
    requires
        i64::MIN <= timestamp_us + server_buffer_ms * 1000 <= i64::MAX,
        i64::MIN <= timestamp_us + server_buffer_ms * 1000 + client_latency_ms * 1000 <= i64::MAX,
        i64::MIN <= playout_spec(timestamp_us, server_buffer_ms, client_latency_ms, server_latency_ms) <= i64::MAX,
    ensures
        p == playout_spec(timestamp_us, server_buffer_ms, client_latency_ms, server_latency_ms),
{
    timestamp_us + (server_buffer_ms as i64 * 1000) + (client_latency_ms as i64 * 1000) + (server_latency_ms as i64
        * 1000)
}

/// What to do with an RTP packet, given the sequence number of the last
/// one accepted.
#[derive(Debug, Clone, Copy, PartialEq, Eq, Structural)]
pub enum RtpArrival {
    /// The same sequence number again: ignored.
    Duplicate,
    /// Behind the last one (by half the sequence space or more): dropped.
    Late,
    /// Played; `skipped` packets were lost before it.
    Accept { skipped: u16 },
}

pub open spec fn rtp_arrival_spec(last: Option<u16>, sequence: u16) -> RtpArrival {
    match last {
        None => RtpArrival::Accept { skipped: 0 },
        Some(l) => {
            let diff = if sequence >= l { sequence - l } else { sequence + 0x1_0000 - l };
            if diff == 0 {
                RtpArrival::Duplicate
            } else if diff >= 0x8000 {
                RtpArrival::Late
            } else {
                RtpArrival::Accept { skipped: (diff - 1) as u16 }
            }
        },
    }
}

pub fn rtp_arrival(last: Option<u16>, sequence: u16) -> (a: RtpArrival)
    ensures
        a == rtp_arrival_spec(last, sequence),
{
    match last {
        None => RtpArrival::Accept { skipped: 0 },
        Some(l) => {
            let diff = sequence.wrapping_sub(l);
            if diff == 0 {
                RtpArrival::Duplicate
            } else if diff >= 0x8000 {
                RtpArrival::Late
            } else {
                RtpArrival::Accept { skipped: diff - 1 }
            }
        },
    }
}

/// Spacing of concealed packets: the RTP time since the last accepted
/// packet spread over the lost packets and this one, 10 – 60 ms; 20 ms
/// when no packet came before.
pub open spec fn concealment_interval_spec(last_timestamp: Option<u32>, timestamp: u32, skipped: u16, clock_rate: u64) -> int {
    match last_timestamp {
        None => 20_000,
        Some(lt) => {
            let delta = if timestamp >= lt { timestamp - lt } else { timestamp + 0x1_0000_0000 - lt };
            let scaled = if delta * 1_000_000 > u64::MAX { u64::MAX as int } else { delta * 1_000_000 };
            let per = scaled / (clock_rate as int) / (skipped + 1);
            if per < 10_000 { 10_000 } else if per > 60_000 { 60_000 } else { per }
        },
    }
}

pub fn concealment_interval_us(last_timestamp: Option<u32>, timestamp: u32, skipped: u16, clock_rate: u64) -> (us: i64)
    requires
        clock_rate > 0,
    ensures
        us == concealment_interval_spec(last_timestamp, timestamp, skipped, clock_rate),
{
    match last_timestamp {
        None => 20_000,
        Some(lt) => {
            let delta = timestamp.wrapping_sub(lt) as u64;
            assert(delta * 1_000_000 <= u64::MAX) by (nonlinear_arith)
                requires
                    delta <= 0xffff_ffff,
            ;
            let scaled = delta * 1_000_000;
            let packets = skipped as u64 + 1;
            let per = scaled / clock_rate / packets;
            if per < 10_000 {
                10_000
            } else if per > 60_000 {
                60_000
            } else {
                per as i64
            }
        },
    }
}

/// Stale threshold for concealed packets: half the buffer target, 100 ms –
/// 2 s.
pub open spec fn conceal_stale_spec(target_ms: i32) -> int {
    let half = if target_ms * 1000 >= 0 { (target_ms * 1000) / 2 } else { -((-(target_ms * 1000)) / 2) };
    if half < 100_000 { 100_000 } else if half > 2_000_000 { 2_000_000 } else { half }
}

/// Playout time of the `i`-th of `count` concealed packets before a packet
/// playing at `current_playout_us`.
pub open spec fn concealed_playout_spec(current_playout_us: i64, count: int, i: int, interval_us: i64) -> int {
    current_playout_us - (count - i) * interval_us
}

/// Which concealed packets to queue for a gap of `skipped` packets before a
/// packet playing at `current_playout_us`: at most 10, evenly spaced by
/// `interval_us` back from it; those whose audio already ended before the
/// stale threshold are decoded (to keep the decoder's state) but not
/// queued.  Each entry is a playout time and whether to queue it.
pub fn concealment_plan(
    current_playout_us: i64,
    skipped: u16,
    interval_us: i64,
    now_server_us: i64,
    target_ms: i32,
) -> (plan: Vec<(i64, bool)>)
    requires
        10_000 <= interval_us <= 60_000,
        i64::MIN + 600_000 <= current_playout_us <= i64::MAX - 60_000,
        i64::MIN + 2_000_000 <= now_server_us,
    ensures
        plan@.len() == if skipped < MAX_CONCEALMENT_PACKETS_PER_GAP { skipped as int } else { MAX_CONCEALMENT_PACKETS_PER_GAP as int },
        forall|i: int|
            0 <= i < plan@.len() ==> (#[trigger] plan@[i]).0 == concealed_playout_spec(
                current_playout_us,
                plan@.len() as int,
                i,
                interval_us,
            ) && plan@[i].1 == !(plan@[i].0 + interval_us < now_server_us - conceal_stale_spec(target_ms)),
{
    let count: u16 = if skipped < MAX_CONCEALMENT_PACKETS_PER_GAP { skipped } else { MAX_CONCEALMENT_PACKETS_PER_GAP };
    let target_us: i64 = target_ms as i64 * 1000;
    let half: i64 = if target_us >= 0 { target_us / 2 } else { -((-target_us) / 2) };
    let stale: i64 = if half < 100_000 { 100_000 } else if half > 2_000_000 { 2_000_000 } else { half };
    let mut plan: Vec<(i64, bool)> = Vec::new();
    let mut i: u16 = 0;
    while i < count
        invariant
            0 <= i <= count <= 10,
            10_000 <= interval_us <= 60_000,
            i64::MIN + 600_000 <= current_playout_us <= i64::MAX - 60_000,
            i64::MIN + 2_000_000 <= now_server_us,
            stale == conceal_stale_spec(target_ms),
            count == if skipped < MAX_CONCEALMENT_PACKETS_PER_GAP { skipped } else { MAX_CONCEALMENT_PACKETS_PER_GAP },
            plan@.len() == i,
            forall|j: int|
                0 <= j < i ==> (#[trigger] plan@[j]).0 == concealed_playout_spec(
                    current_playout_us,
                    count as int,
                    j,
                    interval_us,
                ) && plan@[j].1 == !(plan@[j].0 + interval_us < now_server_us - conceal_stale_spec(target_ms)),
        decreases count - i,
    {
        let back: i64 = (count - i) as i64;
        assert(back * interval_us <= 600_000) by (nonlinear_arith)
            requires
                1 <= back <= 10,
                interval_us <= 60_000,
        ;
        assert(back * interval_us >= 0) by (nonlinear_arith)
            requires
                1 <= back,
                interval_us >= 0,
        ;
        let p = current_playout_us - back * interval_us;
        let keep = !(p + interval_us < now_server_us - stale);
        plan.push((p, keep));
        i = i + 1;
    }
    plan
}

} // verus!
