//! Jitter buffer for decoded PCM chunks.
//!
//! [`SyncBuffer`] keeps [`PcmChunk`]s ordered by playout time and releases
//! them when their playout time arrives.  Chunks whose audio ended more than
//! half the target buffer (clamped to 10 ms – 2 s) ago are dropped as stale;
//! when more than twice the target (at least 100 ms) is queued, the oldest
//! chunks are dropped.

use vstd::prelude::*;
use std::collections::VecDeque;
use crate::sample_format::SampleFormat;
use crate::sync::chunk::{
    PcmChunk, frames_duration_spec, frames_duration_us, remaining_spec, chunk_end_spec,
};

verus! {

/// Whether playback has started since the buffer was created or cleared.
#[derive(Debug, PartialEq, Eq, Clone, Copy, Structural)]
pub enum BufferState {
    Buffering,
    Playing,
}

/// Samples not yet consumed across `s`.
pub open spec fn total_remaining(s: Seq<PcmChunk>) -> nat
    decreases s.len(),
{
    if s.len() == 0 {
        0
    } else {
        remaining_spec(s[0]) + total_remaining(s.drop_first())
    }
}

pub open spec fn sorted_by_playout(s: Seq<PcmChunk>) -> bool {
    forall|i: int, j: int| 0 <= i <= j < s.len() ==> s[i].playout_us <= s[j].playout_us
}

/// Index at which a chunk playing at `p` is inserted: after every chunk that
/// plays at or before `p`.
pub open spec fn insert_index(s: Seq<PcmChunk>, p: i64) -> nat
    decreases s.len(),
{
    if s.len() == 0 {
        0
    } else if s[0].playout_us > p {
        0
    } else {
        1 + insert_index(s.drop_first(), p)
    }
}

/// Depth in microseconds of `samples` queued samples.
pub open spec fn depth_spec(samples: nat, fmt: SampleFormat) -> int {
    frames_duration_spec(samples / (fmt.channels as nat), fmt.rate)
}

/// How many front chunks are dropped while more than `max_us` is queued.
pub open spec fn excess_count(s: Seq<PcmChunk>, fmt: SampleFormat, max_us: int) -> nat
    decreases s.len(),
{
    if s.len() == 0 {
        0
    } else if depth_spec(total_remaining(s), fmt) > max_us {
        1 + excess_count(s.drop_first(), fmt, max_us)
    } else {
        0
    }
}

/// How many front chunks are stale at `now_us` with the given threshold.
pub open spec fn stale_count(s: Seq<PcmChunk>, now_us: int, threshold: int) -> nat
    decreases s.len(),
{
    if s.len() == 0 {
        0
    } else if chunk_end_spec(s[0]) < now_us - threshold {
        1 + stale_count(s.drop_first(), now_us, threshold)
    } else {
        0
    }
}

/// Stale threshold: half the target, clamped to 10 ms – 2 s.
pub open spec fn stale_threshold_spec(target_us: i64) -> int {
    let half = trunc_half(target_us as int);
    if half < 10_000 { 10_000 } else if half > 2_000_000 { 2_000_000 } else { half }
}

pub open spec fn trunc_half(a: int) -> int {
    if a >= 0 { a / 2 } else { -((-a) / 2) }
}

/// Most audio kept queued: twice the target (saturating), at least 100 ms.
pub open spec fn max_buffer_spec(target_us: i64) -> int {
    let doubled = if target_us * 2 > i64::MAX {
        i64::MAX as int
    } else if target_us * 2 < i64::MIN {
        i64::MIN as int
    } else {
        target_us * 2
    };
    if doubled < 100_000 { 100_000 } else { doubled }
}

/// Every chunk has channels and its end time fits in `i64`.
pub open spec fn ends_fit(s: Seq<PcmChunk>) -> bool {
    forall|i: int|
        0 <= i < s.len() ==> (#[trigger] s[i]).fmt.channels > 0 && i64::MIN <= chunk_end_spec(s[i])
            <= i64::MAX
}

pub proof fn lemma_total_remaining_skip(s: Seq<PcmChunk>, k: int)
    requires
        0 <= k < s.len(),
    ensures
        total_remaining(s.skip(k)) == remaining_spec(s[k]) + total_remaining(s.skip(k + 1)),
{
    assert(s.skip(k).drop_first() =~= s.skip(k + 1));
}

pub proof fn lemma_total_remaining_insert(s: Seq<PcmChunk>, k: int, c: PcmChunk)
    requires
        0 <= k <= s.len(),
    ensures
        total_remaining(s.insert(k, c)) == total_remaining(s) + remaining_spec(c),
    decreases k,
{
    if k == 0 {
        assert(s.insert(0, c).drop_first() =~= s);
    } else {
        assert(s.insert(k, c).drop_first() =~= s.drop_first().insert(k - 1, c));
        lemma_total_remaining_insert(s.drop_first(), k - 1, c);
    }
}

pub proof fn lemma_insert_index(s: Seq<PcmChunk>, p: i64, k: int)
    requires
        0 <= k <= s.len(),
        forall|j: int| 0 <= j < k ==> s[j].playout_us <= p,
        k == s.len() || s[k].playout_us > p,
    ensures
        insert_index(s, p) == k,
    decreases k,
{
    if k > 0 {
        lemma_insert_index(s.drop_first(), p, k - 1);
    }
}

pub proof fn lemma_insert_keeps_sorted(s: Seq<PcmChunk>, c: PcmChunk)
    requires
        sorted_by_playout(s),
    ensures
        sorted_by_playout(s.insert(insert_index(s, c.playout_us) as int, c)),
        insert_index(s, c.playout_us) <= s.len(),
    decreases s.len(),
{
    if s.len() > 0 && s[0].playout_us <= c.playout_us {
        let t = s.drop_first();
        lemma_insert_keeps_sorted(t, c);
        let k = insert_index(s, c.playout_us) as int;
        assert(s.insert(k, c) =~= seq![s[0]] + t.insert(k - 1, c));
        let r = s.insert(k, c);
        assert forall|i: int, j: int| 0 <= i <= j < r.len() implies r[i].playout_us
            <= r[j].playout_us by {
            if i == 0 && j > 0 {
                let tr = t.insert(k - 1, c);
                assert(r[j] == tr[j - 1]);
                if j - 1 == k - 1 {
                } else if j - 1 < k - 1 {
                    assert(tr[j - 1] == t[j - 1]);
                } else {
                    assert(tr[j - 1] == t[j - 2]);
                }
            }
        }
    } else {
        let r = s.insert(0, c);
        assert forall|i: int, j: int| 0 <= i <= j < r.len() implies r[i].playout_us
            <= r[j].playout_us by {
            if i == 0 && j > 0 {
                assert(r[j] == s[j - 1]);
            }
        }
    }
}

pub proof fn lemma_sorted_skip(s: Seq<PcmChunk>, k: int)
    requires
        sorted_by_playout(s),
        0 <= k <= s.len(),
    ensures
        sorted_by_playout(s.skip(k)),
{
}

pub proof fn lemma_excess_step(s: Seq<PcmChunk>, fmt: SampleFormat, max_us: int, d: int)
    requires
        0 <= d < s.len(),
        depth_spec(total_remaining(s.skip(d)), fmt) > max_us,
    ensures
        excess_count(s.skip(d), fmt, max_us) == 1 + excess_count(s.skip(d + 1), fmt, max_us),
{
    assert(s.skip(d).drop_first() =~= s.skip(d + 1));
}

pub proof fn lemma_stale_step(s: Seq<PcmChunk>, now_us: int, threshold: int, d: int)
    requires
        0 <= d < s.len(),
        chunk_end_spec(s[d]) < now_us - threshold,
    ensures
        stale_count(s.skip(d), now_us, threshold) == 1 + stale_count(s.skip(d + 1), now_us, threshold),
{
    assert(s.skip(d).drop_first() =~= s.skip(d + 1));
}

/// Jitter buffer: decoded chunks ordered by playout time, released when due.
pub struct SyncBuffer {
    chunks: VecDeque<PcmChunk>,
    buffered_samples: usize,
    fmt: SampleFormat,
    stale_drop_count: u32,
    pub underrun_count: u32,
    state: BufferState,
    target_buffer_us: i64,
    lead_us: i64,
    drift_drop_count: u64,
    drift_dup_count: u64,
}

impl SyncBuffer {
    /// Queued chunks, earliest playout first.
    pub closed spec fn chunks(&self) -> Seq<PcmChunk> {
        self.chunks@
    }

    pub closed spec fn buffered_samples_spec(&self) -> nat {
        self.buffered_samples as nat
    }

    pub closed spec fn format(&self) -> SampleFormat {
        self.fmt
    }

    pub closed spec fn stale_drops(&self) -> u32 {
        self.stale_drop_count
    }

    pub closed spec fn underruns(&self) -> u32 {
        self.underrun_count
    }

    pub closed spec fn state_spec(&self) -> BufferState {
        self.state
    }

    pub closed spec fn target_us(&self) -> i64 {
        self.target_buffer_us
    }

    pub closed spec fn lead(&self) -> i64 {
        self.lead_us
    }

    pub closed spec fn drift_drops(&self) -> u64 {
        self.drift_drop_count
    }

    pub closed spec fn drift_dups(&self) -> u64 {
        self.drift_dup_count
    }

    /// The buffer's invariant: chunks ordered by playout time, and the sample
    /// counter equal to the samples the chunks still hold.
    pub open spec fn wf(&self) -> bool {
        &&& sorted_by_playout(self.chunks())
        &&& self.buffered_samples_spec() == total_remaining(self.chunks())
    }

    /// Depth in microseconds of the queued audio.
    pub open spec fn depth(&self) -> int {
        depth_spec(self.buffered_samples_spec(), self.format())
    }

    /// An empty buffer, buffering, with a 1 s target and a 40 ms lead.
    pub fn new(fmt: SampleFormat) -> (b: Self)
        ensures
            b.wf(),
            b.chunks() == Seq::<PcmChunk>::empty(),
            b.format() == fmt,
            b.stale_drops() == 0,
            b.underruns() == 0,
            b.state_spec() == BufferState::Buffering,
            b.target_us() == 1_000_000,
            b.lead() == 40_000,
            b.drift_drops() == 0,
            b.drift_dups() == 0,
    {
        SyncBuffer {
            chunks: VecDeque::new(),
            buffered_samples: 0,
            fmt,
            stale_drop_count: 0,
            underrun_count: 0,
            state: BufferState::Buffering,
            target_buffer_us: 1_000_000,
            lead_us: 40_000,
            drift_drop_count: 0,
            drift_dup_count: 0,
        }
    }

    /// Depth of buffered audio in microseconds.
    pub fn buffer_depth_us(&self) -> (us: i64)
        requires
            self.format().channels > 0,
        ensures
            us == self.depth(),
    {
        let frames = self.buffered_samples / self.fmt.channels as usize;
        frames_duration_us(frames, self.fmt.rate)
    }

    /// Insert `chunk` after every queued chunk that plays at or before it,
    /// then drop the oldest chunks while more than the maximum is queued,
    /// counting them as stale drops.
    pub fn push(&mut self, chunk: PcmChunk, arrival_us: i64)
        requires
            old(self).wf(),
            old(self).format().channels > 0,
            old(self).buffered_samples_spec() + remaining_spec(chunk) <= usize::MAX,
            old(self).stale_drops() + old(self).chunks().len() + 1 <= u32::MAX,
        ensures
            final(self).wf(),
            ({
                let inserted = old(self).chunks().insert(
                    insert_index(old(self).chunks(), chunk.playout_us) as int,
                    chunk,
                );
                let dropped = excess_count(
                    inserted,
                    old(self).format(),
                    max_buffer_spec(old(self).target_us()),
                );
                &&& final(self).chunks() == inserted.skip(dropped as int)
                &&& final(self).stale_drops() == old(self).stale_drops() + dropped
            }),
            final(self).format() == old(self).format(),
            final(self).underruns() == old(self).underruns(),
            final(self).state_spec() == old(self).state_spec(),
            final(self).target_us() == old(self).target_us(),
            final(self).lead() == old(self).lead(),
            final(self).drift_drops() == old(self).drift_drops(),
            final(self).drift_dups() == old(self).drift_dups(),
    {
        let ghost s0 = self.chunks@;
        let p = chunk.playout_us;
        let mut i: usize = 0;
        while i < self.chunks.len() && self.chunks[i].playout_us <= p
            invariant
                self.chunks@ == s0,
                0 <= i <= s0.len(),
                forall|j: int| 0 <= j < i ==> s0[j].playout_us <= p,
            decreases s0.len() - i,
        {
            i = i + 1;
        }
        let insert_at = i;
        proof {
            lemma_insert_index(s0, p, i as int);
            lemma_insert_keeps_sorted(s0, chunk);
        }
        let ghost c = chunk;
        let ghost k = insert_index(s0, p) as int;
        let rem = chunk.remaining_samples();
        if insert_at == self.chunks.len() {
            self.chunks.push_back(chunk);
            assert(self.chunks@ =~= s0.insert(k, c));
        } else {
            self.chunks.insert(insert_at, chunk);
            assert(self.chunks@ =~= s0.insert(k, c));
        }
        proof {
            lemma_total_remaining_insert(s0, k, c);
        }
        self.buffered_samples = self.buffered_samples + rem;
        self.drop_excess_buffered_audio();
    }

    fn drop_excess_buffered_audio(&mut self)
        requires
            old(self).wf(),
            old(self).format().channels > 0,
            old(self).stale_drops() + old(self).chunks().len() <= u32::MAX,
        ensures
            final(self).wf(),
            ({
                let dropped = excess_count(
                    old(self).chunks(),
                    old(self).format(),
                    max_buffer_spec(old(self).target_us()),
                );
                &&& final(self).chunks() == old(self).chunks().skip(dropped as int)
                &&& final(self).stale_drops() == old(self).stale_drops() + dropped
            }),
            final(self).format() == old(self).format(),
            final(self).underruns() == old(self).underruns(),
            final(self).state_spec() == old(self).state_spec(),
            final(self).target_us() == old(self).target_us(),
            final(self).lead() == old(self).lead(),
            final(self).drift_drops() == old(self).drift_drops(),
            final(self).drift_dups() == old(self).drift_dups(),
    {
        let max_buffer_us: i64 = if self.target_buffer_us > i64::MAX / 2 {
            i64::MAX
        } else if self.target_buffer_us < i64::MIN / 2 {
            i64::MIN
        } else {
            self.target_buffer_us * 2
        };
        let max_buffer_us: i64 = if max_buffer_us < 100_000 { 100_000 } else { max_buffer_us };
        assert(max_buffer_us == max_buffer_spec(self.target_buffer_us));
        let ghost s0 = self.chunks@;
        let ghost st0 = self.stale_drop_count;
        let ghost d: int = 0;
        assert(s0.skip(0) =~= s0);
        while self.buffer_depth_us() > max_buffer_us
            invariant
                0 <= d <= s0.len(),
                self.chunks@ == s0.skip(d),
                sorted_by_playout(s0),
                self.wf(),
                self.fmt == old(self).fmt,
                self.fmt.channels > 0,
                self.stale_drop_count == st0 + d,
                st0 + s0.len() <= u32::MAX,
                excess_count(s0, self.fmt, max_buffer_us as int) == d + excess_count(
                    s0.skip(d),
                    self.fmt,
                    max_buffer_us as int,
                ),
                self.underrun_count == old(self).underruns(),
                self.state == old(self).state,
                self.target_buffer_us == old(self).target_buffer_us,
                self.lead_us == old(self).lead_us,
                self.drift_drop_count == old(self).drift_drop_count,
                self.drift_dup_count == old(self).drift_dup_count,
                max_buffer_us == max_buffer_spec(old(self).target_buffer_us),
            ensures
                0 <= d <= s0.len(),
                self.chunks@ == s0.skip(d),
                sorted_by_playout(s0),
                self.wf(),
                self.fmt == old(self).fmt,
                self.stale_drop_count == st0 + d,
                excess_count(s0, self.fmt, max_buffer_us as int) == d,
                self.underrun_count == old(self).underruns(),
                self.state == old(self).state,
                self.target_buffer_us == old(self).target_buffer_us,
                self.lead_us == old(self).lead_us,
                self.drift_drop_count == old(self).drift_drop_count,
                self.drift_dup_count == old(self).drift_dup_count,
            decreases s0.len() - d,
        {
            if self.chunks.len() == 0 {
                assert(s0.skip(d).len() == 0);
                break;
            }
            proof {
                lemma_excess_step(s0, self.fmt, max_buffer_us as int, d);
                lemma_total_remaining_skip(s0, d);
                assert(self.chunks@[0] == s0[d]);
            }
            let dropped = self.chunks.pop_front().unwrap();
            let rem = dropped.remaining_samples();
            self.buffered_samples = if self.buffered_samples > rem {
                self.buffered_samples - rem
            } else {
                0
            };
            self.stale_drop_count = self.stale_drop_count + 1;
            proof {
                d = d + 1;
                assert(self.chunks@ =~= s0.skip(d));
                lemma_sorted_skip(s0, d);
            }
        }
        proof {
            if self.chunks@.len() > 0 {
                assert(excess_count(s0.skip(d), self.fmt, max_buffer_us as int) == 0);
            }
        }
    }

    fn drop_stale(&mut self, now_server_us: i64)
        requires
            old(self).wf(),
            old(self).format().channels > 0,
            ends_fit(old(self).chunks()),
            now_server_us >= i64::MIN + 2_000_000,
            old(self).stale_drops() + old(self).chunks().len() <= u32::MAX,
        ensures
            final(self).wf(),
            ends_fit(final(self).chunks()),
            ({
                let dropped = stale_count(
                    old(self).chunks(),
                    now_server_us as int,
                    stale_threshold_spec(old(self).target_us()),
                );
                &&& final(self).chunks() == old(self).chunks().skip(dropped as int)
                &&& final(self).stale_drops() == old(self).stale_drops() + dropped
            }),
            final(self).format() == old(self).format(),
            final(self).underruns() == old(self).underruns(),
            final(self).state_spec() == old(self).state_spec(),
            final(self).target_us() == old(self).target_us(),
            final(self).lead() == old(self).lead(),
            final(self).drift_drops() == old(self).drift_drops(),
            final(self).drift_dups() == old(self).drift_dups(),
    {
        let half: i64 = self.target_buffer_us / 2;
        let threshold: i64 = if half < 10_000 {
            10_000
        } else if half > 2_000_000 {
            2_000_000
        } else {
            half
        };
        assert(threshold == stale_threshold_spec(self.target_buffer_us));
        let ghost s0 = self.chunks@;
        let ghost st0 = self.stale_drop_count;
        let ghost d: int = 0;
        assert(s0.skip(0) =~= s0);
        loop
            invariant
                0 <= d <= s0.len(),
                self.chunks@ == s0.skip(d),
                ends_fit(s0),
                sorted_by_playout(s0),
                self.wf(),
                self.fmt == old(self).fmt,
                self.fmt.channels > 0,
                self.stale_drop_count == st0 + d,
                st0 + s0.len() <= u32::MAX,
                stale_count(s0, now_server_us as int, threshold as int) == d + stale_count(
                    s0.skip(d),
                    now_server_us as int,
                    threshold as int,
                ),
                self.underrun_count == old(self).underruns(),
                self.state == old(self).state,
                self.target_buffer_us == old(self).target_buffer_us,
                self.lead_us == old(self).lead_us,
                self.drift_drop_count == old(self).drift_drop_count,
                self.drift_dup_count == old(self).drift_dup_count,
                threshold == stale_threshold_spec(old(self).target_buffer_us),
                now_server_us >= i64::MIN + 2_000_000,
            ensures
                0 <= d <= s0.len(),
                self.chunks@ == s0.skip(d),
                sorted_by_playout(s0),
                self.wf(),
                self.fmt == old(self).fmt,
                self.stale_drop_count == st0 + d,
                stale_count(s0, now_server_us as int, threshold as int) == d,
                self.underrun_count == old(self).underruns(),
                self.state == old(self).state,
                self.target_buffer_us == old(self).target_buffer_us,
                self.lead_us == old(self).lead_us,
                self.drift_drop_count == old(self).drift_drop_count,
                self.drift_dup_count == old(self).drift_dup_count,
            decreases s0.len() - d,
        {
            if self.chunks.len() == 0 {
                assert(s0.skip(d).len() == 0);
                break;
            }
            proof {
                assert(self.chunks@[0] == s0[d]);
                assert(s0[d].fmt.channels > 0);
                assert(i64::MIN <= chunk_end_spec(s0[d]) <= i64::MAX);
            }
            let front = &self.chunks[0];
            let end_us = front.playout_us + front.remaining_us();
            if end_us < now_server_us - threshold {
                proof {
                    lemma_stale_step(s0, now_server_us as int, threshold as int, d);
                    lemma_total_remaining_skip(s0, d);
                }
                let dropped = self.chunks.pop_front().unwrap();
                let rem = dropped.remaining_samples();
                self.buffered_samples = if self.buffered_samples > rem {
                    self.buffered_samples - rem
                } else {
                    0
                };
                self.stale_drop_count = self.stale_drop_count + 1;
                proof {
                    d = d + 1;
                    assert(self.chunks@ =~= s0.skip(d));
                    lemma_sorted_skip(s0, d);
                }
            } else {
                proof {
                    assert(s0.skip(d)[0] == s0[d]);
                }
                break;
            }
        }
        proof {
            assert forall|i: int| 0 <= i < self.chunks@.len() implies (#[trigger] self.chunks@[i]).fmt.channels > 0
                && i64::MIN <= chunk_end_spec(self.chunks@[i]) <= i64::MAX by {
                assert(self.chunks@[i] == s0[i + d]);
            }
        }
    }

    /// Take the front chunk after dropping stale ones, if it plays at or
    /// before `now_server_us`; playback counts as started when it does.
    pub fn pop_due_exact(&mut self, now_server_us: i64) -> (r: Option<PcmChunk>)
        requires
            old(self).wf(),
            old(self).format().channels > 0,
            ends_fit(old(self).chunks()),
            now_server_us >= i64::MIN + 2_000_000,
            old(self).stale_drops() + old(self).chunks().len() <= u32::MAX,
        ensures
            final(self).wf(),
            ({
                let dropped = stale_count(
                    old(self).chunks(),
                    now_server_us as int,
                    stale_threshold_spec(old(self).target_us()),
                );
                let rest = old(self).chunks().skip(dropped as int);
                &&& final(self).stale_drops() == old(self).stale_drops() + dropped
                &&& if rest.len() > 0 && rest[0].playout_us <= now_server_us {
                    &&& r == Some(rest[0])
                    &&& final(self).chunks() == rest.drop_first()
                    &&& final(self).state_spec() == BufferState::Playing
                } else {
                    &&& r is None
                    &&& final(self).chunks() == rest
                    &&& final(self).state_spec() == old(self).state_spec()
                }
            }),
            final(self).format() == old(self).format(),
            final(self).underruns() == old(self).underruns(),
            final(self).target_us() == old(self).target_us(),
            final(self).lead() == old(self).lead(),
            final(self).drift_drops() == old(self).drift_drops(),
            final(self).drift_dups() == old(self).drift_dups(),
    {
        self.drop_stale(now_server_us);
        if self.chunks.len() == 0 {
            return None;
        }
        if self.chunks[0].playout_us <= now_server_us {
            self.state = BufferState::Playing;
            let ghost s1 = self.chunks@;
            let chunk = self.chunks.pop_front().unwrap();
            proof {
                assert(s1.drop_first() =~= s1.skip(1));
                lemma_total_remaining_skip(s1, 0);
                assert(s1.skip(0) =~= s1);
                lemma_sorted_skip(s1, 1);
            }
            let rem = chunk.remaining_samples();
            self.buffered_samples = if self.buffered_samples > rem {
                self.buffered_samples - rem
            } else {
                0
            };
            Some(chunk)
        } else {
            None
        }
    }

    /// Take the front chunk when it is due `lead_us` ahead of
    /// `now_server_us`, after dropping stale chunks.  While buffering, nothing
    /// is released until the target depth is queued.  When playing and the
    /// front chunk is not yet due, or nothing is queued, it counts an
    /// underrun.
    pub fn pop_ready(&mut self, now_server_us: i64) -> (r: Option<PcmChunk>)
        requires
            old(self).wf(),
            old(self).format().channels > 0,
            ends_fit(old(self).chunks()),
            now_server_us >= i64::MIN + 2_000_000,
            i64::MIN <= now_server_us + old(self).lead() <= i64::MAX,
            old(self).stale_drops() + old(self).chunks().len() <= u32::MAX,
            old(self).underruns() < u32::MAX,
        ensures
            final(self).wf(),
            ({
                let dropped = stale_count(
                    old(self).chunks(),
                    now_server_us as int,
                    stale_threshold_spec(old(self).target_us()),
                );
                let rest = old(self).chunks().skip(dropped as int);
                let starts = old(self).state_spec() == BufferState::Buffering && depth_spec(
                    total_remaining(rest),
                    old(self).format(),
                ) >= old(self).target_us();
                &&& final(self).stale_drops() == old(self).stale_drops() + dropped
                &&& if old(self).state_spec() == BufferState::Buffering && !starts {
                    &&& r is None
                    &&& final(self).chunks() == rest
                    &&& final(self).state_spec() == BufferState::Buffering
                    &&& final(self).underruns() == old(self).underruns()
                } else if rest.len() == 0 {
                    &&& r is None
                    &&& final(self).chunks() == rest
                    &&& final(self).state_spec() == BufferState::Playing
                    &&& final(self).underruns() == old(self).underruns()
                } else if rest[0].playout_us <= now_server_us + old(self).lead() {
                    &&& r == Some(rest[0])
                    &&& final(self).chunks() == rest.drop_first()
                    &&& final(self).state_spec() == BufferState::Playing
                    &&& final(self).underruns() == old(self).underruns()
                } else {
                    &&& r is None
                    &&& final(self).chunks() == rest
                    &&& final(self).state_spec() == BufferState::Playing
                    &&& final(self).underruns() == old(self).underruns() + 1
                }
            }),
            final(self).format() == old(self).format(),
            final(self).target_us() == old(self).target_us(),
            final(self).lead() == old(self).lead(),
            final(self).drift_drops() == old(self).drift_drops(),
            final(self).drift_dups() == old(self).drift_dups(),
    {
        self.drop_stale(now_server_us);
        if self.state == BufferState::Buffering {
            if self.buffer_depth_us() >= self.target_buffer_us {
                self.state = BufferState::Playing;
            } else {
                return None;
            }
        }
        if self.chunks.len() == 0 {
            return None;
        }
        if self.chunks[0].playout_us <= now_server_us + self.lead_us {
            let ghost s1 = self.chunks@;
            let chunk = self.chunks.pop_front().unwrap();
            proof {
                assert(s1.drop_first() =~= s1.skip(1));
                lemma_total_remaining_skip(s1, 0);
                assert(s1.skip(0) =~= s1);
                lemma_sorted_skip(s1, 1);
            }
            let rem = chunk.remaining_samples();
            self.buffered_samples = if self.buffered_samples > rem {
                self.buffered_samples - rem
            } else {
                0
            };
            Some(chunk)
        } else {
            self.underrun_count = self.underrun_count + 1;
            None
        }
    }

    /// Playout time of the next queued chunk.
    pub fn next_playout_us(&self) -> (r: Option<i64>)
        ensures
            r == if self.chunks().len() > 0 {
                Some(self.chunks()[0].playout_us)
            } else {
                None::<i64>
            },
    {
        if self.chunks.len() == 0 {
            None
        } else {
            Some(self.chunks[0].playout_us)
        }
    }

    /// Number of queued chunks.
    pub fn len(&self) -> (n: usize)
        ensures
            n == self.chunks().len(),
    {
        self.chunks.len()
    }

    pub fn is_empty(&self) -> (b: bool)
        ensures
            b == (self.chunks().len() == 0),
    {
        self.chunks.len() == 0
    }

    /// Discard all queued audio and the stale and underrun counters, and go
    /// back to buffering.
    pub fn clear(&mut self)
        ensures
            final(self).wf(),
            final(self).chunks() == Seq::<PcmChunk>::empty(),
            final(self).stale_drops() == 0,
            final(self).underruns() == 0,
            final(self).state_spec() == BufferState::Buffering,
            final(self).format() == old(self).format(),
            final(self).target_us() == old(self).target_us(),
            final(self).lead() == old(self).lead(),
            final(self).drift_drops() == old(self).drift_drops(),
            final(self).drift_dups() == old(self).drift_dups(),
    {
        self.chunks.clear();
        self.buffered_samples = 0;
        self.stale_drop_count = 0;
        self.underrun_count = 0;
        self.state = BufferState::Buffering;
    }

    /// Return and reset the stale-drop counter.
    pub fn take_stale_drops(&mut self) -> (n: u32)
        ensures
            n == old(self).stale_drops(),
            final(self).stale_drops() == 0,
            final(self).chunks() == old(self).chunks(),
            final(self).buffered_samples_spec() == old(self).buffered_samples_spec(),
            final(self).format() == old(self).format(),
            final(self).underruns() == old(self).underruns(),
            final(self).state_spec() == old(self).state_spec(),
            final(self).target_us() == old(self).target_us(),
            final(self).lead() == old(self).lead(),
            final(self).drift_drops() == old(self).drift_drops(),
            final(self).drift_dups() == old(self).drift_dups(),
    {
        let n = self.stale_drop_count;
        self.stale_drop_count = 0;
        n
    }

    /// Target buffer depth in microseconds.
    pub fn target_buffer_us(&self) -> (us: i64)
        ensures
            us == self.target_us(),
    {
        self.target_buffer_us
    }

    pub fn take_drift_drop_count(&mut self) -> (n: u64)
        ensures
            n == old(self).drift_drops(),
            final(self).drift_drops() == 0,
            final(self).chunks() == old(self).chunks(),
            final(self).buffered_samples_spec() == old(self).buffered_samples_spec(),
            final(self).format() == old(self).format(),
            final(self).stale_drops() == old(self).stale_drops(),
            final(self).underruns() == old(self).underruns(),
            final(self).state_spec() == old(self).state_spec(),
            final(self).target_us() == old(self).target_us(),
            final(self).lead() == old(self).lead(),
            final(self).drift_dups() == old(self).drift_dups(),
    {
        let n = self.drift_drop_count;
        self.drift_drop_count = 0;
        n
    }

    pub fn take_drift_dup_count(&mut self) -> (n: u64)
        ensures
            n == old(self).drift_dups(),
            final(self).drift_dups() == 0,
            final(self).chunks() == old(self).chunks(),
            final(self).buffered_samples_spec() == old(self).buffered_samples_spec(),
            final(self).format() == old(self).format(),
            final(self).stale_drops() == old(self).stale_drops(),
            final(self).underruns() == old(self).underruns(),
            final(self).state_spec() == old(self).state_spec(),
            final(self).target_us() == old(self).target_us(),
            final(self).lead() == old(self).lead(),
            final(self).drift_drops() == old(self).drift_drops(),
    {
        let n = self.drift_dup_count;
        self.drift_dup_count = 0;
        n
    }

    /// Set the target depth to `ms` milliseconds (at least 20 ms) and the
    /// lead to a quarter of it, clamped to 5 – 100 ms.
    pub fn set_target_buffer_ms(&mut self, ms: i32)
        ensures
            final(self).target_us() == if ms * 1000 < 20_000 { 20_000 } else { ms * 1000 },
            final(self).lead() == ({
                let q = final(self).target_us() / 4;
                if q < 5_000 { 5_000 } else if q > 100_000 { 100_000 } else { q }
            }),
            final(self).chunks() == old(self).chunks(),
            final(self).buffered_samples_spec() == old(self).buffered_samples_spec(),
            final(self).format() == old(self).format(),
            final(self).stale_drops() == old(self).stale_drops(),
            final(self).underruns() == old(self).underruns(),
            final(self).state_spec() == old(self).state_spec(),
            final(self).drift_drops() == old(self).drift_drops(),
            final(self).drift_dups() == old(self).drift_dups(),
    {
        let t: i64 = ms as i64 * 1000;
        self.target_buffer_us = if t < 20_000 { 20_000 } else { t };
        let q = self.target_buffer_us / 4;
        self.lead_us = if q < 5_000 { 5_000 } else if q > 100_000 { 100_000 } else { q };
    }

    /// Set the lookahead used by [`Self::pop_ready`].
    pub fn set_lead_us(&mut self, us: i64)
        ensures
            final(self).lead() == us,
            final(self).chunks() == old(self).chunks(),
            final(self).buffered_samples_spec() == old(self).buffered_samples_spec(),
            final(self).format() == old(self).format(),
            final(self).stale_drops() == old(self).stale_drops(),
            final(self).underruns() == old(self).underruns(),
            final(self).state_spec() == old(self).state_spec(),
            final(self).target_us() == old(self).target_us(),
            final(self).drift_drops() == old(self).drift_drops(),
            final(self).drift_dups() == old(self).drift_dups(),
    {
        self.lead_us = us;
    }

    /// Return and reset the underrun counter.
    pub fn take_underruns(&mut self) -> (n: u32)
        ensures
            n == old(self).underruns(),
            final(self).underruns() == 0,
            final(self).chunks() == old(self).chunks(),
            final(self).buffered_samples_spec() == old(self).buffered_samples_spec(),
            final(self).format() == old(self).format(),
            final(self).stale_drops() == old(self).stale_drops(),
            final(self).state_spec() == old(self).state_spec(),
            final(self).target_us() == old(self).target_us(),
            final(self).lead() == old(self).lead(),
            final(self).drift_drops() == old(self).drift_drops(),
            final(self).drift_dups() == old(self).drift_dups(),
    {
        let n = self.underrun_count;
        self.underrun_count = 0;
        n
    }
}

} // verus!
