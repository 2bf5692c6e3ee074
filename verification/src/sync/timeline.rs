//! The playback timeline of the output callback.
//!
//! [`PlaybackTimeline::fill_i16`] produces the samples of one output
//! callback.  Each output frame has a server time; a chunk is taken from
//! the jitter buffer once it is due, silence is inserted until the next
//! chunk is due, and a chunk that runs more than 2 ms late or early drops or
//! repeats a frame.  Samples pass through the underrun crossfade.

use vstd::prelude::*;
use crate::sample_format::SampleFormat;
use crate::sync::buffer::{
    BufferState, SyncBuffer, ends_fit, stale_count, stale_threshold_spec,
};
use crate::sync::chunk::{PcmChunk, frames_duration_spec, frames_duration_us, remaining_spec};
use crate::sync::clock::{frames_to_us, frames_to_us_spec, us_to_frames, us_to_frames_spec};
use crate::sync::fade::{FadeSample, FadeState, FadePhase, drain_spec, feed_spec, fade_wf};
use vstd::arithmetic::div_mod::{
    lemma_fundamental_div_mod, lemma_mod_multiples_basic, lemma_mod_pos_bound,
};
use vstd::arithmetic::mul::{
    lemma_mul_inequality, lemma_mul_inequality_converse, lemma_mul_is_commutative, lemma_mul_is_distributive_add,
    lemma_mul_is_distributive_add_other_way, lemma_mul_is_distributive_sub, lemma_mul_nonnegative,
};

verus! {

/// Outputs and final state of `n` drains.
pub open spec fn drain_run(f: FadeState, n: nat) -> (FadeState, Seq<FadeSample>)
    decreases n,
{
    if n == 0 {
        (f, Seq::empty())
    } else {
        let (g, o) = drain_run(f, (n - 1) as nat);
        let (h, x) = drain_spec(g);
        (h, o.push(x))
    }
}

/// Outputs and final state of feeding the samples of `s` in order.
pub open spec fn feed_run(f: FadeState, s: Seq<i16>) -> (FadeState, Seq<FadeSample>)
    decreases s.len(),
{
    if s.len() == 0 {
        (f, Seq::empty())
    } else {
        let (g, o) = feed_run(f, s.drop_last());
        let (h, x) = feed_spec(g, s.last());
        (h, o.push(x))
    }
}

pub proof fn lemma_drain_run_wf(f: FadeState, n: nat)
    requires
        fade_wf(f),
    ensures
        fade_wf(drain_run(f, n).0),
        drain_run(f, n).1.len() == n,
    decreases n,
{
    if n > 0 {
        lemma_drain_run_wf(f, (n - 1) as nat);
    }
}

pub proof fn lemma_feed_run_wf(f: FadeState, s: Seq<i16>)
    requires
        fade_wf(f),
    ensures
        fade_wf(feed_run(f, s).0),
        feed_run(f, s).1.len() == s.len(),
    decreases s.len(),
{
    if s.len() > 0 {
        lemma_feed_run_wf(f, s.drop_last());
    }
}

fn drain_into(fade: &mut FadeState, n: usize, out: &mut Vec<FadeSample>)
    requires
        fade_wf(*old(fade)),
    ensures
        *final(fade) == drain_run(*old(fade), n as nat).0,
        final(out)@ == old(out)@ + drain_run(*old(fade), n as nat).1,
{
    let ghost f0 = *fade;
    let ghost o0 = out@;
    let mut k: usize = 0;
    while k < n
        invariant
            0 <= k <= n,
            fade_wf(f0),
            *fade == drain_run(f0, k as nat).0,
            out@ == o0 + drain_run(f0, k as nat).1,
        decreases n - k,
    {
        proof {
            lemma_drain_run_wf(f0, k as nat);
        }
        let x = fade.drain();
        out.push(x);
        proof {
            assert(out@ =~= o0 + drain_run(f0, k as nat + 1).1);
        }
        k = k + 1;
    }
}

fn feed_into(fade: &mut FadeState, samples: &Vec<i16>, from: usize, to: usize, out: &mut Vec<FadeSample>)
    requires
        fade_wf(*old(fade)),
        from <= to <= samples@.len(),
    ensures
        *final(fade) == feed_run(*old(fade), samples@.subrange(from as int, to as int)).0,
        final(out)@ == old(out)@ + feed_run(*old(fade), samples@.subrange(from as int, to as int)).1,
{
    let ghost f0 = *fade;
    let ghost o0 = out@;
    let mut k: usize = from;
    assert(samples@.subrange(from as int, from as int) =~= Seq::<i16>::empty());
    while k < to
        invariant
            from <= k <= to <= samples@.len(),
            fade_wf(f0),
            *fade == feed_run(f0, samples@.subrange(from as int, k as int)).0,
            out@ == o0 + feed_run(f0, samples@.subrange(from as int, k as int)).1,
        decreases to - k,
    {
        proof {
            lemma_feed_run_wf(f0, samples@.subrange(from as int, k as int));
            let s1 = samples@.subrange(from as int, k as int + 1);
            assert(s1.drop_last() =~= samples@.subrange(from as int, k as int));
            assert(s1.last() == samples@[k as int]);
        }
        let x = fade.feed(samples[k]);
        out.push(x);
        proof {
            assert(out@ =~= o0 + feed_run(f0, samples@.subrange(from as int, k as int + 1)).1);
        }
        k = k + 1;
    }
}


/// The jitter buffer's `pop_due_exact` on its abstract state: stale chunks
/// are dropped, then the front chunk is taken if it is due.
pub open spec fn pop_due(
    chunks: Seq<PcmChunk>,
    stale: int,
    state: BufferState,
    target: i64,
    now: i64,
) -> (Option<PcmChunk>, Seq<PcmChunk>, int, BufferState) {
    let dropped = stale_count(chunks, now as int, stale_threshold_spec(target));
    let rest = chunks.skip(dropped as int);
    if rest.len() > 0 && rest[0].playout_us <= now {
        (Some(rest[0]), rest.drop_first(), stale + dropped, BufferState::Playing)
    } else {
        (None, rest, stale + dropped, state)
    }
}

/// Server time of the sample at a chunk's read cursor.
pub open spec fn playout_at(c: PcmChunk) -> int {
    c.playout_us + frames_duration_spec((c.read_pos as nat) / (c.fmt.channels as nat), c.fmt.rate)
}

/// Counters of one fill: underruns started, frames dropped and frames
/// repeated for drift.
#[derive(Debug, Clone, Copy, PartialEq, Eq, Structural)]
pub struct FillCounts {
    pub underruns: usize,
    pub drift_drops: usize,
    pub drift_dups: usize,
}

/// Progress of a fill.
pub ghost struct FillState {
    pub chunks: Seq<PcmChunk>,
    pub stale: int,
    pub state: BufferState,
    pub current: Option<PcmChunk>,
    pub fade: FadeState,
    /// Samples written so far.
    pub pos: int,
    /// Frames of server time covered so far.
    pub produced: int,
    pub out: Seq<FadeSample>,
    pub counts: FillCounts,
}

/// What stays fixed during a fill.
pub ghost struct FillParams {
    pub dac: i64,
    pub out_len: int,
    pub ch: int,
    pub rate: u32,
    pub target: i64,
}

/// Server time of the next output frame.
pub open spec fn frame_time(p: FillParams, s: FillState) -> i64 {
    (p.dac + frames_to_us_spec(s.produced as nat, p.rate)) as i64
}

/// Silence until the next chunk is due, or to the end of the output, at
/// least one frame; an underrun is counted when playback was flowing.
/// Microseconds from `t` until `next`, saturating at `i64::MAX`.
pub open spec fn gap_us(next: i64, t: i64) -> i64 {
    if next - t > i64::MAX { i64::MAX } else { (next - t) as i64 }
}

pub open spec fn silence_step(p: FillParams, s: FillState, t: i64) -> FillState {
    let remaining_frames = (p.out_len - s.pos) / p.ch;
    let wanted = if s.chunks.len() > 0 && s.chunks[0].playout_us > t {
        us_to_frames_spec(gap_us(s.chunks[0].playout_us, t), p.rate)
    } else {
        remaining_frames
    };
    let n = if wanted < 1 {
        1
    } else if wanted > remaining_frames {
        remaining_frames
    } else {
        wanted
    };
    let (fade, outs) = drain_run(s.fade, (n * p.ch) as nat);
    FillState {
        current: None,
        fade,
        pos: s.pos + n * p.ch,
        produced: s.produced + n,
        out: s.out + outs,
        counts: FillCounts {
            underruns: if s.fade.phase == FadePhase::Playing {
                (s.counts.underruns + 1) as usize
            } else {
                s.counts.underruns
            },
            ..s.counts
        },
        ..s
    }
}

/// Copy whole frames of `c` from its read cursor, as many as fit; the chunk
/// stays current until it is used up.
pub open spec fn copy_step(p: FillParams, s: FillState, c: PcmChunk) -> FillState {
    let frames = if (p.out_len - s.pos) / p.ch < (remaining_spec(c) as int) / p.ch {
        (p.out_len - s.pos) / p.ch
    } else {
        (remaining_spec(c) as int) / p.ch
    };
    let n = frames * p.ch;
    let (fade, outs) = feed_run(s.fade, c.samples@.subrange(c.read_pos as int, c.read_pos + n));
    let c2 = PcmChunk { read_pos: (c.read_pos + n) as usize, ..c };
    FillState {
        current: if c2.read_pos >= c2.samples@.len() { None } else { Some(c2) },
        fade,
        pos: s.pos + n,
        produced: s.produced + frames,
        out: s.out + outs,
        ..s
    }
}

/// Play from the current chunk `c`: more than 2 ms late, one frame is
/// skipped before copying; more than 2 ms early, the previous frame is
/// repeated; else frames are copied.
pub open spec fn chunk_step(p: FillParams, s: FillState, t: i64, c: PcmChunk) -> FillState {
    let age = t - playout_at(c);
    if age > 2000 && remaining_spec(c) > p.ch {
        let c1 = PcmChunk { read_pos: (c.read_pos + p.ch) as usize, ..c };
        copy_step(
            p,
            FillState { counts: FillCounts { drift_drops: (s.counts.drift_drops + 1) as usize, ..s.counts }, ..s },
            c1,
        )
    } else if age < -2000 && c.read_pos >= p.ch {
        let prev = c.read_pos - p.ch;
        let k = if p.ch < p.out_len - s.pos { p.ch } else { p.out_len - s.pos };
        let (fade, outs) = feed_run(s.fade, c.samples@.subrange(prev, prev + k));
        FillState {
            current: Some(c),
            fade,
            pos: s.pos + k,
            produced: s.produced + 1,
            out: s.out + outs,
            counts: FillCounts { drift_dups: (s.counts.drift_dups + 1) as usize, ..s.counts },
            ..s
        }
    } else {
        copy_step(p, s, c)
    }
}

/// One pass of the fill loop: take a due chunk if none is current, then
/// play from it or insert silence.
pub open spec fn fill_step(p: FillParams, s: FillState) -> FillState {
    let t = frame_time(p, s);
    match s.current {
        Some(c) => chunk_step(p, FillState { current: None, ..s }, t, c),
        None => {
            let (cur, chunks, stale, state) = pop_due(s.chunks, s.stale, s.state, p.target, t);
            let s1 = FillState { chunks, stale, state, ..s };
            match cur {
                Some(c) => chunk_step(p, s1, t, c),
                None => silence_step(p, s1, t),
            }
        },
    }
}

/// The state after `n` passes.
pub open spec fn fill_steps(p: FillParams, s: FillState, n: nat) -> FillState
    decreases n,
{
    if n == 0 {
        s
    } else {
        fill_step(p, fill_steps(p, s, (n - 1) as nat))
    }
}

/// The fill ends after `n` passes: `n` is the first pass count at which all
/// samples are written.
pub open spec fn fill_ends_after(p: FillParams, s: FillState, n: nat) -> bool {
    &&& fill_steps(p, s, n).pos >= p.out_len
    &&& forall|m: nat| m < n ==> (#[trigger] fill_steps(p, s, m)).pos < p.out_len
}

/// A chunk the fill can walk frame by frame.
pub open spec fn chunk_aligned(c: PcmChunk, ch: int) -> bool {
    &&& c.fmt.channels > 0
    &&& (c.samples@.len() as int) % ch == 0
    &&& (c.read_pos as int) % ch == 0
    &&& c.read_pos <= c.samples@.len()
    &&& c.playout_us >= 0
}

pub open spec fn chunks_aligned(s: Seq<PcmChunk>, ch: int) -> bool {
    forall|i: int| 0 <= i < s.len() ==> chunk_aligned(#[trigger] s[i], ch)
}

pub proof fn lemma_frames_to_us_monotone(a: nat, b: nat, rate: u32)
    requires
        a <= b,
    ensures
        frames_to_us_spec(a, rate) <= frames_to_us_spec(b, rate),
        0 <= frames_to_us_spec(a, rate),
{
    let r: int = if rate == 0 { 1 } else { rate as int };
    assert((a as int) * 1_000_000 / r <= (b as int) * 1_000_000 / r) by (nonlinear_arith)
        requires
            a <= b,
            r >= 1,
    ;
    assert((a as int) * 1_000_000 / r >= 0) by (nonlinear_arith)
        requires
            r >= 1,
    ;
}

proof fn lemma_frames_fit(n: int, q: int, ch: int)
    requires
        ch >= 1,
        q >= 0,
        0 <= n <= q / ch,
    ensures
        n * ch <= q,
        n * ch >= 0,
        (n * ch) % ch == 0,
{
    lemma_fundamental_div_mod(q, ch);
    lemma_mul_inequality(n, q / ch, ch);
    lemma_mul_is_commutative(ch, q / ch);
    lemma_mod_pos_bound(q, ch);
    lemma_mul_nonnegative(n, ch);
    lemma_mod_multiples_basic(n, ch);
}

proof fn lemma_multiple_at_least(x: int, ch: int)
    requires
        ch >= 1,
        x > 0,
        x % ch == 0,
    ensures
        x >= ch,
        x / ch >= 1,
{
    lemma_fundamental_div_mod(x, ch);
    let q = x / ch;
    if q <= 0 {
        lemma_mul_inequality(q, 0, ch);
        lemma_mul_is_commutative(ch, q);
    }
    lemma_mul_inequality(1, q, ch);
    lemma_mul_is_commutative(ch, q);
}

/// Sums and differences of multiples of `m` are multiples of `m`.
proof fn lemma_aligned_add(a: int, b: int, m: int)
    requires
        m >= 1,
        a % m == 0,
        b % m == 0,
    ensures
        (a + b) % m == 0,
        (a - b) % m == 0,
{
    lemma_fundamental_div_mod(a, m);
    lemma_fundamental_div_mod(b, m);
    let qa = a / m;
    let qb = b / m;
    lemma_mul_is_distributive_add(m, qa, qb);
    lemma_mul_is_distributive_sub(m, qa, qb);
    lemma_mul_is_commutative(m, qa + qb);
    lemma_mul_is_commutative(m, qa - qb);
    lemma_mod_multiples_basic(qa + qb, m);
    lemma_mod_multiples_basic(qa - qb, m);
}

proof fn lemma_frames_step(produced: int, frames: int, ch: int)
    ensures
        (produced + frames) * ch == produced * ch + frames * ch,
{
    lemma_mul_is_distributive_add_other_way(ch, produced, frames);
}

/// A whole number of frames that fits in an aligned length fits in its
/// frame count.
proof fn lemma_frames_upper(frames: int, len: int, ch: int)
    requires
        ch >= 1,
        len >= 0,
        len % ch == 0,
        frames * ch <= len,
    ensures
        frames <= len / ch,
{
    lemma_fundamental_div_mod(len, ch);
    lemma_mul_is_commutative(ch, len / ch);
    lemma_mul_inequality_converse(frames, len / ch, ch);
}

proof fn lemma_stale_count_bounded(s: Seq<PcmChunk>, now: int, threshold: int)
    ensures
        stale_count(s, now, threshold) <= s.len(),
    decreases s.len(),
{
    if s.len() > 0 {
        lemma_stale_count_bounded(s.drop_first(), now, threshold);
    }
}

/// The samples of one output callback are computed from this timeline.
pub struct PlaybackTimeline {
    pub buffer: SyncBuffer,
    /// The chunk being played, if any.
    pub current: Option<PcmChunk>,
    pub fmt: SampleFormat,
}

impl PlaybackTimeline {
    pub fn new(fmt: SampleFormat) -> (t: Self)
        ensures
            t.buffer.wf(),
            t.buffer.chunks() == Seq::<PcmChunk>::empty(),
            t.buffer.format() == fmt,
            t.buffer.stale_drops() == 0,
            t.buffer.state_spec() == BufferState::Buffering,
            t.buffer.target_us() == 1_000_000,
            t.current is None,
            t.fmt == fmt,
    {
        PlaybackTimeline { buffer: SyncBuffer::new(fmt), current: None, fmt }
    }

    pub fn set_target_buffer_ms(&mut self, ms: i32)
        requires
            old(self).buffer.wf(),
        ensures
            final(self).buffer.wf(),
            final(self).buffer.target_us() == if ms * 1000 < 20_000 { 20_000 } else { ms * 1000 },
            final(self).buffer.chunks() == old(self).buffer.chunks(),
            final(self).buffer.stale_drops() == old(self).buffer.stale_drops(),
            final(self).buffer.state_spec() == old(self).buffer.state_spec(),
            final(self).buffer.format() == old(self).buffer.format(),
            final(self).current == old(self).current,
            final(self).fmt == old(self).fmt,
    {
        self.buffer.set_target_buffer_ms(ms);
    }

    pub open spec fn fill_state(
        &self,
        fade: FadeState,
        pos: int,
        produced: int,
        out: Seq<FadeSample>,
        counts: FillCounts,
    ) -> FillState {
        FillState {
            chunks: self.buffer.chunks(),
            stale: self.buffer.stale_drops() as int,
            state: self.buffer.state_spec(),
            current: self.current,
            fade,
            pos,
            produced,
            out,
            counts,
        }
    }

    pub open spec fn fill_params(&self, dac: i64, out_len: usize) -> FillParams {
        FillParams {
            dac,
            out_len: out_len as int,
            ch: self.fmt.channels as int,
            rate: self.fmt.rate,
            target: self.buffer.target_us(),
        }
    }
}

/// What a fill needs of the timeline and of the request: a wellformed
/// buffer, whole frames everywhere, and server times that stay in range.
pub open spec fn fill_inputs_ok(tl: &PlaybackTimeline, dac: i64, out_len: usize) -> bool {
    let ch = tl.fmt.channels as int;
    &&& tl.buffer.wf()
    &&& tl.buffer.format().channels > 0
    &&& ends_fit(tl.buffer.chunks())
    &&& ch >= 1
    &&& chunks_aligned(tl.buffer.chunks(), ch)
    &&& (tl.current matches Some(c) ==> chunk_aligned(c, ch))
    &&& tl.buffer.stale_drops() + tl.buffer.chunks().len() <= u32::MAX
    &&& (out_len as int) % ch == 0
    &&& dac >= i64::MIN + 2_000_000
    &&& dac + frames_to_us_spec((out_len as int / ch) as nat, tl.fmt.rate) <= i64::MAX
}

/// The invariant of the fill loop.
pub open spec fn fill_inv(tl: &PlaybackTimeline, p: FillParams, s: FillState) -> bool {
    &&& fill_inputs_ok(tl, p.dac, p.out_len as usize)
    &&& p == tl.fill_params(p.dac, p.out_len as usize)
    &&& 0 <= p.out_len <= usize::MAX
    &&& 0 <= s.pos <= p.out_len
    &&& s.pos % p.ch == 0
    &&& s.produced * p.ch == s.pos
    &&& s.produced >= 0
    &&& fade_wf(s.fade)
    &&& s.counts.underruns + s.counts.drift_drops + s.counts.drift_dups <= s.produced
    &&& s.out.len() == s.pos
}


/// Chunks still to be played: those queued and the current one.
pub open spec fn queued(s: FillState) -> int {
    s.chunks.len() + if s.current is Some { 1int } else { 0int }
}

impl PlaybackTimeline {
    fn fill_silence(
        &mut self,
        fade: &mut FadeState,
        t: i64,
        dac: i64,
        out_len: usize,
        pos: usize,
        produced: usize,
        out: &mut Vec<FadeSample>,
        counts: FillCounts,
    ) -> (r: (usize, usize, FillCounts))
        requires
            old(self).current is None,
            fill_inv(
                old(self),
                old(self).fill_params(dac, out_len),
                old(self).fill_state(*old(fade), pos as int, produced as int, old(out)@, counts),
            ),
            pos < out_len,
            t >= i64::MIN + 2_000_000,
        ensures
            ({
                let p = old(self).fill_params(dac, out_len);
                let s1 = silence_step(
                    p,
                    old(self).fill_state(*old(fade), pos as int, produced as int, old(out)@, counts),
                    t,
                );
                &&& final(self).fill_state(*final(fade), r.0 as int, r.1 as int, final(out)@, r.2) == s1
                &&& final(self).fill_params(dac, out_len) == p
                &&& fill_inv(final(self), p, s1)
            }),
            r.0 > pos,
            final(self).buffer == old(self).buffer,
            final(self).fmt == old(self).fmt,
    {
        let ch = self.fmt.channels as usize;
        let remaining_frames = (out_len - pos) / ch;
        proof {
            lemma_aligned_add(out_len as int, pos as int, ch as int);
            lemma_multiple_at_least((out_len - pos) as int, ch as int);
        }
        let wanted = match self.buffer.next_playout_us() {
            Some(next) => if next > t {
                proof {
                    assert(chunk_aligned(self.buffer.chunks()[0], ch as int));
                }
                let diff: i128 = next as i128 - t as i128;
                let gap: i64 = if diff > i64::MAX as i128 { i64::MAX } else { diff as i64 };
                us_to_frames(gap, self.fmt.rate)
            } else {
                remaining_frames
            },
            None => remaining_frames,
        };
        let n = if wanted < 1 {
            1
        } else if wanted > remaining_frames {
            remaining_frames
        } else {
            wanted
        };
        proof {
            lemma_frames_fit(n as int, (out_len - pos) as int, ch as int);
            lemma_aligned_add(pos as int, (n * ch) as int, ch as int);
            lemma_frames_step(produced as int, n as int, ch as int);
            lemma_drain_run_wf(*fade, (n * ch) as nat);
            lemma_frames_upper(produced as int + n as int, out_len as int, ch as int);
            lemma_mul_inequality(1, n as int, ch as int);
        }
        let underrun = fade.phase == FadePhase::Playing;
        drain_into(fade, n * ch, out);
        let counts1 = if underrun {
            FillCounts { underruns: counts.underruns + 1, ..counts }
        } else {
            counts
        };
        (pos + n * ch, produced + n, counts1)
    }
}

impl PlaybackTimeline {
    fn copy_frames(
        &mut self,
        c: PcmChunk,
        fade: &mut FadeState,
        dac: i64,
        out_len: usize,
        pos: usize,
        produced: usize,
        out: &mut Vec<FadeSample>,
        counts: FillCounts,
    ) -> (r: (usize, usize, FillCounts))
        requires
            old(self).current is None,
            fill_inv(
                old(self),
                old(self).fill_params(dac, out_len),
                old(self).fill_state(*old(fade), pos as int, produced as int, old(out)@, counts),
            ),
            chunk_aligned(c, old(self).fmt.channels as int),
            pos < out_len,
        ensures
            ({
                let p = old(self).fill_params(dac, out_len);
                let s1 = copy_step(
                    p,
                    old(self).fill_state(*old(fade), pos as int, produced as int, old(out)@, counts),
                    c,
                );
                &&& final(self).fill_state(*final(fade), r.0 as int, r.1 as int, final(out)@, r.2) == s1
                &&& final(self).fill_params(dac, out_len) == p
                &&& fill_inv(final(self), p, s1)
            }),
            r.0 > pos || final(self).current is None,
            final(self).buffer == old(self).buffer,
            final(self).fmt == old(self).fmt,
    {
        let ch = self.fmt.channels as usize;
        let rem = c.remaining_samples();
        let frames = if (out_len - pos) / ch < rem / ch {
            (out_len - pos) / ch
        } else {
            rem / ch
        };
        proof {
            lemma_aligned_add(c.samples@.len() as int, c.read_pos as int, ch as int);
            lemma_aligned_add(out_len as int, pos as int, ch as int);
            lemma_multiple_at_least((out_len - pos) as int, ch as int);
            if rem > 0 {
                lemma_multiple_at_least(rem as int, ch as int);
            }
            lemma_frames_fit(frames as int, rem as int, ch as int);
            lemma_frames_fit(frames as int, (out_len - pos) as int, ch as int);
            lemma_aligned_add(pos as int, (frames * ch) as int, ch as int);
            lemma_aligned_add(c.read_pos as int, (frames * ch) as int, ch as int);
            lemma_frames_step(produced as int, frames as int, ch as int);
            lemma_frames_upper(produced as int + frames as int, out_len as int, ch as int);
            lemma_feed_run_wf(*fade, c.samples@.subrange(c.read_pos as int, c.read_pos + frames * ch));
            if frames >= 1 {
                lemma_mul_inequality(1, frames as int, ch as int);
            }
        }
        let n = frames * ch;
        let mut c2 = c;
        let total = c2.samples.len();
        assert(c2.read_pos + n <= total);
        feed_into(fade, &c2.samples, c2.read_pos, c2.read_pos + n, out);
        c2.read_pos = c2.read_pos + n;
        if !c2.is_exhausted() {
            self.current = Some(c2);
        }
        (pos + n, produced + frames, counts)
    }

    fn fill_chunk(
        &mut self,
        c: PcmChunk,
        fade: &mut FadeState,
        t: i64,
        dac: i64,
        out_len: usize,
        pos: usize,
        produced: usize,
        out: &mut Vec<FadeSample>,
        counts: FillCounts,
    ) -> (r: (usize, usize, FillCounts))
        requires
            old(self).current is None,
            fill_inv(
                old(self),
                old(self).fill_params(dac, out_len),
                old(self).fill_state(*old(fade), pos as int, produced as int, old(out)@, counts),
            ),
            chunk_aligned(c, old(self).fmt.channels as int),
            pos < out_len,
            t >= i64::MIN + 2_000_000,
        ensures
            ({
                let p = old(self).fill_params(dac, out_len);
                let s1 = chunk_step(
                    p,
                    old(self).fill_state(*old(fade), pos as int, produced as int, old(out)@, counts),
                    t,
                    c,
                );
                &&& final(self).fill_state(*final(fade), r.0 as int, r.1 as int, final(out)@, r.2) == s1
                &&& final(self).fill_params(dac, out_len) == p
                &&& fill_inv(final(self), p, s1)
            }),
            r.0 > pos || final(self).current is None,
            final(self).buffer == old(self).buffer,
            final(self).fmt == old(self).fmt,
    {
        let ch = self.fmt.channels as usize;
        let cch = c.fmt.channels as usize;
        let played: i128 = c.playout_us as i128 + frames_duration_us(c.read_pos / cch, c.fmt.rate) as i128;
        let age: i128 = t as i128 - played;
        if age > 2000 && c.remaining_samples() > ch {
            let ghost c0 = c;
            let total = c.samples.len();
            assert(c0.read_pos + ch < total);
            let mut c1 = c;
            c1.read_pos = c1.read_pos + ch;
            proof {
                assert((ch as int) % (ch as int) == 0) by {
                    lemma_mod_multiples_basic(1, ch as int);
                }
                lemma_aligned_add(c0.read_pos as int, ch as int, ch as int);
                lemma_aligned_add(c0.samples@.len() as int, c0.read_pos as int, ch as int);
                lemma_aligned_add(c0.samples@.len() as int - c0.read_pos as int, ch as int, ch as int);
                lemma_multiple_at_least(c0.samples@.len() as int - c1.read_pos as int, ch as int);
                lemma_aligned_add(out_len as int, pos as int, ch as int);
                lemma_multiple_at_least((out_len - pos) as int, ch as int);
            }
            let ghost p = self.fill_params(dac, out_len);
            let ghost s0 = self.fill_state(*fade, pos as int, produced as int, out@, counts);
            let r = self.copy_frames(c1, fade, dac, out_len, pos, produced, out, counts);
            let bumped = FillCounts { drift_drops: r.2.drift_drops + 1, ..r.2 };
            proof {
                let inc = FillCounts { drift_drops: (counts.drift_drops + 1) as usize, ..counts };
                let sa = copy_step(p, FillState { counts: inc, ..s0 }, c1);
                let sb = copy_step(p, s0, c1);
                assert(sa == FillState { counts: inc, ..sb });
            }
            (r.0, r.1, bumped)
        } else if age < -2000 && c.read_pos >= ch {
            let prev = c.read_pos - ch;
            let k = if ch < out_len - pos { ch } else { out_len - pos };
            proof {
                lemma_aligned_add(out_len as int, pos as int, ch as int);
                lemma_multiple_at_least((out_len - pos) as int, ch as int);
                lemma_feed_run_wf(*fade, c.samples@.subrange(prev as int, prev + k));
                assert((ch as int) % (ch as int) == 0) by {
                    lemma_mod_multiples_basic(1, ch as int);
                }
                lemma_aligned_add(pos as int, ch as int, ch as int);
                lemma_frames_step(produced as int, 1, ch as int);
                lemma_frames_upper(produced as int + 1, out_len as int, ch as int);
            }
            feed_into(fade, &c.samples, prev, prev + k, out);
            self.current = Some(c);
            (pos + k, produced + 1, FillCounts { drift_dups: counts.drift_dups + 1, ..counts })
        } else {
            self.copy_frames(c, fade, dac, out_len, pos, produced, out, counts)
        }
    }
}

impl PlaybackTimeline {
    /// One pass of the fill loop.
    fn fill_once(
        &mut self,
        fade: &mut FadeState,
        dac: i64,
        out_len: usize,
        pos: usize,
        produced: usize,
        out: &mut Vec<FadeSample>,
        counts: FillCounts,
    ) -> (r: (usize, usize, FillCounts))
        requires
            fill_inv(
                old(self),
                old(self).fill_params(dac, out_len),
                old(self).fill_state(*old(fade), pos as int, produced as int, old(out)@, counts),
            ),
            pos < out_len,
        ensures
            ({
                let p = old(self).fill_params(dac, out_len);
                let s0 = old(self).fill_state(*old(fade), pos as int, produced as int, old(out)@, counts);
                let s1 = fill_step(p, s0);
                &&& final(self).fill_state(*final(fade), r.0 as int, r.1 as int, final(out)@, r.2) == s1
                &&& final(self).fill_params(dac, out_len) == p
                &&& fill_inv(final(self), p, s1)
                &&& (s1.pos > s0.pos || (s1.pos == s0.pos && queued(s1) < queued(s0)))
            }),
            final(self).buffer.format() == old(self).buffer.format(),
            final(self).buffer.underruns() == old(self).buffer.underruns(),
            final(self).buffer.lead() == old(self).buffer.lead(),
            final(self).buffer.drift_drops() == old(self).buffer.drift_drops(),
            final(self).buffer.drift_dups() == old(self).buffer.drift_dups(),
            final(self).fmt == old(self).fmt,
    {
        let ghost p = self.fill_params(dac, out_len);
        let ghost s0 = self.fill_state(*fade, pos as int, produced as int, out@, counts);
        let ch = self.fmt.channels as usize;
        let rate = self.fmt.rate;
        proof {
            lemma_frames_upper(produced as int, out_len as int, ch as int);
            lemma_frames_to_us_monotone(produced as nat, (out_len as int / ch as int) as nat, rate);
        }
        let t: i64 = dac + frames_to_us(produced, rate);
        assert(t == frame_time(p, s0));
        match self.current.take() {
            Some(c) => {
                let r = self.fill_chunk(c, fade, t, dac, out_len, pos, produced, out, counts);
                r
            },
            None => {
                let ghost chunks0 = self.buffer.chunks();
                let popped = self.buffer.pop_due_exact(t);
                proof {
                    let dropped = stale_count(chunks0, t as int, stale_threshold_spec(self.buffer.target_us()));
                    lemma_stale_count_bounded(chunks0, t as int, stale_threshold_spec(self.buffer.target_us()));
                    let rest = chunks0.skip(dropped as int);
                    assert forall|i: int| 0 <= i < self.buffer.chunks().len() implies chunk_aligned(
                        #[trigger] self.buffer.chunks()[i],
                        ch as int,
                    ) && self.buffer.chunks()[i].fmt.channels > 0 && i64::MIN
                        <= crate::sync::chunk::chunk_end_spec(self.buffer.chunks()[i]) <= i64::MAX by {
                        if popped is Some {
                            assert(self.buffer.chunks()[i] == chunks0[i + dropped + 1]);
                        } else {
                            assert(self.buffer.chunks()[i] == chunks0[i + dropped]);
                        }
                    }
                    if popped is Some {
                        assert(rest[0] == chunks0[dropped as int]);
                    }
                }
                match popped {
                    Some(c) => {
                        let r = self.fill_chunk(c, fade, t, dac, out_len, pos, produced, out, counts);
                        r
                    },
                    None => {
                        let r = self.fill_silence(fade, t, dac, out_len, pos, produced, out, counts);
                        r
                    },
                }
            },
        }
    }
}

pub open spec fn no_counts() -> FillCounts {
    FillCounts { underruns: 0, drift_drops: 0, drift_dups: 0 }
}

impl PlaybackTimeline {
    /// Produce the `out_len` samples of one output callback whose first
    /// frame plays at server time `dac_server_us`, with the counters of
    /// underruns and drift corrections seen on the way.  The result is the
    /// fill loop run until every sample is written.
    pub fn fill_i16(&mut self, out_len: usize, dac_server_us: i64, fade: &mut FadeState) -> (r: (
        Vec<FadeSample>,
        FillCounts,
    ))
        requires
            fill_inputs_ok(old(self), dac_server_us, out_len),
            fade_wf(*old(fade)),
        ensures
            ({
                let p = old(self).fill_params(dac_server_us, out_len);
                let s0 = old(self).fill_state(*old(fade), 0, 0, Seq::empty(), no_counts());
                exists|n: nat|
                    fill_ends_after(p, s0, n) && final(self).fill_state(
                        *final(fade),
                        out_len as int,
                        out_len as int / (old(self).fmt.channels as int),
                        r.0@,
                        r.1,
                    ) == fill_steps(p, s0, n)
            }),
            r.0@.len() == out_len,
            fade_wf(*final(fade)),
            fill_inputs_ok(final(self), dac_server_us, out_len),
            final(self).buffer.format() == old(self).buffer.format(),
            final(self).buffer.underruns() == old(self).buffer.underruns(),
            final(self).buffer.target_us() == old(self).buffer.target_us(),
            final(self).buffer.lead() == old(self).buffer.lead(),
            final(self).buffer.drift_drops() == old(self).buffer.drift_drops(),
            final(self).buffer.drift_dups() == old(self).buffer.drift_dups(),
            final(self).fmt == old(self).fmt,
    {
        let ghost p = self.fill_params(dac_server_us, out_len);
        let ghost s0 = self.fill_state(*fade, 0, 0, Seq::empty(), no_counts());
        let ghost tl0_buffer_format = self.buffer.format();
        let ghost tl0_underruns = self.buffer.underruns();
        let ghost tl0_lead = self.buffer.lead();
        let ghost tl0_drops = self.buffer.drift_drops();
        let ghost tl0_dups = self.buffer.drift_dups();
        let ghost fmt0 = self.fmt;
        let mut out: Vec<FadeSample> = Vec::new();
        let mut pos: usize = 0;
        let mut produced: usize = 0;
        let mut counts = FillCounts { underruns: 0, drift_drops: 0, drift_dups: 0 };
        let ghost mut n: nat = 0;
        proof {
            assert(out@ =~= Seq::<FadeSample>::empty());
            assert(fill_steps(p, s0, 0) == s0);
            lemma_mod_multiples_basic(0, self.fmt.channels as int);
        }
        while pos < out_len
            invariant
                fill_inv(self, p, self.fill_state(*fade, pos as int, produced as int, out@, counts)),
                p == self.fill_params(dac_server_us, out_len),
                self.fill_state(*fade, pos as int, produced as int, out@, counts) == fill_steps(p, s0, n),
                forall|m: nat| m < n ==> (#[trigger] fill_steps(p, s0, m)).pos < p.out_len,
                p.out_len == out_len,
                self.buffer.format() == tl0_buffer_format,
                self.buffer.underruns() == tl0_underruns,
                self.buffer.lead() == tl0_lead,
                self.buffer.drift_drops() == tl0_drops,
                self.buffer.drift_dups() == tl0_dups,
                self.fmt == fmt0,
            decreases out_len - pos, queued(self.fill_state(*fade, pos as int, produced as int, out@, counts)),
        {
            let r = self.fill_once(fade, dac_server_us, out_len, pos, produced, &mut out, counts);
            pos = r.0;
            produced = r.1;
            counts = r.2;
            proof {
                n = n + 1;
            }
        }
        proof {
            let ch = self.fmt.channels as int;
            assert(produced * ch == out_len);
            lemma_fundamental_div_mod(out_len as int, ch);
            lemma_mul_is_commutative(ch, out_len as int / ch);
            lemma_mul_inequality_converse(produced as int, out_len as int / ch, ch);
            lemma_mul_inequality_converse(out_len as int / ch, produced as int, ch);
            assert(fill_ends_after(p, s0, n));
        }
        (out, counts)
    }
}

// ---------------------------------------------------------------------------
// Output callback timing
// ---------------------------------------------------------------------------

/// Expected duration in microseconds of a callback of `sample_count`
/// interleaved samples: whole frames at the sample rate, at least 1 µs
/// (channel count and rate are taken as at least 1).
pub open spec fn expected_callback_spec(sample_count: nat, channels: nat, sample_rate: nat) -> int {
    let ch = if channels == 0 { 1 } else { channels };
    let rate = if sample_rate == 0 { 1 } else { sample_rate };
    let micros = (sample_count / ch) * 1_000_000 / rate;
    let at_least_one = if micros < 1 { 1 } else { micros };
    if at_least_one > u64::MAX { u64::MAX as int } else { at_least_one as int }
}

pub fn expected_callback_us(sample_count: usize, channels: usize, sample_rate: u32) -> (us: u64)
    ensures
        us == expected_callback_spec(sample_count as nat, channels as nat, sample_rate as nat),
{
    let ch = if channels == 0 { 1 } else { channels };
    let rate: u128 = if sample_rate == 0 { 1 } else { sample_rate as u128 };
    let frames = sample_count / ch;
    assert((frames as u128) * 1_000_000 <= 0xffff_ffff_ffff_ffff * 1_000_000) by (nonlinear_arith)
        requires
            frames <= 0xffff_ffff_ffff_ffff,
    ;
    let micros: u128 = (frames as u128) * 1_000_000 / rate;
    let at_least_one = if micros < 1 { 1 } else { micros };
    if at_least_one > u64::MAX as u128 { u64::MAX } else { at_least_one as u64 }
}

/// A callback started later than three expected durations (at least 50 ms)
/// after the previous one: the output starved.
pub open spec fn starved_spec(elapsed_us: u128, expected_us: u64) -> bool {
    let threshold = if 3 * expected_us < 50_000 { 50_000 } else { 3 * expected_us };
    elapsed_us > threshold
}

pub fn callback_starved(elapsed_us: u128, expected_us: u64) -> (b: bool)
    ensures
        b == starved_spec(elapsed_us, expected_us),
{
    let tripled: u128 = 3 * (expected_us as u128);
    let threshold: u128 = if tripled < 50_000 { 50_000 } else { tripled };
    elapsed_us > threshold
}
} // verus!
