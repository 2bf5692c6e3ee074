//! Crossfade for underrun recovery.
//!
//! States:
//! - **Playing**: data flows and `feed` passes samples through.
//! - **FadingOut**: the buffer ran dry; `drain` ramps the last sample value
//!   linearly to zero over `fade_len` samples.
//! - **Silent**: fully faded out; `drain` yields zero.
//! - **FadingIn**: data arrived after silence; `feed` ramps from zero back to
//!   full amplitude over `fade_len` samples.
//!
//! A ramp step is returned as the sample and its gain as a fraction
//! `num / den` with `num <= den`; the output stage applies the gain in its
//! own sample arithmetic.

use vstd::prelude::*;

verus! {

#[derive(Debug, Clone, Copy, PartialEq, Eq, Structural)]
pub enum FadePhase {
    Playing,
    FadingOut,
    Silent,
    FadingIn,
}

/// One output sample of the crossfade.
#[derive(Debug, Clone, Copy, PartialEq, Eq, Structural)]
pub enum FadeSample {
    /// Played as is.
    Direct(i16),
    /// `sample` scaled by the gain `num / den`.
    Scaled { sample: i16, num: usize, den: usize },
}

#[derive(Debug, Clone, Copy, PartialEq, Eq, Structural)]
pub struct FadeState {
    pub phase: FadePhase,
    /// Ramp length in samples (at least 1).
    pub fade_len: usize,
    /// Samples of the current ramp already produced.
    pub fade_pos: usize,
    /// Last sample value, the starting point of a fade-out.
    pub last_val: i16,
}

pub open spec fn fade_wf(f: FadeState) -> bool {
    1 <= f.fade_len && f.fade_pos <= f.fade_len
}

/// One step of a fade-in ramp on `sample`.
pub open spec fn fade_in_step(f: FadeState, sample: i16) -> (FadeState, FadeSample) {
    if f.fade_pos >= f.fade_len {
        (FadeState { phase: FadePhase::Playing, last_val: sample, ..f }, FadeSample::Direct(sample))
    } else {
        (
            FadeState { fade_pos: (f.fade_pos + 1) as usize, last_val: sample, ..f },
            FadeSample::Scaled { sample, num: f.fade_pos, den: f.fade_len },
        )
    }
}

/// One step of a fade-out ramp from the last sample value.
pub open spec fn fade_out_step(f: FadeState) -> (FadeState, FadeSample) {
    if f.fade_pos >= f.fade_len {
        (FadeState { phase: FadePhase::Silent, last_val: 0, ..f }, FadeSample::Direct(0))
    } else {
        (
            FadeState { fade_pos: (f.fade_pos + 1) as usize, ..f },
            FadeSample::Scaled { sample: f.last_val, num: (f.fade_len - f.fade_pos) as usize, den: f.fade_len },
        )
    }
}

/// A real sample arrives.
pub open spec fn feed_spec(f: FadeState, sample: i16) -> (FadeState, FadeSample) {
    match f.phase {
        FadePhase::Silent | FadePhase::FadingOut => fade_in_step(
            FadeState { phase: FadePhase::FadingIn, fade_pos: 0, ..f },
            sample,
        ),
        FadePhase::FadingIn => fade_in_step(f, sample),
        FadePhase::Playing => (FadeState { last_val: sample, ..f }, FadeSample::Direct(sample)),
    }
}

/// The buffer is empty.
pub open spec fn drain_spec(f: FadeState) -> (FadeState, FadeSample) {
    match f.phase {
        FadePhase::Playing => fade_out_step(FadeState { phase: FadePhase::FadingOut, fade_pos: 0, ..f }),
        FadePhase::FadingOut => fade_out_step(f),
        FadePhase::FadingIn | FadePhase::Silent => (FadeState { phase: FadePhase::Silent, ..f }, FadeSample::Direct(0)),
    }
}

/// The gain of every ramp step lies in `[0, 1]`.
pub open spec fn gain_ok(s: FadeSample) -> bool {
    match s {
        FadeSample::Direct(_) => true,
        FadeSample::Scaled { num, den, .. } => 1 <= den && num <= den,
    }
}

impl FadeState {
    /// Playing, with a ramp of `fade_len` samples (at least 1).
    pub fn new(fade_len: usize) -> (f: Self)
        ensures
            fade_wf(f),
            f == (FadeState {
                phase: FadePhase::Playing,
                fade_len: if fade_len == 0 { 1 } else { fade_len },
                fade_pos: 0,
                last_val: 0,
            }),
    {
        FadeState {
            phase: FadePhase::Playing,
            fade_len: if fade_len == 0 { 1 } else { fade_len },
            fade_pos: 0,
            last_val: 0,
        }
    }

    fn apply_fade_out(&mut self) -> (s: FadeSample)
        requires
            fade_wf(*old(self)),
        ensures
            (*final(self), s) == fade_out_step(*old(self)),
            fade_wf(*final(self)),
            gain_ok(s),
    {
        if self.fade_pos >= self.fade_len {
            self.phase = FadePhase::Silent;
            self.last_val = 0;
            return FadeSample::Direct(0);
        }
        let num = self.fade_len - self.fade_pos;
        self.fade_pos = self.fade_pos + 1;
        FadeSample::Scaled { sample: self.last_val, num, den: self.fade_len }
    }

    fn apply_fade_in(&mut self, sample: i16) -> (s: FadeSample)
        requires
            fade_wf(*old(self)),
        ensures
            (*final(self), s) == fade_in_step(*old(self), sample),
            fade_wf(*final(self)),
            gain_ok(s),
    {
        if self.fade_pos >= self.fade_len {
            self.phase = FadePhase::Playing;
            self.last_val = sample;
            return FadeSample::Direct(sample);
        }
        let num = self.fade_pos;
        self.fade_pos = self.fade_pos + 1;
        self.last_val = sample;
        FadeSample::Scaled { sample, num, den: self.fade_len }
    }

    /// A real sample is available from the buffer.
    pub fn feed(&mut self, sample: i16) -> (s: FadeSample)
        requires
            fade_wf(*old(self)),
        ensures
            (*final(self), s) == feed_spec(*old(self), sample),
            fade_wf(*final(self)),
            gain_ok(s),
    {
        match self.phase {
            FadePhase::Silent | FadePhase::FadingOut => {
                self.phase = FadePhase::FadingIn;
                self.fade_pos = 0;
                self.apply_fade_in(sample)
            },
            FadePhase::FadingIn => self.apply_fade_in(sample),
            FadePhase::Playing => {
                self.last_val = sample;
                FadeSample::Direct(sample)
            },
        }
    }

    /// The buffer is empty (underrun).
    pub fn drain(&mut self) -> (s: FadeSample)
        requires
            fade_wf(*old(self)),
        ensures
            (*final(self), s) == drain_spec(*old(self)),
            fade_wf(*final(self)),
            gain_ok(s),
    {
        match self.phase {
            FadePhase::Playing => {
                self.phase = FadePhase::FadingOut;
                self.fade_pos = 0;
                self.apply_fade_out()
            },
            FadePhase::FadingOut => self.apply_fade_out(),
            FadePhase::FadingIn | FadePhase::Silent => {
                self.phase = FadePhase::Silent;
                FadeSample::Direct(0)
            },
        }
    }
}

// ---------------------------------------------------------------------------
// Laws
// ---------------------------------------------------------------------------

/// The state after `n` drains.
pub open spec fn drained(f: FadeState, n: nat) -> FadeState
    decreases n,
{
    if n == 0 {
        f
    } else {
        drain_spec(drained(f, (n - 1) as nat)).0
    }
}

/// The state after feeding the samples of `s` in order.
pub open spec fn fed(f: FadeState, s: Seq<i16>) -> FadeState
    decreases s.len(),
{
    if s.len() == 0 {
        f
    } else {
        feed_spec(fed(f, s.drop_last()), s.last()).0
    }
}

/// An underrun while playing ramps the last value down: the `k`-th drain
/// (counting from 0) scales it by `(fade_len - k) / fade_len`, and the
/// drain after `fade_len` steps yields zero and leaves the fade silent.
pub proof fn lemma_fade_out_ramp(f: FadeState, k: nat)
    requires
        fade_wf(f),
        f.phase == FadePhase::Playing,
        k <= f.fade_len,
    ensures
        k < f.fade_len ==> drain_spec(drained(f, k)).1 == (FadeSample::Scaled {
            sample: f.last_val,
            num: (f.fade_len - k) as usize,
            den: f.fade_len,
        }),
        k == f.fade_len ==> drain_spec(drained(f, k)).1 == FadeSample::Direct(0)
            && drained(f, k + 1).phase == FadePhase::Silent,
        k >= 1 ==> drained(f, k) == (FadeState { phase: FadePhase::FadingOut, fade_pos: k as usize, ..f }),
    decreases k,
{
    if k >= 1 {
        lemma_fade_out_ramp(f, (k - 1) as nat);
    }
}

/// Data after an underrun ramps back in: the `k`-th fed sample (counting
/// from 0) is scaled by `k / fade_len`; from the `fade_len`-th on, samples
/// pass unchanged and the fade is playing again.
pub proof fn lemma_fade_in_ramp(f: FadeState, s: Seq<i16>)
    requires
        fade_wf(f),
        f.phase == FadePhase::Silent || f.phase == FadePhase::FadingOut,
        1 <= s.len() <= f.fade_len + 1,
    ensures
        ({
            let k = (s.len() - 1) as nat;
            let before = fed(f, s.drop_last());
            &&& k < f.fade_len ==> feed_spec(before, s.last()).1 == (FadeSample::Scaled {
                sample: s.last(),
                num: k as usize,
                den: f.fade_len,
            })
            &&& k == f.fade_len ==> feed_spec(before, s.last()).1 == FadeSample::Direct(s.last())
                && fed(f, s).phase == FadePhase::Playing
            &&& k < f.fade_len ==> fed(f, s) == (FadeState {
                phase: FadePhase::FadingIn,
                fade_pos: (k + 1) as usize,
                last_val: s.last(),
                ..f
            })
        }),
    decreases s.len(),
{
    if s.len() >= 2 {
        lemma_fade_in_ramp(f, s.drop_last());
        assert(s.drop_last().drop_last() == s.drop_last().drop_last());
    }
}

} // verus!
