//! Rolling percentiles of absolute playout error, over a bounded window of
//! the most recent samples.

use vstd::prelude::*;
use vstd::relations::{sorted_by, total_ordering};
use vstd::seq_lib::{lemma_sorted_unique, to_multiset_build, to_multiset_insert};
use std::collections::VecDeque;

verus! {

/// Default window size.
pub const DEFAULT_CAPACITY: usize = 1024;

pub open spec fn u32_leq() -> spec_fn(u32, u32) -> bool {
    |a: u32, b: u32| a <= b
}

/// The samples in ascending order.
pub open spec fn sorted_samples(s: Seq<u32>) -> Seq<u32> {
    s.sort_by(u32_leq())
}

/// `(p50, p95, p99)` of `s`: the elements of the sorted samples at
/// `last * q / 100` for the last index `last`; zeros when empty.
pub open spec fn percentiles_spec(s: Seq<u32>) -> (u32, u32, u32) {
    if s.len() == 0 {
        (0, 0, 0)
    } else {
        let t = sorted_samples(s);
        let last = s.len() - 1;
        (t[last * 50 / 100], t[last * 95 / 100], t[last * 99 / 100])
    }
}

/// The magnitude of a signed error, capped at `u32::MAX`.
pub open spec fn abs_capped(e: i64) -> u32 {
    let m = if e < 0 { -(e as int) } else { e as int };
    if m > u32::MAX { u32::MAX } else { m as u32 }
}

pub proof fn lemma_u32_leq_total()
    ensures
        total_ordering(u32_leq()),
{
}

proof fn lemma_insert_sorted(v: Seq<u32>, k: int, x: u32)
    requires
        sorted_by(v, u32_leq()),
        0 <= k <= v.len(),
        forall|j: int| 0 <= j < k ==> v[j] <= x,
        forall|j: int| k <= j < v.len() ==> v[j] > x,
    ensures
        sorted_by(v.insert(k, x), u32_leq()),
{
    let r = v.insert(k, x);
    assert forall|i: int, j: int| 0 <= i < j < r.len() implies #[trigger] u32_leq()(r[i], r[j]) by {
        if i < k && j < k {
            assert(u32_leq()(v[i], v[j]));
        } else if i < k && j == k {
        } else if i < k {
            assert(u32_leq()(v[i], v[j - 1]));
        } else if i == k {
        } else {
            assert(u32_leq()(v[i - 1], v[j - 1]));
        }
    }
}

/// Ascending copy of `s` by insertion.
fn sorted_copy(s: &VecDeque<u32>) -> (v: Vec<u32>)
    ensures
        v@ == sorted_samples(s@),
{
    let mut v: Vec<u32> = Vec::new();
    let n = s.len();
    let mut i: usize = 0;
    assert(v@ =~= s@.take(0));
    while i < n
        invariant
            n == s@.len(),
            0 <= i <= n,
            sorted_by(v@, u32_leq()),
            v@.to_multiset() == s@.take(i as int).to_multiset(),
        decreases n - i,
    {
        let x = s[i];
        let mut k: usize = 0;
        while k < v.len() && v[k] <= x
            invariant
                0 <= k <= v@.len(),
                forall|j: int| 0 <= j < k ==> v@[j] <= x,
            decreases v@.len() - k,
        {
            k = k + 1;
        }
        proof {
            assert forall|j: int| k <= j < v@.len() implies v@[j] > x by {
                if k < v@.len() {
                    assert(u32_leq()(v@[k as int], v@[j]) || k == j);
                }
            }
            lemma_insert_sorted(v@, k as int, x);
            to_multiset_insert(v@, k as int, x);
            assert(s@.take(i + 1) =~= s@.take(i as int).push(x));
            to_multiset_build(s@.take(i as int), x);
        }
        v.insert(k, x);
        i = i + 1;
    }
    proof {
        assert(s@.take(n as int) =~= s@);
        lemma_u32_leq_total();
        s@.lemma_sort_by_ensures(u32_leq());
        lemma_sorted_unique(v@, s@.sort_by(u32_leq()), u32_leq());
    }
    v
}

/// Records absolute playout errors in microseconds and reports p50/p95/p99.
#[derive(Debug)]
pub struct PlayoutErrorTracker {
    samples: VecDeque<u32>,
    capacity: usize,
}

impl PlayoutErrorTracker {
    /// The window is at least one sample and never overfull.
    pub open spec fn wf(&self) -> bool {
        1 <= self.window() && self.samples().len() <= self.window()
    }

    /// The recorded samples, oldest first.
    pub closed spec fn samples(&self) -> Seq<u32> {
        self.samples@
    }

    /// Window size.
    pub closed spec fn window(&self) -> nat {
        self.capacity as nat
    }

    /// A tracker keeping the last `capacity` samples (at least one).
    pub fn new(capacity: usize) -> (t: Self)
        ensures
            t.wf(),
            t.samples() == Seq::<u32>::empty(),
            t.window() == if capacity < 1 { 1 } else { capacity },
    {
        let cap = if capacity < 1 { 1 } else { capacity };
        PlayoutErrorTracker { samples: VecDeque::with_capacity(cap), capacity: cap }
    }

    /// Record the magnitude of one error, evicting the oldest sample when
    /// the window is full.
    pub fn record(&mut self, signed_error_us: i64)
        requires
            old(self).wf(),
        ensures
            final(self).wf(),
            final(self).window() == old(self).window(),
            final(self).samples() == if old(self).samples().len() == old(self).window() {
                old(self).samples().drop_first().push(abs_capped(signed_error_us))
            } else {
                old(self).samples().push(abs_capped(signed_error_us))
            },
            final(self).samples().len() <= final(self).window(),
    {
        let m: u64 = if signed_error_us < 0 {
            (-(signed_error_us as i128)) as u64
        } else {
            signed_error_us as u64
        };
        let abs_us: u32 = if m > u32::MAX as u64 { u32::MAX } else { m as u32 };
        if self.samples.len() == self.capacity {
            self.samples.pop_front();
        }
        self.samples.push_back(abs_us);
    }

    /// `(p50, p95, p99)` of the recorded samples; zeros when empty.
    pub fn percentiles(&self) -> (p: (u32, u32, u32))
        requires
            self.samples().len() <= usize::MAX / 100,
        ensures
            p == percentiles_spec(self.samples()),
    {
        if self.samples.len() == 0 {
            return (0, 0, 0);
        }
        let sorted = sorted_copy(&self.samples);
        proof {
            lemma_u32_leq_total();
            self.samples@.lemma_sort_by_ensures(u32_leq());
            assert(sorted@.to_multiset().len() == self.samples@.to_multiset().len());
            sorted@.to_multiset_ensures();
            self.samples@.to_multiset_ensures();
        }
        let last = sorted.len() - 1;
        assert(last * 99 / 100 <= last) by (nonlinear_arith)
            requires
                last >= 0,
        ;
        assert(last * 95 / 100 <= last) by (nonlinear_arith)
            requires
                last >= 0,
        ;
        assert(last * 50 / 100 <= last) by (nonlinear_arith)
            requires
                last >= 0,
        ;
        (sorted[last * 50 / 100], sorted[last * 95 / 100], sorted[last * 99 / 100])
    }

    pub fn len(&self) -> (n: usize)
        ensures
            n == self.samples().len(),
    {
        self.samples.len()
    }

    pub fn is_empty(&self) -> (b: bool)
        ensures
            b == (self.samples().len() == 0),
    {
        self.samples.len() == 0
    }

    /// Forget every sample.
    pub fn clear(&mut self)
        requires
            old(self).wf(),
        ensures
            final(self).wf(),
            final(self).samples() == Seq::<u32>::empty(),
            final(self).window() == old(self).window(),
    {
        self.samples.clear();
    }
}

impl Default for PlayoutErrorTracker {
    fn default() -> (t: Self)
        ensures
            t.wf(),
            t.samples() == Seq::<u32>::empty(),
            t.window() == DEFAULT_CAPACITY,
    {
        PlayoutErrorTracker::new(DEFAULT_CAPACITY)
    }
}

/// The window never holds more than its capacity: recording into a full
/// window keeps its length.
pub proof fn lemma_record_keeps_window(s: Seq<u32>, cap: nat, x: u32)
    requires
        1 <= cap,
        s.len() <= cap,
    ensures
        (if s.len() == cap { s.drop_first().push(x) } else { s.push(x) }).len() <= cap,
{
}

/// The percentiles are ordered: `p50 <= p95 <= p99`.
pub proof fn lemma_percentiles_ordered(s: Seq<u32>)
    ensures
        percentiles_spec(s).0 <= percentiles_spec(s).1 <= percentiles_spec(s).2,
{
    if s.len() > 0 {
        lemma_u32_leq_total();
        s.lemma_sort_by_ensures(u32_leq());
        let t = sorted_samples(s);
        let last = s.len() - 1;
        assert(t.len() == s.len()) by {
            t.to_multiset_ensures();
            s.to_multiset_ensures();
        }
        assert(last * 50 / 100 <= last * 95 / 100 <= last * 99 / 100 <= last) by (nonlinear_arith)
            requires
                last >= 0,
        ;
        let a = last * 50 / 100;
        let b = last * 95 / 100;
        let c = last * 99 / 100;
        if a < b {
            assert(u32_leq()(t[a], t[b]));
        }
        if b < c {
            assert(u32_leq()(t[b], t[c]));
        }
    }
}

} // verus!
