//! Server-side scheduling decisions for the active announcement of a group.
//!
//! A scheduled slot assigns one absolute start time to the active intent of a
//! group, tracks the acknowledgements expected from each client session, and
//! keeps the deadline by which the next acknowledgement must arrive.  Nothing
//! here reads a clock: every decision takes the caller's `now_ms`.

use vstd::prelude::*;
use crate::control::announcements::{AnnouncementError, AnnouncementLifecycle};
use crate::text::str_equal;

verus! {

/// Upper bound on how early a client may report `Started`.
pub const MAX_STARTED_SKEW_TOLERANCE_MS: u32 = 250;

/// `x` clamped into the range of `i64`, as a saturating operation gives it.
pub open spec fn clamp_i64(x: int) -> i64 {
    if x > i64::MAX {
        i64::MAX
    } else if x < i64::MIN {
        i64::MIN
    } else {
        x as i64
    }
}

/// Saturating `a + b`.
pub fn saturating_add_i64(a: i64, b: i64) -> (r: i64)
    ensures
        r == clamp_i64(a + b),
{
    if b >= 0 {
        if a > i64::MAX - b {
            i64::MAX
        } else {
            a + b
        }
    } else if a < i64::MIN - b {
        i64::MIN
    } else {
        a + b
    }
}

/// Saturating `a - b`.
pub fn saturating_sub_i64(a: i64, b: i64) -> (r: i64)
    ensures
        r == clamp_i64(a - b),
{
    if b >= 0 {
        if a < i64::MIN + b {
            i64::MIN
        } else {
            a - b
        }
    } else if a > i64::MAX + b {
        i64::MAX
    } else {
        a - b
    }
}

/// Timing parameters of the scheduler.
#[derive(Debug, Clone, Copy, PartialEq, Eq, Structural)]
pub struct SchedulerConfig {
    /// Lead time between dispatch and synchronized start.
    pub start_lead_ms: u32,
    /// Maximum time to wait for each expected client acknowledgement.
    pub ack_timeout_ms: u32,
    /// Bounded allowance for a client's server-clock estimate to report
    /// `Started` just before the authoritative schedule timestamp.
    pub started_skew_tolerance_ms: u32,
}

impl Default for SchedulerConfig {
    fn default() -> (c: Self)
        ensures
            c.start_lead_ms == 250,
            c.ack_timeout_ms == 2000,
            c.started_skew_tolerance_ms == 50,
    {
        SchedulerConfig { start_lead_ms: 250, ack_timeout_ms: 2000, started_skew_tolerance_ms: 50 }
    }
}

/// The start time given to an intent admitted at `now`: the lead time ahead,
/// but before the intent expires, and never in the past.
pub open spec fn schedule_time_spec(now_ms: i64, start_lead_ms: u32, expires_at_ms: i64) -> i64 {
    let lead = clamp_i64(now_ms + start_lead_ms);
    let last = clamp_i64(expires_at_ms - 1);
    let t = if lead <= last { lead } else { last };
    if t >= now_ms { t } else { now_ms }
}

/// A `Started` report at `now_ms` comes earlier than the tolerance allows.
pub open spec fn started_too_early_spec(now_ms: i64, scheduled_at_ms: i64, tolerance_ms: u32) -> bool {
    now_ms < clamp_i64(scheduled_at_ms - tolerance_ms)
}

impl SchedulerConfig {
    /// The configuration with its skew tolerance capped at
    /// [`MAX_STARTED_SKEW_TOLERANCE_MS`]; the scheduler only runs on this form.
    pub fn bounded(self) -> (c: Self)
        ensures
            c.start_lead_ms == self.start_lead_ms,
            c.ack_timeout_ms == self.ack_timeout_ms,
            c.started_skew_tolerance_ms == (if self.started_skew_tolerance_ms
                <= MAX_STARTED_SKEW_TOLERANCE_MS {
                self.started_skew_tolerance_ms
            } else {
                MAX_STARTED_SKEW_TOLERANCE_MS
            }),
            c.started_skew_tolerance_ms <= MAX_STARTED_SKEW_TOLERANCE_MS,
    {
        let tolerance = if self.started_skew_tolerance_ms <= MAX_STARTED_SKEW_TOLERANCE_MS {
            self.started_skew_tolerance_ms
        } else {
            MAX_STARTED_SKEW_TOLERANCE_MS
        };
        SchedulerConfig {
            start_lead_ms: self.start_lead_ms,
            ack_timeout_ms: self.ack_timeout_ms,
            started_skew_tolerance_ms: tolerance,
        }
    }

    /// The absolute start time for an intent that becomes active at `now_ms`.
    pub fn schedule_time(&self, now_ms: i64, expires_at_ms: i64) -> (t: i64)
        ensures
            t == schedule_time_spec(now_ms, self.start_lead_ms, expires_at_ms),
            t >= now_ms,
            clamp_i64(expires_at_ms - 1) >= now_ms ==> t <= clamp_i64(expires_at_ms - 1),
    {
        let lead = saturating_add_i64(now_ms, self.start_lead_ms as i64);
        let last = saturating_sub_i64(expires_at_ms, 1);
        let t = if lead <= last { lead } else { last };
        if t >= now_ms { t } else { now_ms }
    }

    /// Whether a `Started` report at `now_ms` for a start at
    /// `scheduled_at_ms` is earlier than the skew tolerance allows.
    pub fn started_too_early(&self, now_ms: i64, scheduled_at_ms: i64) -> (b: bool)
        ensures
            b == started_too_early_spec(now_ms, scheduled_at_ms, self.started_skew_tolerance_ms),
    {
        now_ms < saturating_sub_i64(scheduled_at_ms, self.started_skew_tolerance_ms as i64)
    }
}

/// Identity of one admitted client session.  The generation prevents a late
/// acknowledgement from an old connection from advancing its replacement.
#[derive(Debug, Clone)]
pub struct AnnouncementClient {
    pub client_id: String,
    pub generation: u64,
}

/// What one client session has acknowledged of the scheduled announcement.
#[derive(Debug, Clone, Copy)]
pub struct ClientAcknowledgements {
    pub generation: u64,
    pub scheduled: bool,
    pub started: bool,
    pub terminal: Option<AnnouncementLifecycle>,
}

/// Nothing acknowledged yet by the session of `generation`.
pub open spec fn fresh_acks(generation: u64) -> ClientAcknowledgements {
    ClientAcknowledgements { generation, scheduled: false, started: false, terminal: None }
}

/// The acknowledgements after the session reports `lifecycle`.  Every report
/// implies `Scheduled`; `Started` implies it too; the first terminal report
/// is kept and later ones are ignored.
pub open spec fn record_spec(
    a: ClientAcknowledgements,
    lifecycle: AnnouncementLifecycle,
) -> ClientAcknowledgements {
    match lifecycle {
        AnnouncementLifecycle::Scheduled => ClientAcknowledgements { scheduled: true, ..a },
        AnnouncementLifecycle::Started => ClientAcknowledgements {
            scheduled: true,
            started: true,
            ..a
        },
        _ => ClientAcknowledgements {
            scheduled: true,
            terminal: if a.terminal is None { Some(lifecycle) } else { a.terminal },
            ..a
        },
    }
}

impl ClientAcknowledgements {
    pub fn new(generation: u64) -> (a: Self)
        ensures
            a == fresh_acks(generation),
    {
        ClientAcknowledgements { generation, scheduled: false, started: false, terminal: None }
    }

    /// Records one report of the session.
    pub fn record(&mut self, lifecycle: AnnouncementLifecycle)
        ensures
            *final(self) == record_spec(*old(self), lifecycle),
    {
        match lifecycle {
            AnnouncementLifecycle::Scheduled => {
                self.scheduled = true;
            },
            AnnouncementLifecycle::Started => {
                self.scheduled = true;
                self.started = true;
            },
            _ => {
                self.scheduled = true;
                if self.terminal.is_none() {
                    self.terminal = Some(lifecycle);
                }
            },
        }
    }
}

/// A terminal report repeated by a client (a retry) changes nothing more.
pub proof fn lemma_repeated_report_is_idempotent(
    a: ClientAcknowledgements,
    lifecycle: AnnouncementLifecycle,
)
    ensures
        record_spec(record_spec(a, lifecycle), lifecycle) == record_spec(a, lifecycle),
{
}

/// The outcome of a group from its clients' terminal reports: any failure
/// fails it, otherwise any cancellation cancels it, otherwise it completed.
pub open spec fn aggregate_spec(ls: Seq<AnnouncementLifecycle>) -> AnnouncementLifecycle {
    if exists|i: int| 0 <= i < ls.len() && ls[i] is Failed {
        AnnouncementLifecycle::Failed
    } else if exists|i: int| 0 <= i < ls.len() && ls[i] is Cancelled {
        AnnouncementLifecycle::Cancelled
    } else {
        AnnouncementLifecycle::Completed
    }
}

/// Combines the terminal reports of a group's clients.
pub fn aggregate_terminal(ls: &Vec<AnnouncementLifecycle>) -> (r: AnnouncementLifecycle)
    ensures
        r == aggregate_spec(ls@),
{
    let mut failed = false;
    let mut cancelled = false;
    let mut i: usize = 0;
    while i < ls.len()
        invariant
            0 <= i <= ls@.len(),
            failed == (exists|j: int| 0 <= j < i && ls@[j] is Failed),
            cancelled == (exists|j: int| 0 <= j < i && ls@[j] is Cancelled),
        decreases ls@.len() - i,
    {
        match ls[i] {
            AnnouncementLifecycle::Failed => {
                failed = true;
            },
            AnnouncementLifecycle::Cancelled => {
                cancelled = true;
            },
            _ => {},
        }
        i = i + 1;
    }
    if failed {
        AnnouncementLifecycle::Failed
    } else if cancelled {
        AnnouncementLifecycle::Cancelled
    } else {
        AnnouncementLifecycle::Completed
    }
}


/// Client id and session generation of each listed member, in order.
pub open spec fn members_spec(cs: Seq<AnnouncementClient>) -> Seq<(Seq<char>, u64)> {
    cs.map_values(|c: AnnouncementClient| (c.client_id@, c.generation))
}

pub open spec fn is_member(ms: Seq<(Seq<char>, u64)>, id: Seq<char>) -> bool {
    exists|j: int| 0 <= j < ms.len() && #[trigger] ms[j].0 == id
}

/// The generation of the last listed session of client `id`: a client listed
/// twice counts once, with its later session.
pub open spec fn last_generation(ms: Seq<(Seq<char>, u64)>, id: Seq<char>) -> u64
    decreases ms.len(),
{
    if ms.len() == 0 {
        0
    } else if ms.last().0 == id {
        ms.last().1
    } else {
        last_generation(ms.drop_last(), id)
    }
}

/// Expected acknowledgements keyed by client id.
pub open spec fn entries_view(v: Seq<(String, ClientAcknowledgements)>) -> Seq<(Seq<char>, ClientAcknowledgements)> {
    v.map_values(|e: (String, ClientAcknowledgements)| (e.0@, e.1))
}

pub open spec fn entry_ids_distinct(s: Seq<(Seq<char>, ClientAcknowledgements)>) -> bool {
    forall|i: int, j: int| 0 <= i < s.len() && 0 <= j < s.len() && i != j ==> s[i].0 != s[j].0
}

pub open spec fn find_entry(s: Seq<(Seq<char>, ClientAcknowledgements)>, id: Seq<char>) -> Option<int> {
    if exists|i: int| 0 <= i < s.len() && #[trigger] s[i].0 == id {
        Some(choose|i: int| 0 <= i < s.len() && #[trigger] s[i].0 == id)
    } else {
        None
    }
}

/// What a membership change keeps of a client's acknowledgements: those of
/// the same session, never those of an earlier generation.
pub open spec fn carried(
    prev: Seq<(Seq<char>, ClientAcknowledgements)>,
    id: Seq<char>,
    generation: u64,
) -> ClientAcknowledgements {
    match find_entry(prev, id) {
        Some(k) => if prev[k].1.generation == generation {
            prev[k].1
        } else {
            fresh_acks(generation)
        },
        None => fresh_acks(generation),
    }
}

/// `r` expects exactly the members `ms`, each with what `prev` carries over.
pub open spec fn reconciled(
    r: Seq<(Seq<char>, ClientAcknowledgements)>,
    prev: Seq<(Seq<char>, ClientAcknowledgements)>,
    ms: Seq<(Seq<char>, u64)>,
) -> bool {
    &&& entry_ids_distinct(r)
    &&& forall|i: int|
        0 <= i < r.len() ==> is_member(ms, #[trigger] r[i].0) && r[i].1 == carried(
            prev,
            r[i].0,
            last_generation(ms, r[i].0),
        )
    &&& forall|j: int| 0 <= j < ms.len() ==> find_entry(r, #[trigger] ms[j].0) is Some
}

/// The expected sessions are exactly the members `ms`.
pub open spec fn same_members(
    expected: Seq<(Seq<char>, ClientAcknowledgements)>,
    ms: Seq<(Seq<char>, u64)>,
) -> bool {
    &&& forall|k: int|
        0 <= k < expected.len() ==> is_member(ms, #[trigger] expected[k].0)
            && expected[k].1.generation == last_generation(ms, expected[k].0)
    &&& forall|j: int| 0 <= j < ms.len() ==> find_entry(expected, #[trigger] ms[j].0) is Some
}

proof fn lemma_members_push(pre: Seq<(Seq<char>, u64)>, m: (Seq<char>, u64))
    ensures
        forall|id: Seq<char>| is_member(pre, id) ==> is_member(pre.push(m), id),
        is_member(pre.push(m), m.0),
        forall|id: Seq<char>|
            #[trigger] last_generation(pre.push(m), id) == (if id == m.0 {
                m.1
            } else {
                last_generation(pre, id)
            }),
{
    let p = pre.push(m);
    assert(p.drop_last() =~= pre);
    assert forall|id: Seq<char>| is_member(pre, id) implies is_member(p, id) by {
        let k = choose|j: int| 0 <= j < pre.len() && #[trigger] pre[j].0 == id;
        assert(p[k] == pre[k]);
    }
    assert(p[pre.len() as int] == m);
}

proof fn lemma_find_entry_at(s: Seq<(Seq<char>, ClientAcknowledgements)>, k: int)
    requires
        entry_ids_distinct(s),
        0 <= k < s.len(),
    ensures
        find_entry(s, s[k].0) == Some(k),
{
    assert(s[k].0 == s[k].0);
}

pub open spec fn listed(d: Seq<(String, u64)>, id: Seq<char>) -> bool {
    exists|i: int| 0 <= i < d.len() && #[trigger] d[i].0@ == id
}

/// The members listed in `cs`, each client once with its last session.
fn dedup_members(cs: &Vec<AnnouncementClient>) -> (d: Vec<(String, u64)>)
    ensures
        forall|i: int, j: int|
            0 <= i < d@.len() && 0 <= j < d@.len() && i != j ==> d@[i].0@ != d@[j].0@,
        forall|i: int|
            0 <= i < d@.len() ==> is_member(members_spec(cs@), #[trigger] d@[i].0@) && d@[i].1
                == last_generation(members_spec(cs@), d@[i].0@),
        forall|j: int|
            0 <= j < cs@.len() ==> listed(d@, #[trigger] cs@[j].client_id@),
{
    let ghost ms = members_spec(cs@);
    let mut d: Vec<(String, u64)> = Vec::new();
    let mut j: usize = 0;
    while j < cs.len()
        invariant
            0 <= j <= cs@.len(),
            ms == members_spec(cs@),
            forall|a: int, b: int|
                0 <= a < d@.len() && 0 <= b < d@.len() && a != b ==> d@[a].0@ != d@[b].0@,
            forall|i: int|
                0 <= i < d@.len() ==> is_member(ms.subrange(0, j as int), #[trigger] d@[i].0@)
                    && d@[i].1 == last_generation(ms.subrange(0, j as int), d@[i].0@),
            forall|jj: int|
                0 <= jj < j ==> listed(d@, #[trigger] cs@[jj].client_id@),
        decreases cs@.len() - j,
    {
        let ghost pre = ms.subrange(0, j as int);
        let ghost m = ms[j as int];
        proof {
            assert(ms.subrange(0, j as int + 1) =~= pre.push(m));
            assert(m == (cs@[j as int].client_id@, cs@[j as int].generation));
            lemma_members_push(pre, m);
        }
        let ghost old_d = d@;
        let c = &cs[j];
        let mut pos: Option<usize> = None;
        let mut i: usize = 0;
        while i < d.len()
            invariant
                0 <= i <= d@.len(),
                pos is None ==> forall|a: int| 0 <= a < i ==> d@[a].0@ != c.client_id@,
                pos matches Some(p) ==> p < d@.len() && d@[p as int].0@ == c.client_id@,
            decreases d@.len() - i,
        {
            if pos.is_none() && str_equal(d[i].0.as_str(), c.client_id.as_str()) {
                pos = Some(i);
            }
            i = i + 1;
        }
        let entry = (c.client_id.clone(), c.generation);
        match pos {
            Some(p) => {
                d.set(p, entry);
                proof {
                    assert forall|jj: int| 0 <= jj < j + 1 implies listed(d@, #[trigger] cs@[jj].client_id@) by {
                        if jj == j {
                            assert(d@[p as int].0@ == cs@[jj].client_id@);
                        } else {
                            assert(listed(old_d, cs@[jj].client_id@));
                            let w = choose|i: int|
                                0 <= i < old_d.len() && #[trigger] old_d[i].0@ == cs@[jj].client_id@;
                            assert(d@[w].0@ == cs@[jj].client_id@);
                        }
                    }
                }
            },
            None => {
                d.push(entry);
                proof {
                    assert forall|jj: int| 0 <= jj < j + 1 implies listed(d@, #[trigger] cs@[jj].client_id@) by {
                        if jj == j {
                            assert(d@[old_d.len() as int].0@ == cs@[jj].client_id@);
                        } else {
                            assert(listed(old_d, cs@[jj].client_id@));
                            let w = choose|i: int|
                                0 <= i < old_d.len() && #[trigger] old_d[i].0@ == cs@[jj].client_id@;
                            assert(d@[w].0@ == cs@[jj].client_id@);
                        }
                    }
                }
            },
        }
        j = j + 1;
    }
    proof {
        assert(ms.subrange(0, cs@.len() as int) =~= ms);
    }
    d
}

/// Position of the entry of client `id`.
fn entry_position(e: &Vec<(String, ClientAcknowledgements)>, id: &str) -> (r: Option<usize>)
    ensures
        match r {
            Some(k) => k < e@.len() && e@[k as int].0@ == id@,
            None => forall|k: int| 0 <= k < e@.len() ==> e@[k].0@ != id@,
        },
{
    let mut k: usize = 0;
    while k < e.len()
        invariant
            0 <= k <= e@.len(),
            forall|a: int| 0 <= a < k ==> e@[a].0@ != id@,
        decreases e@.len() - k,
    {
        if str_equal(e[k].0.as_str(), id) {
            return Some(k);
        }
        k = k + 1;
    }
    None
}

/// Position of member `id`.
fn member_position(d: &Vec<(String, u64)>, id: &str) -> (r: Option<usize>)
    ensures
        match r {
            Some(k) => k < d@.len() && d@[k as int].0@ == id@,
            None => forall|k: int| 0 <= k < d@.len() ==> d@[k].0@ != id@,
        },
{
    let mut k: usize = 0;
    while k < d.len()
        invariant
            0 <= k <= d@.len(),
            forall|a: int| 0 <= a < k ==> d@[a].0@ != id@,
        decreases d@.len() - k,
    {
        if str_equal(d[k].0.as_str(), id) {
            return Some(k);
        }
        k = k + 1;
    }
    None
}

/// The expected acknowledgements of the members `d`, carried over from `prev`.
fn carry_over(prev: &Vec<(String, ClientAcknowledgements)>, d: &Vec<(String, u64)>) -> (r: Vec<
    (String, ClientAcknowledgements),
>)
    requires
        entry_ids_distinct(entries_view(prev@)),
    ensures
        r@.len() == d@.len(),
        forall|i: int|
            0 <= i < d@.len() ==> (#[trigger] r@[i]).0@ == d@[i].0@ && r@[i].1 == carried(
                entries_view(prev@),
                d@[i].0@,
                d@[i].1,
            ),
{
    let ghost pv = entries_view(prev@);
    let mut r: Vec<(String, ClientAcknowledgements)> = Vec::new();
    let mut i: usize = 0;
    while i < d.len()
        invariant
            0 <= i <= d@.len(),
            pv == entries_view(prev@),
            entry_ids_distinct(pv),
            r@.len() == i,
            forall|a: int|
                0 <= a < i ==> (#[trigger] r@[a]).0@ == d@[a].0@ && r@[a].1 == carried(
                    pv,
                    d@[a].0@,
                    d@[a].1,
                ),
        decreases d@.len() - i,
    {
        let generation = d[i].1;
        let acks = match entry_position(prev, d[i].0.as_str()) {
            Some(k) => {
                proof {
                    assert(pv[k as int].0 == d@[i as int].0@);
                    lemma_find_entry_at(pv, k as int);
                }
                if prev[k].1.generation == generation {
                    prev[k].1
                } else {
                    ClientAcknowledgements::new(generation)
                }
            },
            None => {
                proof {
                    assert forall|k: int| 0 <= k < pv.len() implies #[trigger] pv[k].0 != d@[i as int].0@ by {
                        assert(pv[k].0 == prev@[k].0@);
                    }
                }
                ClientAcknowledgements::new(generation)
            },
        };
        r.push((d[i].0.clone(), acks));
        i = i + 1;
    }
    r
}


/// The schedule of the active announcement of one group.
pub struct ScheduledSlot {
    announcement_id: String,
    scheduled_at_ms: i64,
    max_duration_ms: u32,
    ack_deadline_ms: i64,
    expected_clients: Vec<(String, ClientAcknowledgements)>,
}

pub ghost struct SlotView {
    pub announcement_id: Seq<char>,
    pub scheduled_at_ms: i64,
    pub max_duration_ms: u32,
    pub ack_deadline_ms: i64,
    pub expected: Seq<(Seq<char>, ClientAcknowledgements)>,
}

impl View for ScheduledSlot {
    type V = SlotView;

    closed spec fn view(&self) -> SlotView {
        SlotView {
            announcement_id: self.announcement_id@,
            scheduled_at_ms: self.scheduled_at_ms,
            max_duration_ms: self.max_duration_ms,
            ack_deadline_ms: self.ack_deadline_ms,
            expected: entries_view(self.expected_clients@),
        }
    }
}

pub open spec fn mark_scheduled(a: ClientAcknowledgements) -> ClientAcknowledgements {
    ClientAcknowledgements { scheduled: true, ..a }
}

/// What the group's acknowledgements call for next.
#[derive(Debug, Clone, Copy, PartialEq, Eq, Structural)]
pub enum AckStep {
    /// Keep waiting for acknowledgements.
    Wait,
    /// Every expected client started: the group has started.
    Start,
    /// Every expected client reported a terminal lifecycle: settle the group
    /// with their combined outcome.
    Settle(AnnouncementLifecycle),
}

pub open spec fn all_scheduled(e: Seq<(Seq<char>, ClientAcknowledgements)>) -> bool {
    forall|k: int| 0 <= k < e.len() ==> (#[trigger] e[k]).1.scheduled
}

pub open spec fn all_started(e: Seq<(Seq<char>, ClientAcknowledgements)>) -> bool {
    forall|k: int| 0 <= k < e.len() ==> (#[trigger] e[k]).1.started
}

pub open spec fn all_terminal(e: Seq<(Seq<char>, ClientAcknowledgements)>) -> bool {
    forall|k: int| 0 <= k < e.len() ==> (#[trigger] e[k]).1.terminal is Some
}

/// The terminal reports of the expected clients.
pub open spec fn terminals(e: Seq<(Seq<char>, ClientAcknowledgements)>) -> Seq<AnnouncementLifecycle> {
    e.map_values(|x: (Seq<char>, ClientAcknowledgements)| x.1.terminal.unwrap())
}

/// Deadline once the group has started: the intent's whole duration plus
/// one acknowledgement timeout after the scheduled start.
pub open spec fn started_deadline(v: SlotView, ack_timeout_ms: u32) -> i64 {
    clamp_i64(clamp_i64(v.scheduled_at_ms + v.max_duration_ms) + ack_timeout_ms)
}

pub open spec fn max_i64(a: i64, b: i64) -> i64 {
    if a >= b { a } else { b }
}

pub open spec fn with_expected(v: SlotView, e: Seq<(Seq<char>, ClientAcknowledgements)>) -> SlotView {
    SlotView { expected: e, ..v }
}

pub open spec fn with_deadline(v: SlotView, d: i64) -> SlotView {
    SlotView { ack_deadline_ms: d, ..v }
}

impl ScheduledSlot {
    pub closed spec fn wf(&self) -> bool {
        entry_ids_distinct(self@.expected)
    }

    proof fn lemma_view_len(&self)
        ensures
            self@.expected.len() == self.expected_clients@.len(),
            forall|k: int|
                0 <= k < self.expected_clients@.len() ==> #[trigger] self@.expected[k] == (
                self.expected_clients@[k].0@,
                self.expected_clients@[k].1,
            ),
    {
    }

    /// Schedules announcement `announcement_id`, which became active at
    /// `now_ms`, for the group whose members are `members`.
    pub fn new(
        announcement_id: String,
        expires_at_ms: i64,
        max_duration_ms: u32,
        members: &Vec<AnnouncementClient>,
        now_ms: i64,
        config: SchedulerConfig,
    ) -> (s: Self)
        ensures
            s.wf(),
            s@.announcement_id == announcement_id@,
            s@.scheduled_at_ms == schedule_time_spec(now_ms, config.start_lead_ms, expires_at_ms),
            s@.max_duration_ms == max_duration_ms,
            s@.ack_deadline_ms == clamp_i64(now_ms + config.ack_timeout_ms),
            reconciled(s@.expected, Seq::empty(), members_spec(members@)),
    {
        let scheduled_at_ms = config.schedule_time(now_ms, expires_at_ms);
        let deadline = saturating_add_i64(now_ms, config.ack_timeout_ms as i64);
        let d = dedup_members(members);
        let none: Vec<(String, ClientAcknowledgements)> = Vec::new();
        proof {
            assert(entries_view(none@) =~= Seq::<(Seq<char>, ClientAcknowledgements)>::empty());
        }
        let expected = carry_over(&none, &d);
        let s = ScheduledSlot {
            announcement_id,
            scheduled_at_ms,
            max_duration_ms,
            ack_deadline_ms: deadline,
            expected_clients: expected,
        };
        proof {
            s.lemma_view_len();
            lemma_reconciled(s@.expected, Seq::empty(), members@, d@);
        }
        s
    }

    pub fn announcement_id(&self) -> (r: &str)
        ensures
            r@ == self@.announcement_id,
    {
        self.announcement_id.as_str()
    }

    pub fn scheduled_at_ms(&self) -> (r: i64)
        ensures
            r == self@.scheduled_at_ms,
    {
        self.scheduled_at_ms
    }

    pub fn max_duration_ms(&self) -> (r: u32)
        ensures
            r == self@.max_duration_ms,
    {
        self.max_duration_ms
    }

    pub fn ack_deadline_ms(&self) -> (r: i64)
        ensures
            r == self@.ack_deadline_ms,
    {
        self.ack_deadline_ms
    }

    /// Number of client sessions whose acknowledgements are expected.
    pub fn expected_count(&self) -> (n: usize)
        ensures
            n == self@.expected.len(),
    {
        proof {
            self.lemma_view_len();
        }
        self.expected_clients.len()
    }

    /// The acknowledgements of client `client_id`, if it is expected.
    pub fn acknowledgements(&self, client_id: &str) -> (r: Option<ClientAcknowledgements>)
        requires
            self.wf(),
        ensures
            r == (match find_entry(self@.expected, client_id@) {
                Some(k) => Some(self@.expected[k].1),
                None => None::<ClientAcknowledgements>,
            }),
    {
        proof {
            self.lemma_view_len();
        }
        match entry_position(&self.expected_clients, client_id) {
            Some(k) => {
                proof {
                    lemma_find_entry_at(self@.expected, k as int);
                }
                Some(self.expected_clients[k].1)
            },
            None => {
                proof {
                    assert forall|k: int| 0 <= k < self@.expected.len() implies #[trigger] self@.expected[k].0
                        != client_id@ by {
                        assert(self@.expected[k].0 == self.expected_clients@[k].0@);
                    }
                }
                None
            },
        }
    }

    /// Replaces the expected sessions with the group's current `members`.
    /// Returns `false`, changing nothing, when they are the sessions already
    /// expected: an unchanged membership never extends the deadline.
    /// Otherwise each member keeps the acknowledgements of its same session
    /// only, and the deadline is extended to one timeout after `now_ms`.
    pub fn reconcile(
        &mut self,
        members: &Vec<AnnouncementClient>,
        now_ms: i64,
        config: SchedulerConfig,
    ) -> (changed: bool)
        requires
            old(self).wf(),
        ensures
            final(self).wf(),
            changed == !same_members(old(self)@.expected, members_spec(members@)),
            !changed ==> final(self)@ == old(self)@,
            changed ==> final(self)@ == with_deadline(
                with_expected(old(self)@, final(self)@.expected),
                max_i64(old(self)@.ack_deadline_ms, clamp_i64(now_ms + config.ack_timeout_ms)),
            ),
            changed ==> reconciled(final(self)@.expected, old(self)@.expected, members_spec(members@)),
    {
        proof {
            self.lemma_view_len();
        }
        let ghost ev = self@.expected;
        let ghost ms = members_spec(members@);
        let d = dedup_members(members);
        // Every member is expected with the same session ...
        let mut members_expected = true;
        let mut i: usize = 0;
        while i < d.len()
            invariant
                0 <= i <= d@.len(),
                ev == entries_view(self.expected_clients@),
                entry_ids_distinct(ev),
                members_expected == forall|a: int|
                    0 <= a < i ==> has_session(ev, #[trigger] d@[a].0@, d@[a].1),
            decreases d@.len() - i,
        {
            let found = match entry_position(&self.expected_clients, d[i].0.as_str()) {
                Some(k) => {
                    proof {
                        assert(ev[k as int].0 == d@[i as int].0@);
                        lemma_find_entry_at(ev, k as int);
                    }
                    self.expected_clients[k].1.generation == d[i].1
                },
                None => {
                    proof {
                        assert forall|k: int| 0 <= k < ev.len() implies #[trigger] ev[k].0 != d@[i as int].0@ by {
                            assert(ev[k].0 == self.expected_clients@[k].0@);
                        }
                    }
                    false
                },
            };
            proof {
                assert(found == has_session(ev, d@[i as int].0@, d@[i as int].1));
            }
            members_expected = members_expected && found;
            i = i + 1;
        }
        // ... and every expected session is a member.
        let mut expected_members = true;
        let mut k: usize = 0;
        while k < self.expected_clients.len()
            invariant
                0 <= k <= ev.len(),
                ev == entries_view(self.expected_clients@),
                expected_members == forall|a: int| 0 <= a < k ==> listed(d@, #[trigger] ev[a].0),
            decreases ev.len() - k,
        {
            let found = match member_position(&d, self.expected_clients[k].0.as_str()) {
                Some(b) => {
                    proof {
                        assert(d@[b as int].0@ == ev[k as int].0);
                    }
                    true
                },
                None => false,
            };
            proof {
                assert(ev[k as int].0 == self.expected_clients@[k as int].0@);
                assert(found == listed(d@, ev[k as int].0));
            }
            expected_members = expected_members && found;
            k = k + 1;
        }
        proof {
            lemma_same_members_check(ev, members@, d@);
        }
        if members_expected && expected_members {
            return false;
        }
        let expected = carry_over(&self.expected_clients, &d);
        self.expected_clients = expected;
        let extended = saturating_add_i64(now_ms, config.ack_timeout_ms as i64);
        if extended > self.ack_deadline_ms {
            self.ack_deadline_ms = extended;
        }
        proof {
            self.lemma_view_len();
            lemma_reconciled(self@.expected, ev, members@, d@);
        }
        true
    }

    /// Records one acknowledgement of announcement `id` from the session
    /// `client`.  A report for another announcement is refused.  One from a
    /// client that is not expected, or from another session of it, changes
    /// nothing and returns `Ok(false)`: a late frame from a replaced
    /// connection can never advance its replacement.  `Started` earlier than
    /// the skew tolerance before the scheduled start is refused.
    pub fn acknowledge_client(
        &mut self,
        id: &str,
        client: &AnnouncementClient,
        lifecycle: AnnouncementLifecycle,
        now_ms: i64,
        config: SchedulerConfig,
    ) -> (r: Result<bool, AnnouncementError>)
        requires
            old(self).wf(),
        ensures
            final(self).wf(),
            old(self)@.announcement_id != id@ ==> r == Err::<bool, AnnouncementError>(
                AnnouncementError::InvalidLifecycle,
            ) && final(self)@ == old(self)@,
            old(self)@.announcement_id == id@ ==> match find_entry(
                old(self)@.expected,
                client.client_id@,
            ) {
                None => r == Ok::<bool, AnnouncementError>(false) && final(self)@ == old(self)@,
                Some(k) => if old(self)@.expected[k].1.generation != client.generation {
                    r == Ok::<bool, AnnouncementError>(false) && final(self)@ == old(self)@
                } else if lifecycle is Started && started_too_early_spec(
                    now_ms,
                    old(self)@.scheduled_at_ms,
                    config.started_skew_tolerance_ms,
                ) {
                    r == Err::<bool, AnnouncementError>(AnnouncementError::InvalidLifecycle)
                        && final(self)@ == old(self)@
                } else {
                    r == Ok::<bool, AnnouncementError>(true) && final(self)@ == with_expected(
                        old(self)@,
                        old(self)@.expected.update(
                            k,
                            (client.client_id@, record_spec(old(self)@.expected[k].1, lifecycle)),
                        ),
                    )
                },
            },
    {
        proof {
            self.lemma_view_len();
        }
        let ghost ev = self@.expected;
        if !str_equal(self.announcement_id.as_str(), id) {
            return Err(AnnouncementError::InvalidLifecycle);
        }
        let k = match entry_position(&self.expected_clients, client.client_id.as_str()) {
            Some(k) => k,
            None => {
                proof {
                    assert forall|j: int| 0 <= j < ev.len() implies #[trigger] ev[j].0 != client.client_id@ by {
                        assert(ev[j].0 == self.expected_clients@[j].0@);
                    }
                }
                return Ok(false);
            },
        };
        proof {
            lemma_find_entry_at(ev, k as int);
        }
        if self.expected_clients[k].1.generation != client.generation {
            return Ok(false);
        }
        if lifecycle == AnnouncementLifecycle::Started && config.started_too_early(
            now_ms,
            self.scheduled_at_ms,
        ) {
            return Err(AnnouncementError::InvalidLifecycle);
        }
        let mut acks = self.expected_clients[k].1;
        acks.record(lifecycle);
        let name = self.expected_clients[k].0.clone();
        self.expected_clients.set(k, (name, acks));
        proof {
            self.lemma_view_len();
            assert(self@.expected =~= ev.update(
                k as int,
                (client.client_id@, record_spec(ev[k as int].1, lifecycle)),
            ));
        }
        Ok(true)
    }

    /// A `Scheduled` acknowledgement of announcement `id` on behalf of the
    /// whole group: every expected session counts as scheduled, and the
    /// deadline becomes one timeout after the scheduled start.
    pub fn acknowledge_scheduled(&mut self, id: &str, config: SchedulerConfig) -> (r: Result<(), AnnouncementError>)
        requires
            old(self).wf(),
        ensures
            final(self).wf(),
            old(self)@.announcement_id != id@ ==> r == Err::<(), AnnouncementError>(
                AnnouncementError::InvalidLifecycle,
            ) && final(self)@ == old(self)@,
            old(self)@.announcement_id == id@ ==> r == Ok::<(), AnnouncementError>(())
                && final(self)@.announcement_id == old(self)@.announcement_id
                && final(self)@.scheduled_at_ms == old(self)@.scheduled_at_ms
                && final(self)@.max_duration_ms == old(self)@.max_duration_ms
                && final(self)@.ack_deadline_ms == clamp_i64(
                old(self)@.scheduled_at_ms + config.ack_timeout_ms,
            ) && final(self)@.expected.len() == old(self)@.expected.len() && forall|k: int|
                0 <= k < old(self)@.expected.len() ==> #[trigger] final(self)@.expected[k] == (
                    old(self)@.expected[k].0,
                    mark_scheduled(old(self)@.expected[k].1),
                ),
    {
        proof {
            self.lemma_view_len();
        }
        let ghost ev = self@.expected;
        if !str_equal(self.announcement_id.as_str(), id) {
            return Err(AnnouncementError::InvalidLifecycle);
        }
        let mut k: usize = 0;
        while k < self.expected_clients.len()
            invariant
                0 <= k <= ev.len(),
                self.announcement_id == old(self).announcement_id,
                self.scheduled_at_ms == old(self).scheduled_at_ms,
                self.max_duration_ms == old(self).max_duration_ms,
                self.expected_clients@.len() == ev.len(),
                forall|j: int|
                    0 <= j < ev.len() ==> (#[trigger] self.expected_clients@[j]).0@ == ev[j].0,
                forall|j: int|
                    0 <= j < k ==> (#[trigger] self.expected_clients@[j]).1 == mark_scheduled(ev[j].1),
                forall|j: int|
                    k <= j < ev.len() ==> (#[trigger] self.expected_clients@[j]).1 == ev[j].1,
            decreases ev.len() - k,
        {
            let mut acks = self.expected_clients[k].1;
            acks.scheduled = true;
            let name = self.expected_clients[k].0.clone();
            self.expected_clients.set(k, (name, acks));
            k = k + 1;
        }
        self.ack_deadline_ms = saturating_add_i64(self.scheduled_at_ms, config.ack_timeout_ms as i64);
        proof {
            self.lemma_view_len();
            assert forall|i: int, j: int|
                0 <= i < self@.expected.len() && 0 <= j < self@.expected.len() && i != j implies self@.expected[i].0
                != self@.expected[j].0 by {
                assert(self@.expected[i].0 == ev[i].0);
                assert(self@.expected[j].0 == ev[j].0);
            }
            assert forall|j: int| 0 <= j < ev.len() implies #[trigger] self@.expected[j] == (
                ev[j].0,
                mark_scheduled(ev[j].1),
            ) by {
                assert(self.expected_clients@[j].0@ == ev[j].0);
                assert(self.expected_clients@[j].1 == mark_scheduled(ev[j].1));
            }
        }
        Ok(())
    }

    /// Whether the group may be told that announcement `id` started at
    /// `now_ms`: it must be this slot's announcement, and no earlier than the
    /// skew tolerance before the scheduled start.
    pub fn check_started(&self, id: &str, now_ms: i64, config: SchedulerConfig) -> (r: Result<(), AnnouncementError>)
        ensures
            r is Ok <==> (self@.announcement_id == id@ && !started_too_early_spec(
                now_ms,
                self@.scheduled_at_ms,
                config.started_skew_tolerance_ms,
            )),
            r is Err ==> r == Err::<(), AnnouncementError>(AnnouncementError::InvalidLifecycle),
    {
        if !str_equal(self.announcement_id.as_str(), id) {
            return Err(AnnouncementError::InvalidLifecycle);
        }
        if config.started_too_early(now_ms, self.scheduled_at_ms) {
            return Err(AnnouncementError::InvalidLifecycle);
        }
        Ok(())
    }

    /// Once the group has started, the next acknowledgement is due after the
    /// intent's whole duration.
    pub fn note_started(&mut self, config: SchedulerConfig)
        ensures
            final(self)@ == with_deadline(old(self)@, started_deadline(old(self)@, config.ack_timeout_ms)),
            final(self).wf() == old(self).wf(),
    {
        let end = saturating_add_i64(self.scheduled_at_ms, self.max_duration_ms as i64);
        self.ack_deadline_ms = saturating_add_i64(end, config.ack_timeout_ms as i64);
    }

    /// Decides what the expected sessions' acknowledgements call for.  With
    /// nobody expected, wait.  Once every session reported a terminal
    /// lifecycle, settle the group with their combined outcome.  Otherwise,
    /// once all are scheduled the deadline is at least one timeout after the
    /// scheduled start; and once all started while the group is still
    /// scheduled, the group starts and the deadline covers the whole intent.
    /// No single session can settle or start a group on behalf of others.
    pub fn advance(&mut self, group_is_scheduled: bool, config: SchedulerConfig) -> (step: AckStep)
        requires
            old(self).wf(),
        ensures
            final(self).wf(),
            ({
                let v = old(self)@;
                let e = v.expected;
                let after_scheduled = if all_scheduled(e) {
                    max_i64(v.ack_deadline_ms, clamp_i64(v.scheduled_at_ms + config.ack_timeout_ms))
                } else {
                    v.ack_deadline_ms
                };
                if e.len() == 0 {
                    step == AckStep::Wait && final(self)@ == v
                } else if all_terminal(e) {
                    step == AckStep::Settle(aggregate_spec(terminals(e))) && final(self)@ == v
                } else if all_started(e) && group_is_scheduled {
                    step == AckStep::Start && final(self)@ == with_deadline(
                        v,
                        started_deadline(v, config.ack_timeout_ms),
                    )
                } else {
                    step == AckStep::Wait && final(self)@ == with_deadline(v, after_scheduled)
                }
            }),
    {
        proof {
            self.lemma_view_len();
        }
        let ghost e = self@.expected;
        let n = self.expected_clients.len();
        if n == 0 {
            return AckStep::Wait;
        }
        let mut scheduled = true;
        let mut started = true;
        let mut terminal = true;
        let mut outcomes: Vec<AnnouncementLifecycle> = Vec::new();
        let mut k: usize = 0;
        while k < n
            invariant
                0 <= k <= n,
                n == e.len(),
                e == entries_view(self.expected_clients@),
                scheduled == forall|j: int| 0 <= j < k ==> (#[trigger] e[j]).1.scheduled,
                started == forall|j: int| 0 <= j < k ==> (#[trigger] e[j]).1.started,
                terminal == forall|j: int| 0 <= j < k ==> (#[trigger] e[j]).1.terminal is Some,
                terminal ==> outcomes@ =~= terminals(e).subrange(0, k as int),
            decreases n - k,
        {
            let acks = self.expected_clients[k].1;
            proof {
                assert(e[k as int].1 == acks);
            }
            scheduled = scheduled && acks.scheduled;
            started = started && acks.started;
            match acks.terminal {
                Some(l) => {
                    if terminal {
                        outcomes.push(l);
                    }
                },
                None => {
                    terminal = false;
                },
            }
            k = k + 1;
        }
        if terminal {
            proof {
                assert(terminals(e).subrange(0, n as int) =~= terminals(e));
            }
            return AckStep::Settle(aggregate_terminal(&outcomes));
        }
        if scheduled {
            let due = saturating_add_i64(self.scheduled_at_ms, config.ack_timeout_ms as i64);
            if due > self.ack_deadline_ms {
                self.ack_deadline_ms = due;
            }
        }
        if started && group_is_scheduled {
            self.note_started(config);
            return AckStep::Start;
        }
        AckStep::Wait
    }

    /// Whether the acknowledgement deadline has passed at `now_ms`.
    pub fn timed_out(&self, now_ms: i64) -> (b: bool)
        ensures
            b == (self@.ack_deadline_ms <= now_ms),
    {
        self.ack_deadline_ms <= now_ms
    }
}

/// The members `d` deduplicated from `cs`, carried over from `prev`, make a
/// reconciled expectation.
proof fn lemma_reconciled(
    r: Seq<(Seq<char>, ClientAcknowledgements)>,
    prev: Seq<(Seq<char>, ClientAcknowledgements)>,
    cs: Seq<AnnouncementClient>,
    d: Seq<(String, u64)>,
)
    requires
        r.len() == d.len(),
        forall|i: int, j: int| 0 <= i < d.len() && 0 <= j < d.len() && i != j ==> d[i].0@ != d[j].0@,
        forall|i: int|
            0 <= i < d.len() ==> is_member(members_spec(cs), #[trigger] d[i].0@) && d[i].1
                == last_generation(members_spec(cs), d[i].0@),
        forall|j: int| 0 <= j < cs.len() ==> listed(d, #[trigger] cs[j].client_id@),
        forall|i: int|
            0 <= i < d.len() ==> (#[trigger] r[i]).0 == d[i].0@ && r[i].1 == carried(prev, d[i].0@, d[i].1),
    ensures
        reconciled(r, prev, members_spec(cs)),
{
    let ms = members_spec(cs);
    assert forall|i: int, j: int| 0 <= i < r.len() && 0 <= j < r.len() && i != j implies r[i].0 != r[j].0 by {
        assert(r[i].0 == d[i].0@);
        assert(r[j].0 == d[j].0@);
    }
    assert forall|i: int| 0 <= i < r.len() implies is_member(ms, #[trigger] r[i].0) && r[i].1 == carried(
        prev,
        r[i].0,
        last_generation(ms, r[i].0),
    ) by {
        assert(d[i].0@ == r[i].0);
    }
    assert forall|j: int| 0 <= j < ms.len() implies find_entry(r, #[trigger] ms[j].0) is Some by {
        assert(ms[j].0 == cs[j].client_id@);
        assert(listed(d, cs[j].client_id@));
        let w = choose|i: int| 0 <= i < d.len() && #[trigger] d[i].0@ == cs[j].client_id@;
        assert(r[w].0 == ms[j].0);
    }
}


/// Client `id` is expected with the session of `generation`.
pub open spec fn has_session(ev: Seq<(Seq<char>, ClientAcknowledgements)>, id: Seq<char>, generation: u64) -> bool {
    match find_entry(ev, id) {
        Some(k) => ev[k].1.generation == generation,
        None => false,
    }
}

/// Comparing the deduplicated members with the expected sessions both ways
/// decides whether the membership is unchanged.
proof fn lemma_same_members_check(
    ev: Seq<(Seq<char>, ClientAcknowledgements)>,
    cs: Seq<AnnouncementClient>,
    d: Seq<(String, u64)>,
)
    requires
        entry_ids_distinct(ev),
        forall|i: int|
            0 <= i < d.len() ==> is_member(members_spec(cs), #[trigger] d[i].0@) && d[i].1
                == last_generation(members_spec(cs), d[i].0@),
        forall|j: int| 0 <= j < cs.len() ==> listed(d, #[trigger] cs[j].client_id@),
    ensures
        ((forall|a: int| 0 <= a < d.len() ==> has_session(ev, #[trigger] d[a].0@, d[a].1))
            && (forall|a: int| 0 <= a < ev.len() ==> listed(d, #[trigger] ev[a].0)))
            == same_members(ev, members_spec(cs)),
{
    let ms = members_spec(cs);
    if (forall|a: int| 0 <= a < d.len() ==> has_session(ev, #[trigger] d[a].0@, d[a].1))
        && (forall|a: int| 0 <= a < ev.len() ==> listed(d, #[trigger] ev[a].0)) {
        assert forall|k: int| 0 <= k < ev.len() implies is_member(ms, #[trigger] ev[k].0)
            && ev[k].1.generation == last_generation(ms, ev[k].0) by {
            assert(listed(d, ev[k].0));
            let b = choose|i: int| 0 <= i < d.len() && #[trigger] d[i].0@ == ev[k].0;
            assert(has_session(ev, d[b].0@, d[b].1));
            lemma_find_entry_at(ev, k);
        }
        assert forall|j: int| 0 <= j < ms.len() implies find_entry(ev, #[trigger] ms[j].0) is Some by {
            assert(ms[j].0 == cs[j].client_id@);
            assert(listed(d, cs[j].client_id@));
            let b = choose|i: int| 0 <= i < d.len() && #[trigger] d[i].0@ == cs[j].client_id@;
            assert(has_session(ev, d[b].0@, d[b].1));
        }
    }
    if same_members(ev, ms) {
        assert forall|a: int| 0 <= a < d.len() implies has_session(ev, #[trigger] d[a].0@, d[a].1) by {
            assert(is_member(ms, d[a].0@));
            let j = choose|j: int| 0 <= j < ms.len() && #[trigger] ms[j].0 == d[a].0@;
            assert(find_entry(ev, ms[j].0) is Some);
            let k = find_entry(ev, ms[j].0).unwrap();
            assert(ev[k].0 == d[a].0@);
        }
        assert forall|a: int| 0 <= a < ev.len() implies listed(d, #[trigger] ev[a].0) by {
            assert(is_member(ms, ev[a].0));
            let j = choose|j: int| 0 <= j < ms.len() && #[trigger] ms[j].0 == ev[a].0;
            assert(ms[j].0 == cs[j].client_id@);
            assert(listed(d, cs[j].client_id@));
        }
    }
}

} // verus!
