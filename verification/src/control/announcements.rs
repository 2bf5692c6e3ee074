//! Bounded, idempotent announcement intent admission and arbitration.
//!
//! This is control-plane only: it stores metadata and lifecycle transitions,
//! never announcement audio.  Every operation is specified as a transition of
//! an abstract [`CoordinatorView`]: the groups' queues and the records in the
//! order they were admitted.

use vstd::prelude::*;
use vstd::string::StrSliceExecFns;
use vstd::utf8::encode_utf8;
use crate::text::{str_equal, starts_with_chars, decimal, decimal_string};
use crate::ids::{new_uuid_v4, uuid_v4_text};

verus! {

broadcast use {vstd::utf8::encode_utf8_decode_utf8};

pub const ANNOUNCEMENT_INTENT_VERSION: u8 = 1;

pub const MAX_ANNOUNCEMENT_SOURCE_BYTES: usize = 2048;

/// Priority of an announcement; later variants outrank earlier ones.
#[derive(Debug, Clone, Copy, PartialEq, Eq, Structural, PartialOrd, Ord)]
pub enum AnnouncementPriority {
    Music,
    Chime,
    Announcement,
    Emergency,
}

impl AnnouncementPriority {
    pub open spec fn rank_spec(self) -> u8 {
        match self {
            AnnouncementPriority::Music => 0,
            AnnouncementPriority::Chime => 1,
            AnnouncementPriority::Announcement => 2,
            AnnouncementPriority::Emergency => 3,
        }
    }

    /// Position in the priority order.
    pub fn rank(self) -> (r: u8)
        ensures
            r == self.rank_spec(),
    {
        match self {
            AnnouncementPriority::Music => 0,
            AnnouncementPriority::Chime => 1,
            AnnouncementPriority::Announcement => 2,
            AnnouncementPriority::Emergency => 3,
        }
    }
}

/// What a group plays once an announcement that interrupted it ends.
#[derive(Debug, Clone, Copy, PartialEq, Eq, Structural)]
pub enum ResumePolicy {
    ResumePrevious,
    DoNotResume,
}

/// Where the announcement audio comes from.
#[derive(Debug, Clone)]
pub enum AnnouncementSource {
    Uri(String),
}

/// Ducking of the programme under the announcement.  The attenuation is an
/// IEEE-754 single-precision value in decibels, held by its bit pattern.
#[derive(Debug, Clone, Copy, PartialEq, Eq, Structural)]
pub struct Ducking {
    pub attenuation_db_bits: u32,
    pub attack_ms: u32,
    pub release_ms: u32,
}

/// A request to play an announcement.
#[derive(Debug, Clone)]
pub struct AnnouncementIntent {
    /// Contract version; only version 1 is accepted.
    pub version: u8,
    pub idempotency_key: String,
    pub target_groups: Vec<String>,
    pub priority: AnnouncementPriority,
    pub source: AnnouncementSource,
    pub duck: Ducking,
    pub max_duration_ms: u32,
    /// Absolute Unix timestamp in milliseconds.
    pub expires_at_ms: i64,
    pub resume: ResumePolicy,
}

pub ghost struct IntentView {
    pub version: u8,
    pub idempotency_key: Seq<char>,
    pub target_groups: Seq<Seq<char>>,
    pub priority: AnnouncementPriority,
    pub source: Seq<char>,
    pub duck: Ducking,
    pub max_duration_ms: u32,
    pub expires_at_ms: i64,
    pub resume: ResumePolicy,
}

impl View for AnnouncementIntent {
    type V = IntentView;

    open spec fn view(&self) -> IntentView {
        IntentView {
            version: self.version,
            idempotency_key: self.idempotency_key@,
            target_groups: self.target_groups@.map_values(|g: String| g@),
            priority: self.priority,
            source: match self.source {
                AnnouncementSource::Uri(u) => u@,
            },
            duck: self.duck,
            max_duration_ms: self.max_duration_ms,
            expires_at_ms: self.expires_at_ms,
            resume: self.resume,
        }
    }
}

/// Lifecycle of an announcement, or of one of its target groups.
#[derive(Debug, Clone, Copy, PartialEq, Eq, Structural)]
pub enum AnnouncementLifecycle {
    Scheduled,
    Started,
    Completed,
    Cancelled,
    Failed,
}

impl AnnouncementLifecycle {
    pub open spec fn is_terminal(self) -> bool {
        self is Completed || self is Cancelled || self is Failed
    }

    pub fn terminal(self) -> (r: bool)
        ensures
            r == self.is_terminal(),
    {
        match self {
            AnnouncementLifecycle::Completed => true,
            AnnouncementLifecycle::Cancelled => true,
            AnnouncementLifecycle::Failed => true,
            _ => false,
        }
    }
}

/// Per-group lifecycle of an announcement.
#[derive(Debug, Clone)]
pub struct AnnouncementGroupState {
    pub group_id: String,
    pub lifecycle: AnnouncementLifecycle,
    /// A resume is requested at most once per group, even when a client
    /// retries its terminal acknowledgement.
    pub resume_emitted: bool,
}

pub ghost struct GroupStateView {
    pub group_id: Seq<char>,
    pub lifecycle: AnnouncementLifecycle,
    pub resume_emitted: bool,
}

impl View for AnnouncementGroupState {
    type V = GroupStateView;

    open spec fn view(&self) -> GroupStateView {
        GroupStateView {
            group_id: self.group_id@,
            lifecycle: self.lifecycle,
            resume_emitted: self.resume_emitted,
        }
    }
}

/// An admitted announcement.
#[derive(Debug, Clone)]
pub struct AnnouncementRecord {
    pub id: String,
    pub intent: AnnouncementIntent,
    pub lifecycle: AnnouncementLifecycle,
    pub groups: Vec<AnnouncementGroupState>,
}

pub ghost struct RecordView {
    pub id: Seq<char>,
    pub intent: IntentView,
    pub lifecycle: AnnouncementLifecycle,
    pub groups: Seq<GroupStateView>,
}

impl View for AnnouncementRecord {
    type V = RecordView;

    open spec fn view(&self) -> RecordView {
        RecordView {
            id: self.id@,
            intent: self.intent@,
            lifecycle: self.lifecycle,
            groups: self.groups@.map_values(|g: AnnouncementGroupState| g@),
        }
    }
}

/// A lifecycle change of one group of one announcement.
#[derive(Debug, Clone)]
pub struct AnnouncementTransition {
    pub announcement_id: String,
    pub group_id: String,
    pub lifecycle: AnnouncementLifecycle,
    /// Whether the group should resume what the announcement interrupted.
    pub resume: bool,
}

pub ghost struct TransitionView {
    pub announcement_id: Seq<char>,
    pub group_id: Seq<char>,
    pub lifecycle: AnnouncementLifecycle,
    pub resume: bool,
}

impl View for AnnouncementTransition {
    type V = TransitionView;

    open spec fn view(&self) -> TransitionView {
        TransitionView {
            announcement_id: self.announcement_id@,
            group_id: self.group_id@,
            lifecycle: self.lifecycle,
            resume: self.resume,
        }
    }
}

/// The answer to an admission request.
#[derive(Debug, Clone)]
pub struct AnnouncementAdmission {
    pub id: String,
    pub lifecycle: AnnouncementLifecycle,
    /// Whether the request repeated an earlier one with the same key.
    pub duplicate: bool,
}

/// Bounds enforced at admission.
#[derive(Debug, Clone, Copy, PartialEq, Eq, Structural)]
pub struct AnnouncementLimits {
    pub max_targets_per_intent: usize,
    pub max_queue_depth_per_group: usize,
    pub max_queued_duration_ms_per_group: u64,
    pub max_duration_ms: u32,
    pub max_expiry_ahead_ms: i64,
}

impl Default for AnnouncementLimits {
    fn default() -> (l: Self)
        ensures
            l.max_targets_per_intent == 32,
            l.max_queue_depth_per_group == 16,
            l.max_queued_duration_ms_per_group == 600_000,
            l.max_duration_ms == 120_000,
            l.max_expiry_ahead_ms == 86_400_000,
    {
        AnnouncementLimits {
            max_targets_per_intent: 32,
            max_queue_depth_per_group: 16,
            max_queued_duration_ms_per_group: 10 * 60 * 1000,
            max_duration_ms: 120_000,
            max_expiry_ahead_ms: 24 * 60 * 60 * 1000,
        }
    }
}

/// Why a request was refused.
#[derive(Debug, Clone)]
pub enum AnnouncementError {
    UnsupportedVersion(u8),
    InvalidIdempotencyKey,
    InvalidTargetCount(usize),
    InvalidTargetGroup(String),
    InvalidSource,
    InvalidDuck,
    InvalidDuration(u32),
    InvalidExpiry,
    QueueDepthExceeded(String),
    QueueDurationExceeded(String),
    IdempotencyConflict,
    NotFound(String),
    InvalidLifecycle,
    /// The identifier drawn for a new announcement is already in use.
    IdCollision,
}

pub ghost enum ErrorView {
    UnsupportedVersion(u8),
    InvalidIdempotencyKey,
    InvalidTargetCount(usize),
    InvalidTargetGroup(Seq<char>),
    InvalidSource,
    InvalidDuck,
    InvalidDuration(u32),
    InvalidExpiry,
    QueueDepthExceeded(Seq<char>),
    QueueDurationExceeded(Seq<char>),
    IdempotencyConflict,
    NotFound(Seq<char>),
    InvalidLifecycle,
    IdCollision,
}

impl View for AnnouncementError {
    type V = ErrorView;

    open spec fn view(&self) -> ErrorView {
        match self {
            AnnouncementError::UnsupportedVersion(v) => ErrorView::UnsupportedVersion(*v),
            AnnouncementError::InvalidIdempotencyKey => ErrorView::InvalidIdempotencyKey,
            AnnouncementError::InvalidTargetCount(n) => ErrorView::InvalidTargetCount(*n),
            AnnouncementError::InvalidTargetGroup(g) => ErrorView::InvalidTargetGroup(g@),
            AnnouncementError::InvalidSource => ErrorView::InvalidSource,
            AnnouncementError::InvalidDuck => ErrorView::InvalidDuck,
            AnnouncementError::InvalidDuration(n) => ErrorView::InvalidDuration(*n),
            AnnouncementError::InvalidExpiry => ErrorView::InvalidExpiry,
            AnnouncementError::QueueDepthExceeded(g) => ErrorView::QueueDepthExceeded(g@),
            AnnouncementError::QueueDurationExceeded(g) => ErrorView::QueueDurationExceeded(g@),
            AnnouncementError::IdempotencyConflict => ErrorView::IdempotencyConflict,
            AnnouncementError::NotFound(id) => ErrorView::NotFound(id@),
            AnnouncementError::InvalidLifecycle => ErrorView::InvalidLifecycle,
            AnnouncementError::IdCollision => ErrorView::IdCollision,
        }
    }
}

// ---------------------------------------------------------------------------
// Validation of an intent
// ---------------------------------------------------------------------------

/// `+0.0`, or a negative value no smaller than `-60.0` (bit pattern
/// `0xC270_0000`), as an `f32` bit pattern.  NaN and infinities fall outside.
pub open spec fn attenuation_ok(bits: u32) -> bool {
    bits == 0 || (0x8000_0000 <= bits && bits <= 0xC270_0000)
}

pub open spec fn duck_ok(d: Ducking) -> bool {
    attenuation_ok(d.attenuation_db_bits) && d.attack_ms <= 5000 && d.release_ms <= 5000
}

pub open spec fn has_prefix(s: Seq<char>, p: Seq<char>) -> bool {
    p.len() <= s.len() && s.subrange(0, p.len() as int) == p
}

pub open spec fn source_ok(uri: Seq<char>) -> bool {
    &&& uri.len() > 0
    &&& encode_utf8(uri).len() <= MAX_ANNOUNCEMENT_SOURCE_BYTES
    &&& (has_prefix(uri, seq!['h', 't', 't', 'p', 's', ':', '/', '/'])
        || has_prefix(uri, seq!['h', 't', 't', 'p', ':', '/', '/'])
        || has_prefix(uri, seq!['m', 'e', 'd', 'i', 'a', ':', '/', '/']))
}

/// Index of the first target that is unknown or repeats an earlier target,
/// looking from index `k` on.
pub open spec fn first_bad_target(known: Seq<Seq<char>>, t: Seq<Seq<char>>, k: int) -> Option<int>
    decreases t.len() - k,
{
    if k < 0 || k >= t.len() {
        None
    } else if !known.contains(t[k]) || t.subrange(0, k).contains(t[k]) {
        Some(k)
    } else {
        first_bad_target(known, t, k + 1)
    }
}

/// The refusal that validation gives an intent, in the order the checks run;
/// `None` when the intent is acceptable.
pub open spec fn validation_error(
    limits: AnnouncementLimits,
    known: Seq<Seq<char>>,
    i: IntentView,
    now_ms: i64,
) -> Option<ErrorView> {
    if i.version != ANNOUNCEMENT_INTENT_VERSION {
        Some(ErrorView::UnsupportedVersion(i.version))
    } else if i.idempotency_key.len() == 0 || encode_utf8(i.idempotency_key).len() > 128 {
        Some(ErrorView::InvalidIdempotencyKey)
    } else if i.target_groups.len() == 0 || i.target_groups.len() > limits.max_targets_per_intent {
        Some(ErrorView::InvalidTargetCount(limits.max_targets_per_intent))
    } else if first_bad_target(known, i.target_groups, 0) is Some {
        Some(
            ErrorView::InvalidTargetGroup(
                i.target_groups[first_bad_target(known, i.target_groups, 0)->0],
            ),
        )
    } else if !source_ok(i.source) {
        Some(ErrorView::InvalidSource)
    } else if !duck_ok(i.duck) {
        Some(ErrorView::InvalidDuck)
    } else if i.max_duration_ms == 0 || i.max_duration_ms > limits.max_duration_ms {
        Some(ErrorView::InvalidDuration(limits.max_duration_ms))
    } else if i.expires_at_ms <= now_ms || i.expires_at_ms > now_ms + limits.max_expiry_ahead_ms {
        Some(ErrorView::InvalidExpiry)
    } else {
        None
    }
}

proof fn lemma_first_bad_target_none(known: Seq<Seq<char>>, t: Seq<Seq<char>>, k: int)
    requires
        0 <= k <= t.len(),
        forall|j: int|
            k <= j < t.len() ==> known.contains(#[trigger] t[j]) && !t.subrange(0, j).contains(
                t[j],
            ),
    ensures
        first_bad_target(known, t, k) is None,
    decreases t.len() - k,
{
    if k < t.len() {
        lemma_first_bad_target_none(known, t, k + 1);
    }
}

proof fn lemma_first_bad_target_some(known: Seq<Seq<char>>, t: Seq<Seq<char>>, k: int, m: int)
    requires
        0 <= k <= m < t.len(),
        forall|j: int|
            k <= j < m ==> known.contains(#[trigger] t[j]) && !t.subrange(0, j).contains(t[j]),
        !known.contains(t[m]) || t.subrange(0, m).contains(t[m]),
    ensures
        first_bad_target(known, t, k) == Some(m),
    decreases m - k,
{
    if k < m {
        lemma_first_bad_target_some(known, t, k + 1, m);
    }
}

/// Whether `s` is one of `list`.
fn contains_str(list: &Vec<String>, len: usize, s: &str) -> (r: bool)
    requires
        len <= list@.len(),
    ensures
        r == list@.subrange(0, len as int).map_values(|g: String| g@).contains(s@),
{
    let ghost views = list@.subrange(0, len as int).map_values(|g: String| g@);
    let mut i: usize = 0;
    while i < len
        invariant
            len <= list@.len(),
            0 <= i <= len,
            views == list@.subrange(0, len as int).map_values(|g: String| g@),
            forall|j: int| 0 <= j < i ==> views[j] != s@,
        decreases len - i,
    {
        if str_equal(list[i].as_str(), s) {
            assert(views[i as int] == s@);
            return true;
        }
        i = i + 1;
    }
    proof {
        if views.contains(s@) {
            let j = choose|j: int| 0 <= j < views.len() && views[j] == s@;
            assert(views[j] != s@);
        }
    }
    false
}

fn duck_valid(d: Ducking) -> (r: bool)
    ensures
        r == duck_ok(d),
{
    let b = d.attenuation_db_bits;
    (b == 0 || (0x8000_0000u32 <= b && b <= 0xC270_0000u32)) && d.attack_ms <= 5000
        && d.release_ms <= 5000
}

fn source_valid(uri: &str) -> (r: bool)
    ensures
        r == source_ok(uri@),
{
    let https: [char; 8] = ['h', 't', 't', 'p', 's', ':', '/', '/'];
    let http: [char; 7] = ['h', 't', 't', 'p', ':', '/', '/'];
    let media: [char; 8] = ['m', 'e', 'd', 'i', 'a', ':', '/', '/'];
    assert(https@ == seq!['h', 't', 't', 'p', 's', ':', '/', '/']);
    assert(http@ == seq!['h', 't', 't', 'p', ':', '/', '/']);
    assert(media@ == seq!['m', 'e', 'd', 'i', 'a', ':', '/', '/']);
    if uri.unicode_len() == 0 || uri.as_bytes().len() > MAX_ANNOUNCEMENT_SOURCE_BYTES {
        return false;
    }
    starts_with_chars(uri, &https) || starts_with_chars(uri, &http) || starts_with_chars(
        uri,
        &media,
    )
}

/// Checks `intent` against the limits and the known groups.
fn validate_intent(
    limits: AnnouncementLimits,
    known: &Vec<String>,
    intent: &AnnouncementIntent,
    now_ms: i64,
) -> (r: Result<(), AnnouncementError>)
    ensures
        match r {
            Ok(()) => validation_error(
                limits,
                known@.map_values(|g: String| g@),
                intent@,
                now_ms,
            ) is None,
            Err(e) => validation_error(limits, known@.map_values(|g: String| g@), intent@, now_ms)
                == Some(e@),
        },
{
    let ghost kv = known@.map_values(|g: String| g@);
    let ghost iv = intent@;
    if intent.version != ANNOUNCEMENT_INTENT_VERSION {
        return Err(AnnouncementError::UnsupportedVersion(intent.version));
    }
    let key = intent.idempotency_key.as_str();
    if key.unicode_len() == 0 || key.as_bytes().len() > 128 {
        return Err(AnnouncementError::InvalidIdempotencyKey);
    }
    let n = intent.target_groups.len();
    if n == 0 || n > limits.max_targets_per_intent {
        return Err(AnnouncementError::InvalidTargetCount(limits.max_targets_per_intent));
    }
    let mut k: usize = 0;
    while k < n
        invariant
            n == intent.target_groups@.len(),
            iv == intent@,
            iv.version == ANNOUNCEMENT_INTENT_VERSION,
            !(iv.idempotency_key.len() == 0 || encode_utf8(iv.idempotency_key).len() > 128),
            !(n == 0 || n > limits.max_targets_per_intent),
            kv == known@.map_values(|g: String| g@),
            0 <= k <= n,
            forall|j: int|
                0 <= j < k ==> kv.contains(#[trigger] iv.target_groups[j])
                    && !iv.target_groups.subrange(0, j).contains(iv.target_groups[j]),
        decreases n - k,
    {
        let g = intent.target_groups[k].as_str();
        let is_known = contains_str(known, known.len(), g);
        let repeated = contains_str(&intent.target_groups, k, g);
        proof {
            assert(known@.subrange(0, known@.len() as int) == known@);
            assert(intent.target_groups@.subrange(0, k as int).map_values(|s: String| s@)
                == iv.target_groups.subrange(0, k as int));
        }
        if !is_known || repeated {
            let bad = intent.target_groups[k].clone();
            proof {
                assert(iv.target_groups[k as int] == g@);
                lemma_first_bad_target_some(kv, iv.target_groups, 0, k as int);
                assert(bad@ == iv.target_groups[k as int]);
            }
            return Err(AnnouncementError::InvalidTargetGroup(bad));
        }
        k = k + 1;
    }
    proof {
        lemma_first_bad_target_none(kv, iv.target_groups, 0);
    }
    let uri = match &intent.source {
        AnnouncementSource::Uri(u) => u.as_str(),
    };
    if !source_valid(uri) {
        return Err(AnnouncementError::InvalidSource);
    }
    if !duck_valid(intent.duck) {
        return Err(AnnouncementError::InvalidDuck);
    }
    if intent.max_duration_ms == 0 || intent.max_duration_ms > limits.max_duration_ms {
        return Err(AnnouncementError::InvalidDuration(limits.max_duration_ms));
    }
    let ahead = now_ms as i128 + limits.max_expiry_ahead_ms as i128;
    if intent.expires_at_ms <= now_ms || intent.expires_at_ms as i128 > ahead {
        return Err(AnnouncementError::InvalidExpiry);
    }
    Ok(())
}

// ---------------------------------------------------------------------------
// The abstract coordinator and its transitions
// ---------------------------------------------------------------------------

/// One group's arbitration state: the announcement playing, those waiting
/// in order, and the total maximum duration of those waiting.
pub ghost struct QueueView {
    pub group_id: Seq<char>,
    pub active: Option<Seq<char>>,
    pub queued: Seq<Seq<char>>,
    pub queued_duration_ms: nat,
}

/// The whole coordinator: its limits, one queue per known group and every
/// admitted record in admission order.
pub ghost struct CoordinatorView {
    pub limits: AnnouncementLimits,
    pub queues: Seq<QueueView>,
    pub records: Seq<RecordView>,
}

/// The lifecycle of an announcement given those of its groups: started when
/// any group started; once every group is terminal, failed if any failed,
/// else cancelled if any was cancelled, else completed; scheduled otherwise.
pub open spec fn lifecycle_of(groups: Seq<GroupStateView>) -> AnnouncementLifecycle {
    if exists|j: int| 0 <= j < groups.len() && (#[trigger] groups[j]).lifecycle is Started {
        AnnouncementLifecycle::Started
    } else if forall|j: int| 0 <= j < groups.len() ==> (#[trigger] groups[j]).lifecycle.is_terminal() {
        if exists|j: int| 0 <= j < groups.len() && (#[trigger] groups[j]).lifecycle is Failed {
            AnnouncementLifecycle::Failed
        } else if exists|j: int| 0 <= j < groups.len() && (#[trigger] groups[j]).lifecycle is Cancelled {
            AnnouncementLifecycle::Cancelled
        } else {
            AnnouncementLifecycle::Completed
        }
    } else {
        AnnouncementLifecycle::Scheduled
    }
}

pub open spec fn has_record(recs: Seq<RecordView>, id: Seq<char>) -> bool {
    exists|i: int| 0 <= i < recs.len() && (#[trigger] recs[i]).id == id
}

pub open spec fn record_index(recs: Seq<RecordView>, id: Seq<char>) -> int {
    choose|i: int| 0 <= i < recs.len() && (#[trigger] recs[i]).id == id
}

pub open spec fn has_queue(qs: Seq<QueueView>, g: Seq<char>) -> bool {
    exists|i: int| 0 <= i < qs.len() && (#[trigger] qs[i]).group_id == g
}

pub open spec fn queue_index(qs: Seq<QueueView>, g: Seq<char>) -> int {
    choose|i: int| 0 <= i < qs.len() && (#[trigger] qs[i]).group_id == g
}

pub open spec fn has_state(gs: Seq<GroupStateView>, g: Seq<char>) -> bool {
    exists|i: int| 0 <= i < gs.len() && (#[trigger] gs[i]).group_id == g
}

pub open spec fn state_index(gs: Seq<GroupStateView>, g: Seq<char>) -> int {
    choose|i: int| 0 <= i < gs.len() && (#[trigger] gs[i]).group_id == g
}

/// Maximum duration of the announcement `id`.
pub open spec fn duration_of(recs: Seq<RecordView>, id: Seq<char>) -> nat {
    recs[record_index(recs, id)].intent.max_duration_ms as nat
}

/// Total maximum duration of the announcements `ids`.
pub open spec fn load(recs: Seq<RecordView>, ids: Seq<Seq<char>>) -> nat
    decreases ids.len(),
{
    if ids.len() == 0 {
        0
    } else {
        load(recs, ids.drop_last()) + duration_of(recs, ids.last())
    }
}

/// Group `g` of record `ri` becomes `lc`; the group resumes its programme
/// when the announcement was playing there, asks for it, and has not resumed
/// before.  A group it was playing in becomes idle.
pub open spec fn finish_spec(v: CoordinatorView, ri: int, qi: int, lc: AnnouncementLifecycle) -> (
    CoordinatorView,
    TransitionView,
) {
    let r = v.records[ri];
    let q = v.queues[qi];
    let si = state_index(r.groups, q.group_id);
    let s = r.groups[si];
    let was_active = q.active == Some(r.id);
    let resume = was_active && r.intent.resume == ResumePolicy::ResumePrevious
        && !s.resume_emitted;
    let groups = r.groups.update(
        si,
        GroupStateView {
            group_id: s.group_id,
            lifecycle: lc,
            resume_emitted: s.resume_emitted || resume,
        },
    );
    let r2 = RecordView {
        id: r.id,
        intent: r.intent,
        lifecycle: lifecycle_of(groups),
        groups,
    };
    let q2 = if was_active {
        QueueView { group_id: q.group_id, active: None, queued: q.queued, queued_duration_ms: q.queued_duration_ms }
    } else {
        q
    };
    (
        CoordinatorView {
            limits: v.limits,
            queues: v.queues.update(qi, q2),
            records: v.records.update(ri, r2),
        },
        TransitionView { announcement_id: r.id, group_id: q.group_id, lifecycle: lc, resume },
    )
}

/// The first waiting announcement of queue `qi`, if any, starts playing there.
pub open spec fn advance_spec(v: CoordinatorView, qi: int) -> CoordinatorView {
    let q = v.queues[qi];
    if q.queued.len() == 0 {
        v
    } else {
        let next = q.queued[0];
        let d = duration_of(v.records, next);
        let q2 = QueueView {
            group_id: q.group_id,
            active: Some(next),
            queued: q.queued.drop_first(),
            queued_duration_ms: if q.queued_duration_ms >= d { (q.queued_duration_ms - d) as nat } else { 0 },
        };
        CoordinatorView { limits: v.limits, queues: v.queues.update(qi, q2), records: v.records }
    }
}

/// Whether acknowledging `lc` for group `g` of `id` reaches the group's queue.
pub open spec fn ack_touches_queue(v: CoordinatorView, id: Seq<char>, g: Seq<char>, lc: AnnouncementLifecycle) -> bool {
    &&& !(lc is Scheduled)
    &&& has_record(v.records, id)
    &&& has_state(v.records[record_index(v.records, id)].groups, g)
    &&& (lc is Started || !v.records[record_index(v.records, id)].groups[state_index(
        v.records[record_index(v.records, id)].groups,
        g,
    )].lifecycle.is_terminal())
}

/// The outcome of acknowledging lifecycle `lc` of group `g` of `id`.
pub open spec fn ack_spec(v: CoordinatorView, id: Seq<char>, g: Seq<char>, lc: AnnouncementLifecycle) -> (
    CoordinatorView,
    Result<Seq<TransitionView>, ErrorView>,
) {
    if lc is Scheduled {
        (v, Err(ErrorView::InvalidLifecycle))
    } else if !has_record(v.records, id) {
        (v, Err(ErrorView::NotFound(id)))
    } else {
        let ri = record_index(v.records, id);
        let r = v.records[ri];
        if !has_state(r.groups, g) {
            (v, Err(ErrorView::InvalidTargetGroup(g)))
        } else {
            let qi = queue_index(v.queues, g);
            let si = state_index(r.groups, g);
            if lc is Started {
                if v.queues[qi].active != Some(id) {
                    (v, Err(ErrorView::InvalidLifecycle))
                } else if r.groups[si].lifecycle is Scheduled {
                    let groups = r.groups.update(
                        si,
                        GroupStateView {
                            group_id: r.groups[si].group_id,
                            lifecycle: AnnouncementLifecycle::Started,
                            resume_emitted: r.groups[si].resume_emitted,
                        },
                    );
                    let r2 = RecordView { id: r.id, intent: r.intent, lifecycle: lifecycle_of(groups), groups };
                    (
                        CoordinatorView { limits: v.limits, queues: v.queues, records: v.records.update(ri, r2) },
                        Ok(seq![TransitionView { announcement_id: id, group_id: g, lifecycle: lc, resume: false }]),
                    )
                } else {
                    (v, Ok(Seq::empty()))
                }
            } else if r.groups[si].lifecycle.is_terminal() {
                (v, Ok(Seq::empty()))
            } else {
                let (v1, t) = finish_spec(v, ri, qi, lc);
                (advance_spec(v1, qi), Ok(seq![t]))
            }
        }
    }
}

/// The groups of `gs` whose lifecycle is not yet terminal, in order.
pub open spec fn open_groups(gs: Seq<GroupStateView>) -> Seq<Seq<char>>
    decreases gs.len(),
{
    if gs.len() == 0 {
        Seq::empty()
    } else if gs.last().lifecycle.is_terminal() {
        open_groups(gs.drop_last())
    } else {
        open_groups(gs.drop_last()).push(gs.last().group_id)
    }
}

/// Cancelling `id` in group `g`: it leaves the group's waiting line (the
/// waiting duration is recounted), its group lifecycle becomes cancelled, and
/// an idle group starts its next waiting announcement.
pub open spec fn cancel_group_spec(v: CoordinatorView, id: Seq<char>, g: Seq<char>) -> (
    CoordinatorView,
    TransitionView,
) {
    let ri = record_index(v.records, id);
    let qi = queue_index(v.queues, g);
    let q = v.queues[qi];
    let v1 = if q.queued.contains(id) {
        let rest = q.queued.remove(q.queued.index_of(id));
        CoordinatorView {
            limits: v.limits,
            queues: v.queues.update(
                qi,
                QueueView { group_id: q.group_id, active: q.active, queued: rest, queued_duration_ms: load(v.records, rest) },
            ),
            records: v.records,
        }
    } else {
        v
    };
    let (v2, t) = finish_spec(v1, ri, qi, AnnouncementLifecycle::Cancelled);
    let v3 = if v2.queues[qi].active is None { advance_spec(v2, qi) } else { v2 };
    (v3, t)
}

/// Cancelling `id` in the first `k` groups of `gs`, in order.
pub open spec fn cancel_groups_spec(v: CoordinatorView, id: Seq<char>, gs: Seq<Seq<char>>, k: int) -> (
    CoordinatorView,
    Seq<TransitionView>,
)
    decreases k,
{
    if k <= 0 {
        (v, Seq::empty())
    } else {
        let (v1, ts) = cancel_groups_spec(v, id, gs, k - 1);
        let (v2, t) = cancel_group_spec(v1, id, gs[k - 1]);
        (v2, ts.push(t))
    }
}

/// Cancelling `id` in every group where it is not yet terminal.
pub open spec fn cancel_spec(v: CoordinatorView, id: Seq<char>) -> (
    CoordinatorView,
    Result<Seq<TransitionView>, ErrorView>,
) {
    if !has_record(v.records, id) {
        (v, Err(ErrorView::NotFound(id)))
    } else {
        let gs = open_groups(v.records[record_index(v.records, id)].groups);
        let (v2, ts) = cancel_groups_spec(v, id, gs, gs.len() as int);
        (v2, Ok(ts))
    }
}

/// Whether an announcement is still open in some group.
pub open spec fn is_open(r: RecordView) -> bool {
    exists|j: int| 0 <= j < r.groups.len() && !(#[trigger] r.groups[j]).lifecycle.is_terminal()
}

/// Identifiers of the records among `recs` that expired by `now_ms` and are
/// still open, in admission order.
pub open spec fn expired_ids(recs: Seq<RecordView>, now_ms: i64) -> Seq<Seq<char>>
    decreases recs.len(),
{
    if recs.len() == 0 {
        Seq::empty()
    } else if recs.last().intent.expires_at_ms <= now_ms && is_open(recs.last()) {
        expired_ids(recs.drop_last(), now_ms).push(recs.last().id)
    } else {
        expired_ids(recs.drop_last(), now_ms)
    }
}

/// Cancelling the first `k` of `ids` in order, collecting the transitions.
pub open spec fn cancel_all_spec(v: CoordinatorView, ids: Seq<Seq<char>>, k: int) -> (
    CoordinatorView,
    Seq<TransitionView>,
)
    decreases k,
{
    if k <= 0 {
        (v, Seq::empty())
    } else {
        let (v1, ts) = cancel_all_spec(v, ids, k - 1);
        let (v2, r) = cancel_spec(v1, ids[k - 1]);
        match r {
            Ok(more) => (v2, ts + more),
            Err(_) => (v2, ts),
        }
    }
}

/// Expiry cancels every open announcement whose deadline has passed.
pub open spec fn expire_spec(v: CoordinatorView, now_ms: i64) -> (CoordinatorView, Seq<TransitionView>) {
    let ids = expired_ids(v.records, now_ms);
    cancel_all_spec(v, ids, ids.len() as int)
}

pub open spec fn f32_is_nan(b: u32) -> bool {
    (b & 0x7f80_0000) == 0x7f80_0000 && (b & 0x007f_ffff) != 0
}

/// IEEE-754 equality of two `f32` values given by their bit patterns: NaN
/// equals nothing and the two zeros are equal.
pub open spec fn f32_eq(a: u32, b: u32) -> bool {
    !f32_is_nan(a) && !f32_is_nan(b) && (a == b || ((a == 0 || a == 0x8000_0000) && (b == 0
        || b == 0x8000_0000)))
}

/// Whether two intents are equal field by field, the attenuation compared as
/// a floating-point number.
pub open spec fn same_intent(a: IntentView, b: IntentView) -> bool {
    &&& a.version == b.version
    &&& a.idempotency_key == b.idempotency_key
    &&& a.target_groups == b.target_groups
    &&& a.priority == b.priority
    &&& a.source == b.source
    &&& f32_eq(a.duck.attenuation_db_bits, b.duck.attenuation_db_bits)
    &&& a.duck.attack_ms == b.duck.attack_ms
    &&& a.duck.release_ms == b.duck.release_ms
    &&& a.max_duration_ms == b.max_duration_ms
    &&& a.expires_at_ms == b.expires_at_ms
    &&& a.resume == b.resume
}

pub open spec fn has_key(recs: Seq<RecordView>, key: Seq<char>) -> bool {
    exists|i: int| 0 <= i < recs.len() && (#[trigger] recs[i]).intent.idempotency_key == key
}

pub open spec fn key_index(recs: Seq<RecordView>, key: Seq<char>) -> int {
    choose|i: int| 0 <= i < recs.len() && (#[trigger] recs[i]).intent.idempotency_key == key
}

/// Whether the announcement playing in `q` ranks below the intent `i`.
pub open spec fn interrupts(recs: Seq<RecordView>, i: IntentView, q: QueueView) -> bool {
    &&& q.active is Some
    &&& recs[record_index(recs, q.active->0)].intent.priority.rank_spec() < i.priority.rank_spec()
}

/// The refusal for group `g` when `i` would have to wait there and there is
/// no room.
pub open spec fn slot_error(v: CoordinatorView, i: IntentView, g: Seq<char>) -> Option<ErrorView> {
    let q = v.queues[queue_index(v.queues, g)];
    if interrupts(v.records, i, q) {
        None
    } else if q.queued.len() >= v.limits.max_queue_depth_per_group {
        Some(ErrorView::QueueDepthExceeded(g))
    } else if q.queued_duration_ms + i.max_duration_ms > v.limits.max_queued_duration_ms_per_group {
        Some(ErrorView::QueueDurationExceeded(g))
    } else {
        None
    }
}

/// The refusal of the first target group, from index `k` on, without room.
pub open spec fn capacity_error(v: CoordinatorView, i: IntentView, k: int) -> Option<ErrorView>
    decreases i.target_groups.len() - k,
{
    if k < 0 || k >= i.target_groups.len() {
        None
    } else if slot_error(v, i, i.target_groups[k]) is Some {
        slot_error(v, i, i.target_groups[k])
    } else {
        capacity_error(v, i, k + 1)
    }
}

/// The record of a newly admitted intent.
pub open spec fn new_record(i: IntentView, id: Seq<char>) -> RecordView {
    RecordView {
        id,
        intent: i,
        lifecycle: AnnouncementLifecycle::Scheduled,
        groups: i.target_groups.map_values(
            |g: Seq<char>|
                GroupStateView {
                    group_id: g,
                    lifecycle: AnnouncementLifecycle::Scheduled,
                    resume_emitted: false,
                },
        ),
    }
}

/// Placing the new announcement `id` of intent `i` in group `g`: when it
/// outranks what plays there, that announcement is cancelled in `g` and the
/// new one plays; it also plays when nothing does; otherwise it waits at the
/// end of the line and its maximum duration joins the group's budget.
pub open spec fn place_step(v: CoordinatorView, i: IntentView, id: Seq<char>, g: Seq<char>) -> CoordinatorView {
    let qi = queue_index(v.queues, g);
    let q = v.queues[qi];
    if interrupts(v.records, i, q) {
        let f = finish_spec(v, record_index(v.records, q.active->0), qi, AnnouncementLifecycle::Cancelled).0;
        let fq = f.queues[qi];
        CoordinatorView {
            limits: f.limits,
            queues: f.queues.update(
                qi,
                QueueView { group_id: fq.group_id, active: Some(id), queued: fq.queued, queued_duration_ms: fq.queued_duration_ms },
            ),
            records: f.records,
        }
    } else if q.active is None {
        CoordinatorView {
            limits: v.limits,
            queues: v.queues.update(
                qi,
                QueueView { group_id: q.group_id, active: Some(id), queued: q.queued, queued_duration_ms: q.queued_duration_ms },
            ),
            records: v.records,
        }
    } else {
        CoordinatorView {
            limits: v.limits,
            queues: v.queues.update(
                qi,
                QueueView {
                    group_id: q.group_id,
                    active: q.active,
                    queued: q.queued.push(id),
                    queued_duration_ms: q.queued_duration_ms + i.max_duration_ms as nat,
                },
            ),
            records: v.records,
        }
    }
}

/// Placing the new announcement in the first `k` groups of `gs`, in order.
pub open spec fn place_seq(v: CoordinatorView, i: IntentView, id: Seq<char>, gs: Seq<Seq<char>>, k: int) -> CoordinatorView
    decreases k,
{
    if k <= 0 {
        v
    } else {
        place_step(place_seq(v, i, id, gs, k - 1), i, id, gs[k - 1])
    }
}

/// The outcome of admitting intent `i` at `now_ms`, `id` being the identifier
/// drawn for a new announcement.  The answer is the announcement's id and
/// lifecycle and whether the request was a repeat.
pub open spec fn admit_spec(v: CoordinatorView, i: IntentView, now_ms: i64, id: Seq<char>) -> (
    CoordinatorView,
    Result<(Seq<char>, AnnouncementLifecycle, bool), ErrorView>,
) {
    if has_key(v.records, i.idempotency_key) {
        let r = v.records[key_index(v.records, i.idempotency_key)];
        if same_intent(r.intent, i) {
            (v, Ok((r.id, r.lifecycle, true)))
        } else {
            (v, Err(ErrorView::IdempotencyConflict))
        }
    } else if validation_error(v.limits, v.queues.map_values(|q: QueueView| q.group_id), i, now_ms) is Some {
        (v, Err(validation_error(v.limits, v.queues.map_values(|q: QueueView| q.group_id), i, now_ms)->0))
    } else if capacity_error(v, i, 0) is Some {
        (v, Err(capacity_error(v, i, 0)->0))
    } else if has_record(v.records, id) {
        (v, Err(ErrorView::IdCollision))
    } else {
        let v0 = CoordinatorView { limits: v.limits, queues: v.queues, records: v.records.push(new_record(i, id)) };
        (
            place_seq(v0, i, id, i.target_groups, i.target_groups.len() as int),
            Ok((id, AnnouncementLifecycle::Scheduled, false)),
        )
    }
}

// ---------------------------------------------------------------------------
// The coordinator
// ---------------------------------------------------------------------------

/// One group's queue; announcements are referred to by their position in
/// the coordinator's records, which never move.
struct GroupQueue {
    group_id: String,
    active: Option<usize>,
    queued: Vec<usize>,
    queued_duration_ms: u64,
}

/// In-memory admission state with strict per-group limits.
pub struct AnnouncementCoordinator {
    limits: AnnouncementLimits,
    queues: Vec<GroupQueue>,
    records: Vec<AnnouncementRecord>,
}

spec fn queue_view(q: GroupQueue, recs: Seq<AnnouncementRecord>) -> QueueView {
    QueueView {
        group_id: q.group_id@,
        active: match q.active {
            Some(i) => Some(recs[i as int].id@),
            None => None,
        },
        queued: q.queued@.map_values(|i: usize| recs[i as int].id@),
        queued_duration_ms: q.queued_duration_ms as nat,
    }
}

/// The views of `recs`.
pub open spec fn records_view(recs: Seq<AnnouncementRecord>) -> Seq<RecordView> {
    recs.map_values(|r: AnnouncementRecord| r@)
}

spec fn queues_view(qs: Seq<GroupQueue>, recs: Seq<AnnouncementRecord>) -> Seq<QueueView> {
    qs.map_values(|q: GroupQueue| queue_view(q, recs))
}

impl View for AnnouncementCoordinator {
    type V = CoordinatorView;

    closed spec fn view(&self) -> CoordinatorView {
        CoordinatorView {
            limits: self.limits,
            queues: queues_view(self.queues@, self.records@),
            records: records_view(self.records@),
        }
    }
}

spec fn entry_ok(recs: Seq<AnnouncementRecord>, ri: usize, g: Seq<char>) -> bool {
    ri < recs.len() && has_state(recs[ri as int]@.groups, g)
}

spec fn load_idx(recs: Seq<AnnouncementRecord>, idx: Seq<usize>) -> nat
    decreases idx.len(),
{
    if idx.len() == 0 {
        0
    } else {
        load_idx(recs, idx.drop_last()) + recs[idx.last() as int].intent.max_duration_ms as nat
    }
}

spec fn queue_ok(q: GroupQueue, recs: Seq<AnnouncementRecord>, limits: AnnouncementLimits) -> bool {
    &&& (q.active matches Some(a) ==> entry_ok(recs, a, q.group_id@))
    &&& forall|k: int| 0 <= k < q.queued@.len() ==> entry_ok(recs, #[trigger] q.queued@[k], q.group_id@)
    &&& forall|k: int, l: int| 0 <= k < l < q.queued@.len() ==> q.queued@[k] != q.queued@[l]
    &&& q.queued@.len() <= limits.max_queue_depth_per_group
    &&& q.queued_duration_ms == load_idx(recs, q.queued@)
    &&& q.queued_duration_ms <= limits.max_queued_duration_ms_per_group
}

/// Whether the groups of an announcement are distinct.
pub open spec fn states_distinct(gs: Seq<GroupStateView>) -> bool {
    forall|j: int, k: int| 0 <= j < k < gs.len() ==> gs[j].group_id != gs[k].group_id
}

spec fn record_ok(r: AnnouncementRecord) -> bool {
    &&& r.lifecycle == lifecycle_of(r@.groups)
    &&& states_distinct(r@.groups)
}

spec fn ids_distinct(recs: Seq<AnnouncementRecord>) -> bool {
    forall|i: int, j: int| 0 <= i < j < recs.len() ==> recs[i].id@ != recs[j].id@
}

impl AnnouncementCoordinator {
    /// The internal consistency every operation keeps: group names and
    /// announcement ids and keys are unique; queues refer to announcements
    /// that target the group; queues respect the depth and duration limits,
    /// and the waiting duration is the sum of the waiting announcements'
    /// maximum durations; each record's lifecycle follows its groups'.
    pub closed spec fn wf(&self) -> bool {
        &&& forall|i: int, j: int|
            0 <= i < j < self.queues@.len() ==> self.queues@[i].group_id@ != self.queues@[j].group_id@
        &&& ids_distinct(self.records@)
        &&& forall|i: int, j: int|
            0 <= i < j < self.records@.len() ==> self.records@[i].intent.idempotency_key@
                != self.records@[j].intent.idempotency_key@
        &&& forall|k: int|
            0 <= k < self.queues@.len() ==> queue_ok(#[trigger] self.queues@[k], self.records@, self.limits)
        &&& forall|r: int| 0 <= r < self.records@.len() ==> record_ok(#[trigger] self.records@[r])
    }
}

proof fn lemma_record_index(rv: Seq<RecordView>, r: int)
    requires
        0 <= r < rv.len(),
        forall|i: int, j: int| 0 <= i < j < rv.len() ==> rv[i].id != rv[j].id,
    ensures
        has_record(rv, rv[r].id),
        record_index(rv, rv[r].id) == r,
{
    assert(rv[r].id == rv[r].id);
    let k = record_index(rv, rv[r].id);
    if k < r {
        assert(rv[k].id != rv[r].id);
    } else if k > r {
        assert(rv[r].id != rv[k].id);
    }
}

proof fn lemma_queue_index(qv: Seq<QueueView>, k: int)
    requires
        0 <= k < qv.len(),
        forall|i: int, j: int| 0 <= i < j < qv.len() ==> qv[i].group_id != qv[j].group_id,
    ensures
        has_queue(qv, qv[k].group_id),
        queue_index(qv, qv[k].group_id) == k,
{
    assert(qv[k].group_id == qv[k].group_id);
    let m = queue_index(qv, qv[k].group_id);
    if m < k {
        assert(qv[m].group_id != qv[k].group_id);
    } else if m > k {
        assert(qv[k].group_id != qv[m].group_id);
    }
}

proof fn lemma_state_index(gs: Seq<GroupStateView>, k: int)
    requires
        0 <= k < gs.len(),
        states_distinct(gs),
    ensures
        has_state(gs, gs[k].group_id),
        state_index(gs, gs[k].group_id) == k,
{
    assert(gs[k].group_id == gs[k].group_id);
    let m = state_index(gs, gs[k].group_id);
    if m < k {
        assert(gs[m].group_id != gs[k].group_id);
    } else if m > k {
        assert(gs[k].group_id != gs[m].group_id);
    }
}

proof fn lemma_key_index(rv: Seq<RecordView>, r: int)
    requires
        0 <= r < rv.len(),
        forall|i: int, j: int|
            0 <= i < j < rv.len() ==> rv[i].intent.idempotency_key != rv[j].intent.idempotency_key,
    ensures
        has_key(rv, rv[r].intent.idempotency_key),
        key_index(rv, rv[r].intent.idempotency_key) == r,
{
    assert(rv[r].intent.idempotency_key == rv[r].intent.idempotency_key);
    let k = key_index(rv, rv[r].intent.idempotency_key);
    if k < r {
        assert(rv[k].intent.idempotency_key != rv[r].intent.idempotency_key);
    } else if k > r {
        assert(rv[r].intent.idempotency_key != rv[k].intent.idempotency_key);
    }
}

/// Index of the group state for `g` in `groups`.
fn find_state(groups: &Vec<AnnouncementGroupState>, g: &str) -> (r: Option<usize>)
    requires
        states_distinct(groups@.map_values(|s: AnnouncementGroupState| s@)),
    ensures
        match r {
            Some(j) => j < groups@.len() && has_state(
                groups@.map_values(|s: AnnouncementGroupState| s@),
                g@,
            ) && state_index(groups@.map_values(|s: AnnouncementGroupState| s@), g@) == j,
            None => !has_state(groups@.map_values(|s: AnnouncementGroupState| s@), g@),
        },
{
    let ghost gv = groups@.map_values(|s: AnnouncementGroupState| s@);
    let mut j: usize = 0;
    while j < groups.len()
        invariant
            gv == groups@.map_values(|s: AnnouncementGroupState| s@),
            states_distinct(gv),
            0 <= j <= groups@.len(),
            forall|k: int| 0 <= k < j ==> (#[trigger] gv[k]).group_id != g@,
        decreases groups@.len() - j,
    {
        if str_equal(groups[j].group_id.as_str(), g) {
            proof {
                lemma_state_index(gv, j as int);
            }
            return Some(j);
        }
        j = j + 1;
    }
    proof {
        if has_state(gv, g@) {
            let k = choose|k: int| 0 <= k < gv.len() && (#[trigger] gv[k]).group_id == g@;
            assert(gv[k].group_id != g@);
        }
    }
    None
}

/// The lifecycle of an announcement whose groups are `groups`.
fn lifecycle_from(groups: &Vec<AnnouncementGroupState>) -> (l: AnnouncementLifecycle)
    ensures
        l == lifecycle_of(groups@.map_values(|s: AnnouncementGroupState| s@)),
{
    let ghost gv = groups@.map_values(|s: AnnouncementGroupState| s@);
    let mut any_started = false;
    let mut all_terminal = true;
    let mut any_failed = false;
    let mut any_cancelled = false;
    let mut j: usize = 0;
    while j < groups.len()
        invariant
            gv == groups@.map_values(|s: AnnouncementGroupState| s@),
            0 <= j <= groups@.len(),
            any_started == exists|k: int| 0 <= k < j && (#[trigger] gv[k]).lifecycle is Started,
            all_terminal == forall|k: int| 0 <= k < j ==> (#[trigger] gv[k]).lifecycle.is_terminal(),
            any_failed == exists|k: int| 0 <= k < j && (#[trigger] gv[k]).lifecycle is Failed,
            any_cancelled == exists|k: int| 0 <= k < j && (#[trigger] gv[k]).lifecycle is Cancelled,
        decreases groups@.len() - j,
    {
        let l = groups[j].lifecycle;
        assert(gv[j as int].lifecycle == l);
        match l {
            AnnouncementLifecycle::Started => {
                any_started = true;
            },
            AnnouncementLifecycle::Failed => {
                any_failed = true;
            },
            AnnouncementLifecycle::Cancelled => {
                any_cancelled = true;
            },
            _ => {},
        }
        if !l.terminal() {
            all_terminal = false;
        }
        j = j + 1;
    }
    if any_started {
        AnnouncementLifecycle::Started
    } else if all_terminal {
        if any_failed {
            AnnouncementLifecycle::Failed
        } else if any_cancelled {
            AnnouncementLifecycle::Cancelled
        } else {
            AnnouncementLifecycle::Completed
        }
    } else {
        AnnouncementLifecycle::Scheduled
    }
}

// ---------------------------------------------------------------------------
// Groups
// ---------------------------------------------------------------------------

pub open spec fn empty_queue(g: Seq<char>) -> QueueView {
    QueueView { group_id: g, active: None, queued: Seq::empty(), queued_duration_ms: 0 }
}

/// A group that is not known yet gets an empty queue.
pub open spec fn add_group_spec(v: CoordinatorView, g: Seq<char>) -> CoordinatorView {
    if has_queue(v.queues, g) {
        v
    } else {
        CoordinatorView { limits: v.limits, queues: v.queues.push(empty_queue(g)), records: v.records }
    }
}

/// A known group is forgotten together with its queue; records keep it.
pub open spec fn remove_group_spec(v: CoordinatorView, g: Seq<char>) -> CoordinatorView {
    if has_queue(v.queues, g) {
        CoordinatorView {
            limits: v.limits,
            queues: v.queues.remove(queue_index(v.queues, g)),
            records: v.records,
        }
    } else {
        v
    }
}

/// A coordinator with no announcement that knows the groups `gs`.
pub open spec fn initial_spec(limits: AnnouncementLimits, gs: Seq<Seq<char>>) -> CoordinatorView
    decreases gs.len(),
{
    if gs.len() == 0 {
        CoordinatorView { limits, queues: Seq::empty(), records: Seq::empty() }
    } else {
        add_group_spec(initial_spec(limits, gs.drop_last()), gs.last())
    }
}

// ---------------------------------------------------------------------------
// Identifier order
// ---------------------------------------------------------------------------

/// Lexicographic order of identifiers by code point, which is the byte order
/// of their UTF-8 encodings.
pub open spec fn id_lt(a: Seq<char>, b: Seq<char>) -> bool
    decreases a.len(),
{
    if b.len() == 0 {
        false
    } else if a.len() == 0 {
        true
    } else if a[0] != b[0] {
        a[0] < b[0]
    } else {
        id_lt(a.drop_first(), b.drop_first())
    }
}

proof fn lemma_id_lt_irreflexive(a: Seq<char>)
    ensures
        !id_lt(a, a),
    decreases a.len(),
{
    if a.len() > 0 {
        lemma_id_lt_irreflexive(a.drop_first());
    }
}

proof fn lemma_id_lt_transitive(a: Seq<char>, b: Seq<char>, c: Seq<char>)
    requires
        id_lt(a, b),
        id_lt(b, c),
    ensures
        id_lt(a, c),
    decreases a.len(),
{
    if a.len() > 0 && b.len() > 0 && c.len() > 0 && a[0] == b[0] && b[0] == c[0] {
        lemma_id_lt_transitive(a.drop_first(), b.drop_first(), c.drop_first());
    }
}

proof fn lemma_id_lt_total(a: Seq<char>, b: Seq<char>)
    requires
        a != b,
    ensures
        id_lt(a, b) || id_lt(b, a),
    decreases a.len(),
{
    if a.len() > 0 && b.len() > 0 && a[0] == b[0] {
        if a.drop_first() == b.drop_first() {
            assert(a =~= seq![a[0]] + a.drop_first());
            assert(b =~= seq![b[0]] + b.drop_first());
        }
        lemma_id_lt_total(a.drop_first(), b.drop_first());
    } else if a.len() == 0 && b.len() == 0 {
        assert(a =~= b);
    }
}

proof fn lemma_id_lt_skip(a: Seq<char>, b: Seq<char>, i: int)
    requires
        0 <= i < a.len(),
        i < b.len(),
        a[i] == b[i],
    ensures
        id_lt(a.skip(i), b.skip(i)) == id_lt(a.skip(i + 1), b.skip(i + 1)),
{
    assert(a.skip(i).drop_first() =~= a.skip(i + 1));
    assert(b.skip(i).drop_first() =~= b.skip(i + 1));
}

/// Whether `a` sorts before `b`.
fn str_less(a: &str, b: &str) -> (r: bool)
    ensures
        r == id_lt(a@, b@),
{
    let n = a.unicode_len();
    let m = b.unicode_len();
    let mut i: usize = 0;
    assert(a@.skip(0) =~= a@);
    assert(b@.skip(0) =~= b@);
    while i < n && i < m && a.get_char(i) == b.get_char(i)
        invariant
            n == a@.len(),
            m == b@.len(),
            0 <= i <= n,
            i <= m,
            id_lt(a@, b@) == id_lt(a@.skip(i as int), b@.skip(i as int)),
        decreases n - i,
    {
        proof {
            lemma_id_lt_skip(a@, b@, i as int);
        }
        i = i + 1;
    }
    if i == m {
        false
    } else if i == n {
        true
    } else {
        let x = a.get_char(i);
        let y = b.get_char(i);
        assert(a@.skip(i as int)[0] == x);
        assert(b@.skip(i as int)[0] == y);
        x < y
    }
}

// ---------------------------------------------------------------------------
// Copies
// ---------------------------------------------------------------------------

fn copy_state(s: &AnnouncementGroupState) -> (c: AnnouncementGroupState)
    ensures
        c@ == s@,
{
    AnnouncementGroupState {
        group_id: s.group_id.clone(),
        lifecycle: s.lifecycle,
        resume_emitted: s.resume_emitted,
    }
}

fn copy_strings(v: &Vec<String>) -> (c: Vec<String>)
    ensures
        c@.map_values(|g: String| g@) == v@.map_values(|g: String| g@),
{
    let mut c: Vec<String> = Vec::new();
    let mut k: usize = 0;
    while k < v.len()
        invariant
            0 <= k <= v@.len(),
            c@.len() == k,
            forall|j: int| 0 <= j < k ==> (#[trigger] c@[j])@ == v@[j]@,
        decreases v@.len() - k,
    {
        c.push(v[k].clone());
        k = k + 1;
    }
    assert(c@.map_values(|g: String| g@) =~= v@.map_values(|g: String| g@));
    c
}

fn copy_intent(i: &AnnouncementIntent) -> (c: AnnouncementIntent)
    ensures
        c@ == i@,
{
    let source = match &i.source {
        AnnouncementSource::Uri(u) => AnnouncementSource::Uri(u.clone()),
    };
    AnnouncementIntent {
        version: i.version,
        idempotency_key: i.idempotency_key.clone(),
        target_groups: copy_strings(&i.target_groups),
        priority: i.priority,
        source,
        duck: i.duck,
        max_duration_ms: i.max_duration_ms,
        expires_at_ms: i.expires_at_ms,
        resume: i.resume,
    }
}

fn copy_record(r: &AnnouncementRecord) -> (c: AnnouncementRecord)
    ensures
        c@ == r@,
{
    let mut groups: Vec<AnnouncementGroupState> = Vec::new();
    let mut k: usize = 0;
    while k < r.groups.len()
        invariant
            0 <= k <= r.groups@.len(),
            groups@.len() == k,
            forall|j: int| 0 <= j < k ==> (#[trigger] groups@[j])@ == r.groups@[j]@,
        decreases r.groups@.len() - k,
    {
        groups.push(copy_state(&r.groups[k]));
        k = k + 1;
    }
    assert(groups@.map_values(|s: AnnouncementGroupState| s@) =~= r.groups@.map_values(
        |s: AnnouncementGroupState| s@,
    ));
    AnnouncementRecord {
        id: r.id.clone(),
        intent: copy_intent(&r.intent),
        lifecycle: r.lifecycle,
        groups,
    }
}

spec fn queue_in_range(q: GroupQueue, n: nat) -> bool {
    &&& (q.active matches Some(a) ==> a < n)
    &&& forall|k: int| 0 <= k < q.queued@.len() ==> #[trigger] q.queued@[k] < n
}

proof fn lemma_queue_view_same_ids(q: GroupQueue, r1: Seq<AnnouncementRecord>, r2: Seq<AnnouncementRecord>)
    requires
        r1.len() == r2.len(),
        forall|i: int| 0 <= i < r1.len() ==> (#[trigger] r1[i]).id@ == r2[i].id@,
        queue_in_range(q, r1.len()),
    ensures
        queue_view(q, r1) == queue_view(q, r2),
{
    assert(q.queued@.map_values(|i: usize| r1[i as int].id@) =~= q.queued@.map_values(
        |i: usize| r2[i as int].id@,
    ));
}

spec fn sorted_ids(s: Seq<AnnouncementRecord>) -> bool {
    forall|i: int, j: int| 0 <= i < j < s.len() ==> id_lt(s[i].id@, s[j].id@)
}

proof fn lemma_sorted_insert(
    old_out: Seq<AnnouncementRecord>,
    x: AnnouncementRecord,
    p: int,
    out: Seq<AnnouncementRecord>,
)
    requires
        sorted_ids(old_out),
        0 <= p <= old_out.len(),
        forall|i: int| 0 <= i < p ==> id_lt((#[trigger] old_out[i]).id@, x.id@),
        forall|i: int| p <= i < old_out.len() ==> id_lt(x.id@, (#[trigger] old_out[i]).id@),
        out == old_out.insert(p, x),
    ensures
        sorted_ids(out),
{
    assert forall|i: int, j: int| 0 <= i < j < out.len() implies id_lt(out[i].id@, out[j].id@) by {
        if i < p && j == p {
            assert(out[i] == old_out[i]);
        } else if i < p && j > p {
            assert(out[i] == old_out[i]);
            assert(out[j] == old_out[j - 1]);
        } else if i == p {
            assert(out[j] == old_out[j - 1]);
        } else if i > p {
            assert(out[i] == old_out[i - 1]);
            assert(out[j] == old_out[j - 1]);
        } else {
            assert(out[i] == old_out[i]);
            assert(out[j] == old_out[j]);
        }
    }
}

proof fn lemma_insert_position(
    out: Seq<AnnouncementRecord>,
    x: AnnouncementRecord,
    p: int,
    rv: Seq<RecordView>,
    k: int,
    src: Seq<int>,
)
    requires
        sorted_ids(out),
        0 <= p <= out.len(),
        0 <= k < rv.len(),
        x@ == rv[k],
        forall|i: int, j: int| 0 <= i < j < rv.len() ==> rv[i].id != rv[j].id,
        src.len() == out.len(),
        forall|i: int| 0 <= i < out.len() ==> 0 <= #[trigger] src[i] < k && out[i]@ == rv[src[i]],
        forall|i: int| 0 <= i < p ==> id_lt((#[trigger] out[i]).id@, x.id@),
        p < out.len() ==> !id_lt(out[p].id@, x.id@),
    ensures
        forall|i: int| p <= i < out.len() ==> id_lt(x.id@, (#[trigger] out[i]).id@),
{
    if p < out.len() {
        assert(out[p].id@ != x.id@) by {
            assert(out[p]@ == rv[src[p]]);
        }
        lemma_id_lt_total(out[p].id@, x.id@);
    }
    assert forall|i: int| p <= i < out.len() implies id_lt(x.id@, (#[trigger] out[i]).id@) by {
        if i > p {
            lemma_id_lt_transitive(x.id@, out[p].id@, out[i].id@);
        }
    }
}
/// Copies of `recs`, sorted by id.
fn sorted_copy(recs: &Vec<AnnouncementRecord>) -> (r: Vec<AnnouncementRecord>)
    requires
        forall|a: int, b: int| 0 <= a < b < recs@.len() ==> records_view(recs@)[a].id != records_view(recs@)[b].id,
    ensures
        r@.len() == recs@.len(),
        forall|i: int, j: int| 0 <= i < j < r@.len() ==> id_lt(r@[i].id@, r@[j].id@),
        forall|i: int| 0 <= i < r@.len() ==> records_view(recs@).contains(#[trigger] r@[i]@),
        forall|j: int| 0 <= j < records_view(recs@).len() ==> records_view(r@).contains(#[trigger] records_view(recs@)[j]),
{
    let ghost rv = records_view(recs@);
    let ghost mut src: Seq<int> = Seq::empty();
    let ghost mut pos: Seq<int> = Seq::empty();
    let mut out: Vec<AnnouncementRecord> = Vec::new();
    let mut k: usize = 0;
    while k < recs.len()
        invariant
            rv == records_view(recs@),
            forall|a: int, b: int| 0 <= a < b < rv.len() ==> rv[a].id != rv[b].id,
            0 <= k <= recs@.len(),
            out@.len() == k,
            sorted_ids(out@),
            src.len() == k,
            pos.len() == k,
            forall|i: int| 0 <= i < out@.len() ==> 0 <= #[trigger] src[i] < k && out@[i]@ == rv[src[i]],
            forall|m: int| 0 <= m < k ==> 0 <= #[trigger] pos[m] < k && out@[pos[m]]@ == rv[m],
        decreases recs@.len() - k,
    {
        let x = copy_record(&recs[k]);
        assert(x@ == rv[k as int]);
        let mut p: usize = 0;
        while p < out.len() && str_less(out[p].id.as_str(), x.id.as_str())
            invariant
                0 <= p <= out@.len(),
                forall|i: int| 0 <= i < p ==> id_lt((#[trigger] out@[i]).id@, x.id@),
            decreases out@.len() - p,
        {
            p = p + 1;
        }
        proof {
            lemma_insert_position(out@, x, p as int, rv, k as int, src);
        }
        let ghost old_out = out@;
        out.insert(p, x);
        proof {
            lemma_sorted_insert(old_out, x, p as int, out@);
            let new_src = src.insert(p as int, k as int);
            let new_pos = pos.map_values(|q: int| if q >= p { q + 1 } else { q }).push(p as int);
            assert forall|i: int| 0 <= i < out@.len() implies 0 <= #[trigger] new_src[i] < k + 1 && out@[i]@ == rv[new_src[i]] by {
                if i < p {
                    assert(out@[i] == old_out[i]);
                    assert(new_src[i] == src[i]);
                } else if i > p {
                    assert(out@[i] == old_out[i - 1]);
                    assert(new_src[i] == src[i - 1]);
                }
            }
            assert forall|m: int| 0 <= m < k + 1 implies 0 <= #[trigger] new_pos[m] < k + 1 && out@[new_pos[m]]@ == rv[m] by {
                if m < k {
                    let q = pos[m];
                    if q >= p {
                        assert(out@[q + 1] == old_out[q]);
                    } else {
                        assert(out@[q] == old_out[q]);
                    }
                }
            }
            src = new_src;
            pos = new_pos;
        }
        k = k + 1;
    }
    proof {
        assert forall|i: int| 0 <= i < out@.len() implies rv.contains(#[trigger] out@[i]@) by {
            assert(out@[i]@ == rv[src[i]]);
        }
        assert forall|j: int| 0 <= j < rv.len() implies records_view(out@).contains(#[trigger] rv[j]) by {
            assert(records_view(out@)[pos[j]] == rv[j]);
        }
    }
    out
}

impl AnnouncementCoordinator {
    /// Index of the record of `id`.
    fn find_record(&self, id: &str) -> (r: Option<usize>)
        requires
            self.wf(),
        ensures
            match r {
                Some(i) => i < self.records@.len() && has_record(self@.records, id@) && record_index(
                    self@.records,
                    id@,
                ) == i && self.records@[i as int].id@ == id@,
                None => !has_record(self@.records, id@),
            },
    {
        let ghost rv = self@.records;
        let mut i: usize = 0;
        while i < self.records.len()
            invariant
                self.wf(),
                rv == self@.records,
                0 <= i <= self.records@.len(),
                forall|k: int| 0 <= k < i ==> (#[trigger] rv[k]).id != id@,
            decreases self.records@.len() - i,
        {
            if str_equal(self.records[i].id.as_str(), id) {
                proof {
                    lemma_record_index(rv, i as int);
                }
                return Some(i);
            }
            i = i + 1;
        }
        proof {
            if has_record(rv, id@) {
                let k = choose|k: int| 0 <= k < rv.len() && (#[trigger] rv[k]).id == id@;
                assert(rv[k].id != id@);
            }
        }
        None
    }

    /// Index of the queue of group `g`.
    fn find_queue(&self, g: &str) -> (r: Option<usize>)
        requires
            self.wf(),
        ensures
            match r {
                Some(k) => k < self.queues@.len() && has_queue(self@.queues, g@) && queue_index(
                    self@.queues,
                    g@,
                ) == k && self.queues@[k as int].group_id@ == g@,
                None => !has_queue(self@.queues, g@),
            },
    {
        let ghost qv = self@.queues;
        let mut k: usize = 0;
        while k < self.queues.len()
            invariant
                self.wf(),
                qv == self@.queues,
                0 <= k <= self.queues@.len(),
                forall|m: int| 0 <= m < k ==> (#[trigger] qv[m]).group_id != g@,
            decreases self.queues@.len() - k,
        {
            if str_equal(self.queues[k].group_id.as_str(), g) {
                proof {
                    lemma_queue_index(qv, k as int);
                }
                return Some(k);
            }
            k = k + 1;
        }
        proof {
            if has_queue(qv, g@) {
                let m = choose|m: int| 0 <= m < qv.len() && (#[trigger] qv[m]).group_id == g@;
                assert(qv[m].group_id != g@);
            }
        }
        None
    }

    /// Adds a group with an empty queue; a known group is left as it is.
    pub fn add_group(&mut self, group_id: &str)
        requires
            old(self).wf(),
        ensures
            final(self).wf(),
            final(self)@ == add_group_spec(old(self)@, group_id@),
    {
        match self.find_queue(group_id) {
            Some(_) => {},
            None => {
                let ghost qs = self.queues@;
                let q = GroupQueue {
                    group_id: String::from_str(group_id),
                    active: None,
                    queued: Vec::new(),
                    queued_duration_ms: 0,
                };
                self.queues.push(q);
                proof {
                    assert(queues_view(self.queues@, self.records@) =~= queues_view(qs, self.records@).push(
                        queue_view(q, self.records@),
                    ));
                    assert(q.queued@.map_values(|i: usize| self.records@[i as int].id@) =~= Seq::<Seq<char>>::empty());
                    assert forall|i: int, j: int|
                        0 <= i < j < self.queues@.len() implies self.queues@[i].group_id@ != self.queues@[j].group_id@ by {
                        if j == qs.len() {
                            assert(queues_view(qs, self.records@)[i].group_id == qs[i].group_id@);
                        }
                    }
                    assert forall|k: int| 0 <= k < self.queues@.len() implies queue_ok(
                        #[trigger] self.queues@[k],
                        self.records@,
                        self.limits,
                    ) by {
                        if k < qs.len() {
                            assert(self.queues@[k] == qs[k]);
                        }
                    }
                }
            },
        }
    }

    /// Forgets a group and its queue.
    pub fn remove_group(&mut self, group_id: &str)
        requires
            old(self).wf(),
        ensures
            final(self).wf(),
            final(self)@ == remove_group_spec(old(self)@, group_id@),
    {
        match self.find_queue(group_id) {
            Some(k) => {
                let ghost qs = self.queues@;
                self.queues.remove(k);
                proof {
                    assert(queues_view(self.queues@, self.records@) =~= queues_view(qs, self.records@).remove(
                        k as int,
                    ));
                    assert forall|i: int, j: int|
                        0 <= i < j < self.queues@.len() implies self.queues@[i].group_id@ != self.queues@[j].group_id@ by {
                        let i0 = if i < k { i } else { i + 1 };
                        let j0 = if j < k { j } else { j + 1 };
                        assert(self.queues@[i] == qs[i0]);
                        assert(self.queues@[j] == qs[j0]);
                    }
                    assert forall|m: int| 0 <= m < self.queues@.len() implies queue_ok(
                        #[trigger] self.queues@[m],
                        self.records@,
                        self.limits,
                    ) by {
                        let m0 = if m < k { m } else { m + 1 };
                        assert(self.queues@[m] == qs[m0]);
                    }
                }
            },
            None => {},
        }
    }

    /// A coordinator with the given limits that knows the groups `groups`.
    pub fn new(limits: AnnouncementLimits, groups: &[&str]) -> (c: Self)
        ensures
            c.wf(),
            c@ == initial_spec(limits, groups@.map_values(|g: &str| g@)),
    {
        let ghost gv = groups@.map_values(|g: &str| g@);
        let mut c = AnnouncementCoordinator { limits, queues: Vec::new(), records: Vec::new() };
        proof {
            assert(gv.take(0).len() == 0);
            assert(queues_view(c.queues@, c.records@) =~= Seq::<QueueView>::empty());
            assert(records_view(c.records@) =~= Seq::<RecordView>::empty());
        }
        let mut k: usize = 0;
        while k < groups.len()
            invariant
                gv == groups@.map_values(|g: &str| g@),
                0 <= k <= groups@.len(),
                c.wf(),
                c@ == initial_spec(limits, gv.take(k as int)),
            decreases groups@.len() - k,
        {
            c.add_group(groups[k]);
            assert(gv.take(k as int + 1).drop_last() =~= gv.take(k as int));
            k = k + 1;
        }
        assert(gv.take(groups@.len() as int) =~= gv);
        c
    }

    /// The record of announcement `id`, if any.
    pub fn record(&self, id: &str) -> (r: Option<AnnouncementRecord>)
        requires
            self.wf(),
        ensures
            match r {
                Some(c) => has_record(self@.records, id@) && c@ == self@.records[record_index(
                    self@.records,
                    id@,
                )],
                None => !has_record(self@.records, id@),
            },
    {
        match self.find_record(id) {
            Some(i) => Some(copy_record(&self.records[i])),
            None => None,
        }
    }

    /// Every record, sorted by id.
    pub fn records(&self) -> (r: Vec<AnnouncementRecord>)
        requires
            self.wf(),
        ensures
            r@.len() == self@.records.len(),
            forall|i: int, j: int| 0 <= i < j < r@.len() ==> id_lt(r@[i].id@, r@[j].id@),
            forall|i: int| 0 <= i < r@.len() ==> self@.records.contains(#[trigger] r@[i]@),
            forall|j: int| 0 <= j < self@.records.len() ==> records_view(r@).contains(#[trigger] self@.records[j]),
    {
        proof {
            let rv = self@.records;
            assert forall|a: int, b: int| 0 <= a < b < rv.len() implies rv[a].id != rv[b].id by {
                assert(rv[a].id == self.records@[a].id@);
                assert(rv[b].id == self.records@[b].id@);
            }
        }
        sorted_copy(&self.records)
    }
}

/// The views of a list of transitions.
pub open spec fn transitions_view(ts: Seq<AnnouncementTransition>) -> Seq<TransitionView> {
    ts.map_values(|t: AnnouncementTransition| t@)
}

/// The view of an operation's answer.
pub open spec fn outcome_view(r: Result<Vec<AnnouncementTransition>, AnnouncementError>) -> Result<
    Seq<TransitionView>,
    ErrorView,
> {
    match r {
        Ok(ts) => Ok(transitions_view(ts@)),
        Err(e) => Err(e@),
    }
}

/// Two queue lists for the same groups.
spec fn same_groups(q1: Seq<GroupQueue>, q2: Seq<GroupQueue>) -> bool {
    &&& q1.len() == q2.len()
    &&& forall|k: int| 0 <= k < q1.len() ==> (#[trigger] q1[k]).group_id@ == q2[k].group_id@
}

/// Two record lists with the same ids, intents and group names.
spec fn same_shape(r1: Seq<AnnouncementRecord>, r2: Seq<AnnouncementRecord>) -> bool {
    &&& r1.len() == r2.len()
    &&& forall|i: int|
        0 <= i < r1.len() ==> {
            &&& (#[trigger] r1[i]).id@ == r2[i].id@
            &&& r1[i].intent@ == r2[i].intent@
            &&& r1[i].intent.max_duration_ms == r2[i].intent.max_duration_ms
            &&& r1[i].intent.idempotency_key@ == r2[i].intent.idempotency_key@
            &&& r1[i].groups@.len() == r2[i].groups@.len()
            &&& forall|j: int|
                0 <= j < r1[i].groups@.len() ==> (#[trigger] r1[i].groups@[j]).group_id@
                    == r2[i].groups@[j].group_id@
        }
}

proof fn lemma_load_idx_same(r1: Seq<AnnouncementRecord>, r2: Seq<AnnouncementRecord>, idx: Seq<usize>)
    requires
        same_shape(r1, r2),
        forall|k: int| 0 <= k < idx.len() ==> #[trigger] idx[k] < r1.len(),
    ensures
        load_idx(r1, idx) == load_idx(r2, idx),
    decreases idx.len(),
{
    if idx.len() > 0 {
        assert(r1[idx.last() as int].intent.max_duration_ms == r2[idx.last() as int].intent.max_duration_ms);
        lemma_load_idx_same(r1, r2, idx.drop_last());
    }
}

proof fn lemma_load_idx_first(recs: Seq<AnnouncementRecord>, idx: Seq<usize>)
    requires
        idx.len() > 0,
    ensures
        load_idx(recs, idx) == recs[idx[0] as int].intent.max_duration_ms as nat + load_idx(
            recs,
            idx.drop_first(),
        ),
    decreases idx.len(),
{
    if idx.len() > 1 {
        lemma_load_idx_first(recs, idx.drop_last());
        assert(idx.drop_last().drop_first() =~= idx.drop_first().drop_last());
        assert(idx.drop_first().last() == idx.last());
        assert(idx.drop_last()[0] == idx[0]);
        assert(load_idx(recs, idx) == load_idx(recs, idx.drop_last()) + recs[idx.last() as int].intent.max_duration_ms as nat);
        assert(load_idx(recs, idx.drop_first()) == load_idx(recs, idx.drop_first().drop_last())
            + recs[idx.drop_first().last() as int].intent.max_duration_ms as nat);
    } else {
        assert(idx.drop_first().len() == 0);
        assert(idx.drop_last().len() == 0);
        assert(idx.last() == idx[0]);
        assert(load_idx(recs, idx.drop_last()) == 0);
        assert(load_idx(recs, idx.drop_first()) == 0);
    }
}

proof fn lemma_has_state_same(a: AnnouncementRecord, b: AnnouncementRecord, g: Seq<char>)
    requires
        a.groups@.len() == b.groups@.len(),
        forall|j: int| 0 <= j < a.groups@.len() ==> (#[trigger] a.groups@[j]).group_id@ == b.groups@[j].group_id@,
    ensures
        has_state(a@.groups, g) == has_state(b@.groups, g),
        has_state(a@.groups, g) ==> state_index(a@.groups, g) == state_index(b@.groups, g)
            || !states_distinct(a@.groups),
{
    if has_state(a@.groups, g) {
        let j = choose|j: int| 0 <= j < a@.groups.len() && (#[trigger] a@.groups[j]).group_id == g;
        assert(b@.groups[j].group_id == g);
        if states_distinct(a@.groups) {
            lemma_state_index(a@.groups, j);
            assert(states_distinct(b@.groups)) by {
                assert forall|x: int, y: int| 0 <= x < y < b@.groups.len() implies b@.groups[x].group_id != b@.groups[y].group_id by {
                    assert(a@.groups[x].group_id == b@.groups[x].group_id);
                    assert(a@.groups[y].group_id == b@.groups[y].group_id);
                }
            }
            lemma_state_index(b@.groups, j);
        }
    }
    if has_state(b@.groups, g) {
        let j = choose|j: int| 0 <= j < b@.groups.len() && (#[trigger] b@.groups[j]).group_id == g;
        assert(a@.groups[j].group_id == g);
    }
}

proof fn lemma_queue_same_shape(q: GroupQueue, r1: Seq<AnnouncementRecord>, r2: Seq<AnnouncementRecord>, lim: AnnouncementLimits)
    requires
        same_shape(r1, r2),
        queue_ok(q, r1, lim),
    ensures
        queue_ok(q, r2, lim),
        queue_view(q, r1) == queue_view(q, r2),
{
    assert(forall|i: int| 0 <= i < r1.len() ==> (#[trigger] r1[i]).id@ == r2[i].id@);
    if let Some(a) = q.active {
        lemma_has_state_same(r1[a as int], r2[a as int], q.group_id@);
    }
    assert forall|k: int| 0 <= k < q.queued@.len() implies entry_ok(r2, #[trigger] q.queued@[k], q.group_id@) by {
        assert(entry_ok(r1, q.queued@[k], q.group_id@));
        lemma_has_state_same(r1[q.queued@[k] as int], r2[q.queued@[k] as int], q.group_id@);
    }
    assert forall|k: int| 0 <= k < q.queued@.len() implies #[trigger] q.queued@[k] < r1.len() by {
        assert(entry_ok(r1, q.queued@[k], q.group_id@));
    }
    lemma_load_idx_same(r1, r2, q.queued@);
    lemma_queue_view_same_ids(q, r1, r2);
}

/// Queues stay consistent, and look the same, under a change of records that
/// keeps their ids, intents and group names.
proof fn lemma_queues_same_shape(
    qs: Seq<GroupQueue>,
    recs0: Seq<AnnouncementRecord>,
    recs: Seq<AnnouncementRecord>,
    lim: AnnouncementLimits,
)
    requires
        forall|k: int| 0 <= k < qs.len() ==> queue_ok(#[trigger] qs[k], recs0, lim),
        same_shape(recs0, recs),
        ids_distinct(recs0),
    ensures
        forall|k: int| 0 <= k < qs.len() ==> queue_ok(#[trigger] qs[k], recs, lim),
        queues_view(qs, recs) == queues_view(qs, recs0),
        ids_distinct(recs),
{
    assert forall|k: int| 0 <= k < qs.len() implies queue_ok(#[trigger] qs[k], recs, lim) by {
        lemma_queue_same_shape(qs[k], recs0, recs, lim);
    }
    assert forall|k: int| 0 <= k < qs.len() implies queues_view(qs, recs)[k] == queues_view(qs, recs0)[k] by {
        lemma_queue_same_shape(qs[k], recs0, recs, lim);
    }
    assert(queues_view(qs, recs) =~= queues_view(qs, recs0));
    assert forall|i: int, j: int| 0 <= i < j < recs.len() implies recs[i].id@ != recs[j].id@ by {
        assert(recs0[i].id@ == recs[i].id@);
        assert(recs0[j].id@ == recs[j].id@);
    }
}

impl AnnouncementCoordinator {
    /// Marks group `qi` of record `ri` as `lc` (see [`finish_spec`]).
    fn finish_group(&mut self, ri: usize, qi: usize, lc: AnnouncementLifecycle) -> (t: AnnouncementTransition)
        requires
            old(self).wf(),
            ri < old(self).records@.len(),
            qi < old(self).queues@.len(),
            has_state(old(self)@.records[ri as int].groups, old(self)@.queues[qi as int].group_id),
        ensures
            final(self).wf(),
            (final(self)@, t@) == finish_spec(old(self)@, ri as int, qi as int, lc),
            same_shape(old(self).records@, final(self).records@),
            forall|b: int| 0 <= b < old(self).records@.len() && b != ri ==> final(self).records@[b] == old(self).records@[b],
            same_groups(old(self).queues@, final(self).queues@),
            forall|k: int| 0 <= k < old(self).queues@.len() && k != qi ==> final(self).queues@[k] == old(self).queues@[k],
    {
        let ghost v = self@;
        let ghost recs0 = self.records@;
        let ghost qs0 = self.queues@;
        proof {
            assert(queue_ok(qs0[qi as int], recs0, self.limits));
            assert(record_ok(recs0[ri as int]));
            assert(v.records[ri as int] == recs0[ri as int]@);
            assert(v.queues[qi as int] == queue_view(qs0[qi as int], recs0));
        }
        let was_active = match self.queues[qi].active {
            Some(a) => a == ri,
            None => false,
        };
        proof {
            if let Some(a) = qs0[qi as int].active {
                if a != ri {
                    assert(recs0[a as int].id@ != recs0[ri as int].id@) by {
                        if a < ri {} else {}
                    }
                }
            }
            assert(was_active == (v.queues[qi as int].active == Some(v.records[ri as int].id)));
        }
        let si = match find_state(&self.records[ri].groups, self.queues[qi].group_id.as_str()) {
            Some(j) => j,
            None => {
                assert(false);
                0
            },
        };
        let emitted = self.records[ri].groups[si].resume_emitted;
        let policy = self.records[ri].intent.resume;
        let resume = was_active && policy == ResumePolicy::ResumePrevious && !emitted;
        self.records[ri].groups[si].lifecycle = lc;
        self.records[ri].groups[si].resume_emitted = emitted || resume;
        let l = lifecycle_from(&self.records[ri].groups);
        self.records[ri].lifecycle = l;
        let ghost recs1 = self.records@;
        proof {
            let gs1 = recs1[ri as int]@.groups;
            let gs0 = recs0[ri as int]@.groups;
            assert(gs1 =~= gs0.update(
                si as int,
                GroupStateView { group_id: gs0[si as int].group_id, lifecycle: lc, resume_emitted: emitted || resume },
            ));
            assert(states_distinct(gs1)) by {
                assert forall|x: int, y: int| 0 <= x < y < gs1.len() implies gs1[x].group_id != gs1[y].group_id by {
                    assert(gs1[x].group_id == gs0[x].group_id);
                    assert(gs1[y].group_id == gs0[y].group_id);
                }
            }
            assert(same_shape(recs0, recs1)) by {
                assert forall|i: int| 0 <= i < recs0.len() implies {
                    &&& (#[trigger] recs0[i]).id@ == recs1[i].id@
                    &&& recs0[i].intent@ == recs1[i].intent@
                    &&& recs0[i].intent.max_duration_ms == recs1[i].intent.max_duration_ms
                    &&& recs0[i].intent.idempotency_key@ == recs1[i].intent.idempotency_key@
                    &&& recs0[i].groups@.len() == recs1[i].groups@.len()
                    &&& forall|j: int|
                        0 <= j < recs0[i].groups@.len() ==> (#[trigger] recs0[i].groups@[j]).group_id@
                            == recs1[i].groups@[j].group_id@
                } by {
                    if i == ri {
                        assert forall|j: int| 0 <= j < recs0[i].groups@.len() implies (#[trigger] recs0[i].groups@[j]).group_id@
                            == recs1[i].groups@[j].group_id@ by {
                            assert(gs0[j].group_id == recs0[i].groups@[j].group_id@);
                            assert(gs1[j].group_id == recs1[i].groups@[j].group_id@);
                        }
                    }
                }
            }
            assert forall|r: int| 0 <= r < recs1.len() implies record_ok(#[trigger] recs1[r]) by {
                if r != ri {
                    assert(recs1[r] == recs0[r]);
                }
            }
            lemma_queues_same_shape(qs0, recs0, recs1, self.limits);
            assert(records_view(recs1) =~= v.records.update(ri as int, recs1[ri as int]@));
        }
        if was_active {
            self.queues[qi].active = None;
        }
        let t = AnnouncementTransition {
            announcement_id: self.records[ri].id.clone(),
            group_id: self.queues[qi].group_id.clone(),
            lifecycle: lc,
            resume,
        };
        proof {
            let qs1 = self.queues@;
            assert(qs1 =~= qs0.update(qi as int, qs1[qi as int]));
            assert(queue_ok(qs1[qi as int], recs1, self.limits));
            assert(queues_view(qs1, recs1) =~= queues_view(qs0, recs1).update(
                qi as int,
                queue_view(qs1[qi as int], recs1),
            ));
            assert forall|k: int| 0 <= k < qs1.len() implies queue_ok(#[trigger] qs1[k], self.records@, self.limits) by {
                if k != qi {
                    assert(qs1[k] == qs0[k]);
                }
            }
            assert forall|i: int, j: int|
                0 <= i < j < qs1.len() implies qs1[i].group_id@ != qs1[j].group_id@ by {
                assert(qs1[i].group_id == qs0[i].group_id);
                assert(qs1[j].group_id == qs0[j].group_id);
            }
            assert forall|i: int, j: int|
                0 <= i < j < recs1.len() implies recs1[i].intent.idempotency_key@ != recs1[j].intent.idempotency_key@ by {
                assert(recs0[i].intent.idempotency_key@ == recs1[i].intent.idempotency_key@);
                assert(recs0[j].intent.idempotency_key@ == recs1[j].intent.idempotency_key@);
            }
            assert(self.wf());
        }
        t
    }

    /// The first waiting announcement of queue `qi` starts (see [`advance_spec`]).
    fn advance_group(&mut self, qi: usize)
        requires
            old(self).wf(),
            qi < old(self).queues@.len(),
        ensures
            final(self).wf(),
            final(self)@ == advance_spec(old(self)@, qi as int),
            final(self).records@ == old(self).records@,
            same_groups(old(self).queues@, final(self).queues@),
    {
        if self.queues[qi].queued.len() == 0 {
            return;
        }
        let ghost v = self@;
        let ghost qs0 = self.queues@;
        let ghost recs = self.records@;
        proof {
            assert(queue_ok(qs0[qi as int], recs, self.limits));
            assert(v.queues[qi as int] == queue_view(qs0[qi as int], recs));
        }
        let next = self.queues[qi].queued.remove(0);
        let d = self.records[next].intent.max_duration_ms as u64;
        let dur = self.queues[qi].queued_duration_ms;
        self.queues[qi].queued_duration_ms = if dur >= d { dur - d } else { 0 };
        self.queues[qi].active = Some(next);
        proof {
            let q0 = qs0[qi as int];
            let qs1 = self.queues@;
            let q1 = qs1[qi as int];
            assert(q0.queued@[0] == next);
            assert(entry_ok(recs, next, q0.group_id@));
            assert(q1.queued@ =~= q0.queued@.drop_first());
            lemma_load_idx_first(recs, q0.queued@);
            lemma_record_index(v.records, next as int);
            assert(v.records[next as int] == recs[next as int]@);
            assert(queue_ok(q1, recs, self.limits)) by {
                assert forall|k: int| 0 <= k < q1.queued@.len() implies entry_ok(recs, #[trigger] q1.queued@[k], q1.group_id@) by {
                    assert(q1.queued@[k] == q0.queued@[k + 1]);
                }
                assert forall|k: int, l: int| 0 <= k < l < q1.queued@.len() implies q1.queued@[k] != q1.queued@[l] by {
                    assert(q1.queued@[k] == q0.queued@[k + 1]);
                    assert(q1.queued@[l] == q0.queued@[l + 1]);
                }
            }
            assert(queue_view(q1, recs).queued =~= queue_view(q0, recs).queued.drop_first());
            assert(queues_view(qs1, recs) =~= v.queues.update(qi as int, queue_view(q1, recs)));
            assert forall|k: int| 0 <= k < qs1.len() implies queue_ok(#[trigger] qs1[k], recs, self.limits) by {
                if k != qi {
                    assert(qs1[k] == qs0[k]);
                }
            }
            assert forall|i: int, j: int|
                0 <= i < j < qs1.len() implies qs1[i].group_id@ != qs1[j].group_id@ by {
                assert(qs1[i].group_id == qs0[i].group_id);
                assert(qs1[j].group_id == qs0[j].group_id);
            }
        }
    }
}

impl AnnouncementCoordinator {
    /// Group state `si` of record `ri` becomes started.
    fn start_group(&mut self, ri: usize, si: usize)
        requires
            old(self).wf(),
            ri < old(self).records@.len(),
            si < old(self).records@[ri as int].groups@.len(),
        ensures
            final(self).wf(),
            final(self)@ == ({
                let v = old(self)@;
                let r = v.records[ri as int];
                let groups = r.groups.update(
                    si as int,
                    GroupStateView {
                        group_id: r.groups[si as int].group_id,
                        lifecycle: AnnouncementLifecycle::Started,
                        resume_emitted: r.groups[si as int].resume_emitted,
                    },
                );
                CoordinatorView {
                    limits: v.limits,
                    queues: v.queues,
                    records: v.records.update(
                        ri as int,
                        RecordView { id: r.id, intent: r.intent, lifecycle: lifecycle_of(groups), groups },
                    ),
                }
            }),
    {
        let ghost v = self@;
        let ghost recs0 = self.records@;
        let ghost qs0 = self.queues@;
        proof {
            assert(record_ok(recs0[ri as int]));
            assert(v.records[ri as int] == recs0[ri as int]@);
        }
        self.records[ri].groups[si].lifecycle = AnnouncementLifecycle::Started;
        let l = lifecycle_from(&self.records[ri].groups);
        self.records[ri].lifecycle = l;
        proof {
            let recs1 = self.records@;
            let gs1 = recs1[ri as int]@.groups;
            let gs0 = recs0[ri as int]@.groups;
            assert(gs1 =~= gs0.update(
                si as int,
                GroupStateView {
                    group_id: gs0[si as int].group_id,
                    lifecycle: AnnouncementLifecycle::Started,
                    resume_emitted: gs0[si as int].resume_emitted,
                },
            ));
            assert(states_distinct(gs1)) by {
                assert forall|x: int, y: int| 0 <= x < y < gs1.len() implies gs1[x].group_id != gs1[y].group_id by {
                    assert(gs1[x].group_id == gs0[x].group_id);
                    assert(gs1[y].group_id == gs0[y].group_id);
                }
            }
            assert(same_shape(recs0, recs1)) by {
                assert forall|i: int| 0 <= i < recs0.len() implies {
                    &&& (#[trigger] recs0[i]).id@ == recs1[i].id@
                    &&& recs0[i].intent@ == recs1[i].intent@
                    &&& recs0[i].intent.max_duration_ms == recs1[i].intent.max_duration_ms
                    &&& recs0[i].intent.idempotency_key@ == recs1[i].intent.idempotency_key@
                    &&& recs0[i].groups@.len() == recs1[i].groups@.len()
                    &&& forall|j: int|
                        0 <= j < recs0[i].groups@.len() ==> (#[trigger] recs0[i].groups@[j]).group_id@
                            == recs1[i].groups@[j].group_id@
                } by {
                    if i == ri {
                        assert forall|j: int| 0 <= j < recs0[i].groups@.len() implies (#[trigger] recs0[i].groups@[j]).group_id@
                            == recs1[i].groups@[j].group_id@ by {
                            assert(gs0[j].group_id == recs0[i].groups@[j].group_id@);
                            assert(gs1[j].group_id == recs1[i].groups@[j].group_id@);
                        }
                    }
                }
            }
            assert forall|r: int| 0 <= r < recs1.len() implies record_ok(#[trigger] recs1[r]) by {
                if r != ri {
                    assert(recs1[r] == recs0[r]);
                }
            }
            lemma_queues_same_shape(qs0, recs0, recs1, self.limits);
            assert(records_view(recs1) =~= v.records.update(ri as int, recs1[ri as int]@));
            assert forall|i: int, j: int|
                0 <= i < j < recs1.len() implies recs1[i].intent.idempotency_key@ != recs1[j].intent.idempotency_key@ by {
                assert(recs0[i].intent.idempotency_key@ == recs1[i].intent.idempotency_key@);
                assert(recs0[j].intent.idempotency_key@ == recs1[j].intent.idempotency_key@);
            }
        }
    }

    /// A client reports that group `group_id` of announcement `id` reached
    /// `lifecycle` (see [`ack_spec`]).  Terminal reports are idempotent: a
    /// repeated one changes nothing and reports no transition.
    pub fn acknowledge(&mut self, id: &str, group_id: &str, lifecycle: AnnouncementLifecycle) -> (r: Result<
        Vec<AnnouncementTransition>,
        AnnouncementError,
    >)
        requires
            old(self).wf(),
            ack_touches_queue(old(self)@, id@, group_id@, lifecycle) ==> has_queue(
                old(self)@.queues,
                group_id@,
            ),
        ensures
            final(self).wf(),
            (final(self)@, outcome_view(r)) == ack_spec(old(self)@, id@, group_id@, lifecycle),
    {
        let ghost v = self@;
        if lifecycle == AnnouncementLifecycle::Scheduled {
            return Err(AnnouncementError::InvalidLifecycle);
        }
        let ri = match self.find_record(id) {
            Some(i) => i,
            None => {
                return Err(AnnouncementError::NotFound(String::from_str(id)));
            },
        };
        proof {
            assert(record_ok(self.records@[ri as int]));
            assert(v.records[ri as int] == self.records@[ri as int]@);
        }
        let si = match find_state(&self.records[ri].groups, group_id) {
            Some(j) => j,
            None => {
                return Err(AnnouncementError::InvalidTargetGroup(String::from_str(group_id)));
            },
        };
        if lifecycle == AnnouncementLifecycle::Started {
            let qi = match self.find_queue(group_id) {
                Some(k) => k,
                None => {
                    assert(false);
                    return Err(AnnouncementError::InvalidLifecycle);
                },
            };
            proof {
                assert(queue_ok(self.queues@[qi as int], self.records@, self.limits));
                assert(v.queues[qi as int] == queue_view(self.queues@[qi as int], self.records@));
                if let Some(a) = self.queues@[qi as int].active {
                    if a != ri {
                        assert(self.records@[a as int].id@ != self.records@[ri as int].id@) by {
                            if a < ri {} else {}
                        }
                    }
                }
            }
            let playing = match self.queues[qi].active {
                Some(a) => a == ri,
                None => false,
            };
            if !playing {
                return Err(AnnouncementError::InvalidLifecycle);
            }
            if self.records[ri].groups[si].lifecycle == AnnouncementLifecycle::Scheduled {
                self.start_group(ri, si);
                let t = AnnouncementTransition {
                    announcement_id: String::from_str(id),
                    group_id: String::from_str(group_id),
                    lifecycle,
                    resume: false,
                };
                let out = vec![t];
                proof {
                    assert(transitions_view(out@) =~= seq![t@]);
                }
                return Ok(out);
            }
            let out: Vec<AnnouncementTransition> = Vec::new();
            proof {
                assert(transitions_view(out@) =~= Seq::<TransitionView>::empty());
            }
            return Ok(out);
        }
        if self.records[ri].groups[si].lifecycle.terminal() {
            let out: Vec<AnnouncementTransition> = Vec::new();
            proof {
                assert(transitions_view(out@) =~= Seq::<TransitionView>::empty());
            }
            return Ok(out);
        }
        let qi = match self.find_queue(group_id) {
            Some(k) => k,
            None => {
                assert(false);
                return Err(AnnouncementError::InvalidLifecycle);
            },
        };
        let t = self.finish_group(ri, qi, lifecycle);
        assert(self@.queues.len() == self.queues@.len());
        self.advance_group(qi);
        let out = vec![t];
        proof {
            assert(transitions_view(out@) =~= seq![t@]);
        }
        Ok(out)
    }
}

proof fn lemma_load_idx_concat(recs: Seq<AnnouncementRecord>, a: Seq<usize>, b: Seq<usize>)
    ensures
        load_idx(recs, a + b) == load_idx(recs, a) + load_idx(recs, b),
    decreases b.len(),
{
    if b.len() > 0 {
        lemma_load_idx_concat(recs, a, b.drop_last());
        assert((a + b).drop_last() =~= a + b.drop_last());
        assert((a + b).last() == b.last());
    } else {
        assert(a + b =~= a);
    }
}

proof fn lemma_load_idx_remove(recs: Seq<AnnouncementRecord>, s: Seq<usize>, p: int)
    requires
        0 <= p < s.len(),
    ensures
        load_idx(recs, s) == load_idx(recs, s.remove(p)) + recs[s[p] as int].intent.max_duration_ms as nat,
{
    let a = s.subrange(0, p);
    let b = s.subrange(p + 1, s.len() as int);
    assert(s =~= a + (seq![s[p]] + b));
    assert(s.remove(p) =~= a + b);
    lemma_load_idx_concat(recs, a, seq![s[p]] + b);
    lemma_load_idx_concat(recs, seq![s[p]], b);
    lemma_load_idx_concat(recs, a, b);
    assert(seq![s[p]].drop_last().len() == 0);
    assert(load_idx(recs, seq![s[p]].drop_last()) == 0);
}

proof fn lemma_load_bridge(recs: Seq<AnnouncementRecord>, idx: Seq<usize>)
    requires
        ids_distinct(recs),
        forall|k: int| 0 <= k < idx.len() ==> #[trigger] idx[k] < recs.len(),
    ensures
        load(records_view(recs), idx.map_values(|i: usize| recs[i as int].id@)) == load_idx(recs, idx),
    decreases idx.len(),
{
    if idx.len() > 0 {
        let rv = records_view(recs);
        lemma_load_bridge(recs, idx.drop_last());
        assert(idx.map_values(|i: usize| recs[i as int].id@).drop_last() =~= idx.drop_last().map_values(
            |i: usize| recs[i as int].id@,
        ));
        assert forall|i: int, j: int| 0 <= i < j < rv.len() implies rv[i].id != rv[j].id by {
            assert(rv[i].id == recs[i].id@);
            assert(rv[j].id == recs[j].id@);
        }
        assert(idx.last() < recs.len()) by {
            assert(idx[idx.len() - 1] < recs.len());
        }
        lemma_record_index(rv, idx.last() as int);
    }
}

impl AnnouncementCoordinator {
    /// Cancels record `ri` in queue `qi` (see [`cancel_group_spec`]).
    #[verifier::rlimit(40)]
    fn cancel_in_group(&mut self, ri: usize, qi: usize) -> (t: AnnouncementTransition)
        requires
            old(self).wf(),
            ri < old(self).records@.len(),
            qi < old(self).queues@.len(),
            has_state(old(self)@.records[ri as int].groups, old(self)@.queues[qi as int].group_id),
        ensures
            final(self).wf(),
            (final(self)@, t@) == cancel_group_spec(
                old(self)@,
                old(self)@.records[ri as int].id,
                old(self)@.queues[qi as int].group_id,
            ),
            same_shape(old(self).records@, final(self).records@),
            forall|b: int| 0 <= b < old(self).records@.len() && b != ri ==> final(self).records@[b] == old(self).records@[b],
            same_groups(old(self).queues@, final(self).queues@),
    {
        let ghost v = self@;
        let ghost recs = self.records@;
        let ghost qs0 = self.queues@;
        let ghost id = v.records[ri as int].id;
        let ghost g = v.queues[qi as int].group_id;
        proof {
            assert(queue_ok(qs0[qi as int], recs, self.limits));
            assert(v.queues[qi as int] == queue_view(qs0[qi as int], recs));
            assert forall|i: int, j: int| 0 <= i < j < v.records.len() implies v.records[i].id != v.records[j].id by {
                assert(v.records[i].id == recs[i].id@);
                assert(v.records[j].id == recs[j].id@);
            }
            lemma_record_index(v.records, ri as int);
            assert forall|i: int, j: int| 0 <= i < j < v.queues.len() implies v.queues[i].group_id != v.queues[j].group_id by {
                assert(v.queues[i].group_id == qs0[i].group_id@);
                assert(v.queues[j].group_id == qs0[j].group_id@);
            }
            lemma_queue_index(v.queues, qi as int);
        }
        let n = self.queues[qi].queued.len();
        let mut p: usize = 0;
        while p < n && self.queues[qi].queued[p] != ri
            invariant
                qi < self.queues@.len(),
                n == self.queues@[qi as int].queued@.len(),
                0 <= p <= n,
                forall|k: int| 0 <= k < p ==> self.queues@[qi as int].queued@[k] != ri,
            decreases n - p,
        {
            p = p + 1;
        }
        let ghost q = v.queues[qi as int];
        let ghost qc = qs0[qi as int];
        proof {
            // The waiting ids are those of distinct records.
            assert forall|k: int| 0 <= k < qc.queued@.len() implies (q.queued[k] == id <==> qc.queued@[k] == ri) by {
                assert(entry_ok(recs, qc.queued@[k], qc.group_id@));
                assert(q.queued[k] == recs[qc.queued@[k] as int].id@);
                if qc.queued@[k] != ri {
                    if qc.queued@[k] < ri {} else {}
                }
            }
        }
        if p < n {
            let ghost before = self.queues@[qi as int].queued@;
            self.queues[qi].queued.remove(p);
            let d = self.records[ri].intent.max_duration_ms as u64;
            proof {
                lemma_load_idx_remove(recs, before, p as int);
                assert(before[p as int] == ri);
            }
            let dur = self.queues[qi].queued_duration_ms;
            self.queues[qi].queued_duration_ms = dur - d;
            proof {
                let qs1 = self.queues@;
                let q1 = qs1[qi as int];
                let rest = before.remove(p as int);
                assert(q1.queued@ =~= rest);
                assert(q.queued.contains(id)) by {
                    assert(q.queued[p as int] == id);
                }
                let pi = q.queued.index_of(id);
                assert(q.queued[pi] == id);
                assert(pi == p) by {
                    if pi != p {
                        assert(qc.queued@[pi] == ri);
                        if pi < p {} else {}
                    }
                }
                assert forall|k: int| 0 <= k < rest.len() implies #[trigger] rest[k] < recs.len() by {
                    let k0 = if k < p { k } else { k + 1 };
                    assert(rest[k] == before[k0]);
                    assert(entry_ok(recs, before[k0], qc.group_id@));
                }
                lemma_load_bridge(recs, rest);
                assert(rest.map_values(|i: usize| recs[i as int].id@) =~= q.queued.remove(p as int));
                assert(queue_ok(q1, recs, self.limits)) by {
                    assert forall|k: int| 0 <= k < q1.queued@.len() implies entry_ok(recs, #[trigger] q1.queued@[k], q1.group_id@) by {
                        let k0 = if k < p { k } else { k + 1 };
                        assert(q1.queued@[k] == before[k0]);
                    }
                    assert forall|k: int, l: int| 0 <= k < l < q1.queued@.len() implies q1.queued@[k] != q1.queued@[l] by {
                        let k0 = if k < p { k } else { k + 1 };
                        let l0 = if l < p { l } else { l + 1 };
                        assert(q1.queued@[k] == before[k0]);
                        assert(q1.queued@[l] == before[l0]);
                    }
                }
                assert(queues_view(qs1, recs) =~= v.queues.update(
                    qi as int,
                    QueueView { group_id: q.group_id, active: q.active, queued: q.queued.remove(p as int), queued_duration_ms: load(v.records, q.queued.remove(p as int)) },
                ));
                assert forall|k: int| 0 <= k < qs1.len() implies queue_ok(#[trigger] qs1[k], recs, self.limits) by {
                    if k != qi {
                        assert(qs1[k] == qs0[k]);
                    }
                }
                assert forall|i: int, j: int|
                    0 <= i < j < qs1.len() implies qs1[i].group_id@ != qs1[j].group_id@ by {
                    assert(qs1[i].group_id == qs0[i].group_id);
                    assert(qs1[j].group_id == qs0[j].group_id);
                }
            }
        } else {
            proof {
                assert(!q.queued.contains(id)) by {
                    if q.queued.contains(id) {
                        let k = choose|k: int| 0 <= k < q.queued.len() && q.queued[k] == id;
                        assert(qc.queued@[k] == ri);
                    }
                }
            }
        }
        assert(same_groups(qs0, self.queues@)) by {
            assert forall|k: int| 0 <= k < qs0.len() implies (#[trigger] qs0[k]).group_id@ == self.queues@[k].group_id@ by {
                if k != qi {
                    assert(qs0[k] == self.queues@[k]);
                }
            }
        }
        let ghost qs_mid = self.queues@;
        let t = self.finish_group(ri, qi, AnnouncementLifecycle::Cancelled);
        let ghost qs_fin = self.queues@;
        assert(self@.queues.len() == self.queues@.len());
        assert(self@.queues[qi as int] == queue_view(self.queues@[qi as int], self.records@));
        if self.queues[qi].active.is_none() {
            self.advance_group(qi);
        }
        assert(same_groups(qs0, self.queues@)) by {
            assert forall|k: int| 0 <= k < qs0.len() implies (#[trigger] qs0[k]).group_id@ == self.queues@[k].group_id@ by {
                assert(qs0[k].group_id@ == qs_mid[k].group_id@);
                assert(qs_mid[k].group_id@ == qs_fin[k].group_id@);
            }
        }
        t
    }
}

/// Whether every group where record `ri` is still open has a queue.
pub open spec fn open_groups_known(v: CoordinatorView, ri: int) -> bool {
    forall|k: int|
        0 <= k < open_groups(v.records[ri].groups).len() ==> has_queue(
            v.queues,
            #[trigger] open_groups(v.records[ri].groups)[k],
        )
}

proof fn lemma_open_groups_take(gs: Seq<GroupStateView>, j: int)
    requires
        0 <= j < gs.len(),
    ensures
        open_groups(gs.take(j + 1)) == if gs[j].lifecycle.is_terminal() {
            open_groups(gs.take(j))
        } else {
            open_groups(gs.take(j)).push(gs[j].group_id)
        },
{
    assert(gs.take(j + 1).drop_last() =~= gs.take(j));
    assert(gs.take(j + 1).last() == gs[j]);
}

proof fn lemma_same_shape_trans(a: Seq<AnnouncementRecord>, b: Seq<AnnouncementRecord>, c: Seq<AnnouncementRecord>)
    requires
        same_shape(a, b),
        same_shape(b, c),
    ensures
        same_shape(a, c),
{
    assert forall|i: int| 0 <= i < a.len() implies {
        &&& (#[trigger] a[i]).id@ == c[i].id@
        &&& a[i].intent@ == c[i].intent@
        &&& a[i].intent.max_duration_ms == c[i].intent.max_duration_ms
        &&& a[i].intent.idempotency_key@ == c[i].intent.idempotency_key@
        &&& a[i].groups@.len() == c[i].groups@.len()
        &&& forall|j: int|
            0 <= j < a[i].groups@.len() ==> (#[trigger] a[i].groups@[j]).group_id@ == c[i].groups@[j].group_id@
    } by {
        assert(b[i].id@ == c[i].id@);
        assert forall|j: int| 0 <= j < a[i].groups@.len() implies (#[trigger] a[i].groups@[j]).group_id@
            == c[i].groups@[j].group_id@ by {
            assert(b[i].groups@[j].group_id@ == c[i].groups@[j].group_id@);
        }
    }
}

proof fn lemma_same_shape_refl(a: Seq<AnnouncementRecord>)
    ensures
        same_shape(a, a),
{
}

proof fn lemma_same_groups_trans(a: Seq<GroupQueue>, b: Seq<GroupQueue>, c: Seq<GroupQueue>)
    requires
        same_groups(a, b),
        same_groups(b, c),
    ensures
        same_groups(a, c),
{
    assert forall|k: int| 0 <= k < a.len() implies (#[trigger] a[k]).group_id@ == c[k].group_id@ by {
        assert(b[k].group_id@ == c[k].group_id@);
    }
}

proof fn lemma_has_queue_same_groups(a: Seq<GroupQueue>, b: Seq<GroupQueue>, ra: Seq<AnnouncementRecord>, rb: Seq<AnnouncementRecord>, g: Seq<char>)
    requires
        same_groups(a, b),
        has_queue(queues_view(a, ra), g),
    ensures
        has_queue(queues_view(b, rb), g),
{
    let k = choose|k: int| 0 <= k < queues_view(a, ra).len() && (#[trigger] queues_view(a, ra)[k]).group_id == g;
    assert(queues_view(b, rb)[k].group_id == g);
}

impl AnnouncementCoordinator {
    /// Cancels record `ri` in every group where it is still open.
    fn cancel_at(&mut self, ri: usize) -> (ts: Vec<AnnouncementTransition>)
        requires
            old(self).wf(),
            ri < old(self).records@.len(),
            open_groups_known(old(self)@, ri as int),
        ensures
            final(self).wf(),
            (final(self)@, Ok::<Seq<TransitionView>, ErrorView>(transitions_view(ts@))) == cancel_spec(
                old(self)@,
                old(self)@.records[ri as int].id,
            ),
            same_shape(old(self).records@, final(self).records@),
            forall|b: int| 0 <= b < old(self).records@.len() && b != ri ==> final(self).records@[b] == old(self).records@[b],
            same_groups(old(self).queues@, final(self).queues@),
    {
        let ghost v0 = self@;
        let ghost recs0 = self.records@;
        let ghost qs0 = self.queues@;
        let ghost id = v0.records[ri as int].id;
        let ghost gs = v0.records[ri as int].groups;
        proof {
            assert(v0.records[ri as int] == recs0[ri as int]@);
            assert forall|i: int, j: int| 0 <= i < j < v0.records.len() implies v0.records[i].id != v0.records[j].id by {
                assert(v0.records[i].id == recs0[i].id@);
                assert(v0.records[j].id == recs0[j].id@);
            }
            lemma_record_index(v0.records, ri as int);
            assert(gs.take(0) =~= Seq::<GroupStateView>::empty());
        }
        let mut targets: Vec<String> = Vec::new();
        let mut j: usize = 0;
        while j < self.records[ri].groups.len()
            invariant
                ri < self.records@.len(),
                gs == self.records@[ri as int]@.groups,
                0 <= j <= gs.len(),
                targets@.map_values(|s: String| s@) == open_groups(gs.take(j as int)),
                forall|m: int| 0 <= m < targets@.len() ==> has_state(gs, (#[trigger] targets@[m])@),
            decreases gs.len() - j,
        {
            proof {
                lemma_open_groups_take(gs, j as int);
                assert(gs[j as int] == self.records@[ri as int].groups@[j as int]@);
            }
            if !self.records[ri].groups[j].lifecycle.terminal() {
                let ghost before = targets@;
                targets.push(self.records[ri].groups[j].group_id.clone());
                proof {
                    assert(targets@.map_values(|s: String| s@) =~= before.map_values(|s: String| s@).push(
                        gs[j as int].group_id,
                    ));
                    assert(gs[j as int].group_id == gs[j as int].group_id);
                }
            }
            j = j + 1;
        }
        let ghost tv = targets@.map_values(|s: String| s@);
        proof {
            assert(gs.take(gs.len() as int) =~= gs);
        }
        let mut ts: Vec<AnnouncementTransition> = Vec::new();
        let mut k: usize = 0;
        proof {
            lemma_same_shape_refl(recs0);
            assert(transitions_view(ts@) =~= Seq::<TransitionView>::empty());
        }
        while k < targets.len()
            invariant
                self.wf(),
                tv == targets@.map_values(|s: String| s@),
                tv == open_groups(gs),
                forall|m: int| 0 <= m < targets@.len() ==> has_state(gs, (#[trigger] targets@[m])@),
                open_groups_known(v0, ri as int),
                gs == v0.records[ri as int].groups,
                id == v0.records[ri as int].id,
                ri < recs0.len(),
                0 <= k <= targets@.len(),
                (self@, transitions_view(ts@)) == cancel_groups_spec(v0, id, tv, k as int),
                same_shape(recs0, self.records@),
                forall|b: int| 0 <= b < recs0.len() && b != ri ==> self.records@[b] == recs0[b],
                same_groups(qs0, self.queues@),
                v0 == (CoordinatorView { limits: v0.limits, queues: queues_view(qs0, recs0), records: records_view(recs0) }),
            decreases targets@.len() - k,
        {
            let g = targets[k].as_str();
            proof {
                assert(tv[k as int] == g@);
                assert(has_queue(v0.queues, tv[k as int]));
                lemma_has_queue_same_groups(qs0, self.queues@, recs0, self.records@, g@);
            }
            let qi = match self.find_queue(g) {
                Some(x) => x,
                None => {
                    assert(false);
                    return ts;
                },
            };
            proof {
                assert(has_state(gs, g@));
                assert(recs0[ri as int].groups@.len() == self.records@[ri as int].groups@.len());
                let js = choose|js: int| 0 <= js < gs.len() && (#[trigger] gs[js]).group_id == g@;
                assert(gs[js].group_id == recs0[ri as int].groups@[js].group_id@);
                assert(self@.records[ri as int].groups[js].group_id == self.records@[ri as int].groups@[js].group_id@);
                assert(has_state(self@.records[ri as int].groups, g@));
                assert(self@.records[ri as int].id == self.records@[ri as int].id@);
            }
            let ghost recs_before = self.records@;
            let ghost qs_before = self.queues@;
            let t = self.cancel_in_group(ri, qi);
            proof {
                lemma_same_shape_trans(recs0, recs_before, self.records@);
                lemma_same_groups_trans(qs0, qs_before, self.queues@);
            }
            let ghost before_ts = ts@;
            ts.push(t);
            proof {
                assert(transitions_view(ts@) =~= transitions_view(before_ts).push(t@));
            }
            k = k + 1;
        }
        ts
    }

    /// Cancels announcement `id` in every group where it is still open (see
    /// [`cancel_spec`]).  A group it played in resumes at most once.
    pub fn cancel(&mut self, id: &str) -> (r: Result<Vec<AnnouncementTransition>, AnnouncementError>)
        requires
            old(self).wf(),
            has_record(old(self)@.records, id@) ==> open_groups_known(
                old(self)@,
                record_index(old(self)@.records, id@),
            ),
        ensures
            final(self).wf(),
            (final(self)@, outcome_view(r)) == cancel_spec(old(self)@, id@),
    {
        match self.find_record(id) {
            None => Err(AnnouncementError::NotFound(String::from_str(id))),
            Some(ri) => {
                assert(self@.records[ri as int].id == self.records@[ri as int].id@);
                let ts = self.cancel_at(ri);
                Ok(ts)
            },
        }
    }
}

/// Whether every expired, still open record has a queue for each of its open
/// groups.
pub open spec fn expiry_groups_known(v: CoordinatorView, now_ms: i64) -> bool {
    forall|r: int|
        0 <= r < v.records.len() && (#[trigger] v.records[r]).intent.expires_at_ms <= now_ms && is_open(
            v.records[r],
        ) ==> open_groups_known(v, r)
}

proof fn lemma_expired_ids_take(rv: Seq<RecordView>, i: int, now_ms: i64)
    requires
        0 <= i < rv.len(),
    ensures
        expired_ids(rv.take(i + 1), now_ms) == if rv[i].intent.expires_at_ms <= now_ms && is_open(rv[i]) {
            expired_ids(rv.take(i), now_ms).push(rv[i].id)
        } else {
            expired_ids(rv.take(i), now_ms)
        },
{
    assert(rv.take(i + 1).drop_last() =~= rv.take(i));
    assert(rv.take(i + 1).last() == rv[i]);
}

/// Whether some group of `r` is not terminal yet.
fn record_open(r: &AnnouncementRecord) -> (b: bool)
    ensures
        b == is_open(r@),
{
    let mut j: usize = 0;
    while j < r.groups.len()
        invariant
            0 <= j <= r.groups@.len(),
            forall|m: int| 0 <= m < j ==> (#[trigger] r.groups@[m]).lifecycle.is_terminal(),
        decreases r.groups@.len() - j,
    {
        if !r.groups[j].lifecycle.terminal() {
            assert(!r@.groups[j as int].lifecycle.is_terminal());
            return true;
        }
        j = j + 1;
    }
    proof {
        if is_open(r@) {
            let m = choose|m: int| 0 <= m < r@.groups.len() && !(#[trigger] r@.groups[m]).lifecycle.is_terminal();
            assert(r.groups@[m].lifecycle.is_terminal());
        }
    }
    false
}

impl AnnouncementCoordinator {
    /// Cancels every announcement whose deadline is at or before `now_ms` and
    /// that is still open somewhere, in admission order (see [`expire_spec`]).
    pub fn expire(&mut self, now_ms: i64) -> (r: Vec<AnnouncementTransition>)
        requires
            old(self).wf(),
            expiry_groups_known(old(self)@, now_ms),
        ensures
            final(self).wf(),
            (final(self)@, transitions_view(r@)) == expire_spec(old(self)@, now_ms),
    {
        let ghost v0 = self@;
        let ghost recs0 = self.records@;
        let ghost qs0 = self.queues@;
        let ghost rv = v0.records;
        proof {
            assert(rv.take(0) =~= Seq::<RecordView>::empty());
        }
        let mut ex: Vec<usize> = Vec::new();
        let mut i: usize = 0;
        while i < self.records.len()
            invariant
                v0 == self@,
                rv == v0.records,
                0 <= i <= self.records@.len(),
                ex@.map_values(|x: usize| rv[x as int].id) == expired_ids(rv.take(i as int), now_ms),
                forall|m: int| 0 <= m < ex@.len() ==> #[trigger] ex@[m] < i,
                forall|a: int, b: int| 0 <= a < b < ex@.len() ==> ex@[a] < ex@[b],
                forall|m: int|
                    0 <= m < ex@.len() ==> (#[trigger] rv[ex@[m] as int]).intent.expires_at_ms <= now_ms
                        && is_open(rv[ex@[m] as int]),
            decreases self.records@.len() - i,
        {
            proof {
                lemma_expired_ids_take(rv, i as int, now_ms);
                assert(rv[i as int] == self.records@[i as int]@);
            }
            if self.records[i].intent.expires_at_ms <= now_ms && record_open(&self.records[i]) {
                let ghost before = ex@;
                ex.push(i);
                proof {
                    assert(ex@.map_values(|x: usize| rv[x as int].id) =~= before.map_values(
                        |x: usize| rv[x as int].id,
                    ).push(rv[i as int].id));
                }
            }
            i = i + 1;
        }
        let ghost ids = ex@.map_values(|x: usize| rv[x as int].id);
        proof {
            assert(rv.take(rv.len() as int) =~= rv);
            lemma_same_shape_refl(recs0);
        }
        let mut out: Vec<AnnouncementTransition> = Vec::new();
        let mut k: usize = 0;
        proof {
            assert(transitions_view(out@) =~= Seq::<TransitionView>::empty());
        }
        while k < ex.len()
            invariant
                self.wf(),
                ids == ex@.map_values(|x: usize| rv[x as int].id),
                ids == expired_ids(rv, now_ms),
                rv == v0.records,
                v0 == (CoordinatorView { limits: v0.limits, queues: queues_view(qs0, recs0), records: records_view(recs0) }),
                expiry_groups_known(v0, now_ms),
                forall|m: int| 0 <= m < ex@.len() ==> #[trigger] ex@[m] < recs0.len(),
                forall|a: int, b: int| 0 <= a < b < ex@.len() ==> ex@[a] < ex@[b],
                forall|m: int|
                    0 <= m < ex@.len() ==> (#[trigger] rv[ex@[m] as int]).intent.expires_at_ms <= now_ms
                        && is_open(rv[ex@[m] as int]),
                0 <= k <= ex@.len(),
                (self@, transitions_view(out@)) == cancel_all_spec(v0, ids, k as int),
                same_shape(recs0, self.records@),
                same_groups(qs0, self.queues@),
                forall|m: int| k <= m < ex@.len() ==> self.records@[#[trigger] ex@[m] as int] == recs0[ex@[m] as int],
            decreases ex@.len() - k,
        {
            let ri = ex[k];
            proof {
                assert(ex@[k as int] == ri);
                assert(self.records@[ri as int] == recs0[ri as int]);
                assert(rv[ri as int].intent.expires_at_ms <= now_ms && is_open(rv[ri as int]));
                assert(open_groups_known(v0, ri as int));
                assert(self@.records[ri as int] == rv[ri as int]);
                assert forall|m: int| 0 <= m < open_groups(self@.records[ri as int].groups).len() implies has_queue(
                    self@.queues,
                    #[trigger] open_groups(self@.records[ri as int].groups)[m],
                ) by {
                    lemma_has_queue_same_groups(qs0, self.queues@, recs0, self.records@, open_groups(rv[ri as int].groups)[m]);
                }
                assert(self@.records[ri as int].id == ids[k as int]);
            }
            let ghost recs_before = self.records@;
            let ghost qs_before = self.queues@;
            let ghost out_before = out@;
            let mut ts = self.cancel_at(ri);
            let ghost ts_v = transitions_view(ts@);
            out.append(&mut ts);
            proof {
                lemma_same_shape_trans(recs0, recs_before, self.records@);
                lemma_same_groups_trans(qs0, qs_before, self.queues@);
                assert(transitions_view(out@) =~= transitions_view(out_before) + ts_v);
                assert forall|m: int| k + 1 <= m < ex@.len() implies self.records@[#[trigger] ex@[m] as int] == recs0[ex@[m] as int] by {
                    assert(ex@[k as int] < ex@[m]);
                    assert(recs_before[ex@[m] as int] == recs0[ex@[m] as int]);
                }
            }
            k = k + 1;
        }
        out
    }
}

/// The view of an admission answer.
pub open spec fn admission_view(r: Result<AnnouncementAdmission, AnnouncementError>) -> Result<
    (Seq<char>, AnnouncementLifecycle, bool),
    ErrorView,
> {
    match r {
        Ok(a) => Ok((a.id@, a.lifecycle, a.duplicate)),
        Err(e) => Err(e@),
    }
}

proof fn lemma_capacity_none(v: CoordinatorView, i: IntentView, k: int)
    requires
        0 <= k <= i.target_groups.len(),
        forall|j: int| k <= j < i.target_groups.len() ==> slot_error(v, i, #[trigger] i.target_groups[j]) is None,
    ensures
        capacity_error(v, i, k) is None,
    decreases i.target_groups.len() - k,
{
    if k < i.target_groups.len() {
        lemma_capacity_none(v, i, k + 1);
    }
}

proof fn lemma_capacity_some(v: CoordinatorView, i: IntentView, k: int, m: int)
    requires
        0 <= k <= m < i.target_groups.len(),
        forall|j: int| k <= j < m ==> slot_error(v, i, #[trigger] i.target_groups[j]) is None,
        slot_error(v, i, i.target_groups[m]) is Some,
    ensures
        capacity_error(v, i, k) == slot_error(v, i, i.target_groups[m]),
    decreases m - k,
{
    if k < m {
        lemma_capacity_some(v, i, k + 1, m);
    }
}

proof fn lemma_targets_distinct(known: Seq<Seq<char>>, t: Seq<Seq<char>>)
    requires
        first_bad_target(known, t, 0) is None,
    ensures
        forall|a: int, b: int| 0 <= a < b < t.len() ==> t[a] != t[b],
        forall|a: int| 0 <= a < t.len() ==> known.contains(#[trigger] t[a]),
{
    assert forall|b: int| 0 <= b < t.len() implies known.contains(#[trigger] t[b]) && !t.subrange(0, b).contains(t[b]) by {
        lemma_first_bad_target_prefix(known, t, 0, b);
    }
    assert forall|a: int, b: int| 0 <= a < b < t.len() implies t[a] != t[b] by {
        assert(known.contains(t[b]) && !t.subrange(0, b).contains(t[b]));
        assert(t.subrange(0, b)[a] == t[a]);
    }
}

proof fn lemma_first_bad_target_prefix(known: Seq<Seq<char>>, t: Seq<Seq<char>>, k: int, b: int)
    requires
        0 <= k <= b < t.len(),
        first_bad_target(known, t, k) is None,
    ensures
        known.contains(t[b]) && !t.subrange(0, b).contains(t[b]),
    decreases b - k,
{
    if k < b {
        lemma_first_bad_target_prefix(known, t, k + 1, b);
    }
}

/// Whether an announcement of priority rank `rank` and maximum duration
/// `dur` may take its place in `q` without breaking the queue's limits.
spec fn slot_ok_i(q: GroupQueue, recs: Seq<AnnouncementRecord>, rank: u8, dur: u32, lim: AnnouncementLimits) -> bool {
    let cut = match q.active {
        Some(a) => recs[a as int].intent.priority.rank_spec() < rank,
        None => false,
    };
    !cut ==> (q.queued@.len() < lim.max_queue_depth_per_group && q.queued_duration_ms + dur
        <= lim.max_queued_duration_ms_per_group)
}

spec fn slot_ok_c(q: GroupQueue, recs: Seq<AnnouncementRecord>, rn: int, lim: AnnouncementLimits) -> bool {
    slot_ok_i(q, recs, recs[rn].intent.priority.rank_spec(), recs[rn].intent.max_duration_ms, lim)
}

spec fn queue_excludes(q: GroupQueue, rn: usize) -> bool {
    &&& q.active != Some(rn)
    &&& forall|k: int| 0 <= k < q.queued@.len() ==> q.queued@[k] != rn
}

/// Exact comparison of two intents, the attenuation as a float.
fn same_intent_exec(a: &AnnouncementIntent, b: &AnnouncementIntent) -> (r: bool)
    ensures
        r == same_intent(a@, b@),
{
    if a.version != b.version || !str_equal(a.idempotency_key.as_str(), b.idempotency_key.as_str()) {
        return false;
    }
    let n = a.target_groups.len();
    if n != b.target_groups.len() {
        proof {
            assert(a@.target_groups.len() != b@.target_groups.len());
        }
        return false;
    }
    let mut k: usize = 0;
    while k < n
        invariant
            n == a.target_groups@.len(),
            n == b.target_groups@.len(),
            0 <= k <= n,
            forall|j: int| 0 <= j < k ==> a@.target_groups[j] == b@.target_groups[j],
        decreases n - k,
    {
        if !str_equal(a.target_groups[k].as_str(), b.target_groups[k].as_str()) {
            assert(a@.target_groups[k as int] != b@.target_groups[k as int]);
            return false;
        }
        k = k + 1;
    }
    assert(a@.target_groups =~= b@.target_groups);
    let sa = match &a.source {
        AnnouncementSource::Uri(u) => u.as_str(),
    };
    let sb = match &b.source {
        AnnouncementSource::Uri(u) => u.as_str(),
    };
    let x = a.duck.attenuation_db_bits;
    let y = b.duck.attenuation_db_bits;
    let x_nan = (x & 0x7f80_0000u32) == 0x7f80_0000u32 && (x & 0x007f_ffffu32) != 0;
    let y_nan = (y & 0x7f80_0000u32) == 0x7f80_0000u32 && (y & 0x007f_ffffu32) != 0;
    let att_eq = !x_nan && !y_nan && (x == y || ((x == 0 || x == 0x8000_0000u32) && (y == 0 || y
        == 0x8000_0000u32)));
    a.priority == b.priority && str_equal(sa, sb) && att_eq && a.duck.attack_ms == b.duck.attack_ms
        && a.duck.release_ms == b.duck.release_ms && a.max_duration_ms == b.max_duration_ms
        && a.expires_at_ms == b.expires_at_ms && a.resume == b.resume
}

impl AnnouncementCoordinator {
    /// Index of the record whose idempotency key is `key`.
    fn find_key(&self, key: &str) -> (r: Option<usize>)
        requires
            self.wf(),
        ensures
            match r {
                Some(i) => i < self.records@.len() && has_key(self@.records, key@) && key_index(
                    self@.records,
                    key@,
                ) == i,
                None => !has_key(self@.records, key@),
            },
    {
        let ghost rv = self@.records;
        proof {
            assert forall|i: int, j: int|
                0 <= i < j < rv.len() implies rv[i].intent.idempotency_key != rv[j].intent.idempotency_key by {
                assert(rv[i].intent.idempotency_key == self.records@[i].intent.idempotency_key@);
                assert(rv[j].intent.idempotency_key == self.records@[j].intent.idempotency_key@);
            }
        }
        let mut i: usize = 0;
        while i < self.records.len()
            invariant
                rv == self@.records,
                forall|a: int, b: int|
                    0 <= a < b < rv.len() ==> rv[a].intent.idempotency_key != rv[b].intent.idempotency_key,
                0 <= i <= self.records@.len(),
                forall|k: int| 0 <= k < i ==> (#[trigger] rv[k]).intent.idempotency_key != key@,
            decreases self.records@.len() - i,
        {
            if str_equal(self.records[i].intent.idempotency_key.as_str(), key) {
                proof {
                    lemma_key_index(rv, i as int);
                }
                return Some(i);
            }
            i = i + 1;
        }
        proof {
            if has_key(rv, key@) {
                let k = choose|k: int| 0 <= k < rv.len() && (#[trigger] rv[k]).intent.idempotency_key == key@;
                assert(rv[k].intent.idempotency_key != key@);
            }
        }
        None
    }

    /// The names of the known groups.
    fn group_names(&self) -> (names: Vec<String>)
        ensures
            names@.map_values(|g: String| g@) == self@.queues.map_values(|q: QueueView| q.group_id),
    {
        let mut names: Vec<String> = Vec::new();
        let mut k: usize = 0;
        while k < self.queues.len()
            invariant
                0 <= k <= self.queues@.len(),
                names@.len() == k,
                forall|j: int| 0 <= j < k ==> (#[trigger] names@[j])@ == self.queues@[j].group_id@,
            decreases self.queues@.len() - k,
        {
            names.push(self.queues[k].group_id.clone());
            k = k + 1;
        }
        assert(names@.map_values(|g: String| g@) =~= self@.queues.map_values(|q: QueueView| q.group_id));
        names
    }
}

impl AnnouncementCoordinator {
    /// Places the newest record `rn` in queue `qi` (see [`place_step`]).
    #[verifier::rlimit(40)]
    fn place_in(&mut self, rn: usize, qi: usize)
        requires
            old(self).wf(),
            rn + 1 == old(self).records@.len(),
            qi < old(self).queues@.len(),
            has_state(old(self)@.records[rn as int].groups, old(self)@.queues[qi as int].group_id),
            queue_excludes(old(self).queues@[qi as int], rn),
            slot_ok_c(old(self).queues@[qi as int], old(self).records@, rn as int, old(self).limits),
        ensures
            final(self).wf(),
            final(self)@ == place_step(
                old(self)@,
                old(self)@.records[rn as int].intent,
                old(self)@.records[rn as int].id,
                old(self)@.queues[qi as int].group_id,
            ),
            same_shape(old(self).records@, final(self).records@),
            final(self).records@[rn as int] == old(self).records@[rn as int],
            forall|k: int| 0 <= k < old(self).queues@.len() && k != qi ==> final(self).queues@[k] == old(self).queues@[k],
            same_groups(old(self).queues@, final(self).queues@),
    {
        let ghost v = self@;
        let ghost recs0 = self.records@;
        let ghost qs0 = self.queues@;
        let ghost i = v.records[rn as int].intent;
        let ghost id = v.records[rn as int].id;
        let ghost g = v.queues[qi as int].group_id;
        proof {
            assert(queue_ok(qs0[qi as int], recs0, self.limits));
            assert(v.queues[qi as int] == queue_view(qs0[qi as int], recs0));
            assert(v.records[rn as int] == recs0[rn as int]@);
            assert forall|a: int, b: int| 0 <= a < b < v.records.len() implies v.records[a].id != v.records[b].id by {
                assert(v.records[a].id == recs0[a].id@);
                assert(v.records[b].id == recs0[b].id@);
            }
            assert forall|a: int, b: int| 0 <= a < b < v.queues.len() implies v.queues[a].group_id != v.queues[b].group_id by {
                assert(v.queues[a].group_id == qs0[a].group_id@);
                assert(v.queues[b].group_id == qs0[b].group_id@);
            }
            lemma_queue_index(v.queues, qi as int);
            if let Some(a) = qs0[qi as int].active {
                lemma_record_index(v.records, a as int);
                assert(v.records[a as int] == recs0[a as int]@);
            }
        }
        let cut = match self.queues[qi].active {
            Some(a) => self.records[a].intent.priority.rank() < self.records[rn].intent.priority.rank(),
            None => false,
        };
        assert(cut == interrupts(v.records, i, v.queues[qi as int]));
        if cut {
            let a = match self.queues[qi].active {
                Some(a) => a,
                None => {
                    assert(false);
                    0
                },
            };
            proof {
                assert(entry_ok(recs0, a, qs0[qi as int].group_id@));
                assert(v.records[a as int] == recs0[a as int]@);
                assert(a != rn);
            }
            let _ = self.finish_group(a, qi, AnnouncementLifecycle::Cancelled);
            let ghost qs1 = self.queues@;
            let ghost recs1 = self.records@;
            proof {
                assert(recs1[rn as int] == recs0[rn as int]);
                assert(self@.queues.len() == qs1.len());
            }
            self.queues[qi].active = Some(rn);
            proof {
                let qs2 = self.queues@;
                assert(qs2 =~= qs1.update(qi as int, qs2[qi as int]));
                assert(entry_ok(recs1, rn, qs2[qi as int].group_id@)) by {
                    lemma_has_state_same(recs0[rn as int], recs1[rn as int], g);
                }
                assert(queue_ok(qs1[qi as int], recs1, self.limits));
                assert(queue_ok(qs2[qi as int], recs1, self.limits));
                assert(queues_view(qs2, recs1) =~= queues_view(qs1, recs1).update(
                    qi as int,
                    queue_view(qs2[qi as int], recs1),
                ));
                assert forall|k: int| 0 <= k < qs2.len() implies queue_ok(#[trigger] qs2[k], recs1, self.limits) by {
                    if k != qi {
                        assert(qs2[k] == qs1[k]);
                    }
                }
                assert forall|x: int, y: int|
                    0 <= x < y < qs2.len() implies qs2[x].group_id@ != qs2[y].group_id@ by {
                    assert(qs2[x].group_id == qs1[x].group_id);
                    assert(qs2[y].group_id == qs1[y].group_id);
                }
                assert(same_groups(qs0, qs2)) by {
                    assert forall|k: int| 0 <= k < qs0.len() implies (#[trigger] qs0[k]).group_id@ == qs2[k].group_id@ by {
                        assert(qs0[k].group_id@ == qs1[k].group_id@);
                    }
                }
                assert forall|k: int| 0 <= k < qs0.len() && k != qi implies qs2[k] == qs0[k] by {
                    assert(qs2[k] == qs1[k]);
                }
            }
        } else if self.queues[qi].active.is_none() {
            self.queues[qi].active = Some(rn);
            proof {
                let qs2 = self.queues@;
                assert(entry_ok(recs0, rn, qs2[qi as int].group_id@));
                assert(queue_ok(qs2[qi as int], recs0, self.limits));
                assert(queues_view(qs2, recs0) =~= v.queues.update(qi as int, queue_view(qs2[qi as int], recs0)));
                assert forall|k: int| 0 <= k < qs2.len() implies queue_ok(#[trigger] qs2[k], recs0, self.limits) by {
                    if k != qi {
                        assert(qs2[k] == qs0[k]);
                    }
                }
                assert forall|x: int, y: int|
                    0 <= x < y < qs2.len() implies qs2[x].group_id@ != qs2[y].group_id@ by {
                    assert(qs2[x].group_id == qs0[x].group_id);
                    assert(qs2[y].group_id == qs0[y].group_id);
                }
                lemma_same_shape_refl(recs0);
            }
        } else {
            let d = self.records[rn].intent.max_duration_ms as u64;
            let ghost before = self.queues@[qi as int].queued@;
            self.queues[qi].queued.push(rn);
            let dur = self.queues[qi].queued_duration_ms;
            self.queues[qi].queued_duration_ms = dur + d;
            proof {
                let qs2 = self.queues@;
                let q2 = qs2[qi as int];
                assert(q2.queued@ == before.push(rn));
                assert(q2.queued@.drop_last() =~= before);
                assert(load_idx(recs0, q2.queued@) == load_idx(recs0, before) + recs0[rn as int].intent.max_duration_ms as nat);
                assert(queue_ok(q2, recs0, self.limits)) by {
                    assert forall|k: int| 0 <= k < q2.queued@.len() implies entry_ok(recs0, #[trigger] q2.queued@[k], q2.group_id@) by {
                        if k < before.len() {
                            assert(q2.queued@[k] == before[k]);
                        }
                    }
                    assert forall|x: int, y: int| 0 <= x < y < q2.queued@.len() implies q2.queued@[x] != q2.queued@[y] by {
                        if y < before.len() {
                            assert(q2.queued@[x] == before[x]);
                            assert(q2.queued@[y] == before[y]);
                        } else {
                            assert(q2.queued@[x] == before[x]);
                        }
                    }
                }
                assert(queue_view(q2, recs0).queued =~= v.queues[qi as int].queued.push(id));
                assert(queues_view(qs2, recs0) =~= v.queues.update(qi as int, queue_view(q2, recs0)));
                assert forall|k: int| 0 <= k < qs2.len() implies queue_ok(#[trigger] qs2[k], recs0, self.limits) by {
                    if k != qi {
                        assert(qs2[k] == qs0[k]);
                    }
                }
                assert forall|x: int, y: int|
                    0 <= x < y < qs2.len() implies qs2[x].group_id@ != qs2[y].group_id@ by {
                    assert(qs2[x].group_id == qs0[x].group_id);
                    assert(qs2[y].group_id == qs0[y].group_id);
                }
                lemma_same_shape_refl(recs0);
            }
        }
    }
}

impl AnnouncementCoordinator {
    /// Admits `intent` at `now_ms`, naming a new announcement `id` (see
    /// [`admit_spec`]).  Nothing changes unless the intent is admitted.
    #[verifier::rlimit(60)]
    pub fn admit_with_id(&mut self, intent: AnnouncementIntent, now_ms: i64, id: String) -> (r: Result<
        AnnouncementAdmission,
        AnnouncementError,
    >)
        requires
            old(self).wf(),
        ensures
            final(self).wf(),
            (final(self)@, admission_view(r)) == admit_spec(old(self)@, intent@, now_ms, id@),
    {
        let ghost v = self@;
        let ghost i = intent@;
        let ghost recs0 = self.records@;
        let ghost qs0 = self.queues@;
        let ghost known = v.queues.map_values(|q: QueueView| q.group_id);
        match self.find_key(intent.idempotency_key.as_str()) {
            Some(ri) => {
                proof {
                    assert(v.records[ri as int] == self.records@[ri as int]@);
                }
                if same_intent_exec(&self.records[ri].intent, &intent) {
                    return Ok(
                        AnnouncementAdmission {
                            id: self.records[ri].id.clone(),
                            lifecycle: self.records[ri].lifecycle,
                            duplicate: true,
                        },
                    );
                }
                return Err(AnnouncementError::IdempotencyConflict);
            },
            None => {},
        }
        let names = self.group_names();
        match validate_intent(self.limits, &names, &intent, now_ms) {
            Ok(()) => {},
            Err(e) => {
                return Err(e);
            },
        }
        proof {
            lemma_targets_distinct(known, i.target_groups);
            assert forall|a: int, b: int| 0 <= a < b < v.records.len() implies v.records[a].id != v.records[b].id by {
                assert(v.records[a].id == recs0[a].id@);
                assert(v.records[b].id == recs0[b].id@);
            }
            assert forall|a: int, b: int| 0 <= a < b < v.queues.len() implies v.queues[a].group_id != v.queues[b].group_id by {
                assert(v.queues[a].group_id == qs0[a].group_id@);
                assert(v.queues[b].group_id == qs0[b].group_id@);
            }
        }
        let n = intent.target_groups.len();
        let rank = intent.priority.rank();
        let dur = intent.max_duration_ms;
        let mut qix: Vec<usize> = Vec::new();
        let mut k: usize = 0;
        while k < n
            invariant
                self.wf(),
                self.records@ == recs0,
                self.queues@ == qs0,
                v == self@,
                i == intent@,
                n == i.target_groups.len(),
                rank == i.priority.rank_spec(),
                dur == i.max_duration_ms,
                known == v.queues.map_values(|q: QueueView| q.group_id),
                !has_key(v.records, i.idempotency_key),
                validation_error(v.limits, known, i, now_ms) is None,
                forall|a: int| 0 <= a < i.target_groups.len() ==> known.contains(#[trigger] i.target_groups[a]),
                forall|a: int, b: int| 0 <= a < b < v.queues.len() ==> v.queues[a].group_id != v.queues[b].group_id,
                forall|a: int, b: int| 0 <= a < b < v.records.len() ==> v.records[a].id != v.records[b].id,
                0 <= k <= n,
                qix@.len() == k,
                forall|j: int|
                    0 <= j < k ==> (#[trigger] qix@[j]) < qs0.len() && qs0[qix@[j] as int].group_id@
                        == i.target_groups[j],
                forall|j: int| 0 <= j < k ==> slot_error(v, i, #[trigger] i.target_groups[j]) is None,
                forall|j: int| 0 <= j < k ==> slot_ok_i(qs0[#[trigger] qix@[j] as int], recs0, rank, dur, self.limits),
            decreases n - k,
        {
            let g = intent.target_groups[k].as_str();
            proof {
                assert(known.contains(i.target_groups[k as int]));
                let m = choose|m: int| 0 <= m < known.len() && known[m] == i.target_groups[k as int];
                assert(v.queues[m].group_id == g@);
            }
            let qi = match self.find_queue(g) {
                Some(x) => x,
                None => {
                    assert(false);
                    return Err(AnnouncementError::InvalidLifecycle);
                },
            };
            proof {
                assert(queue_ok(qs0[qi as int], recs0, self.limits));
                assert(v.queues[qi as int] == queue_view(qs0[qi as int], recs0));
                if let Some(a) = qs0[qi as int].active {
                    lemma_record_index(v.records, a as int);
                    assert(v.records[a as int] == recs0[a as int]@);
                }
            }
            let cut = match self.queues[qi].active {
                Some(a) => self.records[a].intent.priority.rank() < rank,
                None => false,
            };
            assert(cut == interrupts(v.records, i, v.queues[qi as int]));
            if !cut {
                if self.queues[qi].queued.len() >= self.limits.max_queue_depth_per_group {
                    let e = AnnouncementError::QueueDepthExceeded(intent.target_groups[k].clone());
                    proof {
                        assert(slot_error(v, i, i.target_groups[k as int]) == Some(e@));
                        lemma_capacity_some(v, i, 0, k as int);
                    }
                    return Err(e);
                }
                let qd = self.queues[qi].queued_duration_ms;
                if qd as u128 + dur as u128 > self.limits.max_queued_duration_ms_per_group as u128 {
                    let e = AnnouncementError::QueueDurationExceeded(intent.target_groups[k].clone());
                    proof {
                        assert(slot_error(v, i, i.target_groups[k as int]) == Some(e@));
                        lemma_capacity_some(v, i, 0, k as int);
                    }
                    return Err(e);
                }
            }
            qix.push(qi);
            k = k + 1;
        }
        proof {
            lemma_capacity_none(v, i, 0);
        }
        if self.find_record(id.as_str()).is_some() {
            return Err(AnnouncementError::IdCollision);
        }
        let mut groups: Vec<AnnouncementGroupState> = Vec::new();
        let mut j: usize = 0;
        while j < n
            invariant
                n == intent.target_groups@.len(),
                i == intent@,
                0 <= j <= n,
                groups@.len() == j,
                forall|m: int|
                    0 <= m < j ==> (#[trigger] groups@[m])@ == (GroupStateView {
                        group_id: i.target_groups[m],
                        lifecycle: AnnouncementLifecycle::Scheduled,
                        resume_emitted: false,
                    }),
            decreases n - j,
        {
            groups.push(
                AnnouncementGroupState {
                    group_id: intent.target_groups[j].clone(),
                    lifecycle: AnnouncementLifecycle::Scheduled,
                    resume_emitted: false,
                },
            );
            j = j + 1;
        }
        let rn = self.records.len();
        let record = AnnouncementRecord {
            id: id.clone(),
            intent,
            lifecycle: AnnouncementLifecycle::Scheduled,
            groups,
        };
        let ghost v0 = CoordinatorView { limits: v.limits, queues: v.queues, records: v.records.push(new_record(i, id@)) };
        proof {
            assert(record@.groups =~= new_record(i, id@).groups);
            assert(record@ == new_record(i, id@));
            assert(n > 0);
        }
        self.records.push(record);
        let ghost recs1 = self.records@;
        proof {
            assert(recs1 == recs0.push(record));
            assert(records_view(recs1) =~= v.records.push(new_record(i, id@)));
            // The new record is consistent.
            let gv = record@.groups;
            assert(states_distinct(gv)) by {
                assert forall|x: int, y: int| 0 <= x < y < gv.len() implies gv[x].group_id != gv[y].group_id by {
                    assert(gv[x].group_id == i.target_groups[x]);
                    assert(gv[y].group_id == i.target_groups[y]);
                }
            }
            assert(gv[0].lifecycle is Scheduled);
            assert(lifecycle_of(gv) == AnnouncementLifecycle::Scheduled) by {
                assert(!gv[0].lifecycle.is_terminal());
                if exists|x: int| 0 <= x < gv.len() && (#[trigger] gv[x]).lifecycle is Started {
                    let x = choose|x: int| 0 <= x < gv.len() && (#[trigger] gv[x]).lifecycle is Started;
                    assert(gv[x].lifecycle is Scheduled);
                }
            }
            assert(record_ok(record));
            // The queues keep their meaning with one more record.
            assert forall|q: int| 0 <= q < qs0.len() implies queue_ok(#[trigger] qs0[q], recs1, self.limits)
                && queue_view(qs0[q], recs1) == queue_view(qs0[q], recs0) by {
                let qq = qs0[q];
                assert(queue_ok(qq, recs0, self.limits));
                if let Some(a) = qq.active {
                    assert(recs1[a as int] == recs0[a as int]);
                }
                assert forall|m: int| 0 <= m < qq.queued@.len() implies entry_ok(recs1, #[trigger] qq.queued@[m], qq.group_id@) by {
                    assert(entry_ok(recs0, qq.queued@[m], qq.group_id@));
                    assert(recs1[qq.queued@[m] as int] == recs0[qq.queued@[m] as int]);
                }
                lemma_load_idx_prefix(recs0, record, qq.queued@);
                assert(qq.queued@.map_values(|x: usize| recs1[x as int].id@) =~= qq.queued@.map_values(
                    |x: usize| recs0[x as int].id@,
                )) by {
                    assert forall|m: int| 0 <= m < qq.queued@.len() implies recs1[qq.queued@[m] as int] == recs0[qq.queued@[m] as int] by {
                        assert(entry_ok(recs0, qq.queued@[m], qq.group_id@));
                    }
                }
            }
            assert(queues_view(qs0, recs1) =~= queues_view(qs0, recs0));
            assert forall|x: int, y: int| 0 <= x < y < recs1.len() implies recs1[x].id@ != recs1[y].id@ by {
                if y == rn {
                    assert(v.records[x].id == recs0[x].id@);
                }
            }
            assert forall|x: int, y: int|
                0 <= x < y < recs1.len() implies recs1[x].intent.idempotency_key@ != recs1[y].intent.idempotency_key@ by {
                if y == rn {
                    assert(v.records[x].intent.idempotency_key == recs0[x].intent.idempotency_key@);
                }
            }
            assert forall|r: int| 0 <= r < recs1.len() implies record_ok(#[trigger] recs1[r]) by {
                if r < rn {
                    assert(recs1[r] == recs0[r]);
                }
            }
            assert(self.wf());
            assert(self@ == v0);
            lemma_same_shape_refl(recs1);
            assert forall|a: int, b: int| 0 <= a < b < n implies qix@[a] != qix@[b] by {
                assert(qs0[qix@[a] as int].group_id@ == i.target_groups[a]);
                assert(qs0[qix@[b] as int].group_id@ == i.target_groups[b]);
            }
        }
        let mut k: usize = 0;
        while k < n
            invariant
                self.wf(),
                rn + 1 == self.records@.len(),
                rn == recs0.len(),
                n == i.target_groups.len(),
                n == qix@.len(),
                self.records@[rn as int] == recs1[rn as int],
                recs1[rn as int]@ == new_record(i, id@),
                recs1 == recs0.push(recs1[rn as int]),
                same_shape(recs1, self.records@),
                same_groups(qs0, self.queues@),
                0 <= k <= n,
                self@ == place_seq(v0, i, id@, i.target_groups, k as int),
                forall|a: int, b: int| 0 <= a < b < n ==> qix@[a] != qix@[b],
                forall|j: int|
                    0 <= j < n ==> (#[trigger] qix@[j]) < qs0.len() && qs0[qix@[j] as int].group_id@
                        == i.target_groups[j],
                forall|j: int| k <= j < n ==> self.queues@[#[trigger] qix@[j] as int] == qs0[qix@[j] as int],
                forall|j: int| 0 <= j < n ==> slot_ok_i(qs0[#[trigger] qix@[j] as int], recs0, rank, dur, self.limits),
                forall|q: int| 0 <= q < qs0.len() ==> queue_ok(#[trigger] qs0[q], recs0, self.limits),
                rank == i.priority.rank_spec(),
                dur == i.max_duration_ms,
            decreases n - k,
        {
            let qi = qix[k];
            proof {
                let q = qs0[qi as int];
                assert(self.queues@[qi as int] == q);
                assert(queue_ok(q, recs0, self.limits));
                assert(queue_excludes(q, rn)) by {
                    if let Some(a) = q.active {
                        assert(entry_ok(recs0, a, q.group_id@));
                    }
                    assert forall|m: int| 0 <= m < q.queued@.len() implies q.queued@[m] != rn by {
                        assert(entry_ok(recs0, q.queued@[m], q.group_id@));
                    }
                }
                assert(slot_ok_c(q, self.records@, rn as int, self.limits)) by {
                    assert(self.records@[rn as int].intent@ == recs1[rn as int].intent@);
                    assert(self.records@[rn as int].intent.max_duration_ms == recs1[rn as int].intent.max_duration_ms);
                    if let Some(a) = q.active {
                        assert(entry_ok(recs0, a, q.group_id@));
                        assert(recs1[a as int] == recs0[a as int]);
                        assert(self.records@[a as int].intent@ == recs1[a as int].intent@);
                    }
                }
                assert(self@.records[rn as int] == self.records@[rn as int]@);
                assert(self@.queues[qi as int] == queue_view(self.queues@[qi as int], self.records@));
                assert(has_state(self@.records[rn as int].groups, i.target_groups[k as int])) by {
                    assert(self@.records[rn as int].groups[k as int].group_id == i.target_groups[k as int]);
                }
            }
            let ghost recs_before = self.records@;
            let ghost qs_before = self.queues@;
            self.place_in(rn, qi);
            proof {
                lemma_same_shape_trans(recs1, recs_before, self.records@);
                lemma_same_groups_trans(qs0, qs_before, self.queues@);
                assert forall|j: int| k + 1 <= j < n implies self.queues@[#[trigger] qix@[j] as int] == qs0[qix@[j] as int] by {
                    assert(qix@[j] != qix@[k as int]);
                }
            }
            k = k + 1;
        }
        Ok(AnnouncementAdmission { id, lifecycle: AnnouncementLifecycle::Scheduled, duplicate: false })
    }
}

proof fn lemma_load_idx_prefix(recs: Seq<AnnouncementRecord>, x: AnnouncementRecord, idx: Seq<usize>)
    requires
        forall|k: int| 0 <= k < idx.len() ==> #[trigger] idx[k] < recs.len(),
    ensures
        load_idx(recs.push(x), idx) == load_idx(recs, idx),
    decreases idx.len(),
{
    if idx.len() > 0 {
        lemma_load_idx_prefix(recs, x, idx.drop_last());
        assert(idx.last() < recs.len()) by {
            assert(idx[idx.len() - 1] < recs.len());
        }
    }
}

// ---------------------------------------------------------------------------
// Identifiers and messages
// ---------------------------------------------------------------------------

/// The Rust debug form of a string: quoted, with quotes, backslashes and
/// control characters escaped.  A function of the text alone.
pub uninterp spec fn debug_str(s: Seq<char>) -> Seq<char>;

/// `format!("{:?}", s)`, the debug form of `s` (see [`debug_str`]).
#[verifier::external_body]
fn debug_quoted(s: &str) -> (q: String)
    ensures
        q@ == debug_str(s@),
{
    format!("{:?}", s)
}

fn framed(prefix: &str, middle: String, suffix: &str) -> (m: String)
    ensures
        m@ == prefix@ + middle@ + suffix@,
{
    let mut m = String::from_str(prefix);
    m.append(middle.as_str());
    m.append(suffix);
    m
}

impl AnnouncementError {
    /// The human-readable message of the error.
    pub fn describe(&self) -> (m: String)
        ensures
            match self {
                AnnouncementError::UnsupportedVersion(v) => m@ == "unsupported announcement intent version "@
                    + decimal(*v as nat),
                AnnouncementError::InvalidIdempotencyKey => m@ == "idempotency key must contain 1..=128 bytes"@,
                AnnouncementError::InvalidTargetCount(n) => m@ == "target group list must contain 1..="@
                    + decimal(*n as nat) + " groups"@,
                AnnouncementError::InvalidTargetGroup(g) => m@ == "target group "@ + debug_str(g@)
                    + " is unknown or duplicated"@,
                AnnouncementError::InvalidSource => m@ == "announcement source must be a bounded http(s) or media URI"@,
                AnnouncementError::InvalidDuck => m@
                    == "duck attenuation must be in -60..=0 dB and ramps must be <= 5000 ms"@,
                AnnouncementError::InvalidDuration(n) => m@ == "maximum duration must be in 1..="@
                    + decimal(*n as nat) + " ms"@,
                AnnouncementError::InvalidExpiry => m@ == "announcement expiry is invalid or too far in the future"@,
                AnnouncementError::QueueDepthExceeded(g) => m@ == "announcement queue depth for group "@
                    + debug_str(g@) + " is exhausted"@,
                AnnouncementError::QueueDurationExceeded(g) => m@ == "announcement duration budget for group "@
                    + debug_str(g@) + " is exhausted"@,
                AnnouncementError::IdempotencyConflict => m@ == "idempotency key was reused with a different intent"@,
                AnnouncementError::NotFound(id) => m@ == "announcement "@ + debug_str(id@) + " was not found"@,
                AnnouncementError::InvalidLifecycle => m@ == "invalid lifecycle transition"@,
                AnnouncementError::IdCollision => m@ == "announcement id collided with an existing announcement"@,
            },
    {
        match self {
            AnnouncementError::UnsupportedVersion(v) => {
                let mut m = String::from_str("unsupported announcement intent version ");
                let d = decimal_string(*v as u64);
                m.append(d.as_str());
                m
            },
            AnnouncementError::InvalidIdempotencyKey => String::from_str(
                "idempotency key must contain 1..=128 bytes",
            ),
            AnnouncementError::InvalidTargetCount(n) => framed(
                "target group list must contain 1..=",
                decimal_string(*n as u64),
                " groups",
            ),
            AnnouncementError::InvalidTargetGroup(g) => framed(
                "target group ",
                debug_quoted(g.as_str()),
                " is unknown or duplicated",
            ),
            AnnouncementError::InvalidSource => String::from_str(
                "announcement source must be a bounded http(s) or media URI",
            ),
            AnnouncementError::InvalidDuck => String::from_str(
                "duck attenuation must be in -60..=0 dB and ramps must be <= 5000 ms",
            ),
            AnnouncementError::InvalidDuration(n) => framed(
                "maximum duration must be in 1..=",
                decimal_string(*n as u64),
                " ms",
            ),
            AnnouncementError::InvalidExpiry => String::from_str(
                "announcement expiry is invalid or too far in the future",
            ),
            AnnouncementError::QueueDepthExceeded(g) => framed(
                "announcement queue depth for group ",
                debug_quoted(g.as_str()),
                " is exhausted",
            ),
            AnnouncementError::QueueDurationExceeded(g) => framed(
                "announcement duration budget for group ",
                debug_quoted(g.as_str()),
                " is exhausted",
            ),
            AnnouncementError::IdempotencyConflict => String::from_str(
                "idempotency key was reused with a different intent",
            ),
            AnnouncementError::NotFound(id) => framed(
                "announcement ",
                debug_quoted(id.as_str()),
                " was not found",
            ),
            AnnouncementError::InvalidLifecycle => String::from_str("invalid lifecycle transition"),
            AnnouncementError::IdCollision => String::from_str(
                "announcement id collided with an existing announcement",
            ),
        }
    }
}

impl AnnouncementCoordinator {
    /// Admits `intent` at `now_ms` (see [`admit_spec`]); a new announcement
    /// is named by a random version-4 UUID.  A request that repeats an
    /// admitted one with the same key and intent is answered with the
    /// original announcement; a different intent under the same key is
    /// refused.
    pub fn admit_intent(&mut self, intent: AnnouncementIntent, now_ms: i64) -> (r: Result<
        AnnouncementAdmission,
        AnnouncementError,
    >)
        requires
            old(self).wf(),
        ensures
            final(self).wf(),
            exists|id: Seq<char>|
                uuid_v4_text(id) && (final(self)@, admission_view(r)) == #[trigger] admit_spec(
                    old(self)@,
                    intent@,
                    now_ms,
                    id,
                ),
    {
        let id = new_uuid_v4();
        let ghost idv = id@;
        let r = self.admit_with_id(intent, now_ms, id);
        assert(uuid_v4_text(idv));
        r
    }
}

// ---------------------------------------------------------------------------
// Laws
// ---------------------------------------------------------------------------

/// The declared order of priorities: Music, then Chime, then Announcement,
/// then Emergency.
pub open spec fn declared_before(a: AnnouncementPriority, b: AnnouncementPriority) -> bool {
    match (a, b) {
        (AnnouncementPriority::Music, AnnouncementPriority::Chime) => true,
        (AnnouncementPriority::Music, AnnouncementPriority::Announcement) => true,
        (AnnouncementPriority::Music, AnnouncementPriority::Emergency) => true,
        (AnnouncementPriority::Chime, AnnouncementPriority::Announcement) => true,
        (AnnouncementPriority::Chime, AnnouncementPriority::Emergency) => true,
        (AnnouncementPriority::Announcement, AnnouncementPriority::Emergency) => true,
        _ => false,
    }
}

/// Ranks follow the declared order strictly: one priority ranks below
/// another exactly when it is declared before it.
pub proof fn lemma_rank_follows_declared_order(a: AnnouncementPriority, b: AnnouncementPriority)
    ensures
        a.rank_spec() < b.rank_spec() <==> declared_before(a, b),
        a.rank_spec() == b.rank_spec() <==> a == b,
{
}

/// An intent interrupts the announcement playing in a group exactly when its
/// priority is declared after the playing one's, so an Emergency interrupts
/// an Announcement and nothing interrupts an Emergency.
pub proof fn lemma_later_priority_interrupts(recs: Seq<RecordView>, i: IntentView, q: QueueView)
    requires
        q.active is Some,
    ensures
        interrupts(recs, i, q) <==> declared_before(
            recs[record_index(recs, q.active->0)].intent.priority,
            i.priority,
        ),
        i.priority == AnnouncementPriority::Emergency && recs[record_index(
            recs,
            q.active->0,
        )].intent.priority != AnnouncementPriority::Emergency ==> interrupts(recs, i, q),
        recs[record_index(recs, q.active->0)].intent.priority == AnnouncementPriority::Emergency
            ==> !interrupts(recs, i, q),
{
    lemma_rank_follows_declared_order(recs[record_index(recs, q.active->0)].intent.priority, i.priority);
}

/// An announcement has started as soon as any one of its groups started,
/// whichever position that group has among its targets.
pub proof fn lemma_any_started_group_starts_record(groups: Seq<GroupStateView>, j: int)
    requires
        0 <= j < groups.len(),
        groups[j].lifecycle is Started,
    ensures
        lifecycle_of(groups) is Started,
{
    assert(groups[j].lifecycle is Started);
}

/// Once every group of an announcement is terminal, a failure in any one
/// group fails it, and otherwise a cancellation in any one group cancels it,
/// whichever position that group has.
pub proof fn lemma_terminal_outcome_of_any_group(groups: Seq<GroupStateView>, j: int)
    requires
        0 <= j < groups.len(),
        forall|k: int| 0 <= k < groups.len() ==> (#[trigger] groups[k]).lifecycle.is_terminal(),
    ensures
        groups[j].lifecycle is Failed ==> lifecycle_of(groups) is Failed,
        groups[j].lifecycle is Cancelled && (forall|k: int|
            0 <= k < groups.len() ==> (#[trigger] groups[k]).lifecycle !is Failed) ==> lifecycle_of(
            groups,
        ) is Cancelled,
{
    assert(groups[j].lifecycle.is_terminal());
    assert(!exists|k: int| 0 <= k < groups.len() && (#[trigger] groups[k]).lifecycle is Started);
}

/// An announcement none of whose groups started, while one of them is
/// still scheduled, is scheduled.
pub proof fn lemma_unstarted_open_record_is_scheduled(groups: Seq<GroupStateView>, j: int)
    requires
        0 <= j < groups.len(),
        groups[j].lifecycle is Scheduled,
        forall|k: int| 0 <= k < groups.len() ==> (#[trigger] groups[k]).lifecycle !is Started,
    ensures
        lifecycle_of(groups) is Scheduled,
{
    assert(!groups[j].lifecycle.is_terminal());
}

/// The consistency of a coordinator that its laws rely on: announcement ids
/// and group names are unique, and so are the groups of each announcement.
pub open spec fn view_wf(v: CoordinatorView) -> bool {
    &&& forall|a: int, b: int| 0 <= a < b < v.records.len() ==> v.records[a].id != v.records[b].id
    &&& forall|a: int, b: int|
        0 <= a < b < v.records.len() ==> v.records[a].intent.idempotency_key
            != v.records[b].intent.idempotency_key
    &&& forall|a: int, b: int| 0 <= a < b < v.queues.len() ==> v.queues[a].group_id != v.queues[b].group_id
    &&& forall|r: int| 0 <= r < v.records.len() ==> states_distinct(#[trigger] v.records[r].groups)
    &&& forall|k: int|
        0 <= k < v.queues.len() && (#[trigger] v.queues[k]).active is Some ==> has_record(
            v.records,
            v.queues[k].active->0,
        ) && has_state(
            v.records[record_index(v.records, v.queues[k].active->0)].groups,
            v.queues[k].group_id,
        )
    &&& forall|k: int, m: int|
        0 <= k < v.queues.len() && 0 <= m < v.queues[k].queued.len() ==> has_record(
            v.records,
            #[trigger] v.queues[k].queued[m],
        ) && has_state(
            v.records[record_index(v.records, v.queues[k].queued[m])].groups,
            v.queues[k].group_id,
        )
}

impl AnnouncementCoordinator {
    /// Every coordinator is consistent in the sense of [`view_wf`].
    pub proof fn lemma_view_wf(&self)
        requires
            self.wf(),
        ensures
            view_wf(self@),
    {
        let v = self@;
        assert forall|a: int, b: int| 0 <= a < b < v.records.len() implies v.records[a].id != v.records[b].id by {
            assert(v.records[a].id == self.records@[a].id@);
            assert(v.records[b].id == self.records@[b].id@);
        }
        assert forall|a: int, b: int| 0 <= a < b < v.queues.len() implies v.queues[a].group_id != v.queues[b].group_id by {
            assert(v.queues[a].group_id == self.queues@[a].group_id@);
            assert(v.queues[b].group_id == self.queues@[b].group_id@);
        }
        assert forall|r: int| 0 <= r < v.records.len() implies states_distinct(#[trigger] v.records[r].groups) by {
            assert(record_ok(self.records@[r]));
            assert(v.records[r] == self.records@[r]@);
        }
        assert forall|a: int, b: int|
            0 <= a < b < v.records.len() implies v.records[a].intent.idempotency_key
                != v.records[b].intent.idempotency_key by {
            assert(v.records[a].intent.idempotency_key == self.records@[a].intent.idempotency_key@);
            assert(v.records[b].intent.idempotency_key == self.records@[b].intent.idempotency_key@);
        }
        assert forall|k: int|
            0 <= k < v.queues.len() && (#[trigger] v.queues[k]).active is Some implies has_record(
                v.records,
                v.queues[k].active->0,
            ) && has_state(
                v.records[record_index(v.records, v.queues[k].active->0)].groups,
                v.queues[k].group_id,
            ) by {
            let q = self.queues@[k];
            assert(queue_ok(q, self.records@, self.limits));
            assert(v.queues[k] == queue_view(q, self.records@));
            let a = q.active->0;
            assert(v.records[a as int].id == self.records@[a as int].id@);
            lemma_record_index(v.records, a as int);
            assert(entry_ok(self.records@, a, q.group_id@));
        }
        assert forall|k: int, m: int|
            0 <= k < v.queues.len() && 0 <= m < v.queues[k].queued.len() implies has_record(
                v.records,
                #[trigger] v.queues[k].queued[m],
            ) && has_state(
                v.records[record_index(v.records, v.queues[k].queued[m])].groups,
                v.queues[k].group_id,
            ) by {
            let q = self.queues@[k];
            assert(queue_ok(q, self.records@, self.limits));
            assert(v.queues[k] == queue_view(q, self.records@));
            let a = q.queued@[m];
            assert(entry_ok(self.records@, a, q.group_id@));
            assert(v.queues[k].queued[m] == self.records@[a as int].id@);
            assert(v.records[a as int].id == self.records@[a as int].id@);
            lemma_record_index(v.records, a as int);
        }
    }

    /// Every queue of a coordinator respects the depth and duration limits.
    pub proof fn lemma_queues_bounded(&self)
        requires
            self.wf(),
        ensures
            forall|k: int|
                0 <= k < self@.queues.len() ==> (#[trigger] self@.queues[k]).queued.len()
                    <= self@.limits.max_queue_depth_per_group && self@.queues[k].queued_duration_ms
                    <= self@.limits.max_queued_duration_ms_per_group,
    {
        assert forall|k: int| 0 <= k < self@.queues.len() implies (#[trigger] self@.queues[k]).queued.len()
            <= self@.limits.max_queue_depth_per_group && self@.queues[k].queued_duration_ms
            <= self@.limits.max_queued_duration_ms_per_group by {
            assert(queue_ok(self.queues@[k], self.records@, self.limits));
            assert(self@.queues[k] == queue_view(self.queues@[k], self.records@));
        }
    }
}

/// A refused admission changes nothing: admission checks every target group
/// before it changes any.
pub proof fn lemma_refused_admission_changes_nothing(v: CoordinatorView, i: IntentView, now_ms: i64, id: Seq<char>)
    ensures
        admit_spec(v, i, now_ms, id).1 is Err ==> admit_spec(v, i, now_ms, id).0 == v,
{
}


/// Two record lists with the same ids and the same group names.
pub open spec fn same_names(vr: Seq<RecordView>, wr: Seq<RecordView>) -> bool {
    &&& vr.len() == wr.len()
    &&& forall|r: int|
        0 <= r < vr.len() ==> {
            &&& (#[trigger] wr[r]).id == vr[r].id
            &&& wr[r].groups.len() == vr[r].groups.len()
            &&& forall|j: int| 0 <= j < vr[r].groups.len() ==> (#[trigger] wr[r].groups[j]).group_id == vr[r].groups[j].group_id
        }
}

proof fn lemma_entry_transfer(vr: Seq<RecordView>, wr: Seq<RecordView>, b: Seq<char>, g: Seq<char>)
    requires
        same_names(vr, wr),
        forall|x: int, y: int| 0 <= x < y < vr.len() ==> vr[x].id != vr[y].id,
        has_record(vr, b),
        has_state(vr[record_index(vr, b)].groups, g),
    ensures
        has_record(wr, b),
        has_state(wr[record_index(wr, b)].groups, g),
{
    let j = record_index(vr, b);
    lemma_record_index(vr, j);
    assert(wr[j].id == b);
    assert forall|x: int, y: int| 0 <= x < y < wr.len() implies wr[x].id != wr[y].id by {
        assert(wr[x].id == vr[x].id);
        assert(wr[y].id == vr[y].id);
    }
    lemma_record_index(wr, j);
    let m = choose|m: int| 0 <= m < vr[j].groups.len() && (#[trigger] vr[j].groups[m]).group_id == g;
    assert(wr[j].groups[m].group_id == g);
}

/// Finishing a group keeps ids, intents, group names and the groups of each
/// record, and the coordinator's consistency.
proof fn lemma_finish_keeps_shape(v: CoordinatorView, ri: int, qi: int, lc: AnnouncementLifecycle)
    requires
        view_wf(v),
        0 <= ri < v.records.len(),
        0 <= qi < v.queues.len(),
        has_state(v.records[ri].groups, v.queues[qi].group_id),
    ensures
        ({
            let f = finish_spec(v, ri, qi, lc).0;
            &&& view_wf(f)
            &&& f.records.len() == v.records.len()
            &&& f.queues.len() == v.queues.len()
            &&& forall|r: int|
                0 <= r < v.records.len() ==> (#[trigger] f.records[r]).id == v.records[r].id
                    && f.records[r].intent == v.records[r].intent
            &&& forall|r: int| 0 <= r < v.records.len() && r != ri ==> #[trigger] f.records[r] == v.records[r]
            &&& forall|k: int| 0 <= k < v.queues.len() ==> (#[trigger] f.queues[k]).group_id == v.queues[k].group_id
            &&& f.records[ri].groups.len() == v.records[ri].groups.len()
            &&& forall|j: int| 0 <= j < v.records[ri].groups.len() ==> (#[trigger] f.records[ri].groups[j]).group_id
                == v.records[ri].groups[j].group_id
            &&& f.records[ri].groups[state_index(v.records[ri].groups, v.queues[qi].group_id)].lifecycle == lc
            &&& forall|j: int|
                0 <= j < v.records[ri].groups.len() && j != state_index(v.records[ri].groups, v.queues[qi].group_id)
                    ==> #[trigger] f.records[ri].groups[j] == v.records[ri].groups[j]
            &&& same_names(v.records, f.records)
            &&& forall|k: int| 0 <= k < v.queues.len() ==> (#[trigger] f.queues[k]).queued == v.queues[k].queued
        }),
{
    let r = v.records[ri];
    let q = v.queues[qi];
    let si = state_index(r.groups, q.group_id);
    let f = finish_spec(v, ri, qi, lc).0;
    assert forall|a: int, b: int| 0 <= a < b < f.records.len() implies f.records[a].id != f.records[b].id by {
        assert(f.records[a].id == v.records[a].id);
        assert(f.records[b].id == v.records[b].id);
    }
    assert forall|a: int, b: int| 0 <= a < b < f.records.len() implies f.records[a].intent.idempotency_key
        != f.records[b].intent.idempotency_key by {
        assert(f.records[a].intent == v.records[a].intent);
        assert(f.records[b].intent == v.records[b].intent);
    }
    assert forall|a: int, b: int| 0 <= a < b < f.queues.len() implies f.queues[a].group_id != f.queues[b].group_id by {
        assert(f.queues[a].group_id == v.queues[a].group_id);
        assert(f.queues[b].group_id == v.queues[b].group_id);
    }
    assert forall|x: int| 0 <= x < f.records.len() implies states_distinct(#[trigger] f.records[x].groups) by {
        if x == ri {
            let g1 = f.records[x].groups;
            assert(states_distinct(v.records[x].groups));
            assert forall|a: int, b: int| 0 <= a < b < g1.len() implies g1[a].group_id != g1[b].group_id by {
                assert(g1[a].group_id == r.groups[a].group_id);
                assert(g1[b].group_id == r.groups[b].group_id);
            }
        }
    }
    assert forall|k: int| 0 <= k < f.queues.len() && (#[trigger] f.queues[k]).active is Some implies has_record(
        f.records,
        f.queues[k].active->0,
    ) && has_state(f.records[record_index(f.records, f.queues[k].active->0)].groups, f.queues[k].group_id) by {
        assert(f.queues[k].active == v.queues[k].active);
        let b = f.queues[k].active->0;
        assert(has_record(v.records, b) && has_state(v.records[record_index(v.records, b)].groups, v.queues[k].group_id));
        let j = record_index(v.records, b);
        lemma_record_index(v.records, j);
        assert(f.records[j].id == b);
        lemma_record_index(f.records, j);
        let gj = v.records[j].groups;
        let m = choose|m: int| 0 <= m < gj.len() && (#[trigger] gj[m]).group_id == v.queues[k].group_id;
        assert(f.records[j].groups[m].group_id == v.queues[k].group_id);
    }
    assert(same_names(v.records, f.records));
    assert forall|k: int, m: int|
        0 <= k < f.queues.len() && 0 <= m < f.queues[k].queued.len() implies has_record(
            f.records,
            #[trigger] f.queues[k].queued[m],
        ) && has_state(f.records[record_index(f.records, f.queues[k].queued[m])].groups, f.queues[k].group_id) by {
        assert(f.queues[k].queued == v.queues[k].queued);
        assert(v.queues[k].queued[m] == f.queues[k].queued[m]);
        lemma_entry_transfer(v.records, f.records, f.queues[k].queued[m], v.queues[k].group_id);
    }
}

/// Terminal acknowledgements are idempotent: once a group of an announcement
/// has been acknowledged as completed, cancelled or failed, any later
/// terminal acknowledgement of that group changes nothing and reports no
/// transition, so the group can resume its programme at most once.
pub proof fn lemma_terminal_ack_idempotent(
    v: CoordinatorView,
    id: Seq<char>,
    g: Seq<char>,
    lc: AnnouncementLifecycle,
    again: AnnouncementLifecycle,
)
    requires
        view_wf(v),
        has_queue(v.queues, g),
        lc.is_terminal(),
        again.is_terminal(),
        ack_spec(v, id, g, lc).1 is Ok,
    ensures
        ({
            let v1 = ack_spec(v, id, g, lc).0;
            ack_spec(v1, id, g, again) == (v1, Ok::<Seq<TransitionView>, ErrorView>(Seq::empty()))
        }),
{
    let ri = record_index(v.records, id);
    let r = v.records[ri];
    let qi = queue_index(v.queues, g);
    let si = state_index(r.groups, g);
    if r.groups[si].lifecycle.is_terminal() {
    } else {
        let f = finish_spec(v, ri, qi, lc).0;
        lemma_finish_keeps_shape(v, ri, qi, lc);
        let v1 = advance_spec(f, qi);
        assert(v1.records == f.records);
        lemma_record_index(v1.records, ri);
        assert(states_distinct(v1.records[ri].groups));
        assert(v1.records[ri].groups[si].group_id == g);
        lemma_state_index(v1.records[ri].groups, si);
    }
}

/// One placement step keeps every record's id and intent, leaves the new
/// record untouched and keeps the coordinator consistent.
proof fn lemma_place_step_keeps(v: CoordinatorView, i: IntentView, id: Seq<char>, g: Seq<char>)
    requires
        view_wf(v),
        v.records.len() > 0,
        v.records.last() == new_record(i, id),
        has_queue(v.queues, g),
        i.target_groups.contains(g),
    ensures
        ({
            let w = place_step(v, i, id, g);
            &&& view_wf(w)
            &&& w.records.len() == v.records.len()
            &&& w.queues.len() == v.queues.len()
            &&& w.records.last() == v.records.last()
            &&& forall|r: int|
                0 <= r < v.records.len() ==> (#[trigger] w.records[r]).id == v.records[r].id
                    && w.records[r].intent == v.records[r].intent
            &&& forall|k: int| 0 <= k < v.queues.len() ==> (#[trigger] w.queues[k]).group_id == v.queues[k].group_id
        }),
{
    let qi = queue_index(v.queues, g);
    let q = v.queues[qi];
    let n = v.records.len() - 1;
    lemma_record_index(v.records, n);
    let w = place_step(v, i, id, g);
    let tj = choose|tj: int| 0 <= tj < i.target_groups.len() && i.target_groups[tj] == g;
    assert(v.records[n].groups[tj].group_id == g);
    assert(has_state(v.records[n].groups, g));
    if interrupts(v.records, i, q) {
        let a = q.active->0;
        let ri = record_index(v.records, a);
        assert(has_record(v.records, a) && has_state(v.records[ri].groups, q.group_id));
        assert(ri != n);
        lemma_finish_keeps_shape(v, ri, qi, AnnouncementLifecycle::Cancelled);
        let f = finish_spec(v, ri, qi, AnnouncementLifecycle::Cancelled).0;
        assert(w.records == f.records);
        assert(f.records[n] == v.records[n]);
        assert forall|x: int, y: int| 0 <= x < y < w.queues.len() implies w.queues[x].group_id != w.queues[y].group_id by {
            assert(w.queues[x].group_id == f.queues[x].group_id);
            assert(w.queues[y].group_id == f.queues[y].group_id);
        }
        assert forall|k: int| 0 <= k < w.queues.len() && (#[trigger] w.queues[k]).active is Some implies has_record(
            w.records,
            w.queues[k].active->0,
        ) && has_state(w.records[record_index(w.records, w.queues[k].active->0)].groups, w.queues[k].group_id) by {
            if k == qi {
                lemma_record_index(w.records, n);
                assert(w.records[n].groups[tj].group_id == g);
            } else {
                assert(w.queues[k] == f.queues[k]);
            }
        }
    } else {
        assert forall|x: int, y: int| 0 <= x < y < w.queues.len() implies w.queues[x].group_id != w.queues[y].group_id by {
            assert(w.queues[x].group_id == v.queues[x].group_id);
            assert(w.queues[y].group_id == v.queues[y].group_id);
        }
        assert forall|k: int| 0 <= k < w.queues.len() && (#[trigger] w.queues[k]).active is Some implies has_record(
            w.records,
            w.queues[k].active->0,
        ) && has_state(w.records[record_index(w.records, w.queues[k].active->0)].groups, w.queues[k].group_id) by {
            if k != qi {
                assert(w.queues[k] == v.queues[k]);
            } else if q.active is None {
                assert(w.records[n].groups[tj].group_id == g);
            }
        }
    }
}

proof fn lemma_place_seq_keeps(v: CoordinatorView, i: IntentView, id: Seq<char>, k: int)
    requires
        view_wf(v),
        v.records.len() > 0,
        v.records.last() == new_record(i, id),
        0 <= k <= i.target_groups.len(),
        forall|j: int| 0 <= j < i.target_groups.len() ==> has_queue(v.queues, #[trigger] i.target_groups[j]),
    ensures
        ({
            let w = place_seq(v, i, id, i.target_groups, k);
            &&& view_wf(w)
            &&& w.records.len() == v.records.len()
            &&& w.queues.len() == v.queues.len()
            &&& w.records.last() == v.records.last()
            &&& forall|r: int|
                0 <= r < v.records.len() ==> (#[trigger] w.records[r]).id == v.records[r].id
                    && w.records[r].intent == v.records[r].intent
            &&& forall|q: int| 0 <= q < v.queues.len() ==> (#[trigger] w.queues[q]).group_id == v.queues[q].group_id
        }),
    decreases k,
{
    if k > 0 {
        let gs = i.target_groups;
        lemma_place_seq_keeps(v, i, id, k - 1);
        let w = place_seq(v, i, id, gs, k - 1);
        assert(has_queue(w.queues, gs[k - 1])) by {
            assert(has_queue(v.queues, gs[k - 1]));
            let q = choose|q: int| 0 <= q < v.queues.len() && (#[trigger] v.queues[q]).group_id == gs[k - 1];
            assert(w.queues[q].group_id == gs[k - 1]);
        }
        assert(gs.contains(gs[k - 1]));
        lemma_place_step_keeps(w, i, id, gs[k - 1]);
    }
}

/// Admitting an intent a second time, under the same key, answers with the
/// announcement admitted the first time, marks the answer as a repeat and
/// changes nothing.
pub proof fn lemma_admission_is_idempotent(
    v: CoordinatorView,
    i: IntentView,
    now_ms: i64,
    id: Seq<char>,
    later_ms: i64,
    other_id: Seq<char>,
)
    requires
        view_wf(v),
        admit_spec(v, i, now_ms, id).1 is Ok,
    ensures
        ({
            let (v1, r1) = admit_spec(v, i, now_ms, id);
            let (v2, r2) = admit_spec(v1, i, later_ms, other_id);
            &&& v2 == v1
            &&& r2 is Ok
            &&& r2->Ok_0.0 == r1->Ok_0.0
            &&& r2->Ok_0.2
        }),
{
    if has_key(v.records, i.idempotency_key) {
    } else {
        let known = v.queues.map_values(|q: QueueView| q.group_id);
        lemma_targets_distinct(known, i.target_groups);
        let v0 = CoordinatorView { limits: v.limits, queues: v.queues, records: v.records.push(new_record(i, id)) };
        let n = v.records.len() as int;
        assert(view_wf(v0)) by {
            assert forall|x: int, y: int| 0 <= x < y < v0.records.len() implies v0.records[x].id != v0.records[y].id by {
                if y == n {
                    assert(v.records[x].id != id) by {
                        if v.records[x].id == id {
                            assert(has_record(v.records, id));
                        }
                    }
                }
            }
            assert forall|x: int, y: int| 0 <= x < y < v0.records.len() implies v0.records[x].intent.idempotency_key
                != v0.records[y].intent.idempotency_key by {
                if y == n {
                    if v.records[x].intent.idempotency_key == i.idempotency_key {
                        assert(has_key(v.records, i.idempotency_key));
                    }
                }
            }
            assert forall|x: int| 0 <= x < v0.records.len() implies states_distinct(#[trigger] v0.records[x].groups) by {
                if x == n {
                    let gv = v0.records[x].groups;
                    assert forall|c: int, d: int| 0 <= c < d < gv.len() implies gv[c].group_id != gv[d].group_id by {
                        assert(gv[c].group_id == i.target_groups[c]);
                        assert(gv[d].group_id == i.target_groups[d]);
                    }
                }
            }
            assert forall|k: int| 0 <= k < v0.queues.len() && (#[trigger] v0.queues[k]).active is Some implies has_record(
                v0.records,
                v0.queues[k].active->0,
            ) && has_state(v0.records[record_index(v0.records, v0.queues[k].active->0)].groups, v0.queues[k].group_id) by {
                let b = v0.queues[k].active->0;
                let j = record_index(v.records, b);
                lemma_record_index(v.records, j);
                assert(v0.records[j] == v.records[j]);
                lemma_record_index(v0.records, j);
            }
            assert forall|k: int, m: int|
                0 <= k < v0.queues.len() && 0 <= m < v0.queues[k].queued.len() implies has_record(
                    v0.records,
                    #[trigger] v0.queues[k].queued[m],
                ) && has_state(v0.records[record_index(v0.records, v0.queues[k].queued[m])].groups, v0.queues[k].group_id) by {
                let b = v0.queues[k].queued[m];
                assert(v.queues[k].queued[m] == b);
                let j = record_index(v.records, b);
                lemma_record_index(v.records, j);
                assert(v0.records[j] == v.records[j]);
                lemma_record_index(v0.records, j);
            }
        }
        assert forall|j: int| 0 <= j < i.target_groups.len() implies has_queue(v0.queues, #[trigger] i.target_groups[j]) by {
            assert(known.contains(i.target_groups[j]));
            let q = choose|q: int| 0 <= q < known.len() && known[q] == i.target_groups[j];
            assert(v0.queues[q].group_id == i.target_groups[j]);
        }
        lemma_place_seq_keeps(v0, i, id, i.target_groups.len() as int);
        let v1 = place_seq(v0, i, id, i.target_groups, i.target_groups.len() as int);
        assert(v1.records[n].intent == i);
        assert(v1.records[n].id == id);
        lemma_key_index(v1.records, n);
        // An admitted intent's attenuation is a number, so it equals itself.
        let bits = i.duck.attenuation_db_bits;
        assert(duck_ok(i.duck));
        assert((bits == 0 || (0x8000_0000 <= bits && bits <= 0xC270_0000)) ==> (bits & 0x7f80_0000) != 0x7f80_0000)
            by (bit_vector);
        assert(same_intent(i, i));
    }
}

proof fn lemma_open_groups_facts(gs: Seq<GroupStateView>)
    ensures
        forall|m: int| 0 <= m < open_groups(gs).len() ==> has_state(gs, #[trigger] open_groups(gs)[m]),
        forall|j: int|
            0 <= j < gs.len() && !(#[trigger] gs[j]).lifecycle.is_terminal() ==> open_groups(gs).contains(
                gs[j].group_id,
            ),
    decreases gs.len(),
{
    if gs.len() > 0 {
        let init = gs.drop_last();
        lemma_open_groups_facts(init);
        let og = open_groups(gs);
        let oi = open_groups(init);
        assert forall|m: int| 0 <= m < og.len() implies has_state(gs, #[trigger] og[m]) by {
            if m < oi.len() {
                assert(og[m] == oi[m]);
                assert(has_state(init, oi[m]));
                let j = choose|j: int| 0 <= j < init.len() && (#[trigger] init[j]).group_id == oi[m];
                assert(gs[j].group_id == oi[m]);
            } else {
                assert(og[m] == gs.last().group_id);
                assert(gs[gs.len() - 1].group_id == og[m]);
            }
        }
        assert forall|j: int|
            0 <= j < gs.len() && !(#[trigger] gs[j]).lifecycle.is_terminal() implies og.contains(gs[j].group_id) by {
            if j < init.len() {
                assert(init[j] == gs[j]);
                assert(oi.contains(gs[j].group_id));
                let m = choose|m: int| 0 <= m < oi.len() && #[trigger] oi[m] == gs[j].group_id;
                assert(og[m] == oi[m]);
            } else {
                assert(og[og.len() - 1] == gs[j].group_id);
            }
        }
    }
}

/// The waiting line of one queue shrinks; the coordinator stays consistent.
proof fn lemma_queue_shrink_keeps(v: CoordinatorView, qi: int, rest: Seq<Seq<char>>, d: nat)
    requires
        view_wf(v),
        0 <= qi < v.queues.len(),
        forall|m: int| 0 <= m < rest.len() ==> v.queues[qi].queued.contains(#[trigger] rest[m]),
    ensures
        ({
            let q = v.queues[qi];
            let w = CoordinatorView {
                limits: v.limits,
                queues: v.queues.update(
                    qi,
                    QueueView { group_id: q.group_id, active: q.active, queued: rest, queued_duration_ms: d },
                ),
                records: v.records,
            };
            view_wf(w)
        }),
{
    let q = v.queues[qi];
    let w = CoordinatorView {
        limits: v.limits,
        queues: v.queues.update(
            qi,
            QueueView { group_id: q.group_id, active: q.active, queued: rest, queued_duration_ms: d },
        ),
        records: v.records,
    };
    assert forall|a: int, b: int| 0 <= a < b < w.queues.len() implies w.queues[a].group_id != w.queues[b].group_id by {
        assert(w.queues[a].group_id == v.queues[a].group_id);
        assert(w.queues[b].group_id == v.queues[b].group_id);
    }
    assert forall|k: int| 0 <= k < w.queues.len() && (#[trigger] w.queues[k]).active is Some implies has_record(
        w.records,
        w.queues[k].active->0,
    ) && has_state(w.records[record_index(w.records, w.queues[k].active->0)].groups, w.queues[k].group_id) by {
        assert(w.queues[k].active == v.queues[k].active);
        assert(w.queues[k].group_id == v.queues[k].group_id);
    }
    assert forall|k: int, m: int|
        0 <= k < w.queues.len() && 0 <= m < w.queues[k].queued.len() implies has_record(
            w.records,
            #[trigger] w.queues[k].queued[m],
        ) && has_state(w.records[record_index(w.records, w.queues[k].queued[m])].groups, w.queues[k].group_id) by {
        if k == qi {
            let qq = q.queued;
            let p = choose|p: int| 0 <= p < qq.len() && #[trigger] qq[p] == rest[m];
            assert(v.queues[qi].queued[p] == rest[m]);
        } else {
            assert(w.queues[k] == v.queues[k]);
        }
    }
}

/// Starting the next waiting announcement keeps the coordinator consistent.
proof fn lemma_advance_keeps(v: CoordinatorView, qi: int)
    requires
        view_wf(v),
        0 <= qi < v.queues.len(),
    ensures
        view_wf(advance_spec(v, qi)),
        advance_spec(v, qi).records == v.records,
        advance_spec(v, qi).queues.len() == v.queues.len(),
        forall|k: int| 0 <= k < v.queues.len() ==> (#[trigger] advance_spec(v, qi).queues[k]).group_id == v.queues[k].group_id,
{
    let q = v.queues[qi];
    if q.queued.len() > 0 {
        let w = advance_spec(v, qi);
        assert forall|a: int, b: int| 0 <= a < b < w.queues.len() implies w.queues[a].group_id != w.queues[b].group_id by {
            assert(w.queues[a].group_id == v.queues[a].group_id);
            assert(w.queues[b].group_id == v.queues[b].group_id);
        }
        assert forall|k: int| 0 <= k < w.queues.len() && (#[trigger] w.queues[k]).active is Some implies has_record(
            w.records,
            w.queues[k].active->0,
        ) && has_state(w.records[record_index(w.records, w.queues[k].active->0)].groups, w.queues[k].group_id) by {
            if k == qi {
                assert(w.queues[k].active->0 == v.queues[qi].queued[0]);
            } else {
                assert(w.queues[k] == v.queues[k]);
            }
        }
        assert forall|k: int, m: int|
            0 <= k < w.queues.len() && 0 <= m < w.queues[k].queued.len() implies has_record(
                w.records,
                #[trigger] w.queues[k].queued[m],
            ) && has_state(w.records[record_index(w.records, w.queues[k].queued[m])].groups, w.queues[k].group_id) by {
            if k == qi {
                assert(w.queues[k].queued[m] == v.queues[qi].queued[m + 1]);
            } else {
                assert(w.queues[k] == v.queues[k]);
            }
        }
    }
}

/// Cancelling one group of an announcement keeps the coordinator consistent
/// and changes, among the records, only that group's state, to cancelled.
proof fn lemma_cancel_group_keeps(v: CoordinatorView, id: Seq<char>, g: Seq<char>)
    requires
        view_wf(v),
        has_record(v.records, id),
        has_queue(v.queues, g),
        has_state(v.records[record_index(v.records, id)].groups, g),
    ensures
        ({
            let w = cancel_group_spec(v, id, g).0;
            let ri = record_index(v.records, id);
            &&& view_wf(w)
            &&& same_names(v.records, w.records)
            &&& w.queues.len() == v.queues.len()
            &&& forall|k: int| 0 <= k < v.queues.len() ==> (#[trigger] w.queues[k]).group_id == v.queues[k].group_id
            &&& forall|r: int| 0 <= r < v.records.len() ==> (#[trigger] w.records[r]).intent == v.records[r].intent
            &&& forall|r: int| 0 <= r < v.records.len() && r != ri ==> #[trigger] w.records[r] == v.records[r]
            &&& forall|j: int|
                0 <= j < v.records[ri].groups.len() ==> if v.records[ri].groups[j].group_id == g {
                    (#[trigger] w.records[ri].groups[j]).lifecycle is Cancelled
                } else {
                    w.records[ri].groups[j] == v.records[ri].groups[j]
                }
        }),
{
    let ri = record_index(v.records, id);
    let qi = queue_index(v.queues, g);
    let q = v.queues[qi];
    let v1 = if q.queued.contains(id) {
        let rest = q.queued.remove(q.queued.index_of(id));
        CoordinatorView {
            limits: v.limits,
            queues: v.queues.update(
                qi,
                QueueView { group_id: q.group_id, active: q.active, queued: rest, queued_duration_ms: load(v.records, rest) },
            ),
            records: v.records,
        }
    } else {
        v
    };
    if q.queued.contains(id) {
        let p = q.queued.index_of(id);
        let rest = q.queued.remove(p);
        assert forall|m: int| 0 <= m < rest.len() implies q.queued.contains(#[trigger] rest[m]) by {
            if m < p {
                assert(rest[m] == q.queued[m]);
            } else {
                assert(rest[m] == q.queued[m + 1]);
            }
        }
        lemma_queue_shrink_keeps(v, qi, rest, load(v.records, rest));
    }
    assert(view_wf(v1));
    assert(v1.records == v.records);
    assert(v1.queues[qi].group_id == g);
    lemma_finish_keeps_shape(v1, ri, qi, AnnouncementLifecycle::Cancelled);
    let f = finish_spec(v1, ri, qi, AnnouncementLifecycle::Cancelled).0;
    let si = state_index(v.records[ri].groups, g);
    assert forall|j: int| 0 <= j < v.records[ri].groups.len() && v.records[ri].groups[j].group_id == g implies j == si by {
        assert(states_distinct(v.records[ri].groups));
        if j != si {
            if j < si {} else {}
        }
    }
    if f.queues[qi].active is None {
        lemma_advance_keeps(f, qi);
    }
}

/// Cancelling an announcement in the first `k` of the groups `gs` cancels
/// exactly those of its group states.
proof fn lemma_cancel_groups_keeps(v: CoordinatorView, id: Seq<char>, gs: Seq<Seq<char>>, k: int)
    requires
        view_wf(v),
        has_record(v.records, id),
        0 <= k <= gs.len(),
        forall|m: int| 0 <= m < gs.len() ==> has_queue(v.queues, #[trigger] gs[m]),
        forall|m: int| 0 <= m < gs.len() ==> has_state(v.records[record_index(v.records, id)].groups, #[trigger] gs[m]),
    ensures
        ({
            let w = cancel_groups_spec(v, id, gs, k).0;
            let ri = record_index(v.records, id);
            &&& view_wf(w)
            &&& same_names(v.records, w.records)
            &&& w.queues.len() == v.queues.len()
            &&& forall|q: int| 0 <= q < v.queues.len() ==> (#[trigger] w.queues[q]).group_id == v.queues[q].group_id
            &&& forall|j: int|
                0 <= j < v.records[ri].groups.len() ==> if gs.take(k).contains(v.records[ri].groups[j].group_id) {
                    (#[trigger] w.records[ri].groups[j]).lifecycle is Cancelled
                } else {
                    w.records[ri].groups[j] == v.records[ri].groups[j]
                }
        }),
    decreases k,
{
    let ri = record_index(v.records, id);
    if k == 0 {
        assert(gs.take(0).len() == 0);
    } else {
        lemma_cancel_groups_keeps(v, id, gs, k - 1);
        let w = cancel_groups_spec(v, id, gs, k - 1).0;
        let g = gs[k - 1];
        assert(forall|a: int, b: int| 0 <= a < b < v.records.len() ==> v.records[a].id != v.records[b].id);
        lemma_record_index(v.records, ri);
        assert(w.records[ri].id == id);
        assert forall|a: int, b: int| 0 <= a < b < w.records.len() implies w.records[a].id != w.records[b].id by {
        }
        lemma_record_index(w.records, ri);
        assert(has_record(w.records, id));
        assert(has_queue(w.queues, g)) by {
            assert(has_queue(v.queues, g));
            let q = choose|q: int| 0 <= q < v.queues.len() && (#[trigger] v.queues[q]).group_id == g;
            assert(w.queues[q].group_id == g);
        }
        assert(has_state(w.records[ri].groups, g)) by {
            assert(has_state(v.records[ri].groups, g));
            let j = choose|j: int| 0 <= j < v.records[ri].groups.len() && (#[trigger] v.records[ri].groups[j]).group_id == g;
            assert(w.records[ri].groups[j].group_id == g);
        }
        lemma_cancel_group_keeps(w, id, g);
        let w2 = cancel_group_spec(w, id, g).0;
        assert(gs.take(k) =~= gs.take(k - 1).push(g));
        assert forall|q: int| 0 <= q < v.queues.len() implies (#[trigger] w2.queues[q]).group_id == v.queues[q].group_id by {
            assert(w2.queues[q].group_id == w.queues[q].group_id);
        }
        assert(same_names(v.records, w2.records)) by {
            assert forall|r: int| 0 <= r < v.records.len() implies {
                &&& (#[trigger] w2.records[r]).id == v.records[r].id
                &&& w2.records[r].groups.len() == v.records[r].groups.len()
                &&& forall|j: int| 0 <= j < v.records[r].groups.len() ==> (#[trigger] w2.records[r].groups[j]).group_id == v.records[r].groups[j].group_id
            } by {
                assert(w2.records[r].id == w.records[r].id);
                assert forall|j: int| 0 <= j < v.records[r].groups.len() implies (#[trigger] w2.records[r].groups[j]).group_id == v.records[r].groups[j].group_id by {
                    assert(w2.records[r].groups[j].group_id == w.records[r].groups[j].group_id);
                }
            }
        }
        assert forall|j: int| 0 <= j < v.records[ri].groups.len() implies if gs.take(k).contains(v.records[ri].groups[j].group_id) {
            (#[trigger] w2.records[ri].groups[j]).lifecycle is Cancelled
        } else {
            w2.records[ri].groups[j] == v.records[ri].groups[j]
        } by {
            let gj = v.records[ri].groups[j].group_id;
            assert(w.records[ri].groups[j].group_id == gj);
            if gj == g {
                assert(gs.take(k)[k - 1] == g);
            } else {
                if gs.take(k).contains(gj) {
                    let tk = gs.take(k);
                    let m = choose|m: int| 0 <= m < tk.len() && #[trigger] tk[m] == gj;
                    assert(m < k - 1);
                    assert(gs.take(k - 1)[m] == gj);
                } else {
                    if gs.take(k - 1).contains(gj) {
                        let tk1 = gs.take(k - 1);
                        let m = choose|m: int| 0 <= m < tk1.len() && #[trigger] tk1[m] == gj;
                        assert(gs.take(k)[m] == gj);
                    }
                }
            }
        }
    }
}

/// Once an announcement is cancelled, a client's terminal acknowledgement
/// of any of its groups changes nothing and reports no transition: a
/// cancelled group cannot resume twice.
pub proof fn lemma_cancel_then_terminal_ack(
    v: CoordinatorView,
    id: Seq<char>,
    g: Seq<char>,
    lc: AnnouncementLifecycle,
)
    requires
        view_wf(v),
        has_record(v.records, id),
        open_groups_known(v, record_index(v.records, id)),
        has_state(v.records[record_index(v.records, id)].groups, g),
        lc.is_terminal(),
    ensures
        ({
            let v1 = cancel_spec(v, id).0;
            ack_spec(v1, id, g, lc) == (v1, Ok::<Seq<TransitionView>, ErrorView>(Seq::empty()))
        }),
{
    let ri = record_index(v.records, id);
    let groups = v.records[ri].groups;
    let gs = open_groups(groups);
    lemma_open_groups_facts(groups);
    assert forall|m: int| 0 <= m < gs.len() implies has_queue(v.queues, #[trigger] gs[m]) by {
        assert(open_groups_known(v, ri));
    }
    lemma_cancel_groups_keeps(v, id, gs, gs.len() as int);
    let v1 = cancel_groups_spec(v, id, gs, gs.len() as int).0;
    assert(gs.take(gs.len() as int) =~= gs);
    lemma_record_index(v.records, ri);
    assert(v1.records[ri].id == id);
    lemma_record_index(v1.records, ri);
    let si = state_index(groups, g);
    assert(groups[si].group_id == g);
    assert(v1.records[ri].groups[si].group_id == g);
    assert(states_distinct(v1.records[ri].groups));
    lemma_state_index(v1.records[ri].groups, si);
    assert(v1.records[ri].groups[si].lifecycle.is_terminal()) by {
        if !groups[si].lifecycle.is_terminal() {
            assert(gs.contains(groups[si].group_id));
        }
    }
}

} // verus!
