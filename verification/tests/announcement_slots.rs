use sonium::control::announcements::{AnnouncementError, AnnouncementLifecycle};
use sonium::control::scheduler::{
    aggregate_terminal, saturating_add_i64, saturating_sub_i64, AckStep, AnnouncementClient,
    ClientAcknowledgements, ScheduledSlot, SchedulerConfig, MAX_STARTED_SKEW_TOLERANCE_MS,
};

fn config() -> SchedulerConfig {
    SchedulerConfig { start_lead_ms: 250, ack_timeout_ms: 100, started_skew_tolerance_ms: 50 }
}

fn client(id: &str, generation: u64) -> AnnouncementClient {
    AnnouncementClient { client_id: id.into(), generation }
}

fn slot(members: Vec<AnnouncementClient>, config: SchedulerConfig) -> ScheduledSlot {
    ScheduledSlot::new("ann-1".to_string(), 20_000, 1_000, &members, 10_000, config)
}

#[test]
fn default_scheduler_config() {
    let c = SchedulerConfig::default();
    assert_eq!(c.start_lead_ms, 250);
    assert_eq!(c.ack_timeout_ms, 2_000);
    assert_eq!(c.started_skew_tolerance_ms, 50);
}

#[test]
fn new_slot_is_scheduled_one_lead_time_ahead() {
    let s = slot(vec![client("speaker", 1)], config());
    assert_eq!(s.announcement_id(), "ann-1");
    assert_eq!(s.scheduled_at_ms(), 10_250);
    assert_eq!(s.max_duration_ms(), 1_000);
    assert_eq!(s.ack_deadline_ms(), 10_100);
    assert_eq!(s.expected_count(), 1);
    let acks = s.acknowledgements("speaker").unwrap();
    assert_eq!(acks.generation, 1);
    assert!(!acks.scheduled && !acks.started && acks.terminal.is_none());
    assert!(s.acknowledgements("other").is_none());
}

#[test]
fn schedule_time_stays_before_expiry_and_never_in_the_past() {
    let c = config();
    assert_eq!(c.schedule_time(10_000, 20_000), 10_250);
    assert_eq!(c.schedule_time(10_000, 10_100), 10_099);
    assert_eq!(c.schedule_time(10_000, 9_000), 10_000);
    assert_eq!(c.schedule_time(i64::MAX - 10, i64::MAX), i64::MAX - 1);
}

#[test]
fn saturating_time_arithmetic() {
    assert_eq!(saturating_add_i64(i64::MAX, 1), i64::MAX);
    assert_eq!(saturating_add_i64(i64::MIN, -1), i64::MIN);
    assert_eq!(saturating_add_i64(40, 2), 42);
    assert_eq!(saturating_sub_i64(i64::MIN, 1), i64::MIN);
    assert_eq!(saturating_sub_i64(i64::MAX, -1), i64::MAX);
    assert_eq!(saturating_sub_i64(44, 2), 42);
}

#[test]
fn slot_waits_for_every_expected_session() {
    let c = config();
    let mut s = slot(vec![client("online", 7), client("offline", 3)], c);
    let online = client("online", 7);
    let offline = client("offline", 3);

    assert_eq!(s.acknowledge_client("ann-1", &online, AnnouncementLifecycle::Scheduled, 10_010, c).unwrap(), true);
    assert_eq!(s.advance(true, c), AckStep::Wait);
    assert_eq!(s.ack_deadline_ms(), 10_100);
    s.acknowledge_client("ann-1", &offline, AnnouncementLifecycle::Scheduled, 10_010, c).unwrap();
    assert_eq!(s.advance(true, c), AckStep::Wait);
    assert_eq!(s.ack_deadline_ms(), 10_350);

    s.acknowledge_client("ann-1", &online, AnnouncementLifecycle::Started, 10_250, c).unwrap();
    assert_eq!(s.advance(true, c), AckStep::Wait);
    s.acknowledge_client("ann-1", &offline, AnnouncementLifecycle::Started, 10_250, c).unwrap();
    assert_eq!(s.advance(true, c), AckStep::Start);
    assert_eq!(s.ack_deadline_ms(), 11_350);

    s.acknowledge_client("ann-1", &online, AnnouncementLifecycle::Completed, 11_250, c).unwrap();
    assert_eq!(s.advance(false, c), AckStep::Wait);
    assert!(!s.timed_out(11_349));
    assert!(s.timed_out(11_350));
}

#[test]
fn all_terminal_sessions_settle_with_the_worst_outcome() {
    let c = config();
    let mut s = slot(vec![client("a", 1), client("b", 1)], c);
    s.acknowledge_client("ann-1", &client("a", 1), AnnouncementLifecycle::Completed, 10_300, c).unwrap();
    assert_eq!(s.advance(true, c), AckStep::Wait);
    s.acknowledge_client("ann-1", &client("b", 1), AnnouncementLifecycle::Cancelled, 10_300, c).unwrap();
    assert_eq!(s.advance(true, c), AckStep::Settle(AnnouncementLifecycle::Cancelled));
}

#[test]
fn empty_group_only_waits() {
    let c = config();
    let mut s = slot(Vec::new(), c);
    assert_eq!(s.expected_count(), 0);
    assert_eq!(s.advance(true, c), AckStep::Wait);
    assert_eq!(s.ack_deadline_ms(), 10_100);
}

#[test]
fn stale_session_acknowledgement_changes_nothing() {
    let c = config();
    let mut s = slot(vec![client("speaker", 8)], c);
    let stale = s.acknowledge_client("ann-1", &client("speaker", 7), AnnouncementLifecycle::Started, 10_250, c);
    assert_eq!(stale.unwrap(), false);
    assert!(!s.acknowledgements("speaker").unwrap().started);
    assert_eq!(s.advance(true, c), AckStep::Wait);

    let unknown = s.acknowledge_client("ann-1", &client("stranger", 8), AnnouncementLifecycle::Started, 10_250, c);
    assert_eq!(unknown.unwrap(), false);

    let current = s.acknowledge_client("ann-1", &client("speaker", 8), AnnouncementLifecycle::Started, 10_250, c);
    assert_eq!(current.unwrap(), true);
    assert_eq!(s.advance(true, c), AckStep::Start);
}

#[test]
fn acknowledgement_of_another_announcement_is_refused() {
    let c = config();
    let mut s = slot(vec![client("speaker", 1)], c);
    let r = s.acknowledge_client("ann-2", &client("speaker", 1), AnnouncementLifecycle::Scheduled, 10_010, c);
    assert!(matches!(r, Err(AnnouncementError::InvalidLifecycle)));
    assert!(matches!(s.acknowledge_scheduled("ann-2", c), Err(AnnouncementError::InvalidLifecycle)));
    assert!(matches!(s.check_started("ann-2", 10_250, c), Err(AnnouncementError::InvalidLifecycle)));
}

#[test]
fn started_report_has_a_small_skew_window() {
    let c = config();
    let mut early = slot(vec![client("speaker", 1)], c);
    let r = early.acknowledge_client("ann-1", &client("speaker", 1), AnnouncementLifecycle::Started, 10_199, c);
    assert!(matches!(r, Err(AnnouncementError::InvalidLifecycle)));
    assert!(!early.acknowledgements("speaker").unwrap().started);
    assert!(early.check_started("ann-1", 10_199, c).is_err());

    let mut within = slot(vec![client("speaker", 1)], c);
    let r = within.acknowledge_client("ann-1", &client("speaker", 1), AnnouncementLifecycle::Started, 10_200, c);
    assert_eq!(r.unwrap(), true);
    assert!(within.check_started("ann-1", 10_200, c).is_ok());
    assert_eq!(within.advance(true, c), AckStep::Start);
}

#[test]
fn skew_tolerance_is_hard_bounded() {
    let c = SchedulerConfig { start_lead_ms: 1_000, ack_timeout_ms: 100, started_skew_tolerance_ms: 10_000 }.bounded();
    assert_eq!(c.started_skew_tolerance_ms, MAX_STARTED_SKEW_TOLERANCE_MS);
    assert_eq!(c.start_lead_ms, 1_000);
    let mut s = slot(vec![client("speaker", 1)], c);
    assert_eq!(s.scheduled_at_ms(), 11_000);
    let r = s.acknowledge_client("ann-1", &client("speaker", 1), AnnouncementLifecycle::Started, 10_500, c);
    assert!(r.is_err());
    assert!(s.acknowledge_client("ann-1", &client("speaker", 1), AnnouncementLifecycle::Started, 10_750, c).unwrap());
    assert_eq!(config().bounded(), config());
}

#[test]
fn unchanged_membership_cannot_extend_the_deadline() {
    let c = config();
    let mut s = slot(vec![client("offline", 1)], c);
    assert!(!s.reconcile(&vec![client("offline", 1)], 10_050, c));
    assert_eq!(s.ack_deadline_ms(), 10_100);
    assert!(s.timed_out(10_100));
}

#[test]
fn membership_change_keeps_only_same_session_acknowledgements() {
    let c = config();
    let mut s = slot(vec![client("kept", 1), client("replaced", 1)], c);
    s.acknowledge_client("ann-1", &client("kept", 1), AnnouncementLifecycle::Scheduled, 10_010, c).unwrap();
    s.acknowledge_client("ann-1", &client("replaced", 1), AnnouncementLifecycle::Scheduled, 10_010, c).unwrap();
    let changed = s.reconcile(&vec![client("kept", 1), client("replaced", 2), client("joined", 5)], 10_050, c);
    assert!(changed);
    assert_eq!(s.expected_count(), 3);
    assert!(s.acknowledgements("kept").unwrap().scheduled);
    let replaced = s.acknowledgements("replaced").unwrap();
    assert_eq!(replaced.generation, 2);
    assert!(!replaced.scheduled);
    assert_eq!(s.acknowledgements("joined").unwrap().generation, 5);
    assert_eq!(s.ack_deadline_ms(), 10_150);
}

#[test]
fn duplicate_member_counts_once_with_its_last_session() {
    let c = config();
    let s = slot(vec![client("a", 1), client("b", 4), client("a", 2)], c);
    assert_eq!(s.expected_count(), 2);
    assert_eq!(s.acknowledgements("a").unwrap().generation, 2);
    assert_eq!(s.acknowledgements("b").unwrap().generation, 4);
}

#[test]
fn group_scheduled_acknowledgement_marks_every_session() {
    let c = config();
    let mut s = slot(vec![client("a", 1), client("b", 1)], c);
    s.acknowledge_scheduled("ann-1", c).unwrap();
    assert!(s.acknowledgements("a").unwrap().scheduled);
    assert!(s.acknowledgements("b").unwrap().scheduled);
    assert_eq!(s.ack_deadline_ms(), 10_350);
    s.note_started(c);
    assert_eq!(s.ack_deadline_ms(), 11_350);
}

#[test]
fn first_terminal_report_is_kept() {
    let mut a = ClientAcknowledgements::new(3);
    a.record(AnnouncementLifecycle::Completed);
    a.record(AnnouncementLifecycle::Failed);
    a.record(AnnouncementLifecycle::Completed);
    assert_eq!(a.terminal, Some(AnnouncementLifecycle::Completed));
    assert!(a.scheduled);
    assert!(!a.started);
    let mut b = ClientAcknowledgements::new(3);
    b.record(AnnouncementLifecycle::Started);
    assert!(b.scheduled && b.started);
}

#[test]
fn terminal_outcomes_combine_failure_first() {
    let done = AnnouncementLifecycle::Completed;
    let cancelled = AnnouncementLifecycle::Cancelled;
    let failed = AnnouncementLifecycle::Failed;
    assert_eq!(aggregate_terminal(&vec![]), done);
    assert_eq!(aggregate_terminal(&vec![done, done]), done);
    assert_eq!(aggregate_terminal(&vec![done, cancelled]), cancelled);
    assert_eq!(aggregate_terminal(&vec![cancelled, failed, done]), failed);
}
