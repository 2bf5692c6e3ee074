use sonium::control::announcements::{
    AnnouncementCoordinator, AnnouncementError, AnnouncementIntent, AnnouncementLifecycle, AnnouncementLimits,
    AnnouncementPriority, AnnouncementSource, Ducking, ResumePolicy,
};

fn intent(key: &str, priority: AnnouncementPriority) -> AnnouncementIntent {
    AnnouncementIntent {
        version: 1,
        idempotency_key: key.into(),
        target_groups: vec!["default".into()],
        priority,
        source: AnnouncementSource::Uri("https://media.example.test/chime.ogg".into()),
        duck: Ducking { attenuation_db_bits: (-18.0f32).to_bits(), attack_ms: 25, release_ms: 100 },
        max_duration_ms: 1_000,
        expires_at_ms: 10_000,
        resume: ResumePolicy::ResumePrevious,
    }
}

#[test]
fn higher_priority_interrupts_lower_priority_and_equal_priority_queues() {
    let mut coordinator = AnnouncementCoordinator::new(AnnouncementLimits::default(), &["default"]);
    let low = coordinator.admit_intent(intent("low", AnnouncementPriority::Chime), 1).unwrap();
    let equal = coordinator.admit_intent(intent("equal", AnnouncementPriority::Chime), 2).unwrap();
    let high = coordinator.admit_intent(intent("high", AnnouncementPriority::Emergency), 3).unwrap();

    assert_eq!(coordinator.record(&low.id).unwrap().lifecycle, AnnouncementLifecycle::Cancelled);
    assert_eq!(coordinator.record(&equal.id).unwrap().lifecycle, AnnouncementLifecycle::Scheduled);
    assert_eq!(coordinator.record(&high.id).unwrap().lifecycle, AnnouncementLifecycle::Scheduled);
    assert!(coordinator.record(&low.id).unwrap().groups[0].resume_emitted);
}

#[test]
fn same_idempotency_key_returns_the_original_announcement_only_for_same_intent() {
    let mut coordinator = AnnouncementCoordinator::new(AnnouncementLimits::default(), &["default"]);
    let first = coordinator.admit_intent(intent("retry", AnnouncementPriority::Chime), 1).unwrap();
    let retry = coordinator.admit_intent(intent("retry", AnnouncementPriority::Chime), 2).unwrap();

    assert_eq!(retry.id, first.id);
    assert!(retry.duplicate);
    assert!(coordinator.admit_intent(intent("retry", AnnouncementPriority::Emergency), 3).is_err());
}

#[test]
fn expiry_cancels_and_resumes_each_group_exactly_once() {
    let mut coordinator = AnnouncementCoordinator::new(AnnouncementLimits::default(), &["default"]);
    let active = coordinator.admit_intent(intent("expires", AnnouncementPriority::Announcement), 1).unwrap();

    let first = coordinator.expire(10_000);
    let second = coordinator.expire(10_001);

    assert_eq!(first.len(), 1);
    assert_eq!(first[0].lifecycle, AnnouncementLifecycle::Cancelled);
    assert!(first[0].resume);
    assert!(second.is_empty());
    assert!(coordinator.record(&active.id).unwrap().groups[0].resume_emitted);
}

#[test]
fn cancelling_and_terminal_client_retries_resume_only_once() {
    let mut coordinator = AnnouncementCoordinator::new(AnnouncementLimits::default(), &["default"]);
    let active = coordinator.admit_intent(intent("cancel", AnnouncementPriority::Announcement), 1).unwrap();
    coordinator.acknowledge(&active.id, "default", AnnouncementLifecycle::Started).unwrap();

    let cancelled = coordinator.cancel(&active.id).unwrap();
    let retried_terminal =
        coordinator.acknowledge(&active.id, "default", AnnouncementLifecycle::Cancelled).unwrap();

    assert_eq!(cancelled.len(), 1);
    assert!(cancelled[0].resume);
    assert!(retried_terminal.is_empty());
}

#[test]
fn cancelling_a_queued_announcement_never_requests_resume() {
    let mut coordinator = AnnouncementCoordinator::new(AnnouncementLimits::default(), &["default"]);
    coordinator.admit_intent(intent("active-for-queued", AnnouncementPriority::Announcement), 1).unwrap();
    let queued = coordinator.admit_intent(intent("queued-cancel", AnnouncementPriority::Announcement), 2).unwrap();

    let cancelled = coordinator.cancel(&queued.id).unwrap();

    assert_eq!(cancelled.len(), 1);
    assert!(!cancelled[0].resume);
    assert!(!coordinator.record(&queued.id).unwrap().groups[0].resume_emitted);
}

#[test]
fn rejects_a_group_queue_that_exceeds_its_bounded_depth() {
    let mut coordinator = AnnouncementCoordinator::new(
        AnnouncementLimits { max_queue_depth_per_group: 1, ..AnnouncementLimits::default() },
        &["default"],
    );

    coordinator.admit_intent(intent("active", AnnouncementPriority::Announcement), 1).unwrap();
    coordinator.admit_intent(intent("queued", AnnouncementPriority::Announcement), 2).unwrap();

    let error = coordinator.admit_intent(intent("overflow", AnnouncementPriority::Announcement), 3).unwrap_err();

    assert!(error.describe().contains("queue depth"));
}

// ── Further scenarios ───────────────────────────────────────────────────────

fn coordinator() -> AnnouncementCoordinator {
    AnnouncementCoordinator::new(AnnouncementLimits::default(), &["default", "kitchen"])
}

#[test]
fn validation_errors_come_in_check_order() {
    let mut c = coordinator();
    let mut i = intent("v", AnnouncementPriority::Chime);
    i.version = 2;
    assert!(matches!(c.admit_intent(i, 1), Err(AnnouncementError::UnsupportedVersion(2))));

    let i = intent("", AnnouncementPriority::Chime);
    assert!(matches!(c.admit_intent(i, 1), Err(AnnouncementError::InvalidIdempotencyKey)));

    let mut i = intent("t", AnnouncementPriority::Chime);
    i.target_groups = vec![];
    assert!(matches!(c.admit_intent(i, 1), Err(AnnouncementError::InvalidTargetCount(32))));

    let mut i = intent("g", AnnouncementPriority::Chime);
    i.target_groups = vec!["kitchen".into(), "kitchen".into()];
    match c.admit_intent(i, 1) {
        Err(AnnouncementError::InvalidTargetGroup(g)) => assert_eq!(g, "kitchen"),
        other => panic!("unexpected {other:?}"),
    }

    let mut i = intent("u", AnnouncementPriority::Chime);
    i.target_groups = vec!["attic".into()];
    assert!(matches!(c.admit_intent(i, 1), Err(AnnouncementError::InvalidTargetGroup(_))));

    let mut i = intent("s", AnnouncementPriority::Chime);
    i.source = AnnouncementSource::Uri("file:///etc/passwd".into());
    assert!(matches!(c.admit_intent(i, 1), Err(AnnouncementError::InvalidSource)));

    let mut i = intent("d", AnnouncementPriority::Chime);
    i.duck.attenuation_db_bits = (-61.0f32).to_bits();
    assert!(matches!(c.admit_intent(i, 1), Err(AnnouncementError::InvalidDuck)));

    let mut i = intent("n", AnnouncementPriority::Chime);
    i.duck.attenuation_db_bits = f32::NAN.to_bits();
    assert!(matches!(c.admit_intent(i, 1), Err(AnnouncementError::InvalidDuck)));

    let mut i = intent("r", AnnouncementPriority::Chime);
    i.max_duration_ms = 0;
    assert!(matches!(c.admit_intent(i, 1), Err(AnnouncementError::InvalidDuration(120_000))));

    let i = intent("e", AnnouncementPriority::Chime);
    assert!(matches!(c.admit_intent(i, 10_000), Err(AnnouncementError::InvalidExpiry)));

    // Nothing was admitted.
    assert!(c.records().is_empty());
}

#[test]
fn zero_and_negative_zero_attenuation_are_accepted_and_equal() {
    let mut c = coordinator();
    let mut i = intent("zero", AnnouncementPriority::Chime);
    i.duck.attenuation_db_bits = 0.0f32.to_bits();
    let first = c.admit_intent(i.clone(), 1).unwrap();
    let mut j = intent("zero", AnnouncementPriority::Chime);
    j.duck.attenuation_db_bits = (-0.0f32).to_bits();
    let again = c.admit_intent(j, 2).unwrap();
    assert!(again.duplicate);
    assert_eq!(again.id, first.id);
}

#[test]
fn completion_starts_the_next_queued_announcement() {
    let mut c = coordinator();
    let a = c.admit_intent(intent("a", AnnouncementPriority::Announcement), 1).unwrap();
    let b = c.admit_intent(intent("b", AnnouncementPriority::Announcement), 1).unwrap();
    // b waits, so it cannot start yet.
    assert!(matches!(
        c.acknowledge(&b.id, "default", AnnouncementLifecycle::Started),
        Err(AnnouncementError::InvalidLifecycle)
    ));
    let started = c.acknowledge(&a.id, "default", AnnouncementLifecycle::Started).unwrap();
    assert_eq!(started.len(), 1);
    assert!(!started[0].resume);
    assert_eq!(c.record(&a.id).unwrap().lifecycle, AnnouncementLifecycle::Started);
    let done = c.acknowledge(&a.id, "default", AnnouncementLifecycle::Completed).unwrap();
    assert_eq!(done.len(), 1);
    assert!(done[0].resume);
    assert_eq!(c.record(&a.id).unwrap().lifecycle, AnnouncementLifecycle::Completed);
    // b plays now.
    let started_b = c.acknowledge(&b.id, "default", AnnouncementLifecycle::Started).unwrap();
    assert_eq!(started_b.len(), 1);
}

#[test]
fn acknowledge_errors() {
    let mut c = coordinator();
    let a = c.admit_intent(intent("a", AnnouncementPriority::Chime), 1).unwrap();
    assert!(matches!(
        c.acknowledge(&a.id, "default", AnnouncementLifecycle::Scheduled),
        Err(AnnouncementError::InvalidLifecycle)
    ));
    assert!(matches!(
        c.acknowledge("missing", "default", AnnouncementLifecycle::Started),
        Err(AnnouncementError::NotFound(_))
    ));
    assert!(matches!(
        c.acknowledge(&a.id, "kitchen", AnnouncementLifecycle::Started),
        Err(AnnouncementError::InvalidTargetGroup(_))
    ));
    assert!(matches!(c.cancel("missing"), Err(AnnouncementError::NotFound(_))));
}

#[test]
fn duration_budget_is_enforced_per_group() {
    let mut c = AnnouncementCoordinator::new(
        AnnouncementLimits { max_queued_duration_ms_per_group: 1_500, ..AnnouncementLimits::default() },
        &["default"],
    );
    c.admit_intent(intent("a", AnnouncementPriority::Chime), 1).unwrap();
    c.admit_intent(intent("b", AnnouncementPriority::Chime), 1).unwrap();
    let e = c.admit_intent(intent("c", AnnouncementPriority::Chime), 1).unwrap_err();
    assert!(matches!(e, AnnouncementError::QueueDurationExceeded(_)));
    assert!(e.describe().contains("duration budget"));
}

#[test]
fn records_are_sorted_by_id_and_ids_are_uuids() {
    let mut c = coordinator();
    for k in ["k1", "k2", "k3", "k4"] {
        c.admit_intent(intent(k, AnnouncementPriority::Music), 1).ok();
    }
    let rs = c.records();
    assert!(!rs.is_empty());
    for w in rs.windows(2) {
        assert!(w[0].id < w[1].id);
    }
    for r in &rs {
        assert_eq!(r.id.len(), 36);
        assert_eq!(r.id.as_bytes()[14], b'4');
    }
}

#[test]
fn groups_can_be_added_and_removed() {
    let mut c = AnnouncementCoordinator::new(AnnouncementLimits::default(), &["default", "default"]);
    let mut i = intent("x", AnnouncementPriority::Chime);
    i.target_groups = vec!["patio".into()];
    assert!(c.admit_intent(i.clone(), 1).is_err());
    c.add_group("patio");
    assert!(c.admit_intent(i, 1).is_ok());
    c.remove_group("default");
    assert!(c.admit_intent(intent("y", AnnouncementPriority::Chime), 1).is_err());
}

#[test]
fn error_messages() {
    assert_eq!(AnnouncementError::InvalidLifecycle.describe(), "invalid lifecycle transition");
    assert_eq!(
        AnnouncementError::QueueDepthExceeded("default".into()).describe(),
        "announcement queue depth for group \"default\" is exhausted"
    );
    assert_eq!(
        AnnouncementError::InvalidTargetCount(32).describe(),
        "target group list must contain 1..=32 groups"
    );
    assert_eq!(
        AnnouncementError::UnsupportedVersion(2).describe(),
        "unsupported announcement intent version 2"
    );
}

#[test]
fn error_messages_quote_the_group_and_id() {
    assert_eq!(
        AnnouncementError::InvalidTargetGroup("kit\"chen".into()).describe(),
        "target group \"kit\\\"chen\" is unknown or duplicated"
    );
    assert_eq!(AnnouncementError::NotFound("a-1".into()).describe(), "announcement \"a-1\" was not found");
    assert_eq!(
        AnnouncementError::QueueDepthExceeded("hall".into()).describe(),
        "announcement queue depth for group \"hall\" is exhausted"
    );
}
