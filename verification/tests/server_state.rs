use sonium::control::state::{PersistedClient, PersistedGroup, ServerState, StreamRecovery, StreamStatus};
use sonium::protocol::messages::health_report::HealthReport;

const ADDR: &str = "127.0.0.1:50000";
const NOW: i64 = 1_700_000_000_000;

fn state() -> ServerState {
    ServerState::new(vec![])
}

fn state_with_known_client_limit(max_known_clients: usize) -> ServerState {
    ServerState::new_with_known_client_limit(vec![], max_known_clients)
}

fn connect(s: &mut ServerState, id: &str) {
    s.client_connected(id, "pi", "Sonium", "linux", "aarch64", ADDR, 2, NOW);
}

fn saved(id: &str, last_seen_ms: i64) -> PersistedClient {
    PersistedClient {
        id: id.into(),
        hostname: "pi".into(),
        display_name: None,
        volume: 100,
        muted: false,
        latency_ms: 0,
        observability_enabled: false,
        group_id: "default".into(),
        last_seen_ms,
    }
}

fn in_default(s: &ServerState, id: &str) -> bool {
    s.get_group("default").unwrap().client_ids.contains(&id.to_string())
}

#[test]
fn evicts_the_least_recently_seen_disconnected_client_at_known_client_capacity() {
    let mut s = state_with_known_client_limit(2);
    connect(&mut s, "active-client");
    connect(&mut s, "old-client");
    s.client_disconnected("old-client", NOW + 1);

    s.try_client_connected("new-client", "new-pi", "Sonium", "linux", "aarch64", ADDR, 2, NOW + 2)
        .expect("a disconnected LRU client can be replaced");

    assert!(s.get_client("old-client").is_none());
    assert!(s.get_client("active-client").unwrap().is_connected());
    assert!(s.get_client("new-client").unwrap().is_connected());
    assert!(!in_default(&s, "old-client"));
}

#[test]
fn rejects_a_duplicate_active_id_without_replacing_its_session_state() {
    let mut s = state();
    s.try_client_connected("living-room-1", "first-host", "Sonium", "linux", "aarch64", ADDR, 2, NOW)
        .expect("first session admitted");
    assert!(s
        .try_client_connected("living-room-1", "second-host", "Sonium", "linux", "aarch64", ADDR, 2, NOW)
        .is_err());
    assert_eq!(s.get_client("living-room-1").unwrap().hostname, "first-host");
}

#[test]
fn stale_disconnect_generation_cannot_mark_a_reconnected_client_offline() {
    let mut s = state();
    let first = s
        .try_client_connected("generation-client", "first-host", "Sonium", "linux", "aarch64", ADDR, 2, NOW)
        .expect("first session admitted")
        .session_generation;
    assert!(s.client_disconnected_generation("generation-client", first, NOW + 1));

    let second = s
        .try_client_connected("generation-client", "second-host", "Sonium", "linux", "aarch64", ADDR, 2, NOW + 2)
        .expect("reconnect admitted after the first session exits")
        .session_generation;

    assert_ne!(first, second);
    assert!(!s.client_disconnected_generation("generation-client", first, NOW + 3));
    assert!(s.get_client("generation-client").unwrap().is_connected());
}

#[test]
fn unsafe_persisted_client_ids_are_not_restored() {
    let s = ServerState::new(vec![saved("living room/speaker", NOW)]);
    assert!(
        s.get_client("living room/speaker").is_none(),
        "an unadmitted ID must not occupy persistent server state"
    );
}

#[test]
fn unsafe_connected_client_ids_are_not_added_or_persisted() {
    let mut s = state();
    s.client_connected("living room/speaker", "pi", "Sonium", "linux", "aarch64", ADDR, 2, NOW);
    assert!(s.all_clients().is_empty());
}

#[test]
fn client_connect_appears_in_list() {
    let mut s = state();
    connect(&mut s, "pi-1");
    let clients = s.all_clients();
    assert_eq!(clients.len(), 1);
    assert_eq!(clients[0].id, "pi-1");
    assert!(clients[0].is_connected());
}

#[test]
fn client_added_to_default_group() {
    let mut s = state();
    connect(&mut s, "pi-1");
    let grp = s.get_group("default").unwrap();
    assert!(grp.client_ids.contains(&"pi-1".to_string()));
}

#[test]
fn client_disconnect_changes_status() {
    let mut s = state();
    connect(&mut s, "pi-1");
    s.client_disconnected("pi-1", NOW + 1);
    assert!(!s.get_client("pi-1").unwrap().is_connected());
}

#[test]
fn set_volume_updates_client() {
    let mut s = state();
    connect(&mut s, "pi-1");
    s.set_volume("pi-1", 50, true);
    let c = s.get_client("pi-1").unwrap();
    assert_eq!(c.volume, 50);
    assert!(c.muted);
}

#[test]
fn set_volume_unknown_client_returns_none() {
    let mut s = state();
    assert!(s.set_volume("ghost", 50, false).is_none());
}

#[test]
fn create_and_delete_group() {
    let mut s = state();
    let id = s.create_group("Kitchen".into(), "default".into());
    assert!(s.get_group(&id).is_some());
    assert!(s.delete_group(&id));
    assert!(s.get_group(&id).is_none());
}

#[test]
fn cannot_delete_default_group() {
    let mut s = state();
    assert!(!s.delete_group("default"));
}

#[test]
fn move_client_between_groups() {
    let mut s = state();
    let gid = s.create_group("Bedroom".into(), "default".into());
    connect(&mut s, "pi-1");
    assert!(s.set_client_group("pi-1", &gid));
    assert_eq!(s.get_client("pi-1").unwrap().group_id, gid);
    // removed from default
    assert!(!in_default(&s, "pi-1"));
}

#[test]
fn set_group_stream_unknown_stream_fails() {
    let mut s = state();
    assert!(!s.set_group_stream("default", "nonexistent"));
}

#[test]
fn rename_group_works() {
    let mut s = state();
    assert!(s.rename_group("default", "Living Room".into()));
    assert_eq!(s.get_group("default").unwrap().name, "Living Room");
}

#[test]
fn rename_group_unknown_returns_false() {
    let mut s = state();
    assert!(!s.rename_group("ghost", "Anything".into()));
}

#[test]
fn delete_disconnected_client() {
    let mut s = state();
    connect(&mut s, "pi-1");
    s.client_disconnected("pi-1", NOW + 1);
    assert!(s.delete_client("pi-1"));
    assert!(s.get_client("pi-1").is_none());
    assert!(!in_default(&s, "pi-1"));
}

#[test]
fn cannot_delete_connected_client() {
    let mut s = state();
    connect(&mut s, "pi-1");
    assert!(!s.delete_client("pi-1"));
}

#[test]
fn set_client_name() {
    let mut s = state();
    connect(&mut s, "pi-1");
    assert!(s.set_client_name("pi-1", Some("Living Room Speaker".into())));
    assert_eq!(s.get_client("pi-1").unwrap().display_name.as_deref(), Some("Living Room Speaker"));
}

#[test]
fn client_restored_from_persisted_state() {
    let mut c = saved("pi-1", NOW);
    c.display_name = Some("Kitchen".into());
    c.volume = 60;
    c.muted = true;
    c.latency_ms = 50;
    let mut s = ServerState::new(vec![c]);
    s.client_connected("pi-1", "pi", "Sonium", "linux", "aarch64", ADDR, 2, NOW + 5);
    let c = s.get_client("pi-1").unwrap();
    assert_eq!(c.volume, 60);
    assert!(c.muted);
    assert_eq!(c.latency_ms, 50);
    assert_eq!(c.display_name.as_deref(), Some("Kitchen"));
}

#[test]
fn deleted_or_evicted_client_does_not_restore_the_startup_snapshot() {
    let stale = || {
        let mut c = saved("pi-1", NOW);
        c.display_name = Some("Stale Name".into());
        c.volume = 23;
        c.muted = true;
        c.latency_ms = 50;
        c.observability_enabled = true;
        c
    };

    let mut deleted = ServerState::new(vec![stale()]);
    assert!(deleted.delete_client("pi-1"));
    connect(&mut deleted, "pi-1");
    let client = deleted.get_client("pi-1").unwrap();
    assert_eq!(client.volume, 100);
    assert!(!client.muted);
    assert_eq!(client.display_name, None);

    let mut evicted = ServerState::new_with_known_client_limit(vec![stale()], 1);
    connect(&mut evicted, "replacement");
    evicted.client_disconnected("replacement", NOW + 10);
    connect(&mut evicted, "pi-1");
    let client = evicted.get_client("pi-1").unwrap();
    assert_eq!(client.volume, 100);
    assert!(!client.muted);
    assert_eq!(client.display_name, None);
}

#[test]
fn recovery_event_matches_rest_state_and_includes_retry_context() {
    let mut s = state();
    assert!(s.set_stream_recovering("default", 3, 200));
    let stream = s.all_streams().into_iter().find(|stream| stream.id == "default").unwrap();
    assert_eq!(stream.status, StreamStatus::Recovering);
    assert_eq!(stream.recovery, Some(StreamRecovery { attempt: 3, retry_in_ms: 200 }));
}

// ── Further cases ──────────────────────────────────────────────────────────

#[test]
fn startup_keeps_the_most_recently_seen_clients() {
    let s = ServerState::new_with_known_client_limit(
        vec![saved("a", 10), saved("b", 30), saved("bad id", 40), saved("c", 20), saved("d", 30)],
        3,
    );
    let ids: Vec<String> = s.all_clients().into_iter().map(|c| c.id).collect();
    // By descending last-seen time, ties in input order: b, d, c, a.
    assert_eq!(ids, vec!["b", "d", "c"]);
    assert!(s.all_clients().iter().all(|c| !c.is_connected()));
    assert_eq!(s.get_client("b").unwrap().connected_at_ms, 30);
}

#[test]
fn startup_with_a_repeated_id_keeps_the_older_entry_last() {
    let mut older = saved("pi", 10);
    older.volume = 11;
    let mut newer = saved("pi", 20);
    newer.volume = 22;
    let s = ServerState::new(vec![older, newer]);
    assert_eq!(s.all_clients().len(), 1);
    // Sorted newest first, so the older entry is applied last and wins.
    assert_eq!(s.get_client("pi").unwrap().volume, 11);
}

#[test]
fn full_registry_without_a_disconnected_client_refuses() {
    let mut s = state_with_known_client_limit(1);
    connect(&mut s, "only");
    match s.try_client_connected("other", "pi", "Sonium", "linux", "aarch64", ADDR, 2, NOW) {
        Err(sonium::error::SoniumError::Protocol(m)) => {
            assert_eq!(m, "maximum known clients reached with no disconnected client to evict")
        }
        other => panic!("unexpected {other:?}"),
    }
    assert_eq!(s.all_clients().len(), 1);
}

#[test]
fn eviction_returns_the_forgotten_client() {
    let mut s = state_with_known_client_limit(2);
    connect(&mut s, "x");
    connect(&mut s, "y");
    s.client_disconnected("y", NOW + 5);
    s.client_disconnected("x", NOW + 9);
    let a = s.try_client_connected("z", "pi", "Sonium", "linux", "aarch64", ADDR, 2, NOW + 10).unwrap();
    assert_eq!(a.evicted.unwrap().id, "y");
    assert!(s.get_client("x").is_some());
}

#[test]
fn generations_count_up_from_one() {
    let mut s = state();
    let a = s.try_client_connected("a", "pi", "Sonium", "linux", "aarch64", ADDR, 2, NOW).unwrap();
    let b = s.try_client_connected("b", "pi", "Sonium", "linux", "aarch64", ADDR, 2, NOW).unwrap();
    assert_eq!((a.session_generation, b.session_generation), (1, 2));
}

#[test]
fn deleting_a_group_moves_its_members_to_default() {
    let mut s = state();
    let gid = s.create_group("Garden".into(), "default".into());
    connect(&mut s, "pi-1");
    connect(&mut s, "pi-2");
    assert!(s.set_client_group("pi-1", &gid));
    assert!(s.delete_group(&gid));
    assert_eq!(s.get_client("pi-1").unwrap().group_id, "default");
    assert_eq!(s.get_group("default").unwrap().client_ids, vec!["pi-2".to_string(), "pi-1".to_string()]);
}

#[test]
fn reconnecting_client_is_listed_once() {
    let mut s = state();
    connect(&mut s, "pi-1");
    s.client_disconnected("pi-1", NOW + 1);
    connect(&mut s, "pi-1");
    assert_eq!(s.get_group("default").unwrap().client_ids, vec!["pi-1".to_string()]);
}

#[test]
fn group_median_offsets() {
    let mut s = state();
    connect(&mut s, "a");
    connect(&mut s, "b");
    connect(&mut s, "c");
    assert_eq!(s.group_median_clock_offset_us("default"), None);
    s.set_client_clock_offset("a", 5);
    assert_eq!(s.group_median_clock_offset_us("default"), None);
    s.set_client_clock_offset("b", -3);
    assert_eq!(s.group_median_clock_offset_us("default"), Some(1_000));
    s.set_client_clock_offset("c", 7);
    assert_eq!(s.group_median_clock_offset_us("default"), Some(5_000));
    s.set_client_clock_offset("c", -4);
    // -4, -3, 5 → median -3 ms
    assert_eq!(s.group_median_clock_offset_us("default"), Some(-3_000));
    s.client_disconnected("a", NOW + 1);
    // -4 and -3: mean -3.5 ms rounds toward zero to -3500 µs
    assert_eq!(s.group_median_clock_offset_us("default"), Some(-3_500));
    assert_eq!(s.group_median_clock_offset_us("ghost"), None);
}

#[test]
fn restore_groups_lists_remembered_members() {
    let mut c = saved("pi-9", NOW);
    c.group_id = "kitchen".into();
    let mut s = ServerState::new(vec![c, saved("pi-8", NOW - 1)]);
    s.restore_groups(vec![
        PersistedGroup { id: "kitchen".into(), name: "Kitchen".into(), stream_id: "default".into() },
        PersistedGroup { id: "default".into(), name: "Renamed".into(), stream_id: "x".into() },
    ]);
    assert_eq!(s.get_group("kitchen").unwrap().client_ids, vec!["pi-9".to_string()]);
    assert_eq!(s.get_group("default").unwrap().name, "Default");
    assert_eq!(s.get_group("default").unwrap().client_ids, vec!["pi-8".to_string()]);
}

#[test]
fn stream_registration_and_status() {
    let mut s = state();
    s.register_stream("radio", Some("Radio".into()), "opus", "48000:16:2", "pipe:///tmp/x", 800, true, 10, false, None, true);
    assert!(s.set_stream_status("radio", StreamStatus::Playing));
    s.register_stream("radio", None, "flac", "44100:16:2", "pipe:///tmp/y", 900, false, 20, true, Some(5), false);
    let radio = s.all_streams().into_iter().find(|x| x.id == "radio").unwrap();
    assert_eq!(radio.status, StreamStatus::Playing);
    assert_eq!(radio.codec, "flac");
    assert_eq!(radio.display_name, None);
    assert!(s.set_stream_recovering("radio", 1, 50));
    assert!(s.set_stream_status("radio", StreamStatus::Idle));
    let radio = s.all_streams().into_iter().find(|x| x.id == "radio").unwrap();
    assert_eq!(radio.recovery, None);
    assert!(s.set_group_stream("default", "radio"));
    connect(&mut s, "pi-1");
    assert_eq!(s.client_stream_id("pi-1").as_deref(), Some("radio"));
    s.unregister_stream("radio");
    assert_eq!(s.all_streams().len(), 1);
    assert!(!s.set_stream_status("radio", StreamStatus::Idle));
}

#[test]
fn observability_off_clears_health() {
    let mut s = state();
    connect(&mut s, "pi-1");
    assert!(s.set_client_observability("pi-1", true));
    assert!(s.set_client_health("pi-1", HealthReport::new(0, 0, 0, 100, 2, 0)));
    assert!(s.get_client("pi-1").unwrap().health.is_some());
    assert!(s.set_client_observability("pi-1", false));
    assert!(s.get_client("pi-1").unwrap().health.is_none());
    assert!(!s.set_latency("ghost", 3));
    assert!(s.set_latency("pi-1", 3));
    assert_eq!(s.get_volume("pi-1"), Some((100, false)));
}

#[test]
fn announcement_clients_are_the_group_sessions_including_offline_members() {
    let mut s = state();
    connect(&mut s, "online");
    connect(&mut s, "offline");
    connect(&mut s, "elsewhere");
    s.client_disconnected("offline", NOW + 1);
    let gid = s.create_group("Kitchen".into(), "default".into());
    assert!(s.set_client_group("elsewhere", &gid));
    let members = s.announcement_clients_in_group("default");
    let ids: Vec<&str> = members.iter().map(|c| c.client_id.as_str()).collect();
    assert_eq!(ids, vec!["online", "offline"]);
    let online = s.get_client("online").unwrap();
    assert_eq!(members[0].generation, online.session_generation);
    let kitchen = s.announcement_clients_in_group(&gid);
    assert_eq!(kitchen.len(), 1);
    assert_eq!(kitchen[0].client_id, "elsewhere");
    assert!(s.announcement_clients_in_group("no-such-group").is_empty());
}
