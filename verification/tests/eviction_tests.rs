use docker_check::container::HealthState;
use docker_check::stats::StatsStore;
use docker_check::webserver::HealthCheckServer;

fn seeded_store(id: &str) -> StatsStore {
    let mut store = StatsStore::new();
    store.observe(&id.to_string(), Some(HealthState::Healthy), 5, 3);
    store
}

#[test]
fn absence_timer_starts_on_the_first_missing_tick() {
    let id = "gone".to_string();
    let mut store = seeded_store(&id);
    assert_eq!(store.get(&id).unwrap().not_seen_since, None);
    store.sweep(&Vec::new(), 100, 30);
    assert_eq!(store.get(&id).unwrap().not_seen_since, Some(100));
    // still absent, still inside the purge window: timer unchanged
    store.sweep(&Vec::new(), 129, 30);
    assert_eq!(store.get(&id).unwrap().not_seen_since, Some(100));
}

#[test]
fn eviction_on_the_first_tick_at_the_purge_boundary() {
    let id = "gone".to_string();
    let mut store = seeded_store(&id);
    store.sweep(&Vec::new(), 100, 30);
    // exactly purge_unseen seconds of absence: evicted now, not later
    store.sweep(&Vec::new(), 130, 30);
    assert!(store.get(&id).is_none());
    assert_eq!(store.len(), 0);
}

#[test]
fn reappearance_clears_the_absence_timer() {
    let id = "flaky".to_string();
    let mut store = seeded_store(&id);
    store.sweep(&Vec::new(), 100, 30);
    assert_eq!(store.get(&id).unwrap().not_seen_since, Some(100));
    // seen again before the threshold: timer cleared, entry kept
    store.sweep(&vec![id.clone()], 129, 30);
    assert_eq!(store.get(&id).unwrap().not_seen_since, None);
    // a fresh absence counts from its own first missing tick
    store.sweep(&Vec::new(), 200, 30);
    assert_eq!(store.get(&id).unwrap().not_seen_since, Some(200));
    store.sweep(&Vec::new(), 229, 30);
    assert!(store.get(&id).is_some());
    store.sweep(&Vec::new(), 230, 30);
    assert!(store.get(&id).is_none());
}

#[test]
fn zero_purge_evicts_on_the_first_missing_tick() {
    let id = "short-lived".to_string();
    let mut store = seeded_store(&id);
    store.sweep(&Vec::new(), 7, 0);
    assert!(store.get(&id).is_none());
}

#[test]
fn sweep_keeps_counters_of_survivors() {
    let id = "kept".to_string();
    let mut store = StatsStore::new();
    store.observe(&id, Some(HealthState::Unhealthy), 5, 3);
    store.observe(&id, Some(HealthState::Unhealthy), 5, 3);
    store.observe(&id, Some(HealthState::Healthy), 5, 3);
    store.sweep(&vec![id.clone()], 10, 30);
    let s = store.get(&id).unwrap();
    assert_eq!(s.count, 1);
    assert_eq!(s.consecutive_failures, 2);
    assert_eq!(s.restarts, 0);
}

#[test]
fn snapshot_lists_entries_in_first_observation_order() {
    let mut store = StatsStore::new();
    store.observe(&"one".to_string(), Some(HealthState::Healthy), 5, 3);
    store.observe(&"two".to_string(), Some(HealthState::Unhealthy), 5, 3);
    store.observe(&"one".to_string(), Some(HealthState::Healthy), 5, 3);
    let snap = store.snapshot();
    assert_eq!(snap.len(), 2);
    assert_eq!(snap[0].0, "one");
    assert_eq!(snap[0].1.count, 2);
    assert_eq!(snap[1].0, "two");
    assert_eq!(snap[1].1.consecutive_failures, 1);
}

#[test]
fn status_endpoint_exposes_the_snapshot() {
    let mut store = StatsStore::new();
    store.observe(&"svc".to_string(), Some(HealthState::Healthy), 5, 3);
    let server = HealthCheckServer::new([127, 0, 0, 1], 8080, store);
    let (addr, port) = server.bind_to();
    assert_eq!(addr, [127, 0, 0, 1]);
    assert_eq!(port, 8080);
    let entries = server.entries();
    assert_eq!(entries.len(), 1);
    assert_eq!(entries[0].0, "svc");
    assert_eq!(entries[0].1.count, 1);
}
