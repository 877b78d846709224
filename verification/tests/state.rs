use wn_alerts::monitor::state::{AppState, BoundedSeenSet, MAX_SEEN_IDS_PER_PROVIDER};

#[test]
fn bounded_set_contains_inserted_ids() {
    let mut set = BoundedSeenSet::default();
    set.insert("a".into(), "fp-a".into());
    set.insert("b".into(), "fp-b".into());
    assert!(set.contains("a"));
    assert!(set.contains("b"));
    assert!(!set.contains("c"));
    assert_eq!(set.fingerprint("a"), Some("fp-a"));
    assert_eq!(set.fingerprint("c"), None);
}

#[test]
fn bounded_set_ignores_duplicate_ids() {
    let mut set = BoundedSeenSet::default();
    set.insert("id-1".into(), "fp".into());
    set.insert("id-1".into(), "fp".into());
    set.insert("id-1".into(), "fp".into());
    assert_eq!(set.len(), 1);
}

#[test]
fn bounded_set_updates_fingerprint_in_place() {
    let mut set = BoundedSeenSet::default();
    set.insert("id-1".into(), "old".into());
    set.insert("id-1".into(), "new".into());
    assert_eq!(set.len(), 1, "re-inserting an id must not grow the set");
    assert_eq!(set.fingerprint("id-1"), Some("new"), "fingerprint should be updated");
}

#[test]
fn bounded_set_caps_at_max_size() {
    let mut set = BoundedSeenSet::default();
    for i in 0..MAX_SEEN_IDS_PER_PROVIDER + 50 {
        set.insert(format!("id-{}", i), "fp".into());
    }
    assert_eq!(set.len(), MAX_SEEN_IDS_PER_PROVIDER);
}

#[test]
fn bounded_set_evicts_oldest_on_overflow() {
    let mut set = BoundedSeenSet::default();
    for i in 0..=MAX_SEEN_IDS_PER_PROVIDER {
        set.insert(format!("id-{:010}", i), "fp".into());
    }
    assert!(!set.contains("id-0000000000"), "oldest entry should be evicted");
    assert!(
        set.contains(&format!("id-{:010}", MAX_SEEN_IDS_PER_PROVIDER)),
        "newest entry should be present"
    );
    assert_eq!(set.len(), MAX_SEEN_IDS_PER_PROVIDER);
}

#[test]
fn bounded_set_updating_fingerprint_does_not_reset_eviction_order() {
    let mut set = BoundedSeenSet::default();
    for i in 0..MAX_SEEN_IDS_PER_PROVIDER {
        set.insert(format!("id-{:010}", i), "fp".into());
    }
    set.insert("id-0000000000".into(), "refreshed".into());
    set.insert("id-new".into(), "fp".into());
    assert!(
        !set.contains("id-0000000000"),
        "refreshing fingerprint must not save an entry from FIFO eviction"
    );
    assert!(set.contains("id-new"));
}

#[test]
fn bounded_set_starts_empty() {
    let set = BoundedSeenSet::new();
    assert!(set.is_empty());
    assert_eq!(set.len(), 0);
}

#[test]
fn default_state_is_empty() {
    let state = AppState::default();
    assert!(state.providers.is_empty());
}

#[test]
fn tracks_seen_incidents_per_provider() {
    let mut state = AppState::default();
    assert!(!state.has_seen("azure", "abc"));

    state.mark_seen("azure", "abc".into(), "fp-1".into());
    assert!(state.has_seen("azure", "abc"));
    assert_eq!(state.seen_fingerprint("azure", "abc"), Some("fp-1"));
    assert!(!state.has_seen("azure", "def"));
    assert!(!state.has_seen("aws", "abc"));
}

#[test]
fn mark_seen_updates_fingerprint_for_existing_incident() {
    let mut state = AppState::default();
    state.mark_seen("cloudflare", "inc-1".into(), "investigating".into());
    state.mark_seen("cloudflare", "inc-1".into(), "identified".into());
    assert_eq!(state.seen_fingerprint("cloudflare", "inc-1"), Some("identified"));
}

#[test]
fn tracks_poll_times_per_provider() {
    let mut state = AppState::default();
    state.set_poll_time("azure", "2026-05-21T20:00:00Z".into());
    state.set_poll_time("aws", "2026-05-21T20:01:00Z".into());

    let azure = state.providers.get("azure").unwrap();
    assert_eq!(azure.last_poll.as_deref(), Some("2026-05-21T20:00:00Z"));

    let aws = state.providers.get("aws").unwrap();
    assert_eq!(aws.last_poll.as_deref(), Some("2026-05-21T20:01:00Z"));
}

#[test]
fn record_failure_increments_counter() {
    let mut state = AppState::default();
    state.record_failure("azure");
    state.record_failure("azure");
    assert_eq!(state.consecutive_failures("azure"), 2);
    assert_eq!(state.consecutive_failures("aws"), 0);
}

#[test]
fn record_success_resets_failure_counter_and_backoff() {
    let mut state = AppState::default();
    state.record_failure("azure");
    state.record_failure("azure");
    state.set_backoff("azure", 8);
    state.record_success("azure");
    assert_eq!(state.consecutive_failures("azure"), 0);
    assert_eq!(state.backoff_cycles_remaining("azure"), 0);
}

#[test]
fn set_and_decrement_backoff() {
    let mut state = AppState::default();
    state.set_backoff("azure", 3);
    assert_eq!(state.backoff_cycles_remaining("azure"), 3);
    state.decrement_backoff("azure");
    assert_eq!(state.backoff_cycles_remaining("azure"), 2);
    state.decrement_backoff("azure");
    state.decrement_backoff("azure");
    assert_eq!(state.backoff_cycles_remaining("azure"), 0);
    state.decrement_backoff("azure");
    assert_eq!(state.backoff_cycles_remaining("azure"), 0);
}

#[test]
fn decrement_backoff_ignores_unknown_provider() {
    let mut state = AppState::default();
    state.decrement_backoff("azure");
    assert!(state.providers.get("azure").is_none());
    assert_eq!(state.providers.len(), 0);
}

#[test]
fn operations_on_one_provider_leave_others_alone() {
    let mut state = AppState::default();
    state.mark_seen("aws", "x".into(), "fp".into());
    state.record_failure("azure");
    state.set_backoff("azure", 5);
    assert_eq!(state.consecutive_failures("aws"), 0);
    assert_eq!(state.backoff_cycles_remaining("aws"), 0);
    assert!(!state.has_seen("azure", "x"));
    assert_eq!(state.providers.len(), 2);
}

#[test]
fn bounded_set_pairs_come_oldest_first() {
    let mut set = BoundedSeenSet::new();
    set.insert("alpha".into(), "fp-alpha".into());
    set.insert("beta".into(), "fp-beta".into());
    set.insert("alpha".into(), "fp-alpha-2".into());
    assert_eq!(
        set.pairs(),
        vec![("alpha".to_string(), "fp-alpha-2".to_string()), ("beta".to_string(), "fp-beta".to_string())]
    );
}

#[test]
fn bounded_set_rebuilds_from_its_pairs() {
    let mut set = BoundedSeenSet::new();
    set.insert("alpha".into(), "fp-alpha".into());
    set.insert("beta".into(), "fp-beta".into());
    set.insert("gamma".into(), "fp-gamma".into());

    let restored = BoundedSeenSet::from_pairs(&set.pairs());

    assert_eq!(restored.fingerprint("alpha"), Some("fp-alpha"));
    assert_eq!(restored.fingerprint("beta"), Some("fp-beta"));
    assert_eq!(restored.fingerprint("gamma"), Some("fp-gamma"));
    assert_eq!(restored.len(), 3);
    assert_eq!(restored.pairs(), set.pairs());
}

#[test]
fn bounded_set_deserializes_legacy_array_form() {
    let set = BoundedSeenSet::from_ids(&vec!["legacy-1".to_string(), "legacy-2".to_string()]);
    assert!(set.contains("legacy-1"));
    assert!(set.contains("legacy-2"));
    assert_eq!(set.fingerprint("legacy-1"), Some(""));
}

#[test]
fn bounded_set_prunes_on_deserialize_if_over_limit() {
    let ids: Vec<String> = (0..=MAX_SEEN_IDS_PER_PROVIDER).map(|i| format!("id-{}", i)).collect();
    let set = BoundedSeenSet::from_ids(&ids);
    assert_eq!(set.len(), MAX_SEEN_IDS_PER_PROVIDER);
    assert!(!set.contains("id-0"));
    assert!(set.contains(&format!("id-{}", MAX_SEEN_IDS_PER_PROVIDER)));
}

#[test]
fn provider_states_list_and_replace() {
    let mut state = AppState::new();
    state.mark_seen("azure", "a".into(), "fp".into());
    state.set_poll_time("aws", "t".into());
    let mut names = state.providers.names();
    names.sort();
    assert_eq!(names, vec!["aws", "azure"]);
    let mut fresh = wn_alerts::monitor::state::ProviderState::new();
    fresh.consecutive_failures = 7;
    state.providers.set("azure", fresh);
    assert_eq!(state.consecutive_failures("azure"), 7);
    assert!(!state.has_seen("azure", "a"));
    assert_eq!(state.providers.len(), 2);
}
