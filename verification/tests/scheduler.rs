use wn_alerts::error::AppError;
use wn_alerts::monitor::incident::Incident;
use wn_alerts::monitor::order::{order_by_name, text_at_most};
use wn_alerts::monitor::scheduler::{
    any_delivered, backoff_cycles, build_components, classify_all, classify_incident, plan_cycle,
    record_outcome, record_poll_failure, record_poll_outcomes, record_poll_success, IncidentAction,
};
use wn_alerts::monitor::state::AppState;
use wn_alerts::notifiers::{NotificationKind, NotifierSetting};
use wn_alerts::providers::ProviderSetting;

fn providers(names: &[&str]) -> Vec<ProviderSetting> {
    names.iter().map(|n| ProviderSetting { name: n.to_string(), url: None }).collect()
}

fn telegram(token: Option<&str>, chat: Option<&str>) -> NotifierSetting {
    NotifierSetting {
        name: "telegram".into(),
        bot_token: token.map(|t| t.to_string()),
        chat_id: chat.map(|c| c.to_string()),
    }
}

fn assert_err_kind<T>(result: Result<T, AppError>, expected: &str, f: impl Fn(&AppError) -> bool) {
    match result {
        Err(ref e) if f(e) => {}
        Err(e) => panic!("expected {}, got {:?}", expected, e),
        Ok(_) => panic!("expected Err({}), got Ok", expected),
    }
}

#[test]
fn rejects_empty_providers() {
    assert_err_kind(build_components(&providers(&[]), &vec![]), "NoProvidersEnabled", |e| {
        matches!(e, AppError::NoProvidersEnabled)
    });
}

#[test]
fn rejects_empty_notifiers() {
    assert_err_kind(build_components(&providers(&["azure"]), &vec![]), "NoNotifiersEnabled", |e| {
        matches!(e, AppError::NoNotifiersEnabled)
    });
}

#[test]
fn rejects_unknown_provider() {
    assert_err_kind(build_components(&providers(&["does-not-exist"]), &vec![]), "UnknownProvider", |e| {
        matches!(e, AppError::UnknownProvider(_))
    });
}

#[test]
fn rejects_unknown_notifier() {
    let notifiers = vec![NotifierSetting { name: "does-not-exist".into(), bot_token: None, chat_id: None }];
    assert_err_kind(build_components(&providers(&["azure"]), &notifiers), "UnknownNotifier", |e| {
        matches!(e, AppError::UnknownNotifier(_))
    });
}

#[test]
fn telegram_needs_token_then_chat_id() {
    assert_err_kind(
        build_components(&providers(&["azure"]), &vec![telegram(None, None)]),
        "MissingConfig",
        |e| matches!(e, AppError::MissingConfig("NOTIFIER_TELEGRAM_BOT_TOKEN")),
    );
    assert_err_kind(
        build_components(&providers(&["azure"]), &vec![telegram(Some("t"), None)]),
        "MissingConfig",
        |e| matches!(e, AppError::MissingConfig("NOTIFIER_TELEGRAM_CHAT_ID")),
    );
}

#[test]
fn builds_components_when_all_settings_are_valid() {
    let (p, n) = build_components(&providers(&["azure", "aws"]), &vec![telegram(Some("t"), Some("c"))]).unwrap();
    assert_eq!(p.len(), 2);
    assert_eq!(p[0].name(), "azure");
    assert_eq!(p[1].name(), "aws");
    assert_eq!(n.len(), 1);
    assert_eq!(n[0].send_url(), "https://api.telegram.org/bott/sendMessage");
    assert_eq!(n[0].chat_id(), "c");
}

fn incident(id: &str, title: &str) -> Incident {
    Incident {
        provider: "azure".into(),
        id: id.into(),
        title: title.into(),
        description: "desc".into(),
        link: "https://example.com".into(),
        occurred_at: "Thu, 21 May 2026 18:00:00 GMT".into(),
    }
}

#[test]
fn incident_marked_seen_when_notification_succeeds() {
    let mut state = AppState::new();
    let inc = incident("guid-1", "Outage");
    let action = classify_incident(&state, "azure", &inc);
    assert_eq!(action, IncidentAction::Notify(NotificationKind::New));
    record_outcome(&mut state, "azure", &inc, action, true);
    assert!(state.has_seen("azure", "guid-1"));
    assert_eq!(state.seen_fingerprint("azure", "guid-1"), Some(inc.fingerprint().as_str()));
    assert_eq!(classify_incident(&state, "azure", &inc), IncidentAction::Skip);
}

#[test]
fn incident_not_marked_seen_when_all_notifications_fail() {
    let mut state = AppState::new();
    let inc = incident("guid-1", "Outage");
    let action = classify_incident(&state, "azure", &inc);
    record_outcome(&mut state, "azure", &inc, action, false);
    assert!(!state.has_seen("azure", "guid-1"));
    assert_eq!(classify_incident(&state, "azure", &inc), IncidentAction::Notify(NotificationKind::New));
}

#[test]
fn changed_content_is_alerted_as_update() {
    let mut state = AppState::new();
    let first = incident("guid-1", "Investigating");
    record_outcome(&mut state, "azure", &first, IncidentAction::Notify(NotificationKind::New), true);
    let later = incident("guid-1", "Identified");
    assert_eq!(classify_incident(&state, "azure", &later), IncidentAction::Notify(NotificationKind::Update));
}

#[test]
fn legacy_entry_is_resynced_silently() {
    let mut state = AppState::new();
    state.mark_seen("azure", "guid-1".into(), String::new());
    let inc = incident("guid-1", "Outage");
    assert_eq!(classify_incident(&state, "azure", &inc), IncidentAction::Resync);
    record_outcome(&mut state, "azure", &inc, IncidentAction::Resync, false);
    assert_eq!(state.seen_fingerprint("azure", "guid-1"), Some(inc.fingerprint().as_str()));
    assert_eq!(classify_incident(&state, "azure", &inc), IncidentAction::Skip);
}

#[test]
fn skipped_incident_leaves_state_alone() {
    let mut state = AppState::new();
    let inc = incident("guid-1", "Outage");
    record_outcome(&mut state, "azure", &inc, IncidentAction::Skip, true);
    assert!(!state.has_seen("azure", "guid-1"));
}

#[test]
fn notify_all_returns_true_when_notifier_succeeds() {
    assert!(any_delivered(&vec![true]));
}

#[test]
fn notify_all_returns_false_when_all_notifiers_fail() {
    assert!(!any_delivered(&vec![false, false]));
    assert!(!any_delivered(&vec![]));
}

#[test]
fn notify_all_returns_true_when_at_least_one_notifier_succeeds() {
    assert!(any_delivered(&vec![false, true, false]));
}

#[test]
fn provider_enters_backoff_after_threshold_failures() {
    let mut state = AppState::new();
    let mut last = None;
    for i in 0..3 {
        last = record_poll_failure(&mut state, "azure", format!("t{}", i), Some(3), 32);
    }
    assert_eq!(state.backoff_cycles_remaining("azure"), 8, "expected 8 backoff cycles (2^3) after 3 failures");
    assert_eq!(last, Some(8));
    assert_eq!(state.consecutive_failures("azure"), 3);
}

#[test]
fn no_backoff_below_threshold() {
    let mut state = AppState::new();
    assert_eq!(record_poll_failure(&mut state, "azure", "t".into(), Some(3), 32), None);
    assert_eq!(record_poll_failure(&mut state, "azure", "t".into(), Some(3), 32), None);
    assert_eq!(state.backoff_cycles_remaining("azure"), 0);
    assert_eq!(state.consecutive_failures("azure"), 2);
}

#[test]
fn backoff_cycles_decrement_and_provider_skipped() {
    let mut state = AppState::new();
    state.set_backoff("azure", 3);
    let polls = plan_cycle(&mut state, &vec!["azure".to_string(), "aws".to_string()]);
    assert_eq!(polls, vec![false, true]);
    assert_eq!(state.backoff_cycles_remaining("azure"), 2, "backoff should decrement by 1 each skipped cycle");
}

#[test]
fn provider_polled_again_once_backoff_runs_out() {
    let mut state = AppState::new();
    state.set_backoff("azure", 2);
    let names = vec!["azure".to_string()];
    assert_eq!(plan_cycle(&mut state, &names), vec![false]);
    assert_eq!(plan_cycle(&mut state, &names), vec![false]);
    assert_eq!(plan_cycle(&mut state, &names), vec![true]);
    assert_eq!(state.backoff_cycles_remaining("azure"), 0);
}

#[test]
fn successful_poll_resets_backoff_state() {
    let mut state = AppState::new();
    state.record_failure("azure");
    state.record_failure("azure");
    state.set_backoff("azure", 4);
    state.set_backoff("azure", 0);
    record_poll_success(&mut state, "azure", "2026-05-21T20:00:00Z".into(), true);
    assert_eq!(state.consecutive_failures("azure"), 0, "success should reset failure counter");
    assert_eq!(state.backoff_cycles_remaining("azure"), 0, "success should clear backoff");
}

#[test]
fn process_provider_result_sets_poll_time_on_error() {
    let mut state = AppState::new();
    record_poll_failure(&mut state, "azure", "2026-05-21T20:00:00Z".into(), None, 32);
    let ps = state.providers.get("azure").unwrap();
    assert_eq!(ps.last_poll.as_deref(), Some("2026-05-21T20:00:00Z"));
}

#[test]
fn backoff_capped_at_max_cycles() {
    let mut state = AppState::new();
    for _ in 0..5 {
        record_poll_failure(&mut state, "azure", "t".into(), Some(1), 4);
    }
    assert!(state.backoff_cycles_remaining("azure") <= 4, "backoff must not exceed backoff_max_cycles=4");
    assert_eq!(state.backoff_cycles_remaining("azure"), 4);
}

#[test]
fn no_backoff_when_threshold_not_configured() {
    let mut state = AppState::new();
    for _ in 0..10 {
        assert_eq!(record_poll_failure(&mut state, "azure", "t".into(), None, 32), None);
    }
    assert_eq!(state.backoff_cycles_remaining("azure"), 0, "backoff must not activate when failure_threshold is not configured");
    assert_eq!(state.consecutive_failures("azure"), 0);
}

#[test]
fn success_without_backoff_keeps_counters() {
    let mut state = AppState::new();
    state.record_failure("azure");
    record_poll_success(&mut state, "azure", "t".into(), false);
    assert_eq!(state.consecutive_failures("azure"), 1);
}

#[test]
fn backoff_table_from_the_readme() {
    assert_eq!(backoff_cycles(3, 32), 8);
    assert_eq!(backoff_cycles(4, 16 * 2), 16);
    assert_eq!(backoff_cycles(5, 32), 32);
    assert_eq!(backoff_cycles(6, 32), 32);
    assert_eq!(backoff_cycles(0, 32), 1);
    assert_eq!(backoff_cycles(40, 1000), 1000);
    assert_eq!(backoff_cycles(31, u32::MAX), 1u32 << 31);
    assert_eq!(backoff_cycles(32, u32::MAX), u32::MAX);
}

#[test]
fn fetch_all_providers_concurrently_returns_deterministic_order() {
    let names = vec!["twilio", "azure", "cloudflare", "aws"];
    let order = order_by_name(&names);
    let sorted: Vec<&str> = order.iter().map(|&i| names[i]).collect();
    assert_eq!(sorted, vec!["aws", "azure", "cloudflare", "twilio"]);
}

#[test]
fn equal_names_keep_their_order() {
    let names = vec!["b", "a", "b", "a", ""];
    assert_eq!(order_by_name(&names), vec![4, 1, 3, 0, 2]);
    assert_eq!(order_by_name(&vec![]), Vec::<usize>::new());
}

#[test]
fn text_order_is_lexicographic() {
    assert!(text_at_most("aws", "azure"));
    assert!(!text_at_most("azure", "aws"));
    assert!(text_at_most("az", "azure"));
    assert!(!text_at_most("azure", "az"));
    assert!(text_at_most("same", "same"));
    assert!(text_at_most("Z", "a"));
}

#[test]
fn poll_outcomes_record_only_delivered_alerts() {
    let mut state = AppState::new();
    state.record_failure("azure");
    let incidents = vec![incident("a", "A"), incident("b", "B")];
    let actions = classify_all(&state, "azure", &incidents);
    assert_eq!(actions, vec![IncidentAction::Notify(NotificationKind::New); 2]);
    record_poll_outcomes(&mut state, "azure", &incidents, &actions, &vec![true, false], "now".into(), true);
    assert!(state.has_seen("azure", "a"));
    assert!(!state.has_seen("azure", "b"));
    assert_eq!(state.consecutive_failures("azure"), 0);
    assert_eq!(state.providers.get("azure").unwrap().last_poll.as_deref(), Some("now"));
    let again = classify_all(&state, "azure", &incidents);
    assert_eq!(again, vec![IncidentAction::Skip, IncidentAction::Notify(NotificationKind::New)]);
}

#[test]
fn a_fetch_is_classified_as_a_batch() {
    let state = AppState::new();
    let incidents = vec![incident("dup", "Same"), incident("dup", "Same")];
    let actions = classify_all(&state, "azure", &incidents);
    assert_eq!(actions, vec![IncidentAction::Notify(NotificationKind::New); 2]);
}
