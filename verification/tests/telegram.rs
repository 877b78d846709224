use std::time::Duration;
use wn_alerts::error::AppError;
use wn_alerts::monitor::incident::Incident;
use wn_alerts::notifiers::telegram::{
    api_error, format_message, format_notification, is_success_status, TelegramNotifier,
    MAX_ERROR_BODY_BYTES, MAX_MESSAGE_CHARS,
};
use wn_alerts::notifiers::NotificationKind;

fn make_incident(provider: &str, title: &str, desc: &str, link: &str, date: &str) -> Incident {
    Incident {
        provider: provider.into(),
        id: "test-1".into(),
        title: title.into(),
        description: desc.into(),
        link: link.into(),
        occurred_at: date.into(),
    }
}

#[test]
fn formats_basic_incident() {
    let incident = make_incident(
        "azure",
        "Azure DevOps - Investigating",
        "Some description",
        "https://example.com/incident/1",
        "Thu, 21 May 2026 18:00:00 GMT",
    );
    let msg = format_message(&incident);

    assert!(msg.contains("[AZURE]"));
    assert!(msg.contains("Azure DevOps - Investigating"));
    assert!(msg.contains("2026-05-21 18:00 UTC"));
    assert!(msg.contains("https://example.com/incident/1"));
}

#[test]
fn formats_whole_message_exactly() {
    let incident = make_incident(
        "azure",
        "Title",
        "Body",
        "https://example.com/1",
        "Thu, 21 May 2026 18:00:00 GMT",
    );
    assert_eq!(
        format_message(&incident),
        "<b>[AZURE] Incident</b>\n\n<b>Title</b>\n<i>2026-05-21 18:00 UTC</i>\n<a href=\"https://example.com/1\">View full details</a>\n\nBody"
    );
}

#[test]
fn labels_updates_distinctly() {
    let incident = make_incident("aws", "T", "d", "", "");
    let msg = format_notification(&incident, NotificationKind::Update);
    assert!(msg.starts_with("<b>[AWS] Update</b>"));
    let new = format_notification(&incident, NotificationKind::New);
    assert!(new.starts_with("<b>[AWS] Incident</b>"));
    assert_eq!(new, format_message(&incident));
}

#[test]
fn strips_html_tags_from_description() {
    let incident = make_incident("azure", "Test", "<b>bold</b> &amp; <i>italic</i>", "https://x.com", "");
    let msg = format_message(&incident);

    assert!(msg.contains("bold &amp; italic"));
    assert!(!msg.contains("<b>bold</b>"));
    assert!(!msg.contains("<i>italic</i>"));
}

#[test]
fn strips_twilio_style_html() {
    let desc = "<p><strong>SCHEDULED EVENT</strong></p> \
                <p><small>May 28</small><br> \
                <strong>Scheduled</strong> - Maintenance window.</p>";
    let incident = make_incident("twilio", "Maintenance", desc, "https://x.com", "");
    let msg = format_message(&incident);

    assert!(msg.contains("SCHEDULED EVENT"));
    assert!(msg.contains("Maintenance window."));
    assert!(!msg.contains("<p>"));
    assert!(!msg.contains("<strong>"));
    assert!(!msg.contains("<var"));
}

#[test]
fn escapes_special_chars_in_link() {
    let incident = make_incident("azure", "T", "", "https://x.com?a=1&b=<2>", "");
    let msg = format_message(&incident);
    assert!(msg.contains("https://x.com?a=1&amp;b=&lt;2&gt;"));
}

#[test]
fn shows_provider_label() {
    let aws = make_incident("aws", "AWS Issue", "desc", "", "");
    assert!(format_message(&aws).contains("[AWS]"));

    let twilio = make_incident("twilio", "Twilio Issue", "desc", "", "");
    assert!(format_message(&twilio).contains("[TWILIO]"));
}

#[test]
fn unparsable_date_is_shown_as_given() {
    let incident = make_incident("aws", "T", "", "", "yesterday");
    assert!(format_message(&incident).contains("<i>yesterday</i>"));
}

#[test]
fn caps_oversized_message_under_telegram_limit() {
    let incident = make_incident(
        "github",
        "Test Incident",
        &"A".repeat(10_000),
        "https://example.com",
        "Thu, 21 May 2026 12:00:00 GMT",
    );
    let text = format_message(&incident);
    assert!(text.chars().count() <= 4096, "sent text is {} chars", text.chars().count());
    assert_eq!(text.chars().count(), MAX_MESSAGE_CHARS);
    assert!(text.contains("(truncated)"));
    assert!(text.ends_with("\n\n(truncated)"));
    assert!(text.starts_with("<b>[GITHUB] Incident</b>"));
}

#[test]
fn truncation_does_not_split_an_entity() {
    let head_len = format_message(&make_incident("x", "", "", "", "")).chars().count();
    let room = MAX_MESSAGE_CHARS - head_len - "\n\n(truncated)".chars().count();
    // The body is escaped text: put an `&amp;` across the cut point.
    let mut desc = "a".repeat(room - 2);
    desc.push('&');
    desc.push_str(&"b".repeat(5000));
    let text = format_message(&make_incident("x", "", &desc, "", ""));
    assert!(text.chars().count() <= MAX_MESSAGE_CHARS);
    assert!(text.ends_with(&format!("{}\n\n(truncated)", "a".repeat(10))));
    assert!(!text.contains("&am\n"));
}

#[test]
fn message_that_fits_is_not_cut() {
    let desc = "B".repeat(3000);
    let text = format_message(&make_incident("aws", "T", &desc, "", ""));
    assert!(text.ends_with(&desc));
    assert!(!text.contains("(truncated)"));
}

#[test]
fn default_rate_limit_delay() {
    let notifier = TelegramNotifier::new("token".into(), "chat".into());
    assert_eq!(notifier.rate_limit_delay(), Duration::from_millis(1000));
}

#[test]
fn custom_rate_limit_delay() {
    let notifier = TelegramNotifier::new("token".into(), "chat".into())
        .with_rate_limit_delay(Duration::from_millis(500));
    assert_eq!(notifier.rate_limit_delay(), Duration::from_millis(500));
}

#[test]
fn debug_redacts_sensitive_fields() {
    let notifier = TelegramNotifier::new("secret-bot-token".into(), "secret-chat-id".into());
    let debug_output = notifier.debug_text();

    assert!(!debug_output.contains("secret-bot-token"));
    assert!(!debug_output.contains("secret-chat-id"));
    assert!(debug_output.contains("[REDACTED]"));
}

#[test]
fn debug_shows_non_sensitive_fields() {
    let notifier =
        TelegramNotifier::new("token".into(), "chat".into()).with_api_url("https://custom.api.com");
    let debug_output = notifier.debug_text();

    assert!(debug_output.contains("TelegramNotifier"));
    assert!(debug_output.contains("https://custom.api.com"));
    assert_eq!(
        debug_output,
        "TelegramNotifier { api_base_url: \"https://custom.api.com\", bot_token: \"[REDACTED]\", chat_id: \"[REDACTED]\", rate_limit_delay: 1s }"
    );
}

#[test]
fn build_url_contains_token() {
    let token = "123456:ABC-secret";
    let notifier = TelegramNotifier::new(token.into(), "chat".into());
    let url = notifier.send_url();
    assert!(url.contains("/bot123456:ABC-secret/sendMessage"));
    assert!(!url.contains("Authorization"));
    assert_eq!(url, "https://api.telegram.org/bot123456:ABC-secret/sendMessage");
}

#[test]
fn send_url_uses_custom_base() {
    let notifier =
        TelegramNotifier::new("123:test-token".into(), "456".into()).with_api_url("http://127.0.0.1:9");
    assert_eq!(notifier.send_url(), "http://127.0.0.1:9/bot123:test-token/sendMessage");
    assert_eq!(notifier.name(), "telegram");
    assert_eq!(notifier.chat_id(), "456");
}

#[test]
fn send_params_carry_chat_text_and_mode() {
    let notifier = TelegramNotifier::new("t".into(), "456".into());
    let incident = make_incident("azure", "T", "d", "", "");
    let params = notifier.send_params(&incident, NotificationKind::New);
    assert_eq!(params.len(), 4);
    assert_eq!(params[0], ("chat_id", "456".to_string()));
    assert_eq!(params[1], ("text", format_message(&incident)));
    assert_eq!(params[2], ("parse_mode", "HTML".to_string()));
    assert_eq!(params[3], ("disable_web_page_preview", "true".to_string()));
}

#[test]
fn success_statuses() {
    assert!(is_success_status(200));
    assert!(is_success_status(299));
    assert!(!is_success_status(199));
    assert!(!is_success_status(300));
    assert!(!is_success_status(401));
    assert!(!is_success_status(429));
}

#[test]
fn handles_api_error() {
    match api_error(401, r#"{"ok":false,"description":"Unauthorized"}"#) {
        AppError::TelegramApi { status, body } => {
            assert_eq!(status, 401);
            assert_eq!(body, r#"{"ok":false,"description":"Unauthorized"}"#);
        }
        other => panic!("expected TelegramApi error, got {:?}", other),
    }
}

#[test]
fn truncates_large_error_body() {
    let large_error = "x".repeat(8 * 1024);
    match api_error(429, &large_error) {
        AppError::TelegramApi { status, body } => {
            assert_eq!(status, 429);
            assert!(body.len() <= 4 * 1024, "error body should be capped at 4 KB, got {} bytes", body.len());
            assert_eq!(body.len(), MAX_ERROR_BODY_BYTES);
        }
        other => panic!("expected TelegramApi error, got {:?}", other),
    }
}

#[test]
fn error_body_cut_never_splits_a_character() {
    // 'é' is two bytes in UTF-8: 4095 bytes of 'x' leave room for no 'é'.
    let body = format!("{}{}", "x".repeat(4095), "é".repeat(10));
    match api_error(500, &body) {
        AppError::TelegramApi { body, .. } => {
            assert_eq!(body.len(), 4095);
            assert!(body.chars().all(|c| c == 'x'));
        }
        other => panic!("expected TelegramApi error, got {:?}", other),
    }
}

#[test]
fn debug_text_does_not_depend_on_secrets() {
    let a = TelegramNotifier::new("token-one".into(), "chat-one".into());
    let b = TelegramNotifier::new("token-two".into(), "chat-two".into());
    assert_eq!(a.debug_text(), b.debug_text());
    assert_eq!(
        a.debug_text(),
        "TelegramNotifier { api_base_url: \"https://api.telegram.org\", bot_token: \"[REDACTED]\", chat_id: \"[REDACTED]\", rate_limit_delay: 1s }"
    );
}
